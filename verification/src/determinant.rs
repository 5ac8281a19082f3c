//! The structure-tensor determinant across one frame, at the finest pyramid
//! level.
use vstd::prelude::*;

use crate::arithmetic::Arithmetic;
#[allow(unused_imports)]
use crate::arithmetic::Semantics;
#[allow(unused_imports)]
use crate::image::ImageModel;
use crate::image::{FarnebackParams, GrayImage};
use crate::sampling::{sample_stride, step_count};
use crate::smooth::smooth_separable;
use crate::stages::FlowStages;
#[allow(unused_imports)]
use crate::stages::StageSemantics;

verus! {

/// Gray level at or above which a pixel counts as covered.
///
/// Fully transparent pixels are exactly black and any other has a floor above
/// it, so this separates the transparent background, which would otherwise
/// dominate the distribution with zeros, from actual content.
pub const COVERED_MIN: u32 = 2;

/// The entries of the structure tensor at each pixel, row by row.
pub struct StructureTensor<T> {
    pub xx: Vec<T>,
    pub xy: Vec<T>,
    pub yy: Vec<T>,
}

/// What a [`StructureTensor`] holds.
pub struct TensorModel<T> {
    pub xx: Seq<T>,
    pub xy: Seq<T>,
    pub yy: Seq<T>,
}

impl<T> View for StructureTensor<T> {
    type V = TensorModel<T>;

    open spec fn view(&self) -> TensorModel<T> {
        TensorModel { xx: self.xx@, xy: self.xy@, yy: self.yy@ }
    }
}

/// One half.
pub open spec fn half<A: Arithmetic>(m: Semantics<A>) -> A::Narrow {
    (m.quotient)((m.from_int)(1), (m.from_int)(2))
}

/// The xx entry of the structure tensor of a pixel with expansion `p`.
pub open spec fn product_xx<A: Arithmetic>(m: Semantics<A>, p: Seq<A::Narrow>) -> A::Narrow {
    let b = (m.product)(p[1], half(m));
    (m.mul_add)(p[0], p[0], (m.product)(b, b))
}

/// The xy entry.
pub open spec fn product_xy<A: Arithmetic>(m: Semantics<A>, p: Seq<A::Narrow>) -> A::Narrow {
    let b = (m.product)(p[1], half(m));
    (m.mul_add)(b, p[0], (m.product)(b, p[2]))
}

/// The yy entry.
pub open spec fn product_yy<A: Arithmetic>(m: Semantics<A>, p: Seq<A::Narrow>) -> A::Narrow {
    let b = (m.product)(p[1], half(m));
    (m.mul_add)(b, b, (m.product)(p[2], p[2]))
}

/// The structure tensor of the first `n` pixels of an expansion.
pub open spec fn structure_of<A: Arithmetic>(
    m: Semantics<A>,
    expansion: Seq<Seq<A::Narrow>>,
    n: nat,
) -> TensorModel<A::Narrow> {
    TensorModel {
        xx: Seq::new(n, |i: int| product_xx(m, expansion[i])),
        xy: Seq::new(n, |i: int| product_xy(m, expansion[i])),
        yy: Seq::new(n, |i: int| product_yy(m, expansion[i])),
    }
}

/// The determinant at pixel `i` of a window-averaged structure tensor, whose sums
/// are brought to averages by `scale`.
pub open spec fn determinant_at<A: Arithmetic>(
    m: Semantics<A>,
    averaged: TensorModel<A::Narrow>,
    scale: A::Narrow,
    i: int,
) -> A::Narrow {
    let a = (m.product)(averaged.xx[i], scale);
    let b = (m.product)(averaged.xy[i], scale);
    let c = (m.product)(averaged.yy[i], scale);
    (m.mul_add)(a, c, (m.negated)((m.product)(b, b)))
}

/// Whether a gray level counts as covered.
pub open spec fn is_covered<A: Arithmetic>(m: Semantics<A>, gray: A::Narrow) -> bool {
    !(m.less)(gray, (m.from_int)(COVERED_MIN))
}

/// Whether a determinant shows structure.
pub open spec fn is_positive<A: Arithmetic>(m: Semantics<A>, det: A::Narrow) -> bool {
    (m.less)((m.from_int)(0), det)
}

/// The determinant of pixel `i` if the pixel is covered and has structure.
pub open spec fn kept_determinant<A: Arithmetic>(
    m: Semantics<A>,
    gray: Seq<A::Narrow>,
    averaged: TensorModel<A::Narrow>,
    scale: A::Narrow,
) -> spec_fn(int) -> Option<A::Narrow> {
    |i: int|
        if is_covered(m, gray[i]) && is_positive(m, determinant_at(m, averaged, scale, i)) {
            Some(determinant_at(m, averaged, scale, i))
        } else {
            None
        }
}

/// A structure tensor, averaged over a window.
pub open spec fn averaged_over<A: Arithmetic>(
    m: Semantics<A>,
    tensor: TensorModel<A::Narrow>,
    w: int,
    h: int,
    kernel: Seq<A::Narrow>,
) -> TensorModel<A::Narrow> {
    TensorModel {
        xx: crate::smooth::smoothed(m, tensor.xx, w, h, kernel),
        xy: crate::smooth::smoothed(m, tensor.xy, w, h, kernel),
        yy: crate::smooth::smoothed(m, tensor.yy, w, h, kernel),
    }
}

/// The determinants of a frame that enter the distribution: those of the sampled
/// pixels that are covered and have structure, in the order of the grid.
pub open spec fn sampled_determinants<A: Arithmetic>(
    m: Semantics<A>,
    gray: Seq<A::Narrow>,
    w: int,
    h: int,
    tensor: TensorModel<A::Narrow>,
    kernel: Seq<A::Narrow>,
    scale: A::Narrow,
) -> Seq<A::Narrow> {
    pixel_grid(w, h).filter_map(
        kept_determinant(m, gray, averaged_over(m, tensor, w, h, kernel), scale),
    )
}

/// The pixels of a frame of `w` by `h` that are sampled.
pub open spec fn pixel_grid(w: int, h: int) -> Seq<int> {
    crate::sampling::sample_grid(w, h, crate::sampling::sample_stride_of(w * h))
}

/// The structure tensor of the first `n` pixels of an expansion.
pub fn structure_products<A: Arithmetic>(expansion: &[[A::Narrow; 5]], n: usize) -> (out:
    StructureTensor<A::Narrow>)
    requires
        n <= expansion@.len(),
    ensures
        out.xx@.len() == n,
        out.xy@.len() == n,
        out.yy@.len() == n,
        forall|m: Semantics<A>| #[trigger]
            m.describes_narrow() ==> out@ == structure_of(
                m,
                crate::image::coefficients(expansion@),
                n as nat,
            ),
        forall|m: Semantics<A>| #[trigger]
            m.describes_narrow() ==> crate::laws::tensor::is_tensor(
                m,
                crate::image::coefficients(expansion@),
                n as nat,
                out@,
            ),
{
    let half_of_one: A::Narrow = A::quotient(A::from_int(1), A::from_int(2));
    let mut xx: Vec<A::Narrow> = Vec::new();
    let mut xy: Vec<A::Narrow> = Vec::new();
    let mut yy: Vec<A::Narrow> = Vec::new();
    let ghost poly = crate::image::coefficients(expansion@);
    let mut i: usize = 0;
    while i < n
        invariant
            i <= n <= expansion@.len(),
            poly == crate::image::coefficients(expansion@),
            xx@.len() == i,
            xy@.len() == i,
            yy@.len() == i,
            forall|m: Semantics<A>| #[trigger] m.describes_narrow() ==> half_of_one == half(m),
            forall|m: Semantics<A>, k: int|
                #![trigger m.describes_narrow(), poly[k]]
                m.describes_narrow() && 0 <= k < i ==> {
                    &&& xx@[k] == product_xx(m, poly[k])
                    &&& xy@[k] == product_xy(m, poly[k])
                    &&& yy@[k] == product_yy(m, poly[k])
                },
        decreases n - i,
    {
        let a: A::Narrow = expansion[i][0];
        let b: A::Narrow = A::product(expansion[i][1], half_of_one);
        let c: A::Narrow = expansion[i][2];
        assert(poly[i as int] == expansion@[i as int]@);
        xx.push(A::mul_add(a, a, A::product(b, b)));
        xy.push(A::mul_add(b, a, A::product(b, c)));
        yy.push(A::mul_add(b, b, A::product(c, c)));
        i = i + 1;
    }
    let out = StructureTensor { xx, xy, yy };
    assert forall|m: Semantics<A>| #[trigger] m.describes_narrow() implies out@ == structure_of(
        m,
        poly,
        n as nat,
    ) by {
        let s = structure_of(m, poly, n as nat);
        assert forall|k: int| 0 <= k < n implies out.xx@[k] == s.xx[k] && out.xy@[k] == s.xy[k]
            && out.yy@[k] == s.yy[k] by {
            assert(xx@[k] == product_xx(m, poly[k]));
        }
        assert(out.xx@ =~= s.xx);
        assert(out.xy@ =~= s.xy);
        assert(out.yy@ =~= s.yy);
    }
    out
}

/// The determinants of the sampled pixels that are covered and have structure.
///
/// A flat neighbourhood gives exactly zero and a near-rank-1 one a small negative
/// number from cancellation; both mean that there is no structure to scale up,
/// so they are dropped rather than held at zero.
pub fn sample_determinants<A: Arithmetic>(
    gray: &[A::Narrow],
    w: usize,
    h: usize,
    tensor: &StructureTensor<A::Narrow>,
    kernel: &[A::Narrow],
    scale: A::Narrow,
) -> (out: Vec<A::Narrow>)
    requires
        w * h <= tensor.xx.len(),
        w * h <= tensor.xy.len(),
        w * h <= tensor.yy.len(),
        forall|k: int|
            0 <= k < pixel_grid(w as int, h as int).len() ==> #[trigger] pixel_grid(
                w as int,
                h as int,
            )[k] < gray@.len(),
    ensures
        forall|m: Semantics<A>| #[trigger]
            m.describes_narrow() ==> out@ == sampled_determinants(
                m,
                gray@,
                w as int,
                h as int,
                tensor@,
                kernel@,
                scale,
            ),
        forall|m: Semantics<A>| #[trigger]
            m.describes_narrow() ==> crate::laws::frame::is_measurement(
                m,
                gray@,
                w as int,
                h as int,
                tensor@,
                kernel@,
                scale,
                out@,
            ),
{
    let xx: Vec<A::Narrow> = smooth_separable::<A>(tensor.xx.as_slice(), w, h, kernel);
    let xy: Vec<A::Narrow> = smooth_separable::<A>(tensor.xy.as_slice(), w, h, kernel);
    let yy: Vec<A::Narrow> = smooth_separable::<A>(tensor.yy.as_slice(), w, h, kernel);
    let averaged = StructureTensor { xx, xy, yy };
    let stride: usize = sample_stride(w * h);
    let rows: usize = step_count(h, stride);
    let cols: usize = step_count(w, stride);
    let least: A::Narrow = A::from_int(COVERED_MIN);
    let zero: A::Narrow = A::from_int(0);
    let ghost grid = pixel_grid(w as int, h as int);
    let mut out: Vec<A::Narrow> = Vec::new();
    let mut r: usize = 0;
    while r < rows
        invariant
            r <= rows,
            stride >= 1,
            rows == crate::sampling::steps_below(h as int, stride as int),
            cols == crate::sampling::steps_below(w as int, stride as int),
            grid == crate::sampling::sample_grid(w as int, h as int, stride as int),
            w * h <= usize::MAX,
            averaged.xx@.len() == w * h,
            averaged.xy@.len() == w * h,
            averaged.yy@.len() == w * h,
            forall|k: int| 0 <= k < grid.len() ==> #[trigger] grid[k] < gray@.len(),
            forall|m: Semantics<A>| #[trigger]
                m.describes_narrow() ==> least == (m.from_int)(COVERED_MIN) && zero == (m.from_int)(0),
            forall|m: Semantics<A>| #[trigger]
                m.describes_narrow() ==> out@ == grid.take(r * cols).filter_map(
                    kept_determinant(m, gray@, averaged@, scale),
                ),
        decreases rows - r,
    {
        let mut c: usize = 0;
        while c < cols
            invariant
                r < rows,
                c <= cols,
                stride >= 1,
                rows == crate::sampling::steps_below(h as int, stride as int),
                cols == crate::sampling::steps_below(w as int, stride as int),
                grid == crate::sampling::sample_grid(w as int, h as int, stride as int),
                w * h <= usize::MAX,
                averaged.xx@.len() == w * h,
                averaged.xy@.len() == w * h,
                averaged.yy@.len() == w * h,
                forall|k: int| 0 <= k < grid.len() ==> #[trigger] grid[k] < gray@.len(),
                forall|m: Semantics<A>| #[trigger]
                    m.describes_narrow() ==> least == (m.from_int)(COVERED_MIN) && zero == (m.from_int)(0),
                forall|m: Semantics<A>| #[trigger]
                    m.describes_narrow() ==> out@ == grid.take(r * cols + c).filter_map(
                        kept_determinant(m, gray@, averaged@, scale),
                    ),
            decreases cols - c,
        {
            let ghost k = r * cols + c;
            let ghost before = out@;
            proof {
                crate::sampling::lemma_grid_entry(
                    w as int,
                    h as int,
                    stride as int,
                    r as int,
                    c as int,
                );
            }
            let y: usize = r * stride;
            let x: usize = c * stride;
            let i: usize = y * w + x;
            assert(grid[k] == i);
            if !A::less(gray[i], least) {
                let a: A::Narrow = A::product(averaged.xx[i], scale);
                let b: A::Narrow = A::product(averaged.xy[i], scale);
                let d: A::Narrow = A::product(averaged.yy[i], scale);
                let det: A::Narrow = A::mul_add(a, d, A::negated(A::product(b, b)));
                assert(forall|m: Semantics<A>| #[trigger]
                    m.describes_narrow() ==> det == determinant_at(m, averaged@, scale, i as int));
                if A::less(zero, det) {
                    out.push(det);
                }
            }
            assert forall|m: Semantics<A>| #[trigger] m.describes_narrow() implies out@ == grid.take(
                k + 1,
            ).filter_map(kept_determinant(m, gray@, averaged@, scale)) by {
                let f = kept_determinant(m, gray@, averaged@, scale);
                grid.lemma_filter_map_take_succ(f, k);
                assert(before == grid.take(k).filter_map(f));
            }
            c = c + 1;
        }
        assert(r * cols + cols == (r + 1) * cols) by (nonlinear_arith);
        r = r + 1;
    }
    proof {
        assert(grid.take(rows * cols) =~= grid);
        assert forall|m: Semantics<A>| #[trigger] m.describes_narrow() implies out@
            == sampled_determinants(
            m,
            gray@,
            w as int,
            h as int,
            tensor@,
            kernel@,
            scale,
        ) by {
            assert(averaged@ == averaged_over(m, tensor@, w as int, h as int, kernel@));
        }
        assert forall|m: Semantics<A>| #[trigger]
            m.describes_narrow() implies crate::laws::frame::is_measurement(
            m,
            gray@,
            w as int,
            h as int,
            tensor@,
            kernel@,
            scale,
            out@,
        ) by {
            crate::laws::frame::law_measurement(
                m,
                gray@,
                w as int,
                h as int,
                tensor@,
                kernel@,
                scale,
                out@,
            );
        }
    }
    out
}

/// The extent of the averaging window, at least one.
pub open spec fn window_extent(winsize: u32) -> u32 {
    if winsize < 1 {
        1
    } else {
        winsize
    }
}

/// The averaging window along one axis.
pub open spec fn window_kernel<F: FlowStages>(
    s: StageSemantics<F>,
    params: &FarnebackParams<F::Param>,
) -> Seq<F::Narrow> {
    if params.use_gaussian {
        (s.gaussian)(params.winsize)
    } else {
        Seq::new(window_extent(params.winsize) as nat, |j: int| (s.arithmetic.from_int)(1))
    }
}

/// What brings a sum over the averaging window to an average.
pub open spec fn window_scale<F: FlowStages>(
    s: StageSemantics<F>,
    params: &FarnebackParams<F::Param>,
) -> F::Narrow {
    let extent = window_extent(params.winsize);
    if params.use_gaussian {
        (s.arithmetic.from_int)(1)
    } else {
        (s.arithmetic.quotient)(
            (s.arithmetic.from_int)(1),
            (s.arithmetic.from_int)((extent * extent) as u32),
        )
    }
}

/// The determinants that one frame adds to the distribution.
pub open spec fn determinants_of<F: FlowStages>(
    s: StageSemantics<F>,
    gray: ImageModel<F::Narrow>,
    params: &FarnebackParams<F::Param>,
) -> Seq<F::Narrow> {
    let level = (s.level_image)(gray, 0, params.pyr_scale);
    let expansion = (s.expansion)(level, params.poly_n, params.poly_sigma);
    let w = level.width as int;
    let h = level.height as int;
    sampled_determinants(
        s.arithmetic,
        gray.data,
        w,
        h,
        structure_of(s.arithmetic, expansion, (w * h) as nat),
        window_kernel(s, params),
        window_scale(s, params),
    )
}

/// The area of a box window fits its type.
pub open spec fn window_fits<P>(params: &FarnebackParams<P>) -> bool {
    params.use_gaussian || window_extent(params.winsize) * window_extent(params.winsize)
        <= u32::MAX
}

/// What the stages make of `gray` can be indexed: the pixel count of the level
/// image is a `usize`, `gray` holds every pixel of it that is sampled, and the
/// expansion covers it.
pub open spec fn is_measurable<F: FlowStages>(
    gray: &GrayImage<F::Narrow>,
    params: &FarnebackParams<F::Param>,
) -> bool {
    forall|level: GrayImage<F::Narrow>| #[trigger]
        call_ensures(F::build_level_image, (gray, 0u32, params.pyr_scale), level)
            ==> level_is_measurable::<F>(gray, params, &level)
}

/// The part of [`is_measurable`] that concerns one level image.
pub open spec fn level_is_measurable<F: FlowStages>(
    gray: &GrayImage<F::Narrow>,
    params: &FarnebackParams<F::Param>,
    level: &GrayImage<F::Narrow>,
) -> bool {
    let grid = pixel_grid(level.width as int, level.height as int);
    &&& level.width * level.height <= usize::MAX
    &&& level.width * level.height > 0 ==> {
        &&& window_fits(params)
        &&& forall|k: int| 0 <= k < grid.len() ==> #[trigger] grid[k] < gray.data@.len()
        &&& forall|poly: crate::image::PolyExpansion<F::Narrow>| #[trigger]
            call_ensures(F::poly_expansion, (level, params.poly_n, params.poly_sigma), poly)
                ==> level.width * level.height <= poly.data@.len()
    }
}

/// `n` copies of `value`.
fn filled<T: Copy>(value: T, n: usize) -> (out: Vec<T>)
    ensures
        out@ == Seq::new(n as nat, |j: int| value),
{
    let mut out: Vec<T> = Vec::new();
    let mut i: usize = 0;
    while i < n
        invariant
            i <= n,
            out@ == Seq::new(i as nat, |j: int| value),
        decreases n - i,
    {
        out.push(value);
        i = i + 1;
        assert(out@ =~= Seq::new(i as nat, |j: int| value));
    }
    out
}

/// The averaging window along one axis, and what brings its sums to averages.
pub fn averaging_window<F: FlowStages>(params: &FarnebackParams<F::Param>) -> (r: (
    Vec<F::Narrow>,
    F::Narrow,
))
    requires
        window_fits(params),
    ensures
        forall|s: StageSemantics<F>| #[trigger]
            s.describes_measurement() ==> r.0@ == window_kernel(s, params) && r.1 == window_scale(s, params),
        forall|s: StageSemantics<F>| #[trigger]
            s.describes_measurement() ==> crate::laws::window::is_window(s, params, r.0@, r.1),
        !params.use_gaussian ==> r.0@.len() == crate::laws::window::taps_of(params.winsize),
{
    let one: F::Narrow = F::from_int(1);
    if params.use_gaussian {
        (F::build_gaussian_1d(params.winsize), one)
    } else {
        let extent: u32 = if params.winsize < 1 {
            1
        } else {
            params.winsize
        };
        let kernel: Vec<F::Narrow> = filled(one, extent as usize);
        let scale: F::Narrow = F::quotient(one, F::from_int(extent * extent));
        assert forall|s: StageSemantics<F>| #[trigger] s.describes_measurement() implies kernel@
            == window_kernel(s, params) by {
            assert(kernel@ =~= window_kernel(s, params));
        }
        (kernel, scale)
    }
}

/// Sample the structure-tensor determinant across one frame at the finest
/// pyramid level.
///
/// The finest level is the binding one. Downsampling concentrates contrast into
/// fewer pixels, so the determinant grows steeply with pyramid depth and coarse
/// levels clear the threshold even on material that fails at level 0.
///
/// One frame's expansion stands for both frames of a pair: consecutive frames
/// share their local structure, which is the only property that is read here.
pub fn frame_determinants<F: FlowStages>(
    gray: &GrayImage<F::Narrow>,
    params: &FarnebackParams<F::Param>,
) -> (out: Vec<F::Narrow>)
    requires
        is_measurable::<F>(gray, params),
    ensures
        forall|s: StageSemantics<F>| #[trigger]
            s.describes_measurement() ==> out@ == determinants_of(s, gray@, params),
        forall|s: StageSemantics<F>| #[trigger]
            s.describes_measurement() && window_fits(params)
                ==> crate::laws::frame::is_frame_measurement(s, gray@, params, out@),
{
    let level: GrayImage<F::Narrow> = F::build_level_image(gray, 0, params.pyr_scale);
    assert(level_is_measurable::<F>(gray, params, &level));
    let w: usize = level.width as usize;
    let h: usize = level.height as usize;
    let n: usize = w * h;
    // The expansion is the largest buffer; only its products outlive this block.
    let tensor: StructureTensor<F::Narrow> = {
        let poly = F::poly_expansion(&level, params.poly_n, params.poly_sigma);
        if n == 0 {
            let out: Vec<F::Narrow> = Vec::new();
            proof {
                lemma_empty_frame(w as int, h as int);
                assert forall|s: StageSemantics<F>| #[trigger] s.describes_measurement() implies out@
                    == determinants_of(s, gray@, params) by {
                    assert(level@ == (s.level_image)(gray@, 0, params.pyr_scale));
                    assert(out@ =~= determinants_of(s, gray@, params));
                }
                assert forall|s: StageSemantics<F>| #[trigger]
                    s.describes_measurement() && window_fits(
                        params,
                    ) implies crate::laws::frame::is_frame_measurement(s, gray@, params, out@) by {
                    assert(out@ == determinants_of(s, gray@, params));
                    crate::laws::frame::law_frame_measurement(s, gray@, params, out@);
                }
            }
            return out;
        }
        let products = structure_products::<F>(poly.data.as_slice(), n);
        assert forall|s: StageSemantics<F>| #[trigger] s.describes_measurement() implies products@
            == structure_of(
            s.arithmetic,
            (s.expansion)(level@, params.poly_n, params.poly_sigma),
            n as nat,
        ) by {
            assert(s.arithmetic.describes_narrow());
        }
        products
    };
    let (kernel, scale) = averaging_window::<F>(params);
    let out: Vec<F::Narrow> = sample_determinants::<F>(
        gray.data.as_slice(),
        w,
        h,
        &tensor,
        kernel.as_slice(),
        scale,
    );
    assert forall|s: StageSemantics<F>| #[trigger] s.describes_measurement() implies out@ == determinants_of(
        s,
        gray@,
        params,
    ) by {
        assert(s.arithmetic.describes_narrow());
        assert(level@ == (s.level_image)(gray@, 0, params.pyr_scale));
    }
    assert forall|s: StageSemantics<F>| #[trigger]
        s.describes_measurement() && window_fits(
            params,
        ) implies crate::laws::frame::is_frame_measurement(s, gray@, params, out@) by {
        crate::laws::frame::law_frame_measurement(s, gray@, params, out@);
    }
    out
}

/// A frame without pixels has no sampled pixels.
proof fn lemma_empty_frame(w: int, h: int)
    requires
        w >= 0,
        h >= 0,
        w * h == 0,
    ensures
        pixel_grid(w, h).len() == 0,
{
    assert(crate::sampling::is_sample_stride(w * h, 1));
    crate::sampling::law_sample_stride_is_unique(
        w * h,
        1,
        crate::sampling::sample_stride_of(w * h),
    );
    assert(w == 0 || h == 0) by (nonlinear_arith)
        requires
            w * h == 0,
    ;
    let (rows, cols) = (
        crate::sampling::steps_below(h, 1),
        crate::sampling::steps_below(w, 1),
    );
    assert(rows * cols == 0) by (nonlinear_arith)
        requires
            rows == 0 || cols == 0,
    ;
}

/// A frame whose pixels match its extents can be measured by stages that keep the
/// extents of an image and expand every pixel of it.
pub proof fn law_aligned_frames_are_measurable<F: FlowStages>(
    gray: &GrayImage<F::Narrow>,
    params: &FarnebackParams<F::Param>,
)
    requires
        gray.data@.len() == gray.width * gray.height,
        gray.width * gray.height <= usize::MAX,
        window_fits(params),
        forall|level: GrayImage<F::Narrow>| #[trigger]
            call_ensures(F::build_level_image, (gray, 0u32, params.pyr_scale), level)
                ==> level.width == gray.width && level.height == gray.height,
        forall|level: &GrayImage<F::Narrow>, poly: crate::image::PolyExpansion<F::Narrow>|
            #[trigger]
            call_ensures(F::poly_expansion, (level, params.poly_n, params.poly_sigma), poly)
                ==> poly.data@.len() == level.width * level.height,
    ensures
        is_measurable::<F>(gray, params),
{
    let (w, h) = (gray.width as int, gray.height as int);
    crate::sampling::lemma_grid_in_range(w, h);
    assert forall|level: GrayImage<F::Narrow>| #[trigger]
        call_ensures(
            F::build_level_image,
            (gray, 0u32, params.pyr_scale),
            level,
        ) implies level_is_measurable::<F>(gray, params, &level) by {
        assert(pixel_grid(w, h) == pixel_grid(level.width as int, level.height as int));
    }
}

} // verus!
