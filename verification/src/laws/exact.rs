//! The determinants of a frame in whole numbers, from the quadratic forms to the end.
use vstd::prelude::*;

use crate::arithmetic::Arithmetic;
#[allow(unused_imports)]
use crate::arithmetic::Semantics;
#[allow(unused_imports)]
use crate::image::{FarnebackParams, ImageModel};
use crate::stages::FlowStages;
#[allow(unused_imports)]
use crate::stages::StageSemantics;

verus! {

/// As many ones.
pub open spec fn ones(n: int) -> Seq<int> {
    Seq::new(n as nat, |j: int| 1int)
}

/// The sum of `f` over the box of `n` by `n` pixels around `(x, y)`, with the pixels
/// beyond a border replicated from it.
pub open spec fn box_sum(
    f: spec_fn(int, int) -> int,
    n: int,
    x: int,
    y: int,
    w: int,
    h: int,
) -> int {
    crate::laws::transposition::window_sum(f, ones(n), x, y, w, h)
}

/// Coefficient `c` of the form of each pixel, by column and row.
pub open spec fn coefficient<A: Arithmetic>(
    value: spec_fn(A::Narrow) -> int,
    expansion: Seq<Seq<A::Narrow>>,
    w: int,
    c: int,
) -> spec_fn(int, int) -> int {
    |x: int, y: int| value(expansion[y * w + x][c])
}

/// Sixteen times the square of the area times the determinant of the pixel `(x, y)`:
/// of the forms `r4 x^2 + r6 x y + r5 y^2` of the pixels in the box around it, the box
/// sum of `4 r4^2 + r6^2` times that of `r6^2 + 4 r5^2`, less four times the square of
/// that of `r6 (r4 + r5)`.
pub open spec fn determinant_in_whole_numbers(
    r4: spec_fn(int, int) -> int,
    r6: spec_fn(int, int) -> int,
    r5: spec_fn(int, int) -> int,
    n: int,
    x: int,
    y: int,
    w: int,
    h: int,
) -> int {
    let xx = |i: int, j: int| 4 * (r4(i, j) * r4(i, j)) + r6(i, j) * r6(i, j);
    let xy = |i: int, j: int| r6(i, j) * (r4(i, j) + r5(i, j));
    let yy = |i: int, j: int| r6(i, j) * r6(i, j) + 4 * (r5(i, j) * r5(i, j));
    box_sum(xx, n, x, y, w, h) * box_sum(yy, n, x, y, w, h) - 4 * (box_sum(xy, n, x, y, w, h)
        * box_sum(xy, n, x, y, w, h))
}

/// The sum over a window of `k` times a number.
proof fn lemma_window_scales(
    f: spec_fn(int, int) -> int,
    g: spec_fn(int, int) -> int,
    k: int,
    kernel: Seq<int>,
    x: int,
    y: int,
    w: int,
    h: int,
)
    requires
        w > 0,
        h > 0,
        forall|i: int, j: int| 0 <= i < w && 0 <= j < h ==> #[trigger] g(i, j) == f(i, j) * k,
    ensures
        crate::laws::transposition::window_sum(g, kernel, x, y, w, h)
            == crate::laws::transposition::window_sum(f, kernel, x, y, w, h) * k,
{
    let taps = kernel.len();
    let zero = |c: int| 0int;
    let (p, q) = (
        |r: int| crate::laws::transposition::row_sum(f, kernel, x, r, w),
        |r: int| crate::laws::transposition::row_sum(g, kernel, x, r, w),
    );
    assert forall|r: int| 0 <= r <= h - 1 implies #[trigger] q(r) == p(r) * k + zero(r) by {
        let (a, b) = (|c: int| f(c, r), |c: int| g(c, r));
        assert forall|c: int| 0 <= c <= w - 1 implies #[trigger] b(c) == a(c) * k + zero(c) by {
            assert(g(c, r) == f(c, r) * k);
        }
        crate::laws::transposition::lemma_sum_of_lines(zero, a, b, k, kernel, x, w - 1, taps);
        crate::laws::transposition::lemma_zero_line(zero, kernel, x, w - 1, taps);
    }
    crate::laws::transposition::lemma_sum_of_lines(zero, p, q, k, kernel, y, h - 1, taps);
    crate::laws::transposition::lemma_zero_line(zero, kernel, y, h - 1, taps);
}

/// Everything on the way to the determinants of a frame is a whole number and stays
/// exact.
pub open spec fn is_whole_frame<F: FlowStages>(
    s: StageSemantics<F>,
    whole: spec_fn(F::Narrow) -> bool,
    value: spec_fn(F::Narrow) -> int,
    limit: int,
    gray: ImageModel<F::Narrow>,
    params: &FarnebackParams<F::Param>,
) -> bool {
    let m = s.arithmetic;
    let level = (s.level_image)(gray, 0, params.pyr_scale);
    let expansion = (s.expansion)(level, params.poly_n, params.poly_sigma);
    let (w, h) = (level.width as int, level.height as int);
    let kernel = crate::determinant::window_kernel(s, params);
    let scale = crate::determinant::window_scale(s, params);
    let tensor = crate::determinant::structure_of(m, expansion, (w * h) as nat);
    let averaged = crate::determinant::averaged_over(m, tensor, w, h, kernel);
    let taps = crate::laws::window::taps_of(params.winsize);
    &&& crate::laws::tensor::is_exact_on(m, whole, value)
    &&& crate::laws::transposition::is_exact_below(m, whole, value, limit)
    &&& whole((m.from_int)(1)) && value((m.from_int)(1)) == 1
    &&& forall|i: int|
        0 <= i < w * h ==> crate::laws::tensor::is_whole_form(
            m,
            whole,
            value,
            #[trigger] expansion[i],
        )
    &&& crate::laws::tensor::is_whole_entry::<F>(whole, value, limit, tensor.xx, w, h, kernel)
    &&& crate::laws::tensor::is_whole_entry::<F>(whole, value, limit, tensor.xy, w, h, kernel)
    &&& crate::laws::tensor::is_whole_entry::<F>(whole, value, limit, tensor.yy, w, h, kernel)
    &&& forall|i: int|
        #![trigger averaged.xx[i]]
        0 <= i < w * h ==> crate::laws::frame::is_whole_pixel(
            m,
            whole,
            value,
            averaged,
            scale,
            taps * taps,
            i,
        )
}

/// The determinant of one pixel in whole numbers.
proof fn lemma_pixel_in_whole_numbers<F: FlowStages>(
    s: StageSemantics<F>,
    whole: spec_fn(F::Narrow) -> bool,
    value: spec_fn(F::Narrow) -> int,
    limit: int,
    gray: ImageModel<F::Narrow>,
    params: &FarnebackParams<F::Param>,
    x: int,
    y: int,
)
    requires
        !params.use_gaussian,
        crate::determinant::window_fits(params),
        is_whole_frame(s, whole, value, limit, gray, params),
        0 <= x < (s.level_image)(gray, 0, params.pyr_scale).width,
        0 <= y < (s.level_image)(gray, 0, params.pyr_scale).height,
    ensures
        ({
            let m = s.arithmetic;
            let level = (s.level_image)(gray, 0, params.pyr_scale);
            let expansion = (s.expansion)(level, params.poly_n, params.poly_sigma);
            let (w, h) = (level.width as int, level.height as int);
            let kernel = crate::determinant::window_kernel(s, params);
            let scale = crate::determinant::window_scale(s, params);
            let tensor = crate::determinant::structure_of(m, expansion, (w * h) as nat);
            let averaged = crate::determinant::averaged_over(m, tensor, w, h, kernel);
            let n = crate::laws::window::taps_of(params.winsize);
            value(crate::determinant::determinant_at(m, averaged, scale, y * w + x)) * (16 * ((n
                * n) * (n * n))) == determinant_in_whole_numbers(
                coefficient::<F>(value, expansion, w, 0),
                coefficient::<F>(value, expansion, w, 1),
                coefficient::<F>(value, expansion, w, 2),
                n,
                x,
                y,
                w,
                h,
            )
        }),
{
    let m = s.arithmetic;
    let level = (s.level_image)(gray, 0, params.pyr_scale);
    let expansion = (s.expansion)(level, params.poly_n, params.poly_sigma);
    let (w, h) = (level.width as int, level.height as int);
    let kernel = crate::determinant::window_kernel(s, params);
    let scale = crate::determinant::window_scale(s, params);
    let tensor = crate::determinant::structure_of(m, expansion, (w * h) as nat);
    let averaged = crate::determinant::averaged_over(m, tensor, w, h, kernel);
    let n = crate::laws::window::taps_of(params.winsize);
    let i = y * w + x;
    crate::sampling::lemma_pixel_in_range(y, x, w, h);
    crate::laws::window::law_averaging_window(s, params, kernel, scale);
    crate::laws::tensor::law_averages_of_whole_numbers(
        m,
        whole,
        value,
        limit,
        tensor,
        w,
        h,
        kernel,
        x,
        y,
    );
    assert(crate::laws::transposition::values(value, kernel) =~= ones(n));
    assert(averaged.xx[i] == averaged.xx[i]);
    crate::laws::frame::law_determinant_of_whole_numbers(
        m,
        whole,
        value,
        averaged,
        scale,
        n * n,
        i,
    );
    let (r4, r6, r5) = (
        coefficient::<F>(value, expansion, w, 0),
        coefficient::<F>(value, expansion, w, 1),
        coefficient::<F>(value, expansion, w, 2),
    );
    let xx = |i: int, j: int| 4 * (r4(i, j) * r4(i, j)) + r6(i, j) * r6(i, j);
    let xy = |i: int, j: int| r6(i, j) * (r4(i, j) + r5(i, j));
    let yy = |i: int, j: int| r6(i, j) * r6(i, j) + 4 * (r5(i, j) * r5(i, j));
    let txx = crate::laws::transposition::pixel_values(value, tensor.xx, w);
    let txy = crate::laws::transposition::pixel_values(value, tensor.xy, w);
    let tyy = crate::laws::transposition::pixel_values(value, tensor.yy, w);
    assert forall|c: int, r: int| 0 <= c < w && 0 <= r < h implies {
        &&& #[trigger] xx(c, r) == txx(c, r) * 4
        &&& xy(c, r) == txy(c, r) * 2
        &&& yy(c, r) == tyy(c, r) * 4
    } by {
        let k = r * w + c;
        crate::sampling::lemma_pixel_in_range(r, c, w, h);
        assert(crate::laws::tensor::is_whole_form(m, whole, value, expansion[k]));
        crate::laws::tensor::law_tensor_of_whole_numbers(
            m,
            whole,
            value,
            expansion,
            (w * h) as nat,
            k,
        );
    }
    assert forall|c: int, r: int| 0 <= c < w && 0 <= r < h implies #[trigger] xy(c, r) == txy(c, r)
        * 2 by {
        assert(xx(c, r) == txx(c, r) * 4);
    }
    assert forall|c: int, r: int| 0 <= c < w && 0 <= r < h implies #[trigger] yy(c, r) == tyy(c, r)
        * 4 by {
        assert(xx(c, r) == txx(c, r) * 4);
    }
    lemma_window_scales(txx, xx, 4, ones(n), x, y, w, h);
    lemma_window_scales(txy, xy, 2, ones(n), x, y, w, h);
    lemma_window_scales(tyy, yy, 4, ones(n), x, y, w, h);
    let (p, q, r) = (value(averaged.xx[i]), value(averaged.xy[i]), value(averaged.yy[i]));
    assert((p * 4) * (r * 4) - 4 * ((q * 2) * (q * 2)) == 16 * (p * r - q * q))
        by (nonlinear_arith);
    let d = value(crate::determinant::determinant_at(m, averaged, scale, i));
    let nn = (n * n) * (n * n);
    assert(d * (16 * nn) == 16 * (d * nn)) by (nonlinear_arith);
}

/// In whole numbers that stay exact, and with a box window of `n` taps, every
/// determinant that a frame adds to the distribution is, times `16 n^4`, the
/// determinant of the summed squares of the forms in the box around a sampled and
/// covered pixel.
pub proof fn law_frame_in_whole_numbers<F: FlowStages>(
    s: StageSemantics<F>,
    whole: spec_fn(F::Narrow) -> bool,
    value: spec_fn(F::Narrow) -> int,
    limit: int,
    gray: ImageModel<F::Narrow>,
    params: &FarnebackParams<F::Param>,
    det: F::Narrow,
)
    requires
        !params.use_gaussian,
        crate::determinant::window_fits(params),
        is_whole_frame(s, whole, value, limit, gray, params),
        crate::determinant::determinants_of(s, gray, params).contains(det),
    ensures
        ({
            let level = (s.level_image)(gray, 0, params.pyr_scale);
            let expansion = (s.expansion)(level, params.poly_n, params.poly_sigma);
            let (w, h) = (level.width as int, level.height as int);
            let n = crate::laws::window::taps_of(params.winsize);
            exists|x: int, y: int|
                0 <= x < w && 0 <= y < h && crate::determinant::pixel_grid(w, h).contains(y * w + x)
                    && !(s.arithmetic.less)(gray.data[y * w + x], (s.arithmetic.from_int)(2))
                    && value(det) * (16 * ((n * n) * (n * n)))
                    == #[trigger] determinant_in_whole_numbers(
                    coefficient::<F>(value, expansion, w, 0),
                    coefficient::<F>(value, expansion, w, 1),
                    coefficient::<F>(value, expansion, w, 2),
                    n,
                    x,
                    y,
                    w,
                    h,
                )
        }),
{
    let m = s.arithmetic;
    let level = (s.level_image)(gray, 0, params.pyr_scale);
    let expansion = (s.expansion)(level, params.poly_n, params.poly_sigma);
    let (w, h) = (level.width as int, level.height as int);
    let kernel = crate::determinant::window_kernel(s, params);
    let scale = crate::determinant::window_scale(s, params);
    let tensor = crate::determinant::structure_of(m, expansion, (w * h) as nat);
    let averaged = crate::determinant::averaged_over(m, tensor, w, h, kernel);
    let grid = crate::determinant::pixel_grid(w, h);
    crate::laws::measurement::law_only_covered_structure_is_measured(
        m,
        gray.data,
        w,
        h,
        tensor,
        kernel,
        scale,
        det,
    );
    let i = choose|i: int| #[trigger]
        grid.contains(i) && crate::determinant::is_covered(m, gray.data[i]) && det
            == crate::determinant::determinant_at(m, averaged, scale, i);
    crate::sampling::lemma_grid_in_range(w, h);
    let k = choose|k: int| 0 <= k < grid.len() && grid[k] == i;
    assert(0 <= grid[k] < w * h);
    crate::sampling::lemma_pixel_place(w, h, i);
    vstd::arithmetic::div_mod::lemma_fundamental_div_mod(i, w);
    let (x, y) = (i % w, i / w);
    assert(y * w + x == i) by (nonlinear_arith)
        requires
            i == w * y + x,
    ;
    lemma_pixel_in_whole_numbers(s, whole, value, limit, gray, params, x, y);
}

/// In whole numbers that stay exact, and with a box window of `n` taps, every sampled
/// and covered pixel whose summed squares have a determinant above zero adds it to the
/// distribution.
pub proof fn law_structure_in_whole_numbers_is_measured<F: FlowStages>(
    s: StageSemantics<F>,
    whole: spec_fn(F::Narrow) -> bool,
    value: spec_fn(F::Narrow) -> int,
    limit: int,
    gray: ImageModel<F::Narrow>,
    params: &FarnebackParams<F::Param>,
    x: int,
    y: int,
)
    requires
        !params.use_gaussian,
        crate::determinant::window_fits(params),
        is_whole_frame(s, whole, value, limit, gray, params),
        forall|v: F::Narrow|
            #[trigger] value(v) > 0 ==> (s.arithmetic.less)((s.arithmetic.from_int)(0), v),
        ({
            let level = (s.level_image)(gray, 0, params.pyr_scale);
            let expansion = (s.expansion)(level, params.poly_n, params.poly_sigma);
            let (w, h) = (level.width as int, level.height as int);
            &&& 0 <= x < w && 0 <= y < h
            &&& crate::determinant::pixel_grid(w, h).contains(y * w + x)
            &&& !(s.arithmetic.less)(gray.data[y * w + x], (s.arithmetic.from_int)(2))
            &&& determinant_in_whole_numbers(
                coefficient::<F>(value, expansion, w, 0),
                coefficient::<F>(value, expansion, w, 1),
                coefficient::<F>(value, expansion, w, 2),
                crate::laws::window::taps_of(params.winsize),
                x,
                y,
                w,
                h,
            ) > 0
        }),
    ensures
        ({
            let level = (s.level_image)(gray, 0, params.pyr_scale);
            let expansion = (s.expansion)(level, params.poly_n, params.poly_sigma);
            let (w, h) = (level.width as int, level.height as int);
            let n = crate::laws::window::taps_of(params.winsize);
            exists|det: F::Narrow| #[trigger]
                crate::determinant::determinants_of(s, gray, params).contains(det) && value(det)
                    * (16 * ((n * n) * (n * n))) == determinant_in_whole_numbers(
                    coefficient::<F>(value, expansion, w, 0),
                    coefficient::<F>(value, expansion, w, 1),
                    coefficient::<F>(value, expansion, w, 2),
                    n,
                    x,
                    y,
                    w,
                    h,
                )
        }),
{
    let m = s.arithmetic;
    let level = (s.level_image)(gray, 0, params.pyr_scale);
    let expansion = (s.expansion)(level, params.poly_n, params.poly_sigma);
    let (w, h) = (level.width as int, level.height as int);
    let kernel = crate::determinant::window_kernel(s, params);
    let scale = crate::determinant::window_scale(s, params);
    let tensor = crate::determinant::structure_of(m, expansion, (w * h) as nat);
    let averaged = crate::determinant::averaged_over(m, tensor, w, h, kernel);
    let n = crate::laws::window::taps_of(params.winsize);
    let i = y * w + x;
    let det = crate::determinant::determinant_at(m, averaged, scale, i);
    lemma_pixel_in_whole_numbers(s, whole, value, limit, gray, params, x, y);
    let (d, nn) = (value(det), (n * n) * (n * n));
    assert(n * n > 0) by (nonlinear_arith)
        requires
            n >= 1,
    ;
    let sq = n * n;
    assert(sq * sq > 0) by (nonlinear_arith)
        requires
            sq > 0,
    ;
    assert(d > 0) by (nonlinear_arith)
        requires
            d * (16 * nn) > 0,
            nn > 0,
    ;
    crate::laws::tensor::law_every_entry_is_averaged(m, tensor, w, h, kernel);
    crate::laws::frame::law_what_is_measured(
        m,
        gray.data,
        w,
        h,
        tensor,
        averaged,
        kernel,
        scale,
        det,
    );
    assert(averaged.xx[i] == averaged.xx[i]);
    assert(crate::determinant::determinants_of(s, gray, params).contains(det));
}

} // verus!
