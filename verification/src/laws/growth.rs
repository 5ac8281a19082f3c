//! How determinants grow with the gain.
use vstd::prelude::*;

use crate::arithmetic::Arithmetic;
#[allow(unused_imports)]
use crate::arithmetic::Semantics;
#[allow(unused_imports)]
use crate::determinant::TensorModel;
#[allow(unused_imports)]
use crate::image::{FarnebackParams, ImageModel};
use crate::stages::FlowStages;
#[allow(unused_imports)]
use crate::stages::StageSemantics;

verus! {

// ---------------------------------------------------------------------------
// Exactness of one factor
// ---------------------------------------------------------------------------

/// The operations that lose nothing when a gain is applied to their operands: the
/// products `a * b` and the sums `a * b + c`, by their operands.
#[verifier::reject_recursive_types(T)]
pub struct Lossless<T> {
    pub product: spec_fn(T, T) -> bool,
    pub sum: spec_fn(T, T, T) -> bool,
}

/// The factor `k` of one operand comes out of a product.
pub open spec fn leaves_products<A: Arithmetic>(
    m: Semantics<A>,
    k: A::Narrow,
    ops: Lossless<A::Narrow>,
) -> bool {
    forall|a: A::Narrow, b: A::Narrow|
        (ops.product)(a, b) ==> #[trigger] (m.product)((m.product)(k, a), b) == (m.product)(
            k,
            (m.product)(a, b),
        )
}

/// The factor `k` of one operand of the product and of the other summand comes
/// out of a sum, and `k` times zero is zero.
pub open spec fn leaves_sums<A: Arithmetic>(
    m: Semantics<A>,
    k: A::Narrow,
    ops: Lossless<A::Narrow>,
) -> bool {
    &&& (m.product)(k, (m.from_int)(0)) == (m.from_int)(0)
    &&& forall|a: A::Narrow, b: A::Narrow, c: A::Narrow|
        (ops.sum)(a, b, c) ==> #[trigger] (m.mul_add)((m.product)(k, a), b, (m.product)(k, c))
            == (m.product)(k, (m.mul_add)(a, b, c))
}

/// The factor `k` of both operands comes out twice, of a product and of a sum.
pub open spec fn leaves_squares<A: Arithmetic>(
    m: Semantics<A>,
    k: A::Narrow,
    ops: Lossless<A::Narrow>,
) -> bool {
    let square = (m.product)(k, k);
    &&& forall|a: A::Narrow, b: A::Narrow|
        (ops.product)(a, b) ==> #[trigger] (m.product)((m.product)(k, a), (m.product)(k, b)) == (
        m.product)(square, (m.product)(a, b))
    &&& forall|a: A::Narrow, b: A::Narrow, c: A::Narrow|
        (ops.sum)(a, b, c) ==> #[trigger] (m.mul_add)(
            (m.product)(k, a),
            (m.product)(k, b),
            (m.product)(square, c),
        ) == (m.product)(square, (m.mul_add)(a, b, c))
}

/// The square of a gain.
pub open spec fn second_power<A: Arithmetic>(m: Semantics<A>, g: A::Narrow) -> A::Narrow {
    (m.product)(g, g)
}

/// The fourth power of a gain.
pub open spec fn fourth_power<A: Arithmetic>(m: Semantics<A>, g: A::Narrow) -> A::Narrow {
    (m.product)(second_power(m, g), second_power(m, g))
}

/// On the operations `ops`, the gain `g` and its powers multiply without error, and
/// the negative of a product grows as the product does.
pub open spec fn is_exact_gain<A: Arithmetic>(
    m: Semantics<A>,
    g: A::Narrow,
    ops: Lossless<A::Narrow>,
) -> bool {
    let square = second_power(m, g);
    &&& leaves_products(m, g, ops)
    &&& leaves_squares(m, g, ops)
    &&& leaves_products(m, square, ops)
    &&& leaves_sums(m, square, ops)
    &&& leaves_squares(m, square, ops)
    &&& forall|a: A::Narrow, b: A::Narrow|
        (ops.product)(a, b) ==> #[trigger] (m.negated)(
            (m.product)(fourth_power(m, g), (m.product)(a, b)),
        ) == (m.product)(fourth_power(m, g), (m.negated)((m.product)(a, b)))
}

// ---------------------------------------------------------------------------
// The operations that occur
// ---------------------------------------------------------------------------

/// The operations of the tensor entries of one pixel are among `ops`.
pub open spec fn products_lossless<A: Arithmetic>(
    m: Semantics<A>,
    ops: Lossless<A::Narrow>,
    p: Seq<A::Narrow>,
) -> bool {
    let b = (m.product)(p[1], crate::determinant::half(m));
    &&& (ops.product)(p[1], crate::determinant::half(m))
    &&& (ops.product)(b, b) && (ops.sum)(p[0], p[0], (m.product)(b, b))
    &&& (ops.product)(b, p[2]) && (ops.sum)(b, p[0], (m.product)(b, p[2]))
    &&& (ops.product)(p[2], p[2]) && (ops.sum)(b, b, (m.product)(p[2], p[2]))
}

/// The step that adds tap `n` to a weighted sum is among `ops`.
pub open spec fn step_lossless<A: Arithmetic>(
    m: Semantics<A>,
    ops: Lossless<A::Narrow>,
    src: Seq<A::Narrow>,
    base: int,
    step: int,
    pos: int,
    last: int,
    kernel: Seq<A::Narrow>,
    n: nat,
) -> bool {
    (ops.sum)(
        src[base + crate::smooth::tap(pos, n as int, kernel.len() as int, last) * step],
        kernel[n as int],
        crate::smooth::tap_sum(m, src, base, step, pos, last, kernel, n),
    )
}

/// The operations of the window average, along the rows and then along the
/// columns, are among `ops`.
pub open spec fn window_lossless<A: Arithmetic>(
    m: Semantics<A>,
    ops: Lossless<A::Narrow>,
    src: Seq<A::Narrow>,
    w: int,
    h: int,
    kernel: Seq<A::Narrow>,
) -> bool {
    let rows = crate::smooth::rows_smoothed(m, src, w, h, kernel);
    &&& forall|i: int, n: nat|
        0 <= i < w * h && n < kernel.len() ==> #[trigger] step_lossless(
            m,
            ops,
            src,
            i / w * w,
            1,
            i % w,
            w - 1,
            kernel,
            n,
        )
    &&& forall|i: int, n: nat|
        0 <= i < w * h && n < kernel.len() ==> #[trigger] step_lossless(
            m,
            ops,
            rows,
            i % w,
            w,
            i / w,
            h - 1,
            kernel,
            n,
        )
}

/// The operations of the determinant of one pixel are among `ops`.
pub open spec fn determinant_lossless<A: Arithmetic>(
    m: Semantics<A>,
    ops: Lossless<A::Narrow>,
    averaged: TensorModel<A::Narrow>,
    scale: A::Narrow,
    i: int,
) -> bool {
    let a = (m.product)(averaged.xx[i], scale);
    let b = (m.product)(averaged.xy[i], scale);
    let c = (m.product)(averaged.yy[i], scale);
    &&& (ops.product)(averaged.xx[i], scale)
    &&& (ops.product)(averaged.xy[i], scale)
    &&& (ops.product)(averaged.yy[i], scale)
    &&& (ops.product)(b, b)
    &&& (ops.sum)(a, c, (m.negated)((m.product)(b, b)))
}

/// The operations on the way to the window-averaged structure tensor of a frame
/// are among `ops`.
pub open spec fn frame_lossless<A: Arithmetic>(
    m: Semantics<A>,
    ops: Lossless<A::Narrow>,
    expansion: Seq<Seq<A::Narrow>>,
    w: int,
    h: int,
    kernel: Seq<A::Narrow>,
) -> bool {
    let tensor = crate::determinant::structure_of(m, expansion, (w * h) as nat);
    &&& forall|k: int| 0 <= k < w * h ==> products_lossless(m, ops, #[trigger] expansion[k])
    &&& window_lossless(m, ops, tensor.xx, w, h, kernel)
    &&& window_lossless(m, ops, tensor.xy, w, h, kernel)
    &&& window_lossless(m, ops, tensor.yy, w, h, kernel)
}

// ---------------------------------------------------------------------------
// Growth
// ---------------------------------------------------------------------------

/// Every number of a sequence times `k`.
pub open spec fn multiplied<A: Arithmetic>(
    m: Semantics<A>,
    k: A::Narrow,
    s: Seq<A::Narrow>,
) -> Seq<A::Narrow> {
    s.map_values(|v: A::Narrow| (m.product)(k, v))
}

/// The tensor entries of an expansion that is `g` times another.
proof fn lemma_products_grow<A: Arithmetic>(
    m: Semantics<A>,
    g: A::Narrow,
    ops: Lossless<A::Narrow>,
    weak: Seq<A::Narrow>,
    strong: Seq<A::Narrow>,
)
    requires
        leaves_products(m, g, ops),
        leaves_squares(m, g, ops),
        products_lossless(m, ops, weak),
        forall|c: int| 0 <= c < 3 ==> #[trigger] strong[c] == (m.product)(g, weak[c]),
    ensures
        crate::determinant::product_xx(m, strong) == (m.product)(
            second_power(m, g),
            crate::determinant::product_xx(m, weak),
        ),
        crate::determinant::product_xy(m, strong) == (m.product)(
            second_power(m, g),
            crate::determinant::product_xy(m, weak),
        ),
        crate::determinant::product_yy(m, strong) == (m.product)(
            second_power(m, g),
            crate::determinant::product_yy(m, weak),
        ),
{
    let p = m.product;
    let b = p(weak[1], crate::determinant::half(m));
    assert(strong[0] == p(g, weak[0]) && strong[1] == p(g, weak[1]) && strong[2] == p(
        g,
        weak[2],
    ));
    assert(p(p(g, weak[1]), crate::determinant::half(m)) == p(g, b));
}

/// A weighted sum of samples that are `k` times others.
proof fn lemma_tap_sum_grows<A: Arithmetic>(
    m: Semantics<A>,
    k: A::Narrow,
    ops: Lossless<A::Narrow>,
    src: Seq<A::Narrow>,
    base: int,
    step: int,
    pos: int,
    last: int,
    kernel: Seq<A::Narrow>,
    n: nat,
)
    requires
        leaves_sums(m, k, ops),
        0 <= last,
        0 <= base,
        0 <= step,
        base + last * step < src.len(),
        n <= kernel.len(),
        forall|q: nat|
            q < kernel.len() ==> #[trigger] step_lossless(
                m,
                ops,
                src,
                base,
                step,
                pos,
                last,
                kernel,
                q,
            ),
    ensures
        crate::smooth::tap_sum(m, multiplied(m, k, src), base, step, pos, last, kernel, n) == (
        m.product)(k, crate::smooth::tap_sum(m, src, base, step, pos, last, kernel, n)),
    decreases n,
{
    if n > 0 {
        let rest = (n - 1) as nat;
        lemma_tap_sum_grows(m, k, ops, src, base, step, pos, last, kernel, rest);
        let t = crate::smooth::tap(pos, n - 1, kernel.len() as int, last);
        assert(0 <= t * step <= last * step) by (nonlinear_arith)
            requires
                0 <= t <= last,
                0 <= step,
        ;
        let at = base + t * step;
        assert(multiplied(m, k, src)[at] == (m.product)(k, src[at]));
        assert(step_lossless(m, ops, src, base, step, pos, last, kernel, rest));
    }
}

/// The window average of samples that are `k` times others.
proof fn lemma_smoothing_grows<A: Arithmetic>(
    m: Semantics<A>,
    k: A::Narrow,
    ops: Lossless<A::Narrow>,
    src: Seq<A::Narrow>,
    w: int,
    h: int,
    kernel: Seq<A::Narrow>,
)
    requires
        leaves_sums(m, k, ops),
        window_lossless(m, ops, src, w, h, kernel),
        w >= 0,
        h >= 0,
        src.len() == w * h,
    ensures
        crate::smooth::smoothed(m, multiplied(m, k, src), w, h, kernel) == multiplied(
            m,
            k,
            crate::smooth::smoothed(m, src, w, h, kernel),
        ),
{
    let taps = kernel.len();
    let rows = crate::smooth::rows_smoothed(m, src, w, h, kernel);
    assert(w * h >= 0) by (nonlinear_arith)
        requires
            w >= 0,
            h >= 0,
    ;
    assert forall|i: int| 0 <= i < w * h implies crate::smooth::rows_smoothed(
        m,
        multiplied(m, k, src),
        w,
        h,
        kernel,
    )[i] == multiplied(m, k, rows)[i] by {
        crate::sampling::lemma_pixel_place(w, h, i);
        crate::sampling::lemma_pixel_in_range(i / w, w - 1, w, h);
        lemma_tap_sum_grows(m, k, ops, src, i / w * w, 1, i % w, w - 1, kernel, taps);
    }
    assert(crate::smooth::rows_smoothed(m, multiplied(m, k, src), w, h, kernel) =~= multiplied(
        m,
        k,
        rows,
    ));
    assert forall|i: int| 0 <= i < w * h implies crate::smooth::columns_smoothed(
        m,
        multiplied(m, k, rows),
        w,
        h,
        kernel,
    )[i] == multiplied(
        m,
        k,
        crate::smooth::columns_smoothed(m, rows, w, h, kernel),
    )[i] by {
        crate::sampling::lemma_pixel_place(w, h, i);
        crate::sampling::lemma_pixel_in_range(h - 1, i % w, w, h);
        lemma_tap_sum_grows(m, k, ops, rows, i % w, w, i / w, h - 1, kernel, taps);
    }
    assert(crate::smooth::columns_smoothed(m, multiplied(m, k, rows), w, h, kernel)
        =~= multiplied(m, k, crate::smooth::columns_smoothed(m, rows, w, h, kernel)));
}

/// The determinant of a pixel grows with the fourth power of the gain: where the
/// expansion of each pixel is `g` times what it was, the determinant of each pixel
/// is the fourth power of `g` times what it was.
pub proof fn law_determinant_grows_with_the_fourth_power<A: Arithmetic>(
    m: Semantics<A>,
    g: A::Narrow,
    ops: Lossless<A::Narrow>,
    weak: Seq<Seq<A::Narrow>>,
    strong: Seq<Seq<A::Narrow>>,
    w: int,
    h: int,
    kernel: Seq<A::Narrow>,
    scale: A::Narrow,
    i: int,
)
    requires
        w >= 0,
        h >= 0,
        0 <= i < w * h,
        is_exact_gain(m, g, ops),
        frame_lossless(m, ops, weak, w, h, kernel),
        determinant_lossless(
            m,
            ops,
            crate::determinant::averaged_over(
                m,
                crate::determinant::structure_of(m, weak, (w * h) as nat),
                w,
                h,
                kernel,
            ),
            scale,
            i,
        ),
        forall|k: int, c: int|
            0 <= k < w * h && 0 <= c < 3 ==> #[trigger] strong[k][c] == (m.product)(
                g,
                weak[k][c],
            ),
    ensures
        ({
            let n = (w * h) as nat;
            let before = crate::determinant::averaged_over(
                m,
                crate::determinant::structure_of(m, weak, n),
                w,
                h,
                kernel,
            );
            let after = crate::determinant::averaged_over(
                m,
                crate::determinant::structure_of(m, strong, n),
                w,
                h,
                kernel,
            );
            crate::determinant::determinant_at(m, after, scale, i) == (m.product)(
                fourth_power(m, g),
                crate::determinant::determinant_at(m, before, scale, i),
            )
        }),
{
    let p = m.product;
    let n = (w * h) as nat;
    let square = second_power(m, g);
    let t = crate::determinant::structure_of(m, weak, n);
    let u = crate::determinant::structure_of(m, strong, n);
    assert forall|k: int| 0 <= k < n implies u.xx[k] == p(square, t.xx[k]) && u.xy[k] == p(
        square,
        t.xy[k],
    ) && u.yy[k] == p(square, t.yy[k]) by {
        assert(forall|c: int| 0 <= c < 3 ==> #[trigger] strong[k][c] == p(g, weak[k][c]));
        assert(products_lossless(m, ops, weak[k]));
        lemma_products_grow(m, g, ops, weak[k], strong[k]);
    }
    assert(u.xx =~= multiplied(m, square, t.xx));
    assert(u.xy =~= multiplied(m, square, t.xy));
    assert(u.yy =~= multiplied(m, square, t.yy));
    lemma_smoothing_grows(m, square, ops, t.xx, w, h, kernel);
    lemma_smoothing_grows(m, square, ops, t.xy, w, h, kernel);
    lemma_smoothing_grows(m, square, ops, t.yy, w, h, kernel);
    let before = crate::determinant::averaged_over(m, t, w, h, kernel);
    let after = crate::determinant::averaged_over(m, u, w, h, kernel);
    assert(determinant_lossless(m, ops, before, scale, i));
    let (a, b, c) = (
        p(before.xx[i], scale),
        p(before.xy[i], scale),
        p(before.yy[i], scale),
    );
    assert(after.xx[i] == p(square, before.xx[i]));
    assert(after.xy[i] == p(square, before.xy[i]));
    assert(after.yy[i] == p(square, before.yy[i]));
    assert(p(after.xx[i], scale) == p(square, a));
    assert(p(after.xy[i], scale) == p(square, b));
    assert(p(after.yy[i], scale) == p(square, c));
    assert(p(p(square, b), p(square, b)) == p(fourth_power(m, g), p(b, b)));
}

/// Where each kept value of one map is `f` of the kept value of another, the
/// results are `f` of one another.
proof fn lemma_filter_map_of_mapped<T>(
    places: Seq<int>,
    before: spec_fn(int) -> Option<T>,
    after: spec_fn(int) -> Option<T>,
    f: spec_fn(T) -> T,
)
    requires
        forall|k: int|
            0 <= k < places.len() ==> after(#[trigger] places[k]) == match before(places[k]) {
                Some(v) => Some(f(v)),
                None => None,
            },
    ensures
        places.filter_map(after) == places.filter_map(before).map_values(f),
    decreases places.len(),
{
    if places.len() > 0 {
        let rest = places.drop_last();
        assert forall|k: int| 0 <= k < rest.len() implies after(#[trigger] rest[k])
            == match before(rest[k]) {
            Some(v) => Some(f(v)),
            None => None,
        } by {
            assert(rest[k] == places[k]);
        }
        lemma_filter_map_of_mapped(rest, before, after, f);
        assert(places.last() == places[places.len() - 1]);
        assert(places.filter_map(after) =~= places.filter_map(before).map_values(f));
    } else {
        assert(places.filter_map(after) =~= places.filter_map(before).map_values(f));
    }
}

/// The determinants of a frame grow with the fourth power of the gain: a frame
/// with the gain `g` applied adds the same pixels to the distribution, each
/// determinant being the fourth power of `g` times what it was.
///
/// The stages are linear in the gain at this frame, the gain takes no sampled
/// pixel over the coverage threshold, and the sign of a determinant stays.
pub proof fn law_frame_determinants_grow_with_the_fourth_power<F: FlowStages>(
    s: StageSemantics<F>,
    g: F::Narrow,
    ops: Lossless<F::Narrow>,
    gray: ImageModel<F::Narrow>,
    params: &FarnebackParams<F::Param>,
)
    requires
        ({
            let m = s.arithmetic;
            let louder = crate::gain::scaled_image(m, gray, g);
            let level = (s.level_image)(gray, 0, params.pyr_scale);
            let louder_level = (s.level_image)(louder, 0, params.pyr_scale);
            let weak = (s.expansion)(level, params.poly_n, params.poly_sigma);
            let strong = (s.expansion)(louder_level, params.poly_n, params.poly_sigma);
            let (w, h) = (level.width as int, level.height as int);
            let grid = crate::determinant::pixel_grid(w, h);
            let kernel = crate::determinant::window_kernel(s, params);
            let scale = crate::determinant::window_scale(s, params);
            let averaged = crate::determinant::averaged_over(
                m,
                crate::determinant::structure_of(m, weak, (w * h) as nat),
                w,
                h,
                kernel,
            );
            &&& louder_level.width == level.width && louder_level.height == level.height
            &&& forall|k: int, c: int|
                0 <= k < w * h && 0 <= c < 3 ==> #[trigger] strong[k][c] == (m.product)(
                    g,
                    weak[k][c],
                )
            &&& is_exact_gain(m, g, ops)
            &&& frame_lossless(m, ops, weak, w, h, kernel)
            &&& forall|k: int|
                0 <= k < grid.len() ==> {
                    let i = #[trigger] grid[k];
                    let det = crate::determinant::determinant_at(m, averaged, scale, i);
                    &&& i < gray.data.len()
                    &&& determinant_lossless(m, ops, averaged, scale, i)
                    &&& crate::determinant::is_covered(m, (m.product)(gray.data[i], g))
                        == crate::determinant::is_covered(m, gray.data[i])
                    &&& crate::determinant::is_positive(m, (m.product)(fourth_power(m, g), det))
                        == crate::determinant::is_positive(m, det)
                }
        }),
    ensures
        crate::determinant::determinants_of(
            s,
            crate::gain::scaled_image(s.arithmetic, gray, g),
            params,
        ) == multiplied(
            s.arithmetic,
            fourth_power(s.arithmetic, g),
            crate::determinant::determinants_of(s, gray, params),
        ),
{
    let m = s.arithmetic;
    let louder = crate::gain::scaled_image(m, gray, g);
    let level = (s.level_image)(gray, 0, params.pyr_scale);
    let louder_level = (s.level_image)(louder, 0, params.pyr_scale);
    let weak = (s.expansion)(level, params.poly_n, params.poly_sigma);
    let strong = (s.expansion)(louder_level, params.poly_n, params.poly_sigma);
    let (w, h) = (level.width as int, level.height as int);
    let n = (w * h) as nat;
    let kernel = crate::determinant::window_kernel(s, params);
    let scale = crate::determinant::window_scale(s, params);
    let before = crate::determinant::averaged_over(
        m,
        crate::determinant::structure_of(m, weak, n),
        w,
        h,
        kernel,
    );
    let after = crate::determinant::averaged_over(
        m,
        crate::determinant::structure_of(m, strong, n),
        w,
        h,
        kernel,
    );
    let grid = crate::determinant::pixel_grid(w, h);
    let kept = crate::determinant::kept_determinant(m, gray.data, before, scale);
    let louder_kept = crate::determinant::kept_determinant(m, louder.data, after, scale);
    let f = |v: F::Narrow| (m.product)(fourth_power(m, g), v);
    crate::sampling::lemma_grid_in_range(w, h);
    assert forall|k: int| 0 <= k < grid.len() implies louder_kept(#[trigger] grid[k]) == match kept(
        grid[k],
    ) {
        Some(v) => Some(f(v)),
        None => None,
    } by {
        let i = grid[k];
        law_determinant_grows_with_the_fourth_power(
            m,
            g,
            ops,
            weak,
            strong,
            w,
            h,
            kernel,
            scale,
            i,
        );
        assert(louder.data[i] == (m.product)(gray.data[i], g));
        let det = crate::determinant::determinant_at(m, before, scale, i);
        assert(crate::determinant::determinant_at(m, after, scale, i) == f(det));
    }
    lemma_filter_map_of_mapped(grid, kept, louder_kept, f);
}

} // verus!
