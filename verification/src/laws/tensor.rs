//! The structure tensor of a frame and its average.
use vstd::prelude::*;

use crate::arithmetic::Arithmetic;
#[allow(unused_imports)]
use crate::arithmetic::Semantics;
#[allow(unused_imports)]
use crate::determinant::TensorModel;

verus! {

/// `t` holds the structure tensor of the first `n` pixels of an expansion. With the
/// quadratic form `a`, `b`, `c` of a pixel, `b` being half the mixed coefficient, the
/// tensor is the square of the matrix of the form.
pub open spec fn is_tensor<A: Arithmetic>(
    m: Semantics<A>,
    expansion: Seq<Seq<A::Narrow>>,
    n: nat,
    t: TensorModel<A::Narrow>,
) -> bool {
    &&& t.xx.len() == n && t.xy.len() == n && t.yy.len() == n
    &&& forall|i: int|
        0 <= i < n ==> is_square_of(m, #[trigger] expansion[i], t.xx[i], t.xy[i], t.yy[i])
}

/// `xx`, `xy` and `yy` are the entries of the tensor of one pixel.
pub open spec fn is_square_of<A: Arithmetic>(
    m: Semantics<A>,
    p: Seq<A::Narrow>,
    xx: A::Narrow,
    xy: A::Narrow,
    yy: A::Narrow,
) -> bool {
    let a = p[0];
    let b = (m.product)(p[1], (m.quotient)((m.from_int)(1), (m.from_int)(2)));
    let c = p[2];
    &&& xx == (m.mul_add)(a, a, (m.product)(b, b))
    &&& xy == (m.mul_add)(b, a, (m.product)(b, c))
    &&& yy == (m.mul_add)(b, b, (m.product)(c, c))
}

/// There is one structure tensor: at each pixel the square of the symmetric matrix
/// of its quadratic form.
pub proof fn law_structure_tensor<A: Arithmetic>(
    m: Semantics<A>,
    expansion: Seq<Seq<A::Narrow>>,
    n: nat,
    t: TensorModel<A::Narrow>,
)
    ensures
        is_tensor(m, expansion, n, crate::determinant::structure_of(m, expansion, n)),
        is_tensor(m, expansion, n, t) ==> t == crate::determinant::structure_of(m, expansion, n),
{
    let own = crate::determinant::structure_of(m, expansion, n);
    assert forall|i: int| 0 <= i < n implies is_square_of(
        m,
        #[trigger] expansion[i],
        own.xx[i],
        own.xy[i],
        own.yy[i],
    ) by {}
    if is_tensor(m, expansion, n, t) {
        assert forall|i: int| 0 <= i < n implies t.xx[i] == own.xx[i] && t.xy[i] == own.xy[i]
            && t.yy[i] == own.yy[i] by {
            assert(is_square_of(m, expansion[i], t.xx[i], t.xy[i], t.yy[i]));
        }
        assert(t.xx =~= own.xx);
        assert(t.xy =~= own.xy);
        assert(t.yy =~= own.yy);
    }
}

/// Products, sums and negatives of the numbers that are `whole` have the values that
/// integers have.
pub open spec fn is_exact_on<A: Arithmetic>(
    m: Semantics<A>,
    whole: spec_fn(A::Narrow) -> bool,
    value: spec_fn(A::Narrow) -> int,
) -> bool {
    &&& forall|a: A::Narrow, b: A::Narrow|
        whole(a) && whole(b) ==> value(#[trigger] (m.product)(a, b)) == value(a) * value(b)
    &&& forall|a: A::Narrow, b: A::Narrow, c: A::Narrow|
        whole(a) && whole(b) && whole(c) ==> value(#[trigger] (m.mul_add)(a, b, c)) == value(a)
            * value(b) + value(c)
    &&& forall|a: A::Narrow| whole(a) ==> value(#[trigger] (m.negated)(a)) == -value(a)
}

/// The coefficients of a form, half the mixed one, and their products are whole.
pub open spec fn is_whole_form<A: Arithmetic>(
    m: Semantics<A>,
    whole: spec_fn(A::Narrow) -> bool,
    value: spec_fn(A::Narrow) -> int,
    p: Seq<A::Narrow>,
) -> bool {
    let b = (m.product)(p[1], (m.quotient)((m.from_int)(1), (m.from_int)(2)));
    &&& whole(p[0]) && whole(b) && whole(p[2])
    &&& whole((m.product)(b, b)) && whole((m.product)(b, p[2])) && whole((m.product)(p[2], p[2]))
    &&& 2 * value(b) == value(p[1])
}

/// On whole numbers the tensor of the form `r4 x^2 + r6 x y + r5 y^2` is
/// `4 xx = 4 r4^2 + r6^2`, `2 xy = r6 (r4 + r5)` and `4 yy = r6^2 + 4 r5^2`, and its
/// determinant is the square of the determinant of the form.
pub proof fn law_tensor_of_whole_numbers<A: Arithmetic>(
    m: Semantics<A>,
    whole: spec_fn(A::Narrow) -> bool,
    value: spec_fn(A::Narrow) -> int,
    expansion: Seq<Seq<A::Narrow>>,
    n: nat,
    i: int,
)
    requires
        0 <= i < n,
        is_exact_on(m, whole, value),
        is_whole_form(m, whole, value, expansion[i]),
    ensures
        ({
            let t = crate::determinant::structure_of(m, expansion, n);
            let (r4, r6, r5) = (
                value(expansion[i][0]),
                value(expansion[i][1]),
                value(expansion[i][2]),
            );
            let (xx, xy, yy) = (value(t.xx[i]), value(t.xy[i]), value(t.yy[i]));
            &&& 4 * xx == 4 * (r4 * r4) + r6 * r6
            &&& 2 * xy == r6 * (r4 + r5)
            &&& 4 * yy == r6 * r6 + 4 * (r5 * r5)
            &&& 16 * (xx * yy - xy * xy) == (4 * (r4 * r5) - r6 * r6) * (4 * (r4 * r5) - r6 * r6)
        }),
{
    let t = crate::determinant::structure_of(m, expansion, n);
    law_structure_tensor(m, expansion, n, t);
    assert(is_square_of(m, expansion[i], t.xx[i], t.xy[i], t.yy[i]));
    let half = (m.quotient)((m.from_int)(1), (m.from_int)(2));
    let (a, b, c) = (
        value(expansion[i][0]),
        value((m.product)(expansion[i][1], half)),
        value(expansion[i][2]),
    );
    let r = 2 * b;
    assert(r * r == 4 * (b * b)) by (nonlinear_arith)
        requires
            r == 2 * b,
    ;
    assert(r * (a + c) == 2 * (b * a + b * c)) by (nonlinear_arith)
        requires
            r == 2 * b,
    ;
    let (aa, bb, cc, ac, ba, bc) = (a * a, b * b, c * c, a * c, b * a, b * c);
    let (xx, xy, yy) = (aa + bb, ba + bc, bb + cc);
    assert(xx * yy == aa * bb + aa * cc + bb * bb + bb * cc) by (nonlinear_arith)
        requires
            xx == aa + bb,
            yy == bb + cc,
    ;
    assert(xy * xy == ba * ba + 2 * (ba * bc) + bc * bc) by (nonlinear_arith)
        requires
            xy == ba + bc,
    ;
    assert(ba * ba == aa * bb && bc * bc == bb * cc && ba * bc == ac * bb && aa * cc == ac * ac)
        by (nonlinear_arith)
        requires
            aa == a * a,
            bb == b * b,
            cc == c * c,
            ac == a * c,
            ba == b * a,
            bc == b * c,
    ;
    assert((4 * ac - 4 * bb) * (4 * ac - 4 * bb) == 16 * (ac * ac) - 32 * (ac * bb) + 16 * (bb
        * bb)) by (nonlinear_arith);
}

// ---------------------------------------------------------------------------
// The average
// ---------------------------------------------------------------------------

/// Every entry of the tensor is averaged over the window: xx, xy and yy each are
/// the window sum of that entry.
pub proof fn law_every_entry_is_averaged<A: Arithmetic>(
    m: Semantics<A>,
    tensor: TensorModel<A::Narrow>,
    w: int,
    h: int,
    kernel: Seq<A::Narrow>,
)
    requires
        w >= 0,
        h >= 0,
    ensures
        ({
            let averaged = crate::determinant::averaged_over(m, tensor, w, h, kernel);
            &&& crate::laws::smoothing::is_window_sum(m, tensor.xx, w, h, kernel, averaged.xx)
            &&& crate::laws::smoothing::is_window_sum(m, tensor.xy, w, h, kernel, averaged.xy)
            &&& crate::laws::smoothing::is_window_sum(m, tensor.yy, w, h, kernel, averaged.yy)
        }),
{
    let averaged = crate::determinant::averaged_over(m, tensor, w, h, kernel);
    crate::laws::smoothing::law_smoothing_is_the_window_sum(
        m,
        tensor.xx,
        w,
        h,
        kernel,
        averaged.xx,
    );
    crate::laws::smoothing::law_smoothing_is_the_window_sum(
        m,
        tensor.xy,
        w,
        h,
        kernel,
        averaged.xy,
    );
    crate::laws::smoothing::law_smoothing_is_the_window_sum(
        m,
        tensor.yy,
        w,
        h,
        kernel,
        averaged.yy,
    );
}

/// The samples of a tensor entry, and the sums over their windows, are whole numbers
/// that stay below `limit`.
pub open spec fn is_whole_entry<A: Arithmetic>(
    whole: spec_fn(A::Narrow) -> bool,
    value: spec_fn(A::Narrow) -> int,
    limit: int,
    entry: Seq<A::Narrow>,
    w: int,
    h: int,
    kernel: Seq<A::Narrow>,
) -> bool {
    &&& entry.len() == w * h
    &&& forall|i: int| 0 <= i < entry.len() ==> whole(#[trigger] entry[i])
    &&& crate::laws::transposition::sums_below(value, entry, w, h, kernel, limit)
}

/// On whole numbers whose sums stay exact, every averaged entry of a pixel is the
/// weighted sum of that entry over the window around the pixel.
pub proof fn law_averages_of_whole_numbers<A: Arithmetic>(
    m: Semantics<A>,
    whole: spec_fn(A::Narrow) -> bool,
    value: spec_fn(A::Narrow) -> int,
    limit: int,
    tensor: TensorModel<A::Narrow>,
    w: int,
    h: int,
    kernel: Seq<A::Narrow>,
    x: int,
    y: int,
)
    requires
        crate::laws::transposition::is_exact_below(m, whole, value, limit),
        0 <= x < w,
        0 <= y < h,
        forall|j: int| 0 <= j < kernel.len() ==> whole(#[trigger] kernel[j]),
        is_whole_entry::<A>(whole, value, limit, tensor.xx, w, h, kernel),
        is_whole_entry::<A>(whole, value, limit, tensor.xy, w, h, kernel),
        is_whole_entry::<A>(whole, value, limit, tensor.yy, w, h, kernel),
    ensures
        ({
            let averaged = crate::determinant::averaged_over(m, tensor, w, h, kernel);
            let weights = crate::laws::transposition::values(value, kernel);
            let i = y * w + x;
            &&& value(averaged.xx[i]) == crate::laws::transposition::window_sum(
                crate::laws::transposition::pixel_values(value, tensor.xx, w),
                weights,
                x,
                y,
                w,
                h,
            )
            &&& value(averaged.xy[i]) == crate::laws::transposition::window_sum(
                crate::laws::transposition::pixel_values(value, tensor.xy, w),
                weights,
                x,
                y,
                w,
                h,
            )
            &&& value(averaged.yy[i]) == crate::laws::transposition::window_sum(
                crate::laws::transposition::pixel_values(value, tensor.yy, w),
                weights,
                x,
                y,
                w,
                h,
            )
        }),
{
    crate::laws::transposition::law_smoothing_of_whole_numbers(
        m,
        whole,
        value,
        limit,
        tensor.xx,
        w,
        h,
        kernel,
        x,
        y,
    );
    crate::laws::transposition::law_smoothing_of_whole_numbers(
        m,
        whole,
        value,
        limit,
        tensor.xy,
        w,
        h,
        kernel,
        x,
        y,
    );
    crate::laws::transposition::law_smoothing_of_whole_numbers(
        m,
        whole,
        value,
        limit,
        tensor.yy,
        w,
        h,
        kernel,
        x,
        y,
    );
}

/// One-dimensional structure adds nothing: where the three entries of the tensor
/// are alike, so are their averages, and no determinant enters the distribution.
///
/// The square of a scaled average, less itself, is not above zero, as is so
/// wherever the square is exact.
pub proof fn law_one_dimensional_structure_adds_nothing<A: Arithmetic>(
    m: Semantics<A>,
    gray: Seq<A::Narrow>,
    w: int,
    h: int,
    tensor: TensorModel<A::Narrow>,
    kernel: Seq<A::Narrow>,
    scale: A::Narrow,
)
    requires
        w >= 0,
        h >= 0,
        tensor.xx == tensor.xy,
        tensor.xy == tensor.yy,
        forall|sums: Seq<A::Narrow>, i: int|
            #![trigger
                crate::laws::smoothing::is_window_sum(m, tensor.xx, w, h, kernel, sums),
                sums[i]
            ]
            crate::laws::smoothing::is_window_sum(m, tensor.xx, w, h, kernel, sums) && 0 <= i < w
                * h ==> {
                let v = (m.product)(sums[i], scale);
                !(m.less)((m.from_int)(0), (m.mul_add)(v, v, (m.negated)((m.product)(v, v))))
            },
    ensures
        crate::determinant::averaged_over(m, tensor, w, h, kernel).xx
            == crate::determinant::averaged_over(m, tensor, w, h, kernel).xy,
        crate::determinant::averaged_over(m, tensor, w, h, kernel).xy
            == crate::determinant::averaged_over(m, tensor, w, h, kernel).yy,
        crate::determinant::sampled_determinants(m, gray, w, h, tensor, kernel, scale)
            == Seq::<A::Narrow>::empty(),
{
    let averaged = crate::determinant::averaged_over(m, tensor, w, h, kernel);
    let grid = crate::determinant::pixel_grid(w, h);
    law_every_entry_is_averaged(m, tensor, w, h, kernel);
    crate::sampling::lemma_grid_in_range(w, h);
    assert forall|k: int|
        #![trigger crate::determinant::pixel_grid(w, h)[k]]
        0 <= k < crate::determinant::pixel_grid(w, h).len() implies !crate::determinant::is_covered(
        m,
        gray[crate::determinant::pixel_grid(w, h)[k]],
    ) || !crate::determinant::is_positive(
        m,
        crate::determinant::determinant_at(
            m,
            crate::determinant::averaged_over(m, tensor, w, h, kernel),
            scale,
            crate::determinant::pixel_grid(w, h)[k],
        ),
    ) by {
        let i = grid[k];
        assert(crate::laws::smoothing::is_window_sum(m, tensor.xx, w, h, kernel, averaged.xx));
        let v = (m.product)(averaged.xx[i], scale);
    }
    crate::laws::measurement::law_pixels_without_structure_add_nothing(
        m,
        gray,
        w,
        h,
        tensor,
        kernel,
        scale,
    );
}

/// The entries of the tensor of a pixel with the form `a`, `2 b`, `c`, each with one
/// product rounded and the other not: `a a + b b`, `b a + b c` and `b b + c c`.
pub proof fn law_entries_of_a_pixel<A: Arithmetic>(
    m: Semantics<A>,
    expansion: Seq<Seq<A::Narrow>>,
    n: nat,
    i: int,
)
    requires
        0 <= i < n,
    ensures
        ({
            let t = crate::determinant::structure_of(m, expansion, n);
            let half = (m.quotient)((m.from_int)(1), (m.from_int)(2));
            let (a, c) = (expansion[i][0], expansion[i][2]);
            let b = (m.product)(expansion[i][1], half);
            &&& t.xx[i] == (m.mul_add)(a, a, (m.product)(b, b))
            &&& t.xy[i] == (m.mul_add)(b, a, (m.product)(b, c))
            &&& t.yy[i] == (m.mul_add)(b, b, (m.product)(c, c))
        }),
{
}

} // verus!
