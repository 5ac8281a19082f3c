//! Rows and columns are smoothed alike.
use vstd::prelude::*;

use crate::arithmetic::Arithmetic;
#[allow(unused_imports)]
use crate::arithmetic::Semantics;

verus! {

// ---------------------------------------------------------------------------
// Whole numbers
// ---------------------------------------------------------------------------

/// The numbers that are `whole` have the values `value`, and they are multiplied
/// and added without error as long as the magnitudes come to less than `limit`.
pub open spec fn is_exact_below<A: Arithmetic>(
    m: Semantics<A>,
    whole: spec_fn(A::Narrow) -> bool,
    value: spec_fn(A::Narrow) -> int,
    limit: int,
) -> bool {
    &&& whole((m.from_int)(0))
    &&& value((m.from_int)(0)) == 0
    &&& forall|a: A::Narrow, b: A::Narrow, c: A::Narrow|
        whole(a) && whole(b) && whole(c) && magnitude(value(a)) * magnitude(value(b)) + magnitude(
            value(c),
        ) < limit ==> {
            &&& whole(#[trigger] (m.mul_add)(a, b, c))
            &&& value((m.mul_add)(a, b, c)) == value(a) * value(b) + value(c)
        }
}

/// No two of the numbers that are `whole` have the same value.
pub open spec fn is_one_to_one<T>(whole: spec_fn(T) -> bool, value: spec_fn(T) -> int) -> bool {
    forall|a: T, b: T|
        whole(a) && whole(b) && #[trigger] value(a) == #[trigger] value(b) ==> a == b
}

/// The magnitude of an integer.
pub open spec fn magnitude(n: int) -> int {
    if n < 0 {
        -n
    } else {
        n
    }
}

/// The values of numbers.
pub open spec fn values<T>(value: spec_fn(T) -> int, s: Seq<T>) -> Seq<int> {
    s.map_values(value)
}

/// The magnitudes of the values of numbers.
pub open spec fn magnitudes<T>(value: spec_fn(T) -> int, s: Seq<T>) -> Seq<int> {
    s.map_values(|v: T| magnitude(value(v)))
}

// ---------------------------------------------------------------------------
// Weighted sums of integers
// ---------------------------------------------------------------------------

/// The first `n` taps of `kernel`, centred on `pos`, weighed and summed along the
/// line `f`, whose last position is `last`.
pub open spec fn line_sum(
    f: spec_fn(int) -> int,
    kernel: Seq<int>,
    pos: int,
    last: int,
    n: nat,
) -> int
    decreases n,
{
    if n == 0 {
        0
    } else {
        f(crate::laws::smoothing::replicated(pos + n - 1 - kernel.len() / 2, last)) * kernel[n
            - 1] + line_sum(
            f,
            kernel,
            pos,
            last,
            (n - 1) as nat,
        )
    }
}

/// The sum of the row of pixel `(x, y)` of an image that is `w` wide.
pub open spec fn row_sum(
    f: spec_fn(int, int) -> int,
    kernel: Seq<int>,
    x: int,
    y: int,
    w: int,
) -> int {
    line_sum(|c: int| f(c, y), kernel, x, w - 1, kernel.len())
}

/// The sum of the column of pixel `(x, y)` of an image that is `h` high.
pub open spec fn column_sum(
    f: spec_fn(int, int) -> int,
    kernel: Seq<int>,
    x: int,
    y: int,
    h: int,
) -> int {
    line_sum(|r: int| f(x, r), kernel, y, h - 1, kernel.len())
}

/// The sum of the row sums down the column of pixel `(x, y)`.
pub open spec fn window_sum(
    f: spec_fn(int, int) -> int,
    kernel: Seq<int>,
    x: int,
    y: int,
    w: int,
    h: int,
) -> int {
    line_sum(|r: int| row_sum(f, kernel, x, r, w), kernel, y, h - 1, kernel.len())
}

/// Lines that agree have the same sum.
proof fn lemma_same_lines(
    f: spec_fn(int) -> int,
    g: spec_fn(int) -> int,
    kernel: Seq<int>,
    pos: int,
    last: int,
    n: nat,
)
    requires
        0 <= last,
        forall|c: int| 0 <= c <= last ==> #[trigger] f(c) == g(c),
    ensures
        line_sum(f, kernel, pos, last, n) == line_sum(g, kernel, pos, last, n),
    decreases n,
{
    if n > 0 {
        lemma_same_lines(f, g, kernel, pos, last, (n - 1) as nat);
    }
}

/// The sum of a line that is one line plus `k` times another.
pub(crate) proof fn lemma_sum_of_lines(
    f: spec_fn(int) -> int,
    g: spec_fn(int) -> int,
    both: spec_fn(int) -> int,
    k: int,
    kernel: Seq<int>,
    pos: int,
    last: int,
    n: nat,
)
    requires
        0 <= last,
        forall|c: int| 0 <= c <= last ==> #[trigger] both(c) == g(c) * k + f(c),
    ensures
        line_sum(both, kernel, pos, last, n) == line_sum(g, kernel, pos, last, n) * k + line_sum(
            f,
            kernel,
            pos,
            last,
            n,
        ),
    decreases n,
{
    if n > 0 {
        lemma_sum_of_lines(f, g, both, k, kernel, pos, last, (n - 1) as nat);
        let t = crate::smooth::tap(pos, n - 1, kernel.len() as int, last);
        assert(both(t) == g(t) * k + f(t));
        let (a, b, q) = (g(t), f(t), kernel[n - 1]);
        let (x, y) = (
            line_sum(g, kernel, pos, last, (n - 1) as nat),
            line_sum(f, kernel, pos, last, (n - 1) as nat),
        );
        assert((a * k + b) * q + (x * k + y) == (a * q + x) * k + (b * q + y)) by (nonlinear_arith);
    } else {
        assert(0 * k == 0);
    }
}

/// The sums along rows and down a column can be taken in either order.
proof fn lemma_sums_exchange(
    f: spec_fn(int, int) -> int,
    kernel: Seq<int>,
    x: int,
    y: int,
    w: int,
    h: int,
    n: nat,
)
    requires
        w > 0,
        h > 0,
    ensures
        line_sum(|r: int| row_sum(f, kernel, x, r, w), kernel, y, h - 1, n) == line_sum(
            |c: int| line_sum(|r: int| f(c, r), kernel, y, h - 1, n),
            kernel,
            x,
            w - 1,
            kernel.len(),
        ),
    decreases n,
{
    let taps = kernel.len();
    let down = |c: int| line_sum(|r: int| f(c, r), kernel, y, h - 1, n);
    if n > 0 {
        let rest = (n - 1) as nat;
        lemma_sums_exchange(f, kernel, x, y, w, h, rest);
        let above = |c: int| line_sum(|r: int| f(c, r), kernel, y, h - 1, rest);
        let t = crate::smooth::tap(y, n - 1, taps as int, h - 1);
        let row = |c: int| f(c, t);
        lemma_sum_of_lines(above, row, down, kernel[n - 1], kernel, x, w - 1, taps);
    } else {
        lemma_zero_line(down, kernel, x, w - 1, taps);
    }
}

/// A line of zeros.
pub(crate) proof fn lemma_zero_line(f: spec_fn(int) -> int, kernel: Seq<int>, pos: int, last: int, n: nat)
    requires
        0 <= last,
        forall|c: int| 0 <= c <= last ==> #[trigger] f(c) == 0,
    ensures
        line_sum(f, kernel, pos, last, n) == 0,
    decreases n,
{
    if n > 0 {
        lemma_zero_line(f, kernel, pos, last, (n - 1) as nat);
        let q = kernel[n - 1];
        assert(0 * q == 0);
    }
}

/// A sum is bounded by the sum of the magnitudes, or of anything that bounds them.
proof fn lemma_bounded_by_magnitudes(
    f: spec_fn(int) -> int,
    bound: spec_fn(int) -> int,
    kernel: Seq<int>,
    weights: Seq<int>,
    pos: int,
    last: int,
    n: nat,
)
    requires
        0 <= last,
        n <= kernel.len(),
        kernel.len() == weights.len(),
        forall|j: int| 0 <= j < kernel.len() ==> #[trigger] weights[j] == magnitude(kernel[j]),
        forall|c: int| 0 <= c <= last ==> magnitude(f(c)) <= #[trigger] bound(c),
    ensures
        magnitude(line_sum(f, kernel, pos, last, n)) <= line_sum(bound, weights, pos, last, n),
    decreases n,
{
    if n > 0 {
        lemma_bounded_by_magnitudes(f, bound, kernel, weights, pos, last, (n - 1) as nat);
        let t = crate::smooth::tap(pos, n - 1, kernel.len() as int, last);
        lemma_bounded_product(f(t), bound(t), kernel[n - 1]);
        assert(weights[n - 1] == magnitude(kernel[n - 1]));
    }
}

/// The magnitude of a product.
pub(crate) proof fn lemma_bounded_product(a: int, bound: int, b: int)
    requires
        magnitude(a) <= bound,
    ensures
        magnitude(a * b) == magnitude(a) * magnitude(b) <= bound * magnitude(b),
{
    assert(magnitude(a * b) == magnitude(a) * magnitude(b)) by {
        assert((-a) * b == -(a * b)) by (nonlinear_arith);
        assert(a * (-b) == -(a * b)) by (nonlinear_arith);
        assert((-a) * (-b) == a * b) by (nonlinear_arith);
        assert(a >= 0 && b >= 0 ==> a * b >= 0) by (nonlinear_arith);
        assert(a <= 0 && b <= 0 ==> a * b >= 0) by (nonlinear_arith);
        assert(a <= 0 && b >= 0 ==> a * b <= 0) by (nonlinear_arith);
        assert(a >= 0 && b <= 0 ==> a * b <= 0) by (nonlinear_arith);
    }
    let (p, q) = (magnitude(a), magnitude(b));
    assert(p * q <= bound * q) by (nonlinear_arith)
        requires
            p <= bound,
            0 <= q,
    ;
}

/// A sum of numbers that are not negative grows with every tap.
proof fn lemma_grows_with_taps(
    f: spec_fn(int) -> int,
    weights: Seq<int>,
    pos: int,
    last: int,
    n: nat,
    more: nat,
)
    requires
        0 <= last,
        n <= more <= weights.len(),
        forall|j: int| 0 <= j < weights.len() ==> 0 <= #[trigger] weights[j],
        forall|c: int| 0 <= c <= last ==> 0 <= #[trigger] f(c),
    ensures
        line_sum(f, weights, pos, last, n) <= line_sum(f, weights, pos, last, more),
    decreases more,
{
    if n < more {
        lemma_grows_with_taps(f, weights, pos, last, n, (more - 1) as nat);
        let t = crate::smooth::tap(pos, more - 1, weights.len() as int, last);
        let (a, b) = (f(t), weights[more - 1]);
        assert(a * b >= 0) by (nonlinear_arith)
            requires
                a >= 0,
                b >= 0,
        ;
    }
}

// ---------------------------------------------------------------------------
// Exact smoothing
// ---------------------------------------------------------------------------

/// The values of the pixels of an image that is `w` wide, by column and row.
pub open spec fn pixel_values<T>(value: spec_fn(T) -> int, src: Seq<T>, w: int) -> spec_fn(
    int,
    int,
) -> int {
    |c: int, r: int| value(src[r * w + c])
}

/// The magnitudes of those values.
pub open spec fn pixel_magnitudes<T>(value: spec_fn(T) -> int, src: Seq<T>, w: int) -> spec_fn(
    int,
    int,
) -> int {
    |c: int, r: int| magnitude(value(src[r * w + c]))
}

/// The sums of pixel `(x, y)`, along its row, along its column and over its window,
/// are less than `limit`.
pub open spec fn pixel_sums_below(
    f: spec_fn(int, int) -> int,
    weights: Seq<int>,
    x: int,
    y: int,
    w: int,
    h: int,
    limit: int,
) -> bool {
    &&& row_sum(f, weights, x, y, w) < limit
    &&& column_sum(f, weights, x, y, h) < limit
    &&& window_sum(f, weights, x, y, w, h) < limit
}

/// The magnitudes of what is summed for any pixel, along its row, along its column
/// and over its window, come to less than `limit`.
pub open spec fn sums_below<T>(
    value: spec_fn(T) -> int,
    src: Seq<T>,
    w: int,
    h: int,
    kernel: Seq<T>,
    limit: int,
) -> bool {
    let f = pixel_magnitudes(value, src, w);
    let weights = magnitudes(value, kernel);
    forall|x: int, y: int|
        0 <= x < w && 0 <= y < h ==> #[trigger] pixel_sums_below(f, weights, x, y, w, h, limit)
}

/// Position `c` of the line `f` is the value of a whole number, the one that stands
/// there in `src`.
spec fn is_whole_at<T>(
    whole: spec_fn(T) -> bool,
    value: spec_fn(T) -> int,
    src: Seq<T>,
    base: int,
    step: int,
    f: spec_fn(int) -> int,
    c: int,
) -> bool {
    &&& whole(src[base + c * step])
    &&& f(c) == value(src[base + c * step])
}

/// One output sample of one pass over whole numbers.
proof fn lemma_line_is_exact<A: Arithmetic>(
    m: Semantics<A>,
    whole: spec_fn(A::Narrow) -> bool,
    value: spec_fn(A::Narrow) -> int,
    limit: int,
    src: Seq<A::Narrow>,
    base: int,
    step: int,
    pos: int,
    last: int,
    kernel: Seq<A::Narrow>,
    f: spec_fn(int) -> int,
    bound: spec_fn(int) -> int,
    n: nat,
)
    requires
        is_exact_below(m, whole, value, limit),
        0 <= last,
        n <= kernel.len(),
        forall|j: int| 0 <= j < kernel.len() ==> whole(#[trigger] kernel[j]),
        forall|c: int|
            0 <= c <= last ==> #[trigger] is_whole_at(whole, value, src, base, step, f, c),
        forall|c: int| 0 <= c <= last ==> magnitude(f(c)) <= #[trigger] bound(c),
        line_sum(bound, magnitudes(value, kernel), pos, last, kernel.len()) < limit,
    ensures
        ({
            let sum = crate::smooth::tap_sum(m, src, base, step, pos, last, kernel, n);
            &&& whole(sum)
            &&& value(sum) == line_sum(f, values(value, kernel), pos, last, n)
        }),
    decreases n,
{
    if n > 0 {
        let rest = (n - 1) as nat;
        lemma_line_is_exact(
            m,
            whole,
            value,
            limit,
            src,
            base,
            step,
            pos,
            last,
            kernel,
            f,
            bound,
            rest,
        );
        let taps = kernel.len();
        let weights = magnitudes(value, kernel);
        let t = crate::smooth::tap(pos, n - 1, taps as int, last);
        let a = src[base + t * step];
        let k = kernel[n - 1];
        let sum = crate::smooth::tap_sum(m, src, base, step, pos, last, kernel, rest);
        assert(is_whole_at(whole, value, src, base, step, f, t));
        lemma_bounded_by_magnitudes(f, bound, values(value, kernel), weights, pos, last, rest);
        lemma_bounded_product(f(t), bound(t), value(k));
        assert forall|c: int| 0 <= c <= last implies 0 <= #[trigger] bound(c) by {
            assert(magnitude(f(c)) <= bound(c));
        }
        lemma_grows_with_taps(bound, weights, pos, last, n, taps);
        assert(whole(k));
        assert(magnitude(value(a)) * magnitude(value(k)) + magnitude(value(sum)) < limit);
        assert(whole((m.mul_add)(a, k, sum)));
    }
}

/// On whole numbers whose sums stay exact, smoothing gives at each pixel the sum of
/// the samples in its window, each weighed with the tap of its column and the tap
/// of its row.
pub proof fn law_smoothing_of_whole_numbers<A: Arithmetic>(
    m: Semantics<A>,
    whole: spec_fn(A::Narrow) -> bool,
    value: spec_fn(A::Narrow) -> int,
    limit: int,
    src: Seq<A::Narrow>,
    w: int,
    h: int,
    kernel: Seq<A::Narrow>,
    x: int,
    y: int,
)
    requires
        is_exact_below(m, whole, value, limit),
        0 <= x < w,
        0 <= y < h,
        src.len() == w * h,
        forall|i: int| 0 <= i < src.len() ==> whole(#[trigger] src[i]),
        forall|j: int| 0 <= j < kernel.len() ==> whole(#[trigger] kernel[j]),
        sums_below(value, src, w, h, kernel, limit),
    ensures
        ({
            let out = crate::smooth::smoothed(m, src, w, h, kernel)[y * w + x];
            &&& whole(out)
            &&& value(out) == window_sum(
                pixel_values(value, src, w),
                values(value, kernel),
                x,
                y,
                w,
                h,
            )
        }),
{
    let taps = kernel.len();
    let f = pixel_values(value, src, w);
    let b = pixel_magnitudes(value, src, w);
    let weights = magnitudes(value, kernel);
    let k = values(value, kernel);
    let rows = crate::smooth::rows_smoothed(m, src, w, h, kernel);
    let down = |r: int| row_sum(f, k, x, r, w);
    let bound = |r: int| row_sum(b, weights, x, r, w);
    assert forall|r: int| 0 <= r <= h - 1 implies {
        &&& #[trigger] is_whole_at(whole, value, rows, x, w, down, r)
        &&& magnitude(down(r)) <= bound(r)
    } by {
        let along = |c: int| f(c, r);
        let most = |c: int| b(c, r);
        crate::sampling::lemma_row_major(r, x, w);
        crate::sampling::lemma_pixel_in_range(r, x, w, h);
        assert forall|c: int| 0 <= c <= w - 1 implies #[trigger] is_whole_at(
            whole,
            value,
            src,
            r * w,
            1,
            along,
            c,
        ) by {
            crate::sampling::lemma_pixel_in_range(r, c, w, h);
        }
        assert(pixel_sums_below(b, weights, x, r, w, h, limit));
        lemma_line_is_exact(
            m,
            whole,
            value,
            limit,
            src,
            r * w,
            1,
            x,
            w - 1,
            kernel,
            along,
            most,
            taps,
        );
        lemma_bounded_by_magnitudes(along, most, k, weights, x, w - 1, taps);
        assert(rows[r * w + x] == crate::smooth::tap_sum(
            m,
            src,
            r * w,
            1,
            x,
            w - 1,
            kernel,
            taps,
        ));
    }
    crate::sampling::lemma_row_major(y, x, w);
    crate::sampling::lemma_pixel_in_range(y, x, w, h);
    assert(pixel_sums_below(b, weights, x, y, w, h, limit));
    assert forall|r: int| 0 <= r <= h - 1 implies magnitude(down(r)) <= #[trigger] bound(r) by {
        assert(is_whole_at(whole, value, rows, x, w, down, r));
    }
    lemma_line_is_exact(
        m,
        whole,
        value,
        limit,
        rows,
        x,
        w,
        y,
        h - 1,
        kernel,
        down,
        bound,
        taps,
    );
}

// ---------------------------------------------------------------------------
// Transposition
// ---------------------------------------------------------------------------

/// An image of `w` by `h` with its rows written as columns: an image of `h` by
/// `w`.
pub open spec fn transposed<T>(src: Seq<T>, w: int, h: int) -> Seq<T> {
    Seq::new((w * h) as nat, |i: int| src[i % h * w + i / h])
}

/// Pixel `(x, y)` of an image stands at `(y, x)` of the transposed one.
proof fn lemma_transposed_pixel<T>(src: Seq<T>, w: int, h: int, x: int, y: int)
    requires
        0 <= x < w,
        0 <= y < h,
    ensures
        0 <= x * h + y < w * h,
        transposed(src, w, h)[x * h + y] == src[y * w + x],
{
    crate::sampling::lemma_row_major(x, y, h);
    crate::sampling::lemma_pixel_in_range(x, y, h, w);
    assert(h * w == w * h) by (nonlinear_arith);
}

/// The sums of a transposed image, where `f` and `g` are the pixels of the two.
proof fn lemma_transposed_sums(
    f: spec_fn(int, int) -> int,
    g: spec_fn(int, int) -> int,
    kernel: Seq<int>,
    x: int,
    y: int,
    w: int,
    h: int,
)
    requires
        0 <= x < w,
        0 <= y < h,
        forall|c: int, r: int| 0 <= c < w && 0 <= r < h ==> #[trigger] g(r, c) == f(c, r),
    ensures
        row_sum(g, kernel, y, x, h) == column_sum(f, kernel, x, y, h),
        column_sum(g, kernel, y, x, w) == row_sum(f, kernel, x, y, w),
        window_sum(g, kernel, y, x, h, w) == window_sum(f, kernel, x, y, w, h),
{
    let taps = kernel.len();
    lemma_same_lines(|c: int| g(c, x), |r: int| f(x, r), kernel, y, h - 1, taps);
    lemma_same_lines(|r: int| g(y, r), |c: int| f(c, y), kernel, x, w - 1, taps);
    let across = |c: int| line_sum(|r: int| f(c, r), kernel, y, h - 1, taps);
    let turned = |r: int| row_sum(g, kernel, y, r, h);
    assert forall|c: int| 0 <= c <= w - 1 implies #[trigger] turned(c) == across(c) by {
        lemma_same_lines(|q: int| g(q, c), |r: int| f(c, r), kernel, y, h - 1, taps);
    }
    lemma_same_lines(turned, across, kernel, x, w - 1, taps);
    lemma_sums_exchange(f, kernel, x, y, w, h, taps);
}

/// Smoothing treats rows and columns alike: on whole numbers whose sums stay
/// exact, smoothing the transposed image gives the transposed result.
pub proof fn law_smoothing_commutes_with_transposition<A: Arithmetic>(
    m: Semantics<A>,
    whole: spec_fn(A::Narrow) -> bool,
    value: spec_fn(A::Narrow) -> int,
    limit: int,
    src: Seq<A::Narrow>,
    w: int,
    h: int,
    kernel: Seq<A::Narrow>,
)
    requires
        w >= 0,
        h >= 0,
        src.len() == w * h,
        is_exact_below(m, whole, value, limit),
        forall|i: int| 0 <= i < src.len() ==> whole(#[trigger] src[i]),
        forall|j: int| 0 <= j < kernel.len() ==> whole(#[trigger] kernel[j]),
        sums_below(value, src, w, h, kernel, limit),
    ensures
        ({
            let turned = crate::smooth::smoothed(m, transposed(src, w, h), h, w, kernel);
            let straight = transposed(crate::smooth::smoothed(m, src, w, h, kernel), w, h);
            &&& values(value, turned) == values(value, straight)
            &&& is_one_to_one(whole, value) ==> turned == straight
        }),
{
    let side = transposed(src, w, h);
    let k = values(value, kernel);
    let weights = magnitudes(value, kernel);
    let (f, g) = (pixel_values(value, src, w), pixel_values(value, side, h));
    let (b, d) = (pixel_magnitudes(value, src, w), pixel_magnitudes(value, side, h));
    let turned = crate::smooth::smoothed(m, side, h, w, kernel);
    let smooth = crate::smooth::smoothed(m, src, w, h, kernel);
    let straight = transposed(smooth, w, h);
    assert(h * w == w * h) by (nonlinear_arith);
    assert(w * h >= 0) by (nonlinear_arith)
        requires
            w >= 0,
            h >= 0,
    ;
    assert forall|c: int, r: int| 0 <= c < w && 0 <= r < h implies #[trigger] g(r, c) == f(c, r)
        by {
        lemma_transposed_pixel(src, w, h, c, r);
    }
    assert forall|c: int, r: int| 0 <= c < w && 0 <= r < h implies #[trigger] d(r, c) == b(c, r)
        by {
        lemma_transposed_pixel(src, w, h, c, r);
    }
    assert forall|i: int| 0 <= i < side.len() implies whole(#[trigger] side[i]) by {
        crate::sampling::lemma_pixel_place(h, w, i);
        crate::sampling::lemma_pixel_in_range(i % h, i / h, w, h);
    }
    assert forall|y: int, x: int| 0 <= y < h && 0 <= x < w implies #[trigger] pixel_sums_below(
        d,
        weights,
        y,
        x,
        h,
        w,
        limit,
    ) by {
        lemma_transposed_sums(b, d, weights, x, y, w, h);
        assert(pixel_sums_below(b, weights, x, y, w, h, limit));
    }
    assert(sums_below(value, side, h, w, kernel, limit));
    assert forall|i: int| 0 <= i < w * h implies {
        &&& whole(#[trigger] turned[i])
        &&& whole(straight[i])
        &&& value(turned[i]) == value(straight[i])
    } by {
        crate::sampling::lemma_pixel_place(h, w, i);
        let (x, y) = (i / h, i % h);
        vstd::arithmetic::div_mod::lemma_fundamental_div_mod(i, h);
        assert(x * h + y == i) by (nonlinear_arith)
            requires
                i == h * x + y,
        ;
        lemma_transposed_pixel(smooth, w, h, x, y);
        law_smoothing_of_whole_numbers(m, whole, value, limit, src, w, h, kernel, x, y);
        law_smoothing_of_whole_numbers(m, whole, value, limit, side, h, w, kernel, y, x);
        lemma_transposed_sums(f, g, k, x, y, w, h);
    }
    assert(values(value, turned) =~= values(value, straight));
    if is_one_to_one(whole, value) {
        assert(turned =~= straight);
    }
}

} // verus!
