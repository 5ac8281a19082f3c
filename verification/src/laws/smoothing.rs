//! The separable window average.
use vstd::prelude::*;

use crate::arithmetic::Arithmetic;
#[allow(unused_imports)]
use crate::arithmetic::Semantics;

verus! {

/// A tap never leaves the line that it runs along, however short the line and
/// however long the kernel.
pub proof fn law_taps_stay_on_the_line(pos: int, j: int, taps: int, last: int)
    requires
        0 <= pos <= last,
        0 <= j < taps,
    ensures
        0 <= crate::smooth::tap(pos, j, taps, last) <= last,
{
}

/// Borders are replicated: a tap reads its own position where that is on the
/// line, the first position where it would fall before the line, and the last
/// where it would fall behind it.
pub proof fn law_borders_are_replicated(pos: int, j: int, taps: int, last: int)
    requires
        0 <= pos <= last,
        0 <= j < taps,
    ensures
        ({
            let at = pos + j - taps / 2;
            let read = crate::smooth::tap(pos, j, taps, last);
            &&& 0 <= at <= last ==> read == at
            &&& at < 0 ==> read == 0
            &&& at > last ==> read == last
        }),
{
}

// ---------------------------------------------------------------------------
// The one result
// ---------------------------------------------------------------------------

/// The position on a line that ends at `last` whose sample stands for the one at
/// `at`: `at` itself where it is on the line, and the nearer end where it is not.
pub open spec fn replicated(at: int, last: int) -> int {
    if at < 0 {
        0
    } else if at > last {
        last
    } else {
        at
    }
}

/// After tap `j`, the sum at `(x, y)` across the row is the sum before it plus the
/// tap times the sample that it meets, `taps / 2` samples back for the first tap.
pub open spec fn adds_across<A: Arithmetic>(
    m: Semantics<A>,
    src: Seq<A::Narrow>,
    w: int,
    kernel: Seq<A::Narrow>,
    across: spec_fn(int, int, int) -> A::Narrow,
    x: int,
    y: int,
    j: int,
) -> bool {
    across(x, y, j + 1) == (m.mul_add)(
        src[y * w + replicated(x + j - kernel.len() / 2, w - 1)],
        kernel[j],
        across(x, y, j),
    )
}

/// The same down the column, over the whole sums across the rows.
pub open spec fn adds_down<A: Arithmetic>(
    m: Semantics<A>,
    h: int,
    kernel: Seq<A::Narrow>,
    across: spec_fn(int, int, int) -> A::Narrow,
    down: spec_fn(int, int, int) -> A::Narrow,
    x: int,
    y: int,
    j: int,
) -> bool {
    down(x, y, j + 1) == (m.mul_add)(
        across(x, replicated(y + j - kernel.len() / 2, h - 1), kernel.len() as int),
        kernel[j],
        down(x, y, j),
    )
}

/// `across` and `down` are the running sums of the two passes: they start from zero
/// and add one tap after the other.
pub open spec fn are_running_sums<A: Arithmetic>(
    m: Semantics<A>,
    src: Seq<A::Narrow>,
    w: int,
    h: int,
    kernel: Seq<A::Narrow>,
    across: spec_fn(int, int, int) -> A::Narrow,
    down: spec_fn(int, int, int) -> A::Narrow,
) -> bool {
    &&& forall|x: int, y: int|
        0 <= x < w && 0 <= y < h ==> #[trigger] across(x, y, 0) == (m.from_int)(0)
    &&& forall|x: int, y: int|
        0 <= x < w && 0 <= y < h ==> #[trigger] down(x, y, 0) == (m.from_int)(0)
    &&& forall|x: int, y: int, j: int|
        0 <= x < w && 0 <= y < h && 0 <= j < kernel.len() ==> #[trigger] adds_across(
            m,
            src,
            w,
            kernel,
            across,
            x,
            y,
            j,
        )
    &&& forall|x: int, y: int, j: int|
        0 <= x < w && 0 <= y < h && 0 <= j < kernel.len() ==> #[trigger] adds_down(
            m,
            h,
            kernel,
            across,
            down,
            x,
            y,
            j,
        )
}

/// `out` is the image of `w` by `h` that running sums over `src` end with.
pub open spec fn is_window_sum<A: Arithmetic>(
    m: Semantics<A>,
    src: Seq<A::Narrow>,
    w: int,
    h: int,
    kernel: Seq<A::Narrow>,
    out: Seq<A::Narrow>,
) -> bool {
    exists|across: spec_fn(int, int, int) -> A::Narrow, down: spec_fn(int, int, int) -> A::Narrow|
        #[trigger] are_running_sums(m, src, w, h, kernel, across, down) && ends_with(
            w,
            h,
            kernel.len() as int,
            down,
            out,
        )
}

/// Every pixel of `out` is the last of its running sums.
pub open spec fn ends_with<T>(
    w: int,
    h: int,
    taps: int,
    down: spec_fn(int, int, int) -> T,
    out: Seq<T>,
) -> bool {
    &&& out.len() == w * h
    &&& forall|x: int, y: int|
        0 <= x < w && 0 <= y < h ==> #[trigger] down(x, y, taps) == out[y * w + x]
}

/// Running sums across a row are the sums of its taps.
proof fn lemma_across<A: Arithmetic>(
    m: Semantics<A>,
    src: Seq<A::Narrow>,
    w: int,
    h: int,
    kernel: Seq<A::Narrow>,
    across: spec_fn(int, int, int) -> A::Narrow,
    down: spec_fn(int, int, int) -> A::Narrow,
    x: int,
    y: int,
    n: nat,
)
    requires
        are_running_sums(m, src, w, h, kernel, across, down),
        0 <= x < w,
        0 <= y < h,
        n <= kernel.len(),
    ensures
        across(x, y, n as int) == crate::smooth::tap_sum(
            m,
            src,
            y * w,
            1,
            x,
            w - 1,
            kernel,
            n,
        ),
    decreases n,
{
    if n > 0 {
        let rest = (n - 1) as nat;
        lemma_across(m, src, w, h, kernel, across, down, x, y, rest);
        assert(adds_across(m, src, w, kernel, across, x, y, rest as int));
    } else {
        assert(across(x, y, 0) == (m.from_int)(0));
    }
}

/// Running sums down a column are the sums of its taps over the smoothed rows.
proof fn lemma_down<A: Arithmetic>(
    m: Semantics<A>,
    src: Seq<A::Narrow>,
    w: int,
    h: int,
    kernel: Seq<A::Narrow>,
    across: spec_fn(int, int, int) -> A::Narrow,
    down: spec_fn(int, int, int) -> A::Narrow,
    x: int,
    y: int,
    n: nat,
)
    requires
        are_running_sums(m, src, w, h, kernel, across, down),
        0 <= x < w,
        0 <= y < h,
        n <= kernel.len(),
    ensures
        down(x, y, n as int) == crate::smooth::tap_sum(
            m,
            crate::smooth::rows_smoothed(m, src, w, h, kernel),
            x,
            w,
            y,
            h - 1,
            kernel,
            n,
        ),
    decreases n,
{
    if n > 0 {
        let rest = (n - 1) as nat;
        lemma_down(m, src, w, h, kernel, across, down, x, y, rest);
        assert(adds_down(m, h, kernel, across, down, x, y, rest as int));
        let r = replicated(y + rest - kernel.len() / 2, h - 1);
        lemma_across(m, src, w, h, kernel, across, down, x, r, kernel.len());
        crate::sampling::lemma_row_major(r, x, w);
        crate::sampling::lemma_pixel_in_range(r, x, w, h);
        assert(crate::smooth::rows_smoothed(m, src, w, h, kernel)[x + r * w] == across(
            x,
            r,
            kernel.len() as int,
        ));
    } else {
        assert(down(x, y, 0) == (m.from_int)(0));
    }
}

/// Smoothing has one result: the image that running sums end with, which add tap
/// after tap across each row and then down each column, with the samples beyond a
/// border replicated from it.
pub proof fn law_smoothing_is_the_window_sum<A: Arithmetic>(
    m: Semantics<A>,
    src: Seq<A::Narrow>,
    w: int,
    h: int,
    kernel: Seq<A::Narrow>,
    out: Seq<A::Narrow>,
)
    requires
        w >= 0,
        h >= 0,
    ensures
        is_window_sum(m, src, w, h, kernel, out) <==> out == crate::smooth::smoothed(
            m,
            src,
            w,
            h,
            kernel,
        ),
{
    let taps = kernel.len();
    let rows = crate::smooth::rows_smoothed(m, src, w, h, kernel);
    let smooth = crate::smooth::smoothed(m, src, w, h, kernel);
    assert(w * h >= 0) by (nonlinear_arith)
        requires
            w >= 0,
            h >= 0,
    ;
    if is_window_sum(m, src, w, h, kernel, out) {
        let (across, down) = choose|
            across: spec_fn(int, int, int) -> A::Narrow,
            down: spec_fn(int, int, int) -> A::Narrow,
        | #[trigger]
            are_running_sums(m, src, w, h, kernel, across, down) && ends_with(
                w,
                h,
                taps as int,
                down,
                out,
            );
        assert forall|i: int| 0 <= i < w * h implies out[i] == smooth[i] by {
            let (x, y) = (i % w, i / w);
            crate::sampling::lemma_pixel_place(w, h, i);
            vstd::arithmetic::div_mod::lemma_fundamental_div_mod(i, w);
            assert(y * w + x == i) by (nonlinear_arith)
                requires
                    i == w * y + x,
            ;
            lemma_down(m, src, w, h, kernel, across, down, x, y, taps);
            assert(down(x, y, taps as int) == out[y * w + x]);
        }
        assert(out =~= smooth);
    }
    if out == smooth {
        let across = |x: int, y: int, j: int|
            crate::smooth::tap_sum(m, src, y * w, 1, x, w - 1, kernel, j as nat);
        let down = |x: int, y: int, j: int|
            crate::smooth::tap_sum(m, rows, x, w, y, h - 1, kernel, j as nat);
        assert forall|x: int, y: int, j: int|
            0 <= x < w && 0 <= y < h && 0 <= j < taps implies #[trigger] adds_down(
            m,
            h,
            kernel,
            across,
            down,
            x,
            y,
            j,
        ) by {
            let r = replicated(y + j - taps / 2, h - 1);
            crate::sampling::lemma_row_major(r, x, w);
            crate::sampling::lemma_pixel_in_range(r, x, w, h);
        }
        assert(are_running_sums(m, src, w, h, kernel, across, down));
        assert forall|x: int, y: int| 0 <= x < w && 0 <= y < h implies #[trigger] down(
            x,
            y,
            taps as int,
        ) == out[y * w + x] by {
            crate::sampling::lemma_row_major(y, x, w);
            crate::sampling::lemma_pixel_in_range(y, x, w, h);
        }
        assert(ends_with(w, h, taps as int, down, out));
    }
}

// ---------------------------------------------------------------------------
// Operands
// ---------------------------------------------------------------------------

/// The operands of the window average: the samples, the taps and the sums on the
/// way, along the rows and then along the columns.
pub open spec fn sums_inside<A: Arithmetic>(
    m: Semantics<A>,
    inside: spec_fn(A::Narrow) -> bool,
    src: Seq<A::Narrow>,
    w: int,
    h: int,
    kernel: Seq<A::Narrow>,
) -> bool {
    let rows = crate::smooth::rows_smoothed(m, src, w, h, kernel);
    &&& forall|j: int| 0 <= j < kernel.len() ==> inside(#[trigger] kernel[j])
    &&& forall|i: int| 0 <= i < w * h ==> inside(#[trigger] src[i])
    &&& forall|i: int, n: nat|
        0 <= i < w * h && n <= kernel.len() ==> inside(
            #[trigger] crate::smooth::tap_sum(m, src, i / w * w, 1, i % w, w - 1, kernel, n),
        )
    &&& forall|i: int, n: nat|
        0 <= i < w * h && n <= kernel.len() ==> inside(
            #[trigger] crate::smooth::tap_sum(m, rows, i % w, w, i / w, h - 1, kernel, n),
        )
}

// ---------------------------------------------------------------------------
// Order
// ---------------------------------------------------------------------------

/// A non-negative tap keeps the order `le`: larger samples and a larger sum so far
/// give a larger sum, on the operands that are `inside`.
pub open spec fn taps_keep_order<A: Arithmetic>(
    m: Semantics<A>,
    le: spec_fn(A::Narrow, A::Narrow) -> bool,
    inside: spec_fn(A::Narrow) -> bool,
) -> bool {
    &&& le((m.from_int)(0), (m.from_int)(0))
    &&& forall|k: A::Narrow, a: A::Narrow, b: A::Narrow, x: A::Narrow, y: A::Narrow|
        #![trigger (m.mul_add)(a, k, x), (m.mul_add)(b, k, y)]
        inside(k) && inside(a) && inside(b) && inside(x) && inside(y) && le((m.from_int)(0), k)
            && le(a, b) && le(x, y) ==> le((m.mul_add)(a, k, x), (m.mul_add)(b, k, y))
}

/// One output sample of one pass over two ordered lines.
proof fn lemma_tap_sum_keeps_order<A: Arithmetic>(
    m: Semantics<A>,
    le: spec_fn(A::Narrow, A::Narrow) -> bool,
    inside: spec_fn(A::Narrow) -> bool,
    a: Seq<A::Narrow>,
    b: Seq<A::Narrow>,
    base: int,
    step: int,
    pos: int,
    last: int,
    kernel: Seq<A::Narrow>,
    n: nat,
)
    requires
        taps_keep_order(m, le, inside),
        0 <= last,
        0 <= base,
        0 <= step,
        base + last * step < a.len(),
        a.len() == b.len(),
        n <= kernel.len(),
        forall|i: int|
            #![trigger a[i]]
            #![trigger b[i]]
            0 <= i < a.len() ==> inside(a[i]) && inside(b[i]) && le(a[i], b[i]),
        forall|j: int|
            0 <= j < kernel.len() ==> inside(#[trigger] kernel[j]) && le(
                (m.from_int)(0),
                kernel[j],
            ),
        forall|q: nat|
            q <= kernel.len() ==> inside(
                #[trigger] crate::smooth::tap_sum(m, a, base, step, pos, last, kernel, q),
            ),
        forall|q: nat|
            q <= kernel.len() ==> inside(
                #[trigger] crate::smooth::tap_sum(m, b, base, step, pos, last, kernel, q),
            ),
    ensures
        le(
            crate::smooth::tap_sum(m, a, base, step, pos, last, kernel, n),
            crate::smooth::tap_sum(m, b, base, step, pos, last, kernel, n),
        ),
    decreases n,
{
    if n > 0 {
        let rest = (n - 1) as nat;
        lemma_tap_sum_keeps_order(m, le, inside, a, b, base, step, pos, last, kernel, rest);
        let t = crate::smooth::tap(pos, n - 1, kernel.len() as int, last);
        assert(0 <= t * step <= last * step) by (nonlinear_arith)
            requires
                0 <= t <= last,
                0 <= step,
        ;
        let at = base + t * step;
        let k = kernel[rest as int];
        let x = crate::smooth::tap_sum(m, a, base, step, pos, last, kernel, rest);
        let y = crate::smooth::tap_sum(m, b, base, step, pos, last, kernel, rest);
        assert(inside(a[at]) && inside(b[at]) && inside(k) && inside(x) && inside(y));
        assert(le((m.mul_add)(a[at], k, x), (m.mul_add)(b[at], k, y)));
    }
}

/// Smoothing with non-negative taps keeps the order of two images: where no pixel
/// of `a` is above that of `b`, no pixel is so afterwards.
pub proof fn law_smoothing_keeps_order<A: Arithmetic>(
    m: Semantics<A>,
    le: spec_fn(A::Narrow, A::Narrow) -> bool,
    inside: spec_fn(A::Narrow) -> bool,
    a: Seq<A::Narrow>,
    b: Seq<A::Narrow>,
    w: int,
    h: int,
    kernel: Seq<A::Narrow>,
    i: int,
)
    requires
        w >= 0,
        h >= 0,
        a.len() == w * h,
        b.len() == w * h,
        taps_keep_order(m, le, inside),
        sums_inside(m, inside, a, w, h, kernel),
        sums_inside(m, inside, b, w, h, kernel),
        forall|j: int| 0 <= j < kernel.len() ==> le((m.from_int)(0), #[trigger] kernel[j]),
        forall|k: int|
            #![trigger a[k]]
            #![trigger b[k]]
            0 <= k < w * h ==> le(a[k], b[k]),
        0 <= i < w * h,
    ensures
        le(
            crate::smooth::smoothed(m, a, w, h, kernel)[i],
            crate::smooth::smoothed(m, b, w, h, kernel)[i],
        ),
{
    let taps = kernel.len();
    let (p, q) = (
        crate::smooth::rows_smoothed(m, a, w, h, kernel),
        crate::smooth::rows_smoothed(m, b, w, h, kernel),
    );
    assert forall|k: int|
        #![trigger p[k]]
        #![trigger q[k]]
        0 <= k < p.len() implies inside(p[k]) && inside(q[k]) && le(p[k], q[k]) by {
        crate::sampling::lemma_pixel_place(w, h, k);
        crate::sampling::lemma_pixel_in_range(k / w, w - 1, w, h);
        let (base, pos) = (k / w * w, k % w);
        assert(inside(crate::smooth::tap_sum(m, a, base, 1, pos, w - 1, kernel, taps)));
        assert(inside(crate::smooth::tap_sum(m, b, base, 1, pos, w - 1, kernel, taps)));
        lemma_tap_sum_keeps_order(m, le, inside, a, b, base, 1, pos, w - 1, kernel, taps);
    }
    crate::sampling::lemma_pixel_place(w, h, i);
    crate::sampling::lemma_pixel_in_range(h - 1, i % w, w, h);
    lemma_tap_sum_keeps_order(m, le, inside, p, q, i % w, w, i / w, h - 1, kernel, taps);
}

/// An image of zeros, where a tap times zero added to zero is zero.
proof fn lemma_zeros_stay_zero<A: Arithmetic>(
    m: Semantics<A>,
    src: Seq<A::Narrow>,
    base: int,
    step: int,
    pos: int,
    last: int,
    kernel: Seq<A::Narrow>,
    n: nat,
)
    requires
        0 <= last,
        0 <= base,
        0 <= step,
        base + last * step < src.len(),
        n <= kernel.len(),
        forall|i: int| 0 <= i < src.len() ==> #[trigger] src[i] == (m.from_int)(0),
        forall|j: int|
            0 <= j < kernel.len() ==> (m.mul_add)(
                (m.from_int)(0),
                #[trigger] kernel[j],
                (m.from_int)(0),
            ) == (m.from_int)(0),
    ensures
        crate::smooth::tap_sum(m, src, base, step, pos, last, kernel, n) == (m.from_int)(0),
    decreases n,
{
    if n > 0 {
        let rest = (n - 1) as nat;
        lemma_zeros_stay_zero(m, src, base, step, pos, last, kernel, rest);
        let t = crate::smooth::tap(pos, n - 1, kernel.len() as int, last);
        assert(0 <= t * step <= last * step) by (nonlinear_arith)
            requires
                0 <= t <= last,
                0 <= step,
        ;
        assert(src[base + t * step] == (m.from_int)(0));
        assert((m.mul_add)((m.from_int)(0), kernel[rest as int], (m.from_int)(0)) == (m.from_int)(
            0,
        ));
    }
}

/// Smoothing a non-negative image with non-negative taps gives a non-negative
/// image.
pub proof fn law_smoothing_keeps_non_negative_images<A: Arithmetic>(
    m: Semantics<A>,
    le: spec_fn(A::Narrow, A::Narrow) -> bool,
    inside: spec_fn(A::Narrow) -> bool,
    src: Seq<A::Narrow>,
    w: int,
    h: int,
    kernel: Seq<A::Narrow>,
    i: int,
)
    requires
        w >= 0,
        h >= 0,
        src.len() == w * h,
        taps_keep_order(m, le, inside),
        inside((m.from_int)(0)),
        sums_inside(m, inside, src, w, h, kernel),
        forall|j: int|
            0 <= j < kernel.len() ==> le((m.from_int)(0), #[trigger] kernel[j]) && (m.mul_add)(
                (m.from_int)(0),
                kernel[j],
                (m.from_int)(0),
            ) == (m.from_int)(0),
        forall|k: int| 0 <= k < w * h ==> le((m.from_int)(0), #[trigger] src[k]),
        0 <= i < w * h,
    ensures
        le((m.from_int)(0), crate::smooth::smoothed(m, src, w, h, kernel)[i]),
{
    let taps = kernel.len();
    let zeros = Seq::new((w * h) as nat, |k: int| (m.from_int)(0));
    let rows = crate::smooth::rows_smoothed(m, zeros, w, h, kernel);
    assert forall|k: int, n: nat| 0 <= k < w * h && n <= taps implies
        #[trigger] crate::smooth::tap_sum(m, zeros, k / w * w, 1, k % w, w - 1, kernel, n) == (
    m.from_int)(0) by {
        crate::sampling::lemma_pixel_place(w, h, k);
        crate::sampling::lemma_pixel_in_range(k / w, w - 1, w, h);
        lemma_zeros_stay_zero(m, zeros, k / w * w, 1, k % w, w - 1, kernel, n);
    }
    assert(rows =~= zeros);
    assert forall|k: int, n: nat| 0 <= k < w * h && n <= taps implies
        #[trigger] crate::smooth::tap_sum(m, rows, k % w, w, k / w, h - 1, kernel, n) == (
    m.from_int)(0) by {
        crate::sampling::lemma_pixel_place(w, h, k);
        crate::sampling::lemma_pixel_in_range(h - 1, k % w, w, h);
        lemma_zeros_stay_zero(m, rows, k % w, w, k / w, h - 1, kernel, n);
    }
    law_smoothing_keeps_order(m, le, inside, zeros, src, w, h, kernel, i);
}

/// Three taps meet the samples before, at and behind each pixel, along its row and
/// then along its column.
pub proof fn law_three_taps<A: Arithmetic>(
    m: Semantics<A>,
    src: Seq<A::Narrow>,
    w: int,
    h: int,
    kernel: Seq<A::Narrow>,
    x: int,
    y: int,
)
    requires
        kernel.len() == 3,
        1 <= x < w - 1,
        1 <= y < h - 1,
    ensures
        ({
            let zero = (m.from_int)(0);
            let across = |r: int|
                (m.mul_add)(
                    src[r * w + (x + 1)],
                    kernel[2],
                    (m.mul_add)(
                        src[r * w + x],
                        kernel[1],
                        (m.mul_add)(src[r * w + (x - 1)], kernel[0], zero),
                    ),
                );
            crate::smooth::smoothed(m, src, w, h, kernel)[y * w + x] == (m.mul_add)(
                across(y + 1),
                kernel[2],
                (m.mul_add)(
                    across(y),
                    kernel[1],
                    (m.mul_add)(across(y - 1), kernel[0], zero),
                ),
            )
        }),
{
    let smooth = crate::smooth::smoothed(m, src, w, h, kernel);
    law_smoothing_is_the_window_sum(m, src, w, h, kernel, smooth);
    let (across, down) = choose|
        across: spec_fn(int, int, int) -> A::Narrow,
        down: spec_fn(int, int, int) -> A::Narrow,
    | #[trigger]
        are_running_sums(m, src, w, h, kernel, across, down) && ends_with(
            w,
            h,
            kernel.len() as int,
            down,
            smooth,
        );
    lemma_three_across(m, src, w, h, kernel, across, down, x, y - 1);
    lemma_three_across(m, src, w, h, kernel, across, down, x, y);
    lemma_three_across(m, src, w, h, kernel, across, down, x, y + 1);
    assert(down(x, y, 0) == (m.from_int)(0));
    assert(adds_down(m, h, kernel, across, down, x, y, 0));
    assert(adds_down(m, h, kernel, across, down, x, y, 1));
    assert(adds_down(m, h, kernel, across, down, x, y, 2));
    assert(down(x, y, 3) == smooth[y * w + x]);
}

/// Three taps along a row.
proof fn lemma_three_across<A: Arithmetic>(
    m: Semantics<A>,
    src: Seq<A::Narrow>,
    w: int,
    h: int,
    kernel: Seq<A::Narrow>,
    across: spec_fn(int, int, int) -> A::Narrow,
    down: spec_fn(int, int, int) -> A::Narrow,
    x: int,
    y: int,
)
    requires
        are_running_sums(m, src, w, h, kernel, across, down),
        kernel.len() == 3,
        1 <= x < w - 1,
        0 <= y < h,
    ensures
        across(x, y, 3) == (m.mul_add)(
            src[y * w + (x + 1)],
            kernel[2],
            (m.mul_add)(
                src[y * w + x],
                kernel[1],
                (m.mul_add)(src[y * w + (x - 1)], kernel[0], (m.from_int)(0)),
            ),
        ),
{
    assert(across(x, y, 0) == (m.from_int)(0));
    assert(adds_across(m, src, w, kernel, across, x, y, 0));
    assert(adds_across(m, src, w, kernel, across, x, y, 1));
    assert(adds_across(m, src, w, kernel, across, x, y, 2));
}

} // verus!
