//! Separable convolution with replicated borders.
use vstd::prelude::*;

use crate::arithmetic::Arithmetic;
#[allow(unused_imports)]
use crate::arithmetic::Semantics;

verus! {

/// The position that tap `j` of a kernel of `taps` taps reads when the kernel is
/// centred on `pos`: `pos + j - taps / 2`, with undershoot pinned to the first
/// position and overshoot to the last.
pub open spec fn tap(pos: int, j: int, taps: int, last: int) -> int {
    crate::sampling::clamped(pos + j - taps / 2, 0, last)
}

/// The first `n` taps of `kernel`, centred on `pos`, weighed and summed from the
/// first tap on, along the line of samples that starts at `src[base]`, whose
/// neighbours are `step` apart, and whose last position is `last`.
pub open spec fn tap_sum<A: Arithmetic>(
    m: Semantics<A>,
    src: Seq<A::Narrow>,
    base: int,
    step: int,
    pos: int,
    last: int,
    kernel: Seq<A::Narrow>,
    n: nat,
) -> A::Narrow
    decreases n,
{
    if n == 0 {
        (m.from_int)(0)
    } else {
        (m.mul_add)(
            src[base + tap(pos, n - 1, kernel.len() as int, last) * step],
            kernel[n - 1],
            tap_sum(m, src, base, step, pos, last, kernel, (n - 1) as nat),
        )
    }
}

/// `kernel` run along the rows of an image of `w` by `h`.
pub open spec fn rows_smoothed<A: Arithmetic>(
    m: Semantics<A>,
    src: Seq<A::Narrow>,
    w: int,
    h: int,
    kernel: Seq<A::Narrow>,
) -> Seq<A::Narrow> {
    Seq::new(
        (w * h) as nat,
        |i: int| tap_sum(m, src, i / w * w, 1, i % w, w - 1, kernel, kernel.len()),
    )
}

/// `kernel` run along the columns of an image of `w` by `h`.
pub open spec fn columns_smoothed<A: Arithmetic>(
    m: Semantics<A>,
    src: Seq<A::Narrow>,
    w: int,
    h: int,
    kernel: Seq<A::Narrow>,
) -> Seq<A::Narrow> {
    Seq::new(
        (w * h) as nat,
        |i: int| tap_sum(m, src, i % w, w, i / w, h - 1, kernel, kernel.len()),
    )
}

/// `kernel` run along the rows of an image of `w` by `h`, then along the columns
/// of what that gives.
pub open spec fn smoothed<A: Arithmetic>(
    m: Semantics<A>,
    src: Seq<A::Narrow>,
    w: int,
    h: int,
    kernel: Seq<A::Narrow>,
) -> Seq<A::Narrow> {
    columns_smoothed(m, rows_smoothed(m, src, w, h, kernel), w, h, kernel)
}

/// The position that a kernel tap reads, pinned to the line at both ends.
pub fn tap_position(pos: usize, j: usize, taps: usize, last: usize) -> (r: usize)
    requires
        pos <= last,
    ensures
        r == tap(pos as int, j as int, taps as int, last as int),
{
    let half: usize = taps / 2;
    if j < half {
        pos.saturating_sub(half - j)
    } else {
        let ahead: usize = j - half;
        if ahead > last - pos {
            last
        } else {
            pos + ahead
        }
    }
}

/// One output sample of one pass.
fn weighted_taps<A: Arithmetic>(
    src: &[A::Narrow],
    base: usize,
    step: usize,
    pos: usize,
    last: usize,
    kernel: &[A::Narrow],
) -> (acc: A::Narrow)
    requires
        pos <= last,
        kernel.len() > 0 ==> base + last * step < src.len(),
    ensures
        forall|m: Semantics<A>| #[trigger]
            m.describes_narrow() ==> acc == tap_sum(
                m,
                src@,
                base as int,
                step as int,
                pos as int,
                last as int,
                kernel@,
                kernel@.len(),
            ),
{
    let mut acc: A::Narrow = A::from_int(0);
    let mut j: usize = 0;
    while j < kernel.len()
        invariant
            j <= kernel@.len(),
            pos <= last,
            kernel.len() > 0 ==> base + last * step < src.len(),
            forall|m: Semantics<A>| #[trigger]
                m.describes_narrow() ==> acc == tap_sum(
                    m,
                    src@,
                    base as int,
                    step as int,
                    pos as int,
                    last as int,
                    kernel@,
                    j as nat,
                ),
        decreases kernel@.len() - j,
    {
        let at: usize = tap_position(pos, j, kernel.len(), last);
        assert(0 <= at * step <= last * step) by (nonlinear_arith)
            requires
                0 <= at <= last,
                0 <= step,
        ;
        acc = A::mul_add(src[base + at * step], kernel[j], acc);
        j = j + 1;
    }
    acc
}

/// The direction in which a pass runs.
#[derive(Clone, Copy)]
enum Axis {
    Rows,
    Columns,
}

/// `kernel` run along one axis.
spec fn axis_smoothed<A: Arithmetic>(
    m: Semantics<A>,
    axis: Axis,
    src: Seq<A::Narrow>,
    w: int,
    h: int,
    kernel: Seq<A::Narrow>,
) -> Seq<A::Narrow> {
    match axis {
        Axis::Rows => rows_smoothed(m, src, w, h, kernel),
        Axis::Columns => columns_smoothed(m, src, w, h, kernel),
    }
}

/// One pass: `kernel` along one axis.
fn smooth_along<A: Arithmetic>(
    axis: Axis,
    src: &[A::Narrow],
    w: usize,
    h: usize,
    kernel: &[A::Narrow],
) -> (out: Vec<A::Narrow>)
    requires
        w * h <= usize::MAX,
        kernel.len() > 0 ==> w * h <= src.len(),
    ensures
        out@.len() == w * h,
        forall|m: Semantics<A>| #[trigger]
            m.describes_narrow() ==> out@ == axis_smoothed(
                m,
                axis,
                src@,
                w as int,
                h as int,
                kernel@,
            ),
{
    let mut out: Vec<A::Narrow> = Vec::new();
    let mut y: usize = 0;
    assert(0 * w == 0) by (nonlinear_arith);
    while y < h
        invariant
            y <= h,
            w * h <= usize::MAX,
            kernel.len() > 0 ==> w * h <= src.len(),
            out@.len() == y * w,
            forall|m: Semantics<A>, i: int|
                #![trigger m.describes_narrow(), out@[i]]
                m.describes_narrow() && 0 <= i < y * w ==> out@[i] == axis_smoothed(
                    m,
                    axis,
                    src@,
                    w as int,
                    h as int,
                    kernel@,
                )[i],
        decreases h - y,
    {
        let mut x: usize = 0;
        while x < w
            invariant
                y < h,
                x <= w,
                w * h <= usize::MAX,
                kernel.len() > 0 ==> w * h <= src.len(),
                out@.len() == y * w + x,
                forall|m: Semantics<A>, i: int|
                    #![trigger m.describes_narrow(), out@[i]]
                    m.describes_narrow() && 0 <= i < y * w + x ==> out@[i] == axis_smoothed(
                        m,
                        axis,
                        src@,
                        w as int,
                        h as int,
                        kernel@,
                    )[i],
            decreases w - x,
        {
            proof {
                crate::sampling::lemma_pixel_in_range(h - 1, x as int, w as int, h as int);
                crate::sampling::lemma_pixel_in_range(y as int, x as int, w as int, h as int);
                crate::sampling::lemma_row_major(y as int, x as int, w as int);
            }
            let sum: A::Narrow = match axis {
                Axis::Rows => weighted_taps::<A>(src, y * w, 1, x, w - 1, kernel),
                Axis::Columns => weighted_taps::<A>(src, x, w, y, h - 1, kernel),
            };
            out.push(sum);
            x = x + 1;
        }
        assert(y * w + w == (y + 1) * w) by (nonlinear_arith);
        y = y + 1;
    }
    assert(y * w == w * h) by (nonlinear_arith)
        requires
            y == h,
    ;
    assert forall|m: Semantics<A>| #[trigger] m.describes_narrow() implies out@ == axis_smoothed(
        m,
        axis,
        src@,
        w as int,
        h as int,
        kernel@,
    ) by {
        assert(out@ =~= axis_smoothed(m, axis, src@, w as int, h as int, kernel@));
    }
    out
}

/// Separable convolution with replicated borders, of any width, height and
/// kernel length: a row or a column may be shorter than the kernel. A kernel without
/// taps reads nothing and gives zeros.
pub fn smooth_separable<A: Arithmetic>(
    src: &[A::Narrow],
    w: usize,
    h: usize,
    kernel: &[A::Narrow],
) -> (out: Vec<A::Narrow>)
    requires
        w * h <= usize::MAX,
        kernel.len() > 0 ==> w * h <= src.len(),
    ensures
        out@.len() == w * h,
        forall|m: Semantics<A>| #[trigger]
            m.describes_narrow() ==> out@ == smoothed(m, src@, w as int, h as int, kernel@),
        forall|m: Semantics<A>| #[trigger]
            m.describes_narrow() ==> crate::laws::smoothing::is_window_sum(
                m,
                src@,
                w as int,
                h as int,
                kernel@,
                out@,
            ),
{
    let rows: Vec<A::Narrow> = smooth_along::<A>(Axis::Rows, src, w, h, kernel);
    let out: Vec<A::Narrow> = smooth_along::<A>(Axis::Columns, rows.as_slice(), w, h, kernel);
    assert forall|m: Semantics<A>| #[trigger]
        m.describes_narrow() implies crate::laws::smoothing::is_window_sum(
        m,
        src@,
        w as int,
        h as int,
        kernel@,
        out@,
    ) by {
        crate::laws::smoothing::law_smoothing_is_the_window_sum(
            m,
            src@,
            w as int,
            h as int,
            kernel@,
            out@,
        );
    }
    out
}

} // verus!
