//! What is measured: which frames of a sequence, how many of them at once, and
//! which pixels of each.
#[allow(unused_imports)]
use vstd::arithmetic::div_mod::*;
#[allow(unused_imports)]
use vstd::arithmetic::mul::*;
use vstd::prelude::*;

verus! {

/// Frames sampled to estimate the sequence's structure scale. Contrast is a
/// property of the material, not of an individual frame, so a handful spread
/// across the sequence is enough.
pub const SAMPLE_FRAMES: usize = 8;

/// Target number of determinant samples kept per frame; the spatial stride is
/// derived from it.
pub const SAMPLES_PER_FRAME: usize = 65_536;

/// Scratch-memory budget for the concurrent part of the measurement, in bytes.
pub const SCRATCH_BUDGET_BYTES: usize = 268_435_456;

/// Peak scratch bytes per pixel held by one frame in flight: the level image,
/// three product buffers, three smoothed outputs, and one transient row buffer
/// inside the separable pass, at four bytes each.
pub const SCRATCH_BYTES_PER_PX: usize = 32;

/// `x` held between `lo` and `hi`.
pub open spec fn clamped(x: int, lo: int, hi: int) -> int {
    if x < lo {
        lo
    } else if x > hi {
        hi
    } else {
        x
    }
}

// ---------------------------------------------------------------------------
// Concurrency
// ---------------------------------------------------------------------------

/// The number of frames of `pixels` pixels whose scratch memory fits the budget,
/// held between one and the number of frames that are sampled.
pub open spec fn frames_in_budget(pixels: int) -> int {
    let per_frame = if pixels * SCRATCH_BYTES_PER_PX < 1 {
        1
    } else {
        pixels * SCRATCH_BYTES_PER_PX
    };
    clamped(SCRATCH_BUDGET_BYTES as int / per_frame, 1, SAMPLE_FRAMES as int)
}

/// `a * b`, or the largest `usize` where that is larger.
pub(crate) fn saturating_product(a: usize, b: usize) -> (r: usize)
    ensures
        r == if a * b > usize::MAX {
            usize::MAX as int
        } else {
            a * b
        },
{
    match a.checked_mul(b) {
        Some(p) => p,
        None => usize::MAX,
    }
}

/// How many sampled frames to measure concurrently for a given frame size.
pub fn concurrent_frames(pixels: usize) -> (r: usize)
    ensures
        r == frames_in_budget(pixels as int),
        1 <= r <= SAMPLE_FRAMES,
        r > 1 ==> r * (pixels * SCRATCH_BYTES_PER_PX) <= SCRATCH_BUDGET_BYTES,
        r < SAMPLE_FRAMES ==> (r + 1) * (pixels * SCRATCH_BYTES_PER_PX) > SCRATCH_BUDGET_BYTES,
        1 <= r <= 8,
        r > 1 ==> r * (pixels * 32) <= 268_435_456,
        r < 8 ==> (r + 1) * (pixels * 32) > 268_435_456,
{
    let product: usize = saturating_product(pixels, SCRATCH_BYTES_PER_PX);
    let per_frame: usize = if product < 1 {
        1
    } else {
        product
    };
    let fitting: usize = SCRATCH_BUDGET_BYTES / per_frame;
    proof {
        let exact = pixels * SCRATCH_BYTES_PER_PX;
        if exact > usize::MAX {
            // Both the saturated and the exact size exceed the budget.
            assert(usize::MAX > SCRATCH_BUDGET_BYTES);
            assert(SCRATCH_BUDGET_BYTES as int / exact == 0) by {
                lemma_fundamental_div_mod_converse(
                    SCRATCH_BUDGET_BYTES as int,
                    exact,
                    0,
                    SCRATCH_BUDGET_BYTES as int,
                );
            }
            assert(SCRATCH_BUDGET_BYTES as int / per_frame as int == 0) by {
                lemma_fundamental_div_mod_converse(
                    SCRATCH_BUDGET_BYTES as int,
                    per_frame as int,
                    0,
                    SCRATCH_BUDGET_BYTES as int,
                );
            }
        }
    }
    let r: usize = if fitting < 1 {
        1
    } else if fitting > SAMPLE_FRAMES {
        SAMPLE_FRAMES
    } else {
        fitting
    };
    proof {
        lemma_frames_in_budget(pixels as int);
    }
    r
}

/// One frame more would not fit the budget, and where more than one is allowed
/// they do fit it.
proof fn lemma_frames_in_budget(pixels: int)
    requires
        pixels >= 0,
    ensures
        ({
            let n = frames_in_budget(pixels);
            let size = pixels * SCRATCH_BYTES_PER_PX;
            &&& n > 1 ==> n * size <= SCRATCH_BUDGET_BYTES
            &&& n < SAMPLE_FRAMES ==> (n + 1) * size > SCRATCH_BUDGET_BYTES
        }),
{
    let budget = SCRATCH_BUDGET_BYTES as int;
    let size = pixels * SCRATCH_BYTES_PER_PX;
    let n = frames_in_budget(pixels);
    if size > 0 {
        let fitting = budget / size;
        let rest = budget % size;
        lemma_fundamental_div_mod(budget, size);
        lemma_mod_bound(budget, size);
        assert(fitting >= 0) by (nonlinear_arith)
            requires
                budget == size * fitting + rest,
                0 <= rest < size,
                budget >= 0,
        ;
        if n > 1 {
            assert(n * size <= size * fitting) by (nonlinear_arith)
                requires
                    n <= fitting,
                    size > 0,
            ;
        }
        if n < SAMPLE_FRAMES {
            assert((n + 1) * size >= size * fitting + size) by (nonlinear_arith)
                requires
                    n >= fitting,
                    size > 0,
            ;
        }
    } else {
        assert(n * size == 0) by (nonlinear_arith)
            requires
                size == 0,
        ;
    }
}

/// Larger frames are never measured with more concurrency than smaller ones.
pub proof fn law_concurrency_falls_with_size(smaller: usize, larger: usize)
    requires
        smaller <= larger,
    ensures
        frames_in_budget(larger as int) <= frames_in_budget(smaller as int),
{
    let a = if smaller * SCRATCH_BYTES_PER_PX < 1 {
        1
    } else {
        smaller * SCRATCH_BYTES_PER_PX
    };
    let b = if larger * SCRATCH_BYTES_PER_PX < 1 {
        1
    } else {
        larger * SCRATCH_BYTES_PER_PX
    };
    lemma_div_is_ordered_by_denominator(SCRATCH_BUDGET_BYTES as int, a, b);
}

/// The frames in flight together stay inside the scratch budget, unless a single
/// frame already exceeds it; then frames are measured one at a time.
pub proof fn law_concurrency_keeps_to_budget(pixels: usize)
    ensures
        pixels * SCRATCH_BYTES_PER_PX <= SCRATCH_BUDGET_BYTES ==> frames_in_budget(pixels as int)
            * (pixels * SCRATCH_BYTES_PER_PX) <= SCRATCH_BUDGET_BYTES,
        pixels * SCRATCH_BYTES_PER_PX > SCRATCH_BUDGET_BYTES ==> frames_in_budget(pixels as int)
            == 1,
{
    let size = pixels * SCRATCH_BYTES_PER_PX;
    let n = frames_in_budget(pixels as int);
    lemma_frames_in_budget(pixels as int);
    if n > 1 {
        assert(n * size >= size) by (nonlinear_arith)
            requires
                n > 1,
                size >= 0,
        ;
    } else {
        assert(n * size == size) by (nonlinear_arith)
            requires
                n == 1,
        ;
    }
}

/// The end of the group of frames that starts at `start` of `len`: `group` frames
/// further on, or the end of all.
pub fn group_end(start: usize, len: usize, group: usize) -> (r: usize)
    requires
        start <= len,
    ensures
        r == if start + group < len {
            start + group
        } else {
            len as int
        },
{
    if len - start > group {
        start + group
    } else {
        len
    }
}

// ---------------------------------------------------------------------------
// Frames
// ---------------------------------------------------------------------------

/// How many frames of a sequence of `len` frames are sampled.
pub open spec fn sample_count(len: nat) -> nat {
    if len < SAMPLE_FRAMES {
        len
    } else {
        SAMPLE_FRAMES as nat
    }
}

/// The frame that sample number `i` of a sequence of `len` frames reads: sample
/// `i` of `count` stands at the fraction `i / count` of the sequence.
pub open spec fn sampled_frame(len: nat, i: int) -> int {
    i * len / sample_count(len) as int
}

/// The frames of a sequence of `len` frames that are sampled, in order.
pub open spec fn sampled_frames(len: nat) -> Seq<int> {
    Seq::new(sample_count(len), |i: int| sampled_frame(len, i))
}

/// A sampled frame is a frame of the sequence.
pub(crate) proof fn lemma_sampled_frame_in_range(len: nat, i: int)
    requires
        0 <= i < sample_count(len),
    ensures
        0 <= sampled_frame(len, i) < len,
{
    let count = sample_count(len) as int;
    lemma_fundamental_div_mod(i * len, count);
    lemma_mod_bound(i * len, count);
    let q = i * len / count;
    assert(0 <= i * len < count * len) by (nonlinear_arith)
        requires
            0 <= i < count,
            len > 0,
    ;
    assert(0 <= q < len) by (nonlinear_arith)
        requires
            i * len == count * q + (i * len) % count,
            0 <= (i * len) % count < count,
            0 <= i * len < count * len,
            count > 0,
    ;
}

/// Eight frames are sampled, or all where there are fewer, and sample `i` of
/// `count` is the last frame that is no further than the fraction `i / count` of
/// the way through the sequence.
pub proof fn law_samples_stand_at_their_fractions(len: nat, i: int)
    requires
        0 <= i < sample_count(len),
    ensures
        sample_count(len) == if len < 8 {
            len
        } else {
            8
        },
        sampled_frames(len).len() == sample_count(len),
        sampled_frames(len)[i] * sample_count(len) <= i * len,
        i * len < (sampled_frames(len)[i] + 1) * sample_count(len),
{
    let count = sample_count(len) as int;
    lemma_fundamental_div_mod(i * len, count);
    lemma_mod_bound(i * len, count);
    let q = i * len / count;
    assert(q * count <= i * len < (q + 1) * count) by (nonlinear_arith)
        requires
            i * len == count * q + (i * len) % count,
            0 <= (i * len) % count < count,
    ;
}

/// The indices of the frames to sample, spread across the whole sequence.
///
/// A constant step would fall to one for anything shorter than twice
/// `SAMPLE_FRAMES` and only ever look at the opening frames, while contrast
/// usually falls off toward the tail.
pub fn sample_indices(len: usize) -> (r: Vec<usize>)
    ensures
        r@.len() == sample_count(len as nat),
        r@.map_values(|i: usize| i as int) == sampled_frames(len as nat),
        r@.len() == if len < 8 {
            len
        } else {
            8
        },
        forall|k: int|
            0 <= k < r@.len() ==> #[trigger] r@[k] * r@.len() <= k * len < (r@[k] + 1) * r@.len(),
{
    let count: usize = if len < SAMPLE_FRAMES {
        len
    } else {
        SAMPLE_FRAMES
    };
    let mut out: Vec<usize> = Vec::new();
    if count == 0 {
        assert(out@.map_values(|i: usize| i as int) =~= sampled_frames(len as nat));
        return out;
    }
    let whole: usize = len / count;
    let rest: usize = len % count;
    let mut i: usize = 0;
    while i < count
        invariant
            count == sample_count(len as nat),
            0 < count <= SAMPLE_FRAMES,
            i <= count,
            whole == len / count,
            rest == len % count,
            out@.len() == i,
            forall|k: int| 0 <= k < i ==> #[trigger] out@[k] == sampled_frame(len as nat, k),
        decreases count - i,
    {
        proof {
            // i * len / count, without forming i * len.
            lemma_sampled_frame_in_range(len as nat, i as int);
            lemma_fundamental_div_mod(len as int, count as int);
            lemma_fundamental_div_mod(i * rest, count as int);
            lemma_mod_bound(i * rest, count as int);
            assert(i * rest <= 64) by (nonlinear_arith)
                requires
                    0 <= i <= 8,
                    0 <= rest <= 8,
            ;
            assert(i * rest >= 0) by (nonlinear_arith)
                requires
                    0 <= i,
                    0 <= rest,
            ;
            let q = (i * rest) / (count as int);
            assert(i * len == count * (i * whole + q) + (i * rest) % (count as int))
                by (nonlinear_arith)
                requires
                    len == count * whole + rest,
                    i * rest == count * q + (i * rest) % (count as int),
            ;
            lemma_fundamental_div_mod_converse(
                i * len,
                count as int,
                i * whole + q,
                (i * rest) % (count as int),
            );
            assert(sampled_frame(len as nat, i as int) == i * whole + q);
            assert(0 <= q) by (nonlinear_arith)
                requires
                    i * rest == count * q + (i * rest) % (count as int),
                    (i * rest) % (count as int) < count,
                    i * rest >= 0,
                    count > 0,
            ;
            assert(0 <= i * whole) by (nonlinear_arith)
                requires
                    0 <= i,
                    0 <= whole,
            ;
        }
        let index: usize = i * whole + i * rest / count;
        out.push(index);
        i = i + 1;
    }
    assert(out@.map_values(|i: usize| i as int) =~= sampled_frames(len as nat));
    assert forall|k: int| 0 <= k < out@.len() implies #[trigger] out@[k] * out@.len() <= k * len < (
    out@[k] + 1) * out@.len() by {
        law_samples_stand_at_their_fractions(len as nat, k);
    }
    out
}

/// The first frame is sampled, samples stand in strictly increasing order, and
/// two neighbours are a whole `len / count` apart or one frame more. So no frame
/// is measured twice and no stretch of the sequence is passed over.
pub proof fn law_samples_are_evenly_spread(len: nat, i: int)
    requires
        0 <= i < sample_count(len),
    ensures
        sampled_frame(len, 0) == 0,
        i + 1 < sample_count(len) ==> ({
            let gap = sampled_frame(len, i + 1) - sampled_frame(len, i);
            let even = len as int / sample_count(len) as int;
            &&& 1 <= even
            &&& even <= gap <= even + 1
        }),
{
    let count = sample_count(len) as int;
    assert(0int * len / count == 0) by {
        lemma_fundamental_div_mod_converse(0int * len, count, 0, 0);
    }
    if i + 1 < count {
        lemma_sum_of_quotients(i * len, len as int, count);
        assert((i + 1) * len == i * len + len) by (nonlinear_arith);
        lemma_div_is_ordered(count, len as int, count);
        assert(count / count == 1) by {
            lemma_fundamental_div_mod_converse(count, count, 1, 0);
        }
    }
}

/// The quotient of a sum is the sum of the quotients, or one more.
proof fn lemma_sum_of_quotients(a: int, b: int, d: int)
    requires
        d > 0,
    ensures
        a / d + b / d <= (a + b) / d <= a / d + b / d + 1,
{
    lemma_fundamental_div_mod(a, d);
    lemma_fundamental_div_mod(b, d);
    lemma_fundamental_div_mod(a + b, d);
    lemma_mod_bound(a, d);
    lemma_mod_bound(b, d);
    lemma_mod_bound(a + b, d);
    let (qa, qb, q) = (a / d, b / d, (a + b) / d);
    let (ra, rb, r) = (a % d, b % d, (a + b) % d);
    assert(qa + qb <= q <= qa + qb + 1) by (nonlinear_arith)
        requires
            a == d * qa + ra,
            b == d * qb + rb,
            a + b == d * q + r,
            0 <= ra < d,
            0 <= rb < d,
            0 <= r < d,
    ;
}

/// Every sequence is measured to its end: the stretch after the last sampled
/// frame is no longer than the widest gap between two samples.
pub proof fn law_samples_reach_the_tail(len: nat)
    requires
        len > 0,
    ensures
        len - sampled_frame(len, sample_count(len) - 1) <= len as int / sample_count(len) as int
            + 1,
{
    let count = sample_count(len) as int;
    let last = (count - 1) * len;
    lemma_sum_of_quotients(last, len as int, count);
    assert(last + len == count * len) by (nonlinear_arith)
        requires
            last == (count - 1) * len,
    ;
    assert((last + len) / count == len) by {
        lemma_fundamental_div_mod_converse(last + len, count, len as int, 0);
    }
}

/// A sequence no longer than the sample is measured whole.
pub proof fn law_short_sequences_are_measured_whole(len: nat, i: int)
    requires
        len <= SAMPLE_FRAMES,
        0 <= i < len,
    ensures
        sample_count(len) == len,
        sampled_frame(len, i) == i,
{
    assert(i * len / len as int == i) by {
        lemma_fundamental_div_mod_converse(i * len, len as int, i, 0);
    }
}

// ---------------------------------------------------------------------------
// Pixels
// ---------------------------------------------------------------------------

/// Whether `pixels` pixels make up no more than `SAMPLES_PER_FRAME` cells of `s`
/// by `s` pixels.
pub open spec fn stride_suffices(pixels: int, s: int) -> bool {
    pixels <= SAMPLES_PER_FRAME * (s * s)
}

/// `s` is the least positive stride that suffices: the square root of
/// `pixels / SAMPLES_PER_FRAME`, rounded up, and at least one.
pub open spec fn is_sample_stride(pixels: int, s: int) -> bool {
    &&& s >= 1
    &&& stride_suffices(pixels, s)
    &&& s > 1 ==> !stride_suffices(pixels, s - 1)
}

/// The sample stride of a frame of `pixels` pixels.
pub open spec fn sample_stride_of(pixels: int) -> int {
    choose|s: int| is_sample_stride(pixels, s)
}

/// There is only one sample stride.
pub proof fn law_sample_stride_is_unique(pixels: int, s: int, t: int)
    requires
        is_sample_stride(pixels, s),
        is_sample_stride(pixels, t),
    ensures
        s == t,
{
    if s < t {
        assert(s * s <= (t - 1) * (t - 1)) by (nonlinear_arith)
            requires
                1 <= s <= t - 1,
        ;
    } else if t < s {
        assert(t * t <= (s - 1) * (s - 1)) by (nonlinear_arith)
            requires
                1 <= t <= s - 1,
        ;
    }
}

/// The spatial stride for a frame of `pixels` pixels.
///
/// In double precision the square root of `pixels / SAMPLES_PER_FRAME`, rounded
/// up, is this same number for every frame of up to 2^52 pixels.
pub fn sample_stride(pixels: usize) -> (r: usize)
    ensures
        is_sample_stride(pixels as int, r as int),
        r == sample_stride_of(pixels as int),
        r >= 1,
        pixels <= 65_536 * (r * r),
        r > 1 ==> pixels > 65_536 * ((r - 1) * (r - 1)),
{
    let whole: usize = pixels / SAMPLES_PER_FRAME;
    let blocks: u64 = if pixels % SAMPLES_PER_FRAME == 0 {
        whole as u64
    } else {
        whole as u64 + 1
    };
    let mut s: u64 = 1;
    while s * s < blocks
        invariant
            1 <= s <= 0x0100_0000,
            blocks <= 0x0001_0000_0000_0000,
            s > 1 ==> (s - 1) * (s - 1) < blocks,
            s * s <= 0x0001_0000_0000_0000,
        decreases 0x0100_0000 - s,
    {
        assert(s < 0x0100_0000) by (nonlinear_arith)
            requires
                s * s < blocks,
                blocks <= 0x0001_0000_0000_0000,
                1 <= s <= 0x0100_0000,
        ;
        s = s + 1;
        assert(s * s <= 0x0001_0000_0000_0000) by (nonlinear_arith)
            requires
                1 <= s <= 0x0100_0000,
        ;
    }
    proof {
        let p = SAMPLES_PER_FRAME;
        // blocks is pixels / p rounded up, so comparing a square with blocks
        // compares p times the square with pixels.
        assert(pixels <= p * (s * s));
        if s > 1 {
            let t = (s - 1) * (s - 1);
            assert(p * t < pixels);
        }
        law_sample_stride_is_unique(pixels as int, s as int, sample_stride_of(pixels as int));
    }
    s as usize
}

/// How many of the positions `0, s, 2 * s, ..` lie below `extent`.
pub open spec fn steps_below(extent: int, s: int) -> nat {
    ((extent + s - 1) / s) as nat
}

/// The row-major indices of the pixels of a frame of `w` by `h` that are visited
/// with stride `s`: every `s`-th column of every `s`-th row, row by row.
pub open spec fn sample_grid(w: int, h: int, s: int) -> Seq<int> {
    let cols = steps_below(w, s);
    Seq::new(
        steps_below(h, s) * cols,
        |k: int| (k / cols as int) * s * w + (k % cols as int) * s,
    )
}

/// How many positions `0, s, 2 * s, ..` lie below `extent`.
pub(crate) fn step_count(extent: usize, s: usize) -> (r: usize)
    requires
        s > 0,
    ensures
        r == steps_below(extent as int, s as int),
{
    if extent == 0 {
        proof {
            lemma_fundamental_div_mod_converse(s - 1, s as int, 0, s - 1);
        }
        0
    } else {
        proof {
            let q = (extent - 1) / (s as int);
            lemma_fundamental_div_mod(extent - 1, s as int);
            lemma_mod_bound(extent - 1, s as int);
            let m = (extent - 1) % (s as int);
            assert(extent + s - 1 == (q + 1) * s + m) by (nonlinear_arith)
                requires
                    extent - 1 == s * q + m,
            ;
            lemma_fundamental_div_mod_converse(extent + s - 1, s as int, q + 1, m);
            assert(0 <= q <= extent - 1) by (nonlinear_arith)
                requires
                    extent - 1 == s * q + m,
                    0 <= m < s,
                    extent >= 1,
            ;
        }
        (extent - 1) / s + 1
    }
}

/// A step number below `steps_below` gives a position below the extent.
pub(crate) proof fn lemma_step_in_range(extent: int, s: int, r: int)
    requires
        s > 0,
        extent >= 0,
    ensures
        0 <= r < steps_below(extent, s) ==> 0 <= r * s < extent,
        r >= steps_below(extent, s) ==> r * s >= extent,
{
    let q = (extent + s - 1) / s;
    lemma_fundamental_div_mod(extent + s - 1, s);
    lemma_mod_bound(extent + s - 1, s);
    let m = (extent + s - 1) % s;
    assert(q >= 0) by (nonlinear_arith)
        requires
            extent + s - 1 == s * q + m,
            0 <= m < s,
            extent >= 0,
    ;
    if 0 <= r < q {
        assert(0 <= r * s <= s * (q - 1)) by (nonlinear_arith)
            requires
                0 <= r <= q - 1,
                s > 0,
        ;
        assert(s * (q - 1) == s * q - s) by (nonlinear_arith);
    }
    if r >= q {
        assert(r * s >= s * q) by (nonlinear_arith)
            requires
                r >= q,
                s > 0,
        ;
    }
}

/// A row-major index splits into its row and its column.
pub(crate) proof fn lemma_row_major(row: int, col: int, w: int)
    requires
        0 <= col < w,
        0 <= row,
    ensures
        (row * w + col) / w == row,
        (row * w + col) % w == col,
{
    lemma_fundamental_div_mod_converse(row * w + col, w, row, col);
}

/// A pixel inside a frame has an index inside it.
pub(crate) proof fn lemma_pixel_in_range(row: int, col: int, w: int, h: int)
    requires
        0 <= col < w,
        0 <= row < h,
    ensures
        0 <= row * w <= row * w + col < w * h,
        row * w + w <= w * h,
{
    assert(0 <= row * w && row * w + w <= w * h) by (nonlinear_arith)
        requires
            0 <= row < h,
            0 < w,
    ;
}

/// An index inside a frame has a row and a column inside it.
pub(crate) proof fn lemma_pixel_place(w: int, h: int, i: int)
    requires
        w >= 0,
        h >= 0,
        0 <= i < w * h,
    ensures
        0 <= i / w < h,
        0 <= i % w < w,
{
    lemma_mul_is_commutative(w, h);
    lemma_grid_place(h, w, i);
}

/// The grid entry of step `r` down and step `c` across.
pub(crate) proof fn lemma_grid_entry(w: int, h: int, s: int, r: int, c: int)
    requires
        s > 0,
        w >= 0,
        h >= 0,
        0 <= r < steps_below(h, s),
        0 <= c < steps_below(w, s),
    ensures
        0 <= r * s < h,
        0 <= c * s < w,
        0 <= r * steps_below(w, s) + c < sample_grid(w, h, s).len(),
        sample_grid(w, h, s)[r * steps_below(w, s) + c] == r * s * w + c * s,
        0 <= r * s * w <= r * s * w + c * s < w * h,
{
    let cols = steps_below(w, s) as int;
    lemma_step_in_range(h, s, r);
    lemma_step_in_range(w, s, c);
    lemma_pixel_in_range(r, c, cols, steps_below(h, s) as int);
    lemma_mul_is_commutative(cols, steps_below(h, s) as int);
    lemma_row_major(r, c, cols);
    lemma_pixel_in_range(r * s, c * s, w, h);
}

/// The grid holds the pixels whose row and whose column are multiples of the
/// stride, and no others.
pub proof fn law_grid_is_every_stride_th_pixel(w: int, h: int, s: int, row: int, col: int)
    requires
        s > 0,
        0 <= row < h,
        0 <= col < w,
    ensures
        sample_grid(w, h, s).contains(row * w + col) <==> row % s == 0 && col % s == 0,
{
    let grid = sample_grid(w, h, s);
    let cols = steps_below(w, s) as int;
    let rows = steps_below(h, s) as int;
    lemma_row_major(row, col, w);
    if row % s == 0 && col % s == 0 {
        let r = row / s;
        let c = col / s;
        lemma_fundamental_div_mod(row, s);
        lemma_fundamental_div_mod(col, s);
        lemma_mul_is_commutative(s, r);
        lemma_mul_is_commutative(s, c);
        assert(r >= 0 && c >= 0) by (nonlinear_arith)
            requires
                r * s >= 0,
                c * s >= 0,
                s > 0,
        ;
        lemma_step_in_range(h, s, r);
        lemma_step_in_range(w, s, c);
        lemma_grid_entry(w, h, s, r, c);
        assert(grid[r * cols + c] == row * w + col);
    }
    if grid.contains(row * w + col) {
        let k = choose|k: int| 0 <= k < grid.len() && grid[k] == row * w + col;
        lemma_grid_place(rows, cols, k);
        let r = k / cols;
        let c = k % cols;
        lemma_grid_entry(w, h, s, r, c);
        lemma_row_major(r * s, c * s, w);
        assert(row == r * s && col == c * s);
        lemma_fundamental_div_mod_converse(row, s, r, 0);
        lemma_fundamental_div_mod_converse(col, s, c, 0);
    }
}

/// Every sampled pixel lies in the frame.
pub(crate) proof fn lemma_grid_in_range(w: int, h: int)
    requires
        w >= 0,
        h >= 0,
    ensures
        ({
            let grid = sample_grid(w, h, sample_stride_of(w * h));
            forall|k: int| 0 <= k < grid.len() ==> 0 <= #[trigger] grid[k] < w * h
        }),
{
    lemma_sample_stride_exists(w * h);
    let s = sample_stride_of(w * h);
    let grid = sample_grid(w, h, s);
    let cols = steps_below(w, s) as int;
    let rows = steps_below(h, s) as int;
    assert forall|k: int| 0 <= k < grid.len() implies 0 <= #[trigger] grid[k] < w * h by {
        lemma_grid_place(rows, cols, k);
        lemma_grid_entry(w, h, s, k / cols, k % cols);
    }
}

/// The grid stands in reading order.
pub(crate) proof fn lemma_grid_ascends(w: int, h: int, s: int)
    requires
        w >= 0,
        h >= 0,
        s > 0,
    ensures
        forall|i: int, j: int|
            0 <= i < j < sample_grid(w, h, s).len() ==> sample_grid(w, h, s)[i] < sample_grid(
                w,
                h,
                s,
            )[j],
{
    let grid = sample_grid(w, h, s);
    let cols = steps_below(w, s) as int;
    let rows = steps_below(h, s) as int;
    assert forall|i: int, j: int| 0 <= i < j < grid.len() implies grid[i] < grid[j] by {
        lemma_grid_place(rows, cols, i);
        lemma_grid_place(rows, cols, j);
        let (a, b, c, d) = (i / cols, i % cols, j / cols, j % cols);
        lemma_grid_entry(w, h, s, a, b);
        lemma_grid_entry(w, h, s, c, d);
        assert(a <= c) by (nonlinear_arith)
            requires
                a * cols + b < c * cols + d,
                0 <= b < cols,
                0 <= d < cols,
        ;
        if a == c {
            assert(b * s < d * s) by (nonlinear_arith)
                requires
                    b < d,
                    s > 0,
            ;
        } else {
            assert(a * s + s <= c * s) by (nonlinear_arith)
                requires
                    a < c,
                    s > 0,
            ;
            let (p, q) = (a * s, c * s);
            assert(p * w + w <= q * w) by (nonlinear_arith)
                requires
                    p + 1 <= q,
                    w >= 0,
            ;
        }
    }
}

/// A place on a grid of `rows` by `cols` has a row and a column on it.
proof fn lemma_grid_place(rows: int, cols: int, k: int)
    requires
        rows >= 0,
        cols >= 0,
        0 <= k < rows * cols,
    ensures
        cols > 0,
        0 <= k / cols < rows,
        0 <= k % cols < cols,
        k == (k / cols) * cols + k % cols,
{
    assert(cols > 0) by (nonlinear_arith)
        requires
            0 <= k < rows * cols,
            rows >= 0,
            cols >= 0,
    ;
    let r = k / cols;
    let c = k % cols;
    lemma_fundamental_div_mod(k, cols);
    lemma_mod_bound(k, cols);
    assert(0 <= r < rows) by (nonlinear_arith)
        requires
            k == cols * r + c,
            0 <= c < cols,
            0 <= k < rows * cols,
    ;
    lemma_mul_is_commutative(r, cols);
}

/// A frame with no more pixels than the sample target is measured at every
/// pixel.
pub proof fn law_small_frames_are_measured_at_every_pixel(w: int, h: int, i: int)
    requires
        w >= 0,
        h >= 0,
        w * h <= SAMPLES_PER_FRAME,
        0 <= i < w * h,
    ensures
        sample_stride_of(w * h) == 1,
        sample_grid(w, h, 1).len() == w * h,
        sample_grid(w, h, 1)[i] == i,
{
    assert(is_sample_stride(w * h, 1));
    law_sample_stride_is_unique(w * h, 1, sample_stride_of(w * h));
    lemma_mul_is_commutative(w, h);
    assert(w > 0) by (nonlinear_arith)
        requires
            0 < w * h,
            w >= 0,
            h >= 0,
    ;
    lemma_fundamental_div_mod(i, w);
    lemma_mul_is_commutative(i / w, w);
}

/// The stride keeps the sample near its target: the cells that hold a full
/// stride along both axes number no more than `SAMPLES_PER_FRAME`.
pub proof fn law_full_cells_stay_within_the_target(w: int, h: int)
    requires
        w >= 0,
        h >= 0,
    ensures
        ({
            let s = sample_stride_of(w * h);
            s >= 1 && (w / s) * (h / s) <= SAMPLES_PER_FRAME
        }),
{
    lemma_sample_stride_exists(w * h);
    let s = sample_stride_of(w * h);
    let (a, b) = (w / s, h / s);
    lemma_fundamental_div_mod(w, s);
    lemma_fundamental_div_mod(h, s);
    lemma_mod_bound(w, s);
    lemma_mod_bound(h, s);
    let (ra, rb) = (w % s, h % s);
    assert(a >= 0 && b >= 0) by (nonlinear_arith)
        requires
            w == s * a + ra,
            h == s * b + rb,
            0 <= ra < s,
            0 <= rb < s,
            w >= 0,
            h >= 0,
    ;
    assert((s * a) * (s * b) <= w * h) by (nonlinear_arith)
        requires
            0 <= s * a <= w,
            0 <= s * b <= h,
    ;
    assert((s * a) * (s * b) == (a * b) * (s * s)) by (nonlinear_arith);
    assert(a * b <= SAMPLES_PER_FRAME) by (nonlinear_arith)
        requires
            (a * b) * (s * s) <= SAMPLES_PER_FRAME * (s * s),
            s >= 1,
    ;
}

/// Every frame has a sample stride.
pub(crate) proof fn lemma_sample_stride_exists(pixels: int)
    ensures
        is_sample_stride(pixels, sample_stride_of(pixels)),
{
    let bound = if pixels < 1 {
        1
    } else {
        pixels
    };
    assert(stride_suffices(pixels, bound)) by (nonlinear_arith)
        requires
            pixels <= bound,
            bound >= 1,
            stride_suffices(pixels, bound) == (pixels <= 65536 * (bound * bound)),
    ;
    lemma_least_stride(pixels, bound);
}

/// Below a stride that suffices there is a least one.
proof fn lemma_least_stride(pixels: int, s: int)
    requires
        s >= 1,
        stride_suffices(pixels, s),
    ensures
        exists|t: int| is_sample_stride(pixels, t),
    decreases s,
{
    if s > 1 && stride_suffices(pixels, s - 1) {
        lemma_least_stride(pixels, s - 1);
    } else {
        assert(is_sample_stride(pixels, s));
    }
}

} // verus!
