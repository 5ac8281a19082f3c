//! Which pixels of a frame are sampled.
use vstd::prelude::*;

verus! {

/// `s` is the least stride that leaves no more than the target of 65536 cells of
/// `s` by `s` pixels.
pub open spec fn is_stride(pixels: int, s: int) -> bool {
    &&& s >= 1
    &&& pixels <= 65_536 * (s * s)
    &&& s > 1 ==> pixels > 65_536 * ((s - 1) * (s - 1))
}

/// `places` lists, row by row and from left to right, the pixels of a frame of `w`
/// by `h` whose row and whose column are multiples of `s`.
pub open spec fn is_grid(w: int, h: int, s: int, places: Seq<int>) -> bool {
    &&& forall|i: int, j: int| 0 <= i < j < places.len() ==> places[i] < places[j]
    &&& forall|i: int| #[trigger]
        places.contains(i) <==> 0 <= i < w * h && (i / w) % s == 0 && (i % w) % s == 0
}

/// Two ascending lists of the same numbers are the same.
proof fn lemma_ascending_lists(a: Seq<int>, b: Seq<int>)
    requires
        forall|i: int, j: int| 0 <= i < j < a.len() ==> a[i] < a[j],
        forall|i: int, j: int| 0 <= i < j < b.len() ==> b[i] < b[j],
        forall|v: int| #[trigger] a.contains(v) <==> b.contains(v),
    ensures
        a == b,
    decreases a.len(),
{
    if a.len() == 0 {
        if b.len() > 0 {
            assert(b.contains(b[0]));
            assert(a.contains(b[0]));
        }
        assert(a =~= b);
    } else {
        assert(a.contains(a.last()));
        assert(b.contains(a.last()));
        assert(b.contains(b.last()));
        assert(a.contains(b.last()));
        let i = choose|i: int| 0 <= i < b.len() && b[i] == a.last();
        let j = choose|j: int| 0 <= j < a.len() && a[j] == b.last();
        assert(a.last() == b.last());
        let (c, d) = (a.drop_last(), b.drop_last());
        assert forall|v: int| #[trigger] c.contains(v) <==> d.contains(v) by {
            if c.contains(v) {
                let k = choose|k: int| 0 <= k < c.len() && c[k] == v;
                assert(a[k] == v && a.contains(v));
                let l = choose|l: int| 0 <= l < b.len() && b[l] == v;
                assert(d[l] == v);
            }
            if d.contains(v) {
                let k = choose|k: int| 0 <= k < d.len() && d[k] == v;
                assert(b[k] == v && b.contains(v));
                assert(a.contains(v));
                let l = choose|l: int| 0 <= l < a.len() && a[l] == v;
                assert(c[l] == v);
            }
        }
        lemma_ascending_lists(c, d);
        assert(a =~= c.push(a.last()));
        assert(b =~= d.push(b.last()));
    }
}

/// The sampled pixels are those whose row and whose column are multiples of the
/// stride, in reading order, and the stride is the least that keeps to the target.
pub proof fn law_sampled_pixels(w: int, h: int, s: int, places: Seq<int>)
    requires
        w >= 0,
        h >= 0,
        is_stride(w * h, s),
    ensures
        is_grid(w, h, s, crate::determinant::pixel_grid(w, h)),
        is_grid(w, h, s, places) ==> places == crate::determinant::pixel_grid(w, h),
{
    let grid = crate::determinant::pixel_grid(w, h);
    assert(crate::sampling::is_sample_stride(w * h, s));
    crate::sampling::law_sample_stride_is_unique(
        w * h,
        s,
        crate::sampling::sample_stride_of(w * h),
    );
    crate::sampling::lemma_grid_in_range(w, h);
    crate::sampling::lemma_grid_ascends(w, h, s);
    assert forall|i: int| #[trigger] grid.contains(i) <==> 0 <= i < w * h && (i / w) % s == 0 && (i
        % w) % s == 0 by {
        if grid.contains(i) {
            let k = choose|k: int| 0 <= k < grid.len() && grid[k] == i;
            assert(0 <= grid[k] < w * h);
        }
        if 0 <= i < w * h {
            crate::sampling::lemma_pixel_place(w, h, i);
            crate::sampling::law_grid_is_every_stride_th_pixel(w, h, s, i / w, i % w);
            vstd::arithmetic::div_mod::lemma_fundamental_div_mod(i, w);
            vstd::arithmetic::mul::lemma_mul_is_commutative(i / w, w);
        }
    }
    if is_grid(w, h, s, places) {
        assert forall|v: int| #[trigger] places.contains(v) <==> grid.contains(v) by {}
        lemma_ascending_lists(places, grid);
    }
}

/// Every frame has a stride.
pub proof fn law_every_frame_has_a_stride(pixels: int)
    ensures
        is_stride(pixels, crate::sampling::sample_stride_of(pixels)),
{
    crate::sampling::lemma_sample_stride_exists(pixels);
}

/// A pixel is sampled exactly where its row and its column are multiples of the least
/// stride `s` for which 65536 cells of `s` by `s` pixels cover the frame.
pub proof fn law_pixel_is_sampled(w: int, h: int, s: int, row: int, col: int)
    requires
        0 <= row < h,
        0 <= col < w,
        s >= 1,
        w * h <= 65_536 * (s * s),
        s > 1 ==> w * h > 65_536 * ((s - 1) * (s - 1)),
    ensures
        crate::determinant::pixel_grid(w, h).contains(row * w + col) <==> row % s == 0 && col % s
            == 0,
{
    law_sampled_pixels(w, h, s, crate::determinant::pixel_grid(w, h));
    crate::sampling::lemma_row_major(row, col, w);
    crate::sampling::lemma_pixel_in_range(row, col, w, h);
}

/// No pixel is sampled twice, and pixels come in reading order.
pub proof fn law_pixels_come_in_reading_order(w: int, h: int, i: int, j: int)
    requires
        w >= 0,
        h >= 0,
        0 <= i < j < crate::determinant::pixel_grid(w, h).len(),
    ensures
        0 <= crate::determinant::pixel_grid(w, h)[i] < crate::determinant::pixel_grid(w, h)[j] < w
            * h,
{
    let s = crate::sampling::sample_stride_of(w * h);
    law_every_frame_has_a_stride(w * h);
    law_sampled_pixels(w, h, s, crate::determinant::pixel_grid(w, h));
    crate::sampling::lemma_grid_in_range(w, h);
}

} // verus!
