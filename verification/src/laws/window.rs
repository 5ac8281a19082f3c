//! The averaging window.
use vstd::prelude::*;

use crate::arithmetic::Arithmetic;
#[allow(unused_imports)]
use crate::arithmetic::Semantics;
#[allow(unused_imports)]
use crate::image::FarnebackParams;
use crate::stages::FlowStages;
#[allow(unused_imports)]
use crate::stages::StageSemantics;

verus! {

/// The extent of a box window: what is asked for, and at least one.
pub open spec fn taps_of(winsize: u32) -> int {
    if winsize == 0 {
        1
    } else {
        winsize as int
    }
}

/// `kernel` and `scale` make up the averaging window that `params` ask for: the
/// Gaussian of their extent as it comes, or as many ones as the extent, at least
/// one, with the reciprocal of the area.
pub open spec fn is_window<F: FlowStages>(
    s: StageSemantics<F>,
    params: &FarnebackParams<F::Param>,
    kernel: Seq<F::Narrow>,
    scale: F::Narrow,
) -> bool {
    let m = s.arithmetic;
    if params.use_gaussian {
        &&& kernel == (s.gaussian)(params.winsize)
        &&& scale == (m.from_int)(1)
    } else {
        &&& kernel.len() == taps_of(params.winsize)
        &&& forall|j: int| 0 <= j < kernel.len() ==> #[trigger] kernel[j] == (m.from_int)(1)
        &&& scale == (m.quotient)(
            (m.from_int)(1),
            (m.from_int)((kernel.len() * kernel.len()) as u32),
        )
    }
}

/// There is one averaging window: a box of `max(winsize, 1)` taps, each one, whose
/// scale is the reciprocal of its area, or the Gaussian of `winsize` with the scale
/// one.
pub proof fn law_averaging_window<F: FlowStages>(
    s: StageSemantics<F>,
    params: &FarnebackParams<F::Param>,
    kernel: Seq<F::Narrow>,
    scale: F::Narrow,
)
    requires
        crate::determinant::window_fits(params),
    ensures
        is_window(
            s,
            params,
            crate::determinant::window_kernel(s, params),
            crate::determinant::window_scale(s, params),
        ),
        is_window(s, params, kernel, scale) ==> kernel == crate::determinant::window_kernel(
            s,
            params,
        ) && scale == crate::determinant::window_scale(s, params),
{
    let n = crate::determinant::window_extent(params.winsize);
    let own = crate::determinant::window_kernel(s, params);
    if !params.use_gaussian {
        assert(own.len() == n);
        assert(own.len() * own.len() == n * n);
        if is_window(s, params, kernel, scale) {
            assert(kernel =~= own);
        }
    }
}

/// A box window fits where its area is a `u32`, and a Gaussian one always does.
pub proof fn law_windows_that_fit<P>(params: &FarnebackParams<P>)
    ensures
        params.use_gaussian ==> crate::determinant::window_fits(params),
        params.winsize * params.winsize <= u32::MAX ==> crate::determinant::window_fits(params),
{
    assert(1 * 1 == 1);
}

/// The averaging window depends on its extent and its kind alone: the expansion and
/// the pyramid have no say in it.
pub proof fn law_window_depends_on_extent_and_kind<F: FlowStages>(
    s: StageSemantics<F>,
    these: &FarnebackParams<F::Param>,
    those: &FarnebackParams<F::Param>,
)
    requires
        these.winsize == those.winsize,
        these.use_gaussian == those.use_gaussian,
    ensures
        crate::determinant::window_kernel(s, these) == crate::determinant::window_kernel(s, those),
        crate::determinant::window_scale(s, these) == crate::determinant::window_scale(s, those),
{
}

/// A line of one number summed with ones is that number times the taps.
proof fn lemma_constant_line(
    f: spec_fn(int) -> int,
    c: int,
    kernel: Seq<int>,
    pos: int,
    last: int,
    n: nat,
)
    requires
        0 <= last,
        n <= kernel.len(),
        forall|k: int| 0 <= k <= last ==> #[trigger] f(k) == c,
        forall|j: int| 0 <= j < kernel.len() ==> #[trigger] kernel[j] == 1,
    ensures
        crate::laws::transposition::line_sum(f, kernel, pos, last, n) == c * n,
    decreases n,
{
    if n > 0 {
        lemma_constant_line(f, c, kernel, pos, last, (n - 1) as nat);
        assert(kernel[n - 1] == 1);
        assert(c * 1 + c * (n - 1) == c * n) by (nonlinear_arith);
    } else {
        assert(c * 0 == 0);
    }
}

/// A box window averages: on whole numbers whose sums stay exact, an image of one
/// level sums to the level times the area everywhere, and the scale, where the
/// division by the area is exact, brings it back to the level.
pub proof fn law_box_window_averages<F: FlowStages>(
    s: StageSemantics<F>,
    params: &FarnebackParams<F::Param>,
    whole: spec_fn(F::Narrow) -> bool,
    value: spec_fn(F::Narrow) -> int,
    limit: int,
    src: Seq<F::Narrow>,
    level: F::Narrow,
    w: int,
    h: int,
    x: int,
    y: int,
)
    requires
        !params.use_gaussian,
        crate::determinant::window_fits(params),
        crate::laws::transposition::is_exact_below(s.arithmetic, whole, value, limit),
        whole(level),
        whole((s.arithmetic.from_int)(1)),
        value((s.arithmetic.from_int)(1)) == 1,
        0 <= x < w,
        0 <= y < h,
        src.len() == w * h,
        forall|i: int| 0 <= i < src.len() ==> #[trigger] src[i] == level,
        crate::laws::transposition::sums_below(
            value,
            src,
            w,
            h,
            crate::determinant::window_kernel(s, params),
            limit,
        ),
    ensures
        ({
            let m = s.arithmetic;
            let n = taps_of(params.winsize);
            let sum = crate::smooth::smoothed(
                m,
                src,
                w,
                h,
                crate::determinant::window_kernel(s, params),
            )[y * w + x];
            &&& value(sum) == value(level) * (n * n)
            &&& (forall|v: F::Narrow|
                #[trigger] value(v) == value(level) * (n * n) ==> (m.product)(
                    v,
                    (m.quotient)((m.from_int)(1), (m.from_int)((n * n) as u32)),
                ) == level) ==> (m.product)(sum, crate::determinant::window_scale(s, params))
                == level
        }),
{
    let m = s.arithmetic;
    let kernel = crate::determinant::window_kernel(s, params);
    let scale = crate::determinant::window_scale(s, params);
    let n = kernel.len();
    assert(n == taps_of(params.winsize));
    law_averaging_window(s, params, kernel, scale);
    crate::laws::transposition::law_smoothing_of_whole_numbers(
        m,
        whole,
        value,
        limit,
        src,
        w,
        h,
        kernel,
        x,
        y,
    );
    let f = crate::laws::transposition::pixel_values(value, src, w);
    let ones = crate::laws::transposition::values(value, kernel);
    let c = value(level);
    let down = |r: int| crate::laws::transposition::row_sum(f, ones, x, r, w);
    assert forall|r: int| 0 <= r <= h - 1 implies #[trigger] down(r) == c * n by {
        let along = |k: int| f(k, r);
        assert forall|k: int| 0 <= k <= w - 1 implies #[trigger] along(k) == c by {
            crate::sampling::lemma_pixel_in_range(r, k, w, h);
            assert(src[r * w + k] == level);
        }
        lemma_constant_line(along, c, ones, x, w - 1, n);
    }
    lemma_constant_line(down, c * n, ones, y, h - 1, n);
    assert((c * n) * n == c * (n * n)) by (nonlinear_arith);
    let sum = crate::smooth::smoothed(m, src, w, h, kernel)[y * w + x];
    assert(value(sum) == c * (n * n));
}

/// A box window has `winsize` taps, and one where that is zero; each tap is one, and
/// the scale is one divided by the number of taps squared.
pub proof fn law_box_window<F: FlowStages>(
    s: StageSemantics<F>,
    params: &FarnebackParams<F::Param>,
    j: int,
)
    requires
        !params.use_gaussian,
        crate::determinant::window_fits(params),
    ensures
        params.winsize > 0 ==> crate::determinant::window_kernel(s, params).len() == params.winsize,
        params.winsize == 0 ==> crate::determinant::window_kernel(s, params).len() == 1,
        0 <= j < crate::determinant::window_kernel(s, params).len()
            ==> crate::determinant::window_kernel(s, params)[j] == (s.arithmetic.from_int)(1),
        ({
            let taps = crate::determinant::window_kernel(s, params).len();
            crate::determinant::window_scale(s, params) == (s.arithmetic.quotient)(
                (s.arithmetic.from_int)(1),
                (s.arithmetic.from_int)((taps * taps) as u32),
            )
        }),
{
    law_averaging_window(
        s,
        params,
        crate::determinant::window_kernel(s, params),
        crate::determinant::window_scale(s, params),
    );
}

/// The scale of a box window brings sums over it to averages: the number of taps
/// squared times the scale is one, where the reciprocal is exact.
pub proof fn law_box_scale_is_the_reciprocal_of_the_area<F: FlowStages>(
    s: StageSemantics<F>,
    params: &FarnebackParams<F::Param>,
)
    requires
        !params.use_gaussian,
        crate::determinant::window_fits(params),
        ({
            let m = s.arithmetic;
            let area = (m.from_int)(
                (taps_of(params.winsize) * taps_of(params.winsize)) as u32,
            );
            (m.product)(area, (m.quotient)((m.from_int)(1), area)) == (m.from_int)(1)
        }),
    ensures
        ({
            let m = s.arithmetic;
            let taps = crate::determinant::window_kernel(s, params).len();
            (m.product)(
                (m.from_int)((taps * taps) as u32),
                crate::determinant::window_scale(s, params),
            ) == (m.from_int)(1)
        }),
{
    law_averaging_window(
        s,
        params,
        crate::determinant::window_kernel(s, params),
        crate::determinant::window_scale(s, params),
    );
}

/// A Gaussian window is what the stage gives for `winsize`, and its sums are averages
/// as they come: the scale is one.
pub proof fn law_gaussian_window<F: FlowStages>(
    s: StageSemantics<F>,
    params: &FarnebackParams<F::Param>,
)
    requires
        params.use_gaussian,
    ensures
        crate::determinant::window_kernel(s, params) == (s.gaussian)(params.winsize),
        crate::determinant::window_scale(s, params) == (s.arithmetic.from_int)(1),
{
}

} // verus!
