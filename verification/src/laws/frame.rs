//! From a frame to its determinants.
use vstd::prelude::*;

use crate::arithmetic::Arithmetic;
#[allow(unused_imports)]
use crate::arithmetic::Semantics;
#[allow(unused_imports)]
use crate::determinant::TensorModel;
#[allow(unused_imports)]
use crate::image::{FarnebackParams, GrayImage, ImageModel};
use crate::stages::FlowStages;
#[allow(unused_imports)]
use crate::stages::StageSemantics;

verus! {

/// The determinant of a tensor whose entries are brought to averages by `scale`.
pub open spec fn determinant_from<A: Arithmetic>(
    m: Semantics<A>,
    xx: A::Narrow,
    xy: A::Narrow,
    yy: A::Narrow,
    scale: A::Narrow,
) -> A::Narrow {
    let mixed = (m.product)(xy, scale);
    (m.mul_add)(
        (m.product)(xx, scale),
        (m.product)(yy, scale),
        (m.negated)((m.product)(mixed, mixed)),
    )
}

/// A determinant counts where the gray level is not below two and the determinant
/// is above zero.
pub open spec fn counts<A: Arithmetic>(
    m: Semantics<A>,
    level: A::Narrow,
    det: A::Narrow,
) -> bool {
    !(m.less)(level, (m.from_int)(2)) && (m.less)((m.from_int)(0), det)
}

/// `out` is the list of the determinants that count of the pixels `places`, in that
/// order.
pub open spec fn lists<A: Arithmetic>(
    m: Semantics<A>,
    gray: Seq<A::Narrow>,
    averaged: TensorModel<A::Narrow>,
    scale: A::Narrow,
    places: Seq<int>,
    out: Seq<A::Narrow>,
) -> bool
    decreases places.len(),
{
    if places.len() == 0 {
        out.len() == 0
    } else {
        let i = places.last();
        let det = determinant_from(m, averaged.xx[i], averaged.xy[i], averaged.yy[i], scale);
        if counts(m, gray[i], det) {
            out.len() > 0 && out.last() == det && lists(
                m,
                gray,
                averaged,
                scale,
                places.drop_last(),
                out.drop_last(),
            )
        } else {
            lists(m, gray, averaged, scale, places.drop_last(), out)
        }
    }
}

/// `averaged` holds the window sums of each entry of `tensor`.
pub open spec fn is_average<A: Arithmetic>(
    m: Semantics<A>,
    tensor: TensorModel<A::Narrow>,
    w: int,
    h: int,
    kernel: Seq<A::Narrow>,
    averaged: TensorModel<A::Narrow>,
) -> bool {
    &&& crate::laws::smoothing::is_window_sum(m, tensor.xx, w, h, kernel, averaged.xx)
    &&& crate::laws::smoothing::is_window_sum(m, tensor.xy, w, h, kernel, averaged.xy)
    &&& crate::laws::smoothing::is_window_sum(m, tensor.yy, w, h, kernel, averaged.yy)
}

/// `out` is a measurement of a frame with the structure tensor `tensor`: the
/// determinants that count of the window-averaged tensor, at the pixels of the
/// sample grid.
pub open spec fn is_measurement<A: Arithmetic>(
    m: Semantics<A>,
    gray: Seq<A::Narrow>,
    w: int,
    h: int,
    tensor: TensorModel<A::Narrow>,
    kernel: Seq<A::Narrow>,
    scale: A::Narrow,
    out: Seq<A::Narrow>,
) -> bool {
    exists|averaged: TensorModel<A::Narrow>, stride: int, places: Seq<int>|
        #![trigger
            is_average(m, tensor, w, h, kernel, averaged),
            crate::laws::pixels::is_grid(w, h, stride, places)
        ]
        is_average(m, tensor, w, h, kernel, averaged) && crate::laws::pixels::is_stride(
            w * h,
            stride,
        ) && crate::laws::pixels::is_grid(w, h, stride, places) && lists(
            m,
            gray,
            averaged,
            scale,
            places,
            out,
        )
}

/// What is listed is what is kept.
proof fn lemma_lists<A: Arithmetic>(
    m: Semantics<A>,
    gray: Seq<A::Narrow>,
    averaged: TensorModel<A::Narrow>,
    scale: A::Narrow,
    places: Seq<int>,
    out: Seq<A::Narrow>,
)
    ensures
        lists(m, gray, averaged, scale, places, out) <==> out == places.filter_map(
            crate::determinant::kept_determinant(m, gray, averaged, scale),
        ),
    decreases places.len(),
{
    let kept = crate::determinant::kept_determinant(m, gray, averaged, scale);
    if places.len() == 0 {
        assert(places.filter_map(kept) =~= Seq::<A::Narrow>::empty());
        if out.len() == 0 {
            assert(out =~= Seq::<A::Narrow>::empty());
        }
    } else {
        let rest = places.drop_last();
        let i = places.last();
        let det = determinant_from(m, averaged.xx[i], averaged.xy[i], averaged.yy[i], scale);
        let before = rest.filter_map(kept);
        if counts(m, gray[i], det) {
            assert(kept(i) == Some(det));
            assert(places.filter_map(kept) =~= before.push(det));
            lemma_lists(m, gray, averaged, scale, rest, out.drop_last());
            if out.len() > 0 && out.last() == det && out.drop_last() == before {
                assert(out =~= before.push(det));
            }
            if out == before.push(det) {
                assert(out.drop_last() =~= before);
            }
        } else {
            assert(kept(i) == None::<A::Narrow>);
            assert(places.filter_map(kept) =~= before);
            lemma_lists(m, gray, averaged, scale, rest, out);
        }
    }
}

/// A frame has one measurement: at every `stride`-th pixel of every `stride`-th row,
/// in reading order, the determinant of the tensor whose three entries are averaged
/// over the window, where it is above zero and the pixel is covered.
pub proof fn law_measurement<A: Arithmetic>(
    m: Semantics<A>,
    gray: Seq<A::Narrow>,
    w: int,
    h: int,
    tensor: TensorModel<A::Narrow>,
    kernel: Seq<A::Narrow>,
    scale: A::Narrow,
    out: Seq<A::Narrow>,
)
    requires
        w >= 0,
        h >= 0,
    ensures
        is_measurement(m, gray, w, h, tensor, kernel, scale, out) <==> out
            == crate::determinant::sampled_determinants(m, gray, w, h, tensor, kernel, scale),
{
    let own = crate::determinant::averaged_over(m, tensor, w, h, kernel);
    let grid = crate::determinant::pixel_grid(w, h);
    let s = crate::sampling::sample_stride_of(w * h);
    crate::laws::tensor::law_every_entry_is_averaged(m, tensor, w, h, kernel);
    crate::laws::pixels::law_every_frame_has_a_stride(w * h);
    crate::laws::pixels::law_sampled_pixels(w, h, s, grid);
    lemma_lists(m, gray, own, scale, grid, out);
    if is_measurement(m, gray, w, h, tensor, kernel, scale, out) {
        let (averaged, stride, places) = choose|
            averaged: TensorModel<A::Narrow>,
            stride: int,
            places: Seq<int>,
        |
            #![trigger
                is_average(m, tensor, w, h, kernel, averaged),
                crate::laws::pixels::is_grid(w, h, stride, places)
            ]
            is_average(m, tensor, w, h, kernel, averaged) && crate::laws::pixels::is_stride(
                w * h,
                stride,
            ) && crate::laws::pixels::is_grid(w, h, stride, places) && lists(
                m,
                gray,
                averaged,
                scale,
                places,
                out,
            );
        crate::laws::pixels::law_sampled_pixels(w, h, stride, places);
        crate::laws::smoothing::law_smoothing_is_the_window_sum(
            m,
            tensor.xx,
            w,
            h,
            kernel,
            averaged.xx,
        );
        crate::laws::smoothing::law_smoothing_is_the_window_sum(
            m,
            tensor.xy,
            w,
            h,
            kernel,
            averaged.xy,
        );
        crate::laws::smoothing::law_smoothing_is_the_window_sum(
            m,
            tensor.yy,
            w,
            h,
            kernel,
            averaged.yy,
        );
        assert(averaged == own);
    }
    if out == crate::determinant::sampled_determinants(m, gray, w, h, tensor, kernel, scale) {
        assert(is_average(m, tensor, w, h, kernel, own));
        assert(crate::laws::pixels::is_grid(w, h, s, grid));
    }
}

/// `out` is a measurement of the frame `gray`: of the expansion of its image at the
/// finest level, with the averaging window of the parameters. The levels that tell
/// covered pixels are those of the frame itself.
pub open spec fn is_frame_measurement<F: FlowStages>(
    s: StageSemantics<F>,
    gray: ImageModel<F::Narrow>,
    params: &FarnebackParams<F::Param>,
    out: Seq<F::Narrow>,
) -> bool {
    let level = (s.level_image)(gray, 0, params.pyr_scale);
    let expansion = (s.expansion)(level, params.poly_n, params.poly_sigma);
    let w = level.width as int;
    let h = level.height as int;
    exists|tensor: TensorModel<F::Narrow>, kernel: Seq<F::Narrow>, scale: F::Narrow|
        #![trigger
            crate::laws::tensor::is_tensor(s.arithmetic, expansion, (w * h) as nat, tensor),
            crate::laws::window::is_window(s, params, kernel, scale)
        ]
        crate::laws::tensor::is_tensor(s.arithmetic, expansion, (w * h) as nat, tensor)
            && crate::laws::window::is_window(s, params, kernel, scale) && is_measurement(
            s.arithmetic,
            gray.data,
            w,
            h,
            tensor,
            kernel,
            scale,
            out,
        )
}

/// Every frame has one measurement.
pub proof fn law_frame_measurement<F: FlowStages>(
    s: StageSemantics<F>,
    gray: ImageModel<F::Narrow>,
    params: &FarnebackParams<F::Param>,
    out: Seq<F::Narrow>,
)
    requires
        crate::determinant::window_fits(params),
    ensures
        is_frame_measurement(s, gray, params, out) <==> out == crate::determinant::determinants_of(
            s,
            gray,
            params,
        ),
{
    let m = s.arithmetic;
    let level = (s.level_image)(gray, 0, params.pyr_scale);
    let expansion = (s.expansion)(level, params.poly_n, params.poly_sigma);
    let (w, h) = (level.width as int, level.height as int);
    let n = (w * h) as nat;
    let own = crate::determinant::structure_of(m, expansion, n);
    let k = crate::determinant::window_kernel(s, params);
    let c = crate::determinant::window_scale(s, params);
    crate::laws::tensor::law_structure_tensor(m, expansion, n, own);
    crate::laws::window::law_averaging_window(s, params, k, c);
    law_measurement(m, gray.data, w, h, own, k, c, out);
    if is_frame_measurement(s, gray, params, out) {
        let (tensor, kernel, scale) = choose|
            tensor: TensorModel<F::Narrow>,
            kernel: Seq<F::Narrow>,
            scale: F::Narrow,
        |
            #![trigger
                crate::laws::tensor::is_tensor(s.arithmetic, expansion, (w * h) as nat, tensor),
                crate::laws::window::is_window(s, params, kernel, scale)
            ]
            crate::laws::tensor::is_tensor(s.arithmetic, expansion, (w * h) as nat, tensor)
                && crate::laws::window::is_window(s, params, kernel, scale) && is_measurement(
                s.arithmetic,
                gray.data,
                w,
                h,
                tensor,
                kernel,
                scale,
                out,
            );
        crate::laws::tensor::law_structure_tensor(m, expansion, n, tensor);
        crate::laws::window::law_averaging_window(s, params, kernel, scale);
    }
    if out == crate::determinant::determinants_of(s, gray, params) {
        assert(crate::laws::tensor::is_tensor(m, expansion, n, own));
        assert(crate::laws::window::is_window(s, params, k, c));
    }
}

/// A frame whose level image has no pixels adds nothing to the distribution.
pub proof fn law_frames_without_pixels_add_nothing<F: FlowStages>(
    s: StageSemantics<F>,
    gray: ImageModel<F::Narrow>,
    params: &FarnebackParams<F::Param>,
)
    requires
        ({
            let level = (s.level_image)(gray, 0, params.pyr_scale);
            level.width == 0 || level.height == 0
        }),
    ensures
        crate::determinant::determinants_of(s, gray, params) == Seq::<F::Narrow>::empty(),
{
    let level = (s.level_image)(gray, 0, params.pyr_scale);
    let (w, h) = (level.width as int, level.height as int);
    assert(w * h == 0) by (nonlinear_arith)
        requires
            w == 0 || h == 0,
    ;
    crate::sampling::lemma_grid_in_range(w, h);
    let grid = crate::determinant::pixel_grid(w, h);
    if grid.len() > 0 {
        assert(0 <= grid[0] < w * h);
    }
    assert(crate::determinant::determinants_of(s, gray, params) =~= Seq::<F::Narrow>::empty());
}

/// On whole numbers the determinant of a pixel, with the area of the window squared, is
/// `xx yy - xy^2` of the window sums, where the scale divides them by the area without
/// error.
pub proof fn law_determinant_of_whole_numbers<A: Arithmetic>(
    m: Semantics<A>,
    whole: spec_fn(A::Narrow) -> bool,
    value: spec_fn(A::Narrow) -> int,
    averaged: TensorModel<A::Narrow>,
    scale: A::Narrow,
    area: int,
    i: int,
)
    requires
        crate::laws::tensor::is_exact_on(m, whole, value),
        is_whole_pixel(m, whole, value, averaged, scale, area, i),
    ensures
        value(crate::determinant::determinant_at(m, averaged, scale, i)) * (area * area) == value(
            averaged.xx[i],
        ) * value(averaged.yy[i]) - value(averaged.xy[i]) * value(averaged.xy[i]),
{
    let (a, b, c) = (
        value((m.product)(averaged.xx[i], scale)),
        value((m.product)(averaged.xy[i], scale)),
        value((m.product)(averaged.yy[i], scale)),
    );
    let (ac, bb, nn) = (a * c, b * b, area * area);
    assert((a * area) * (c * area) == ac * nn) by (nonlinear_arith)
        requires
            ac == a * c,
            nn == area * area,
    ;
    assert((b * area) * (b * area) == bb * nn) by (nonlinear_arith)
        requires
            bb == b * b,
            nn == area * area,
    ;
    assert((ac - bb) * nn == ac * nn - bb * nn) by (nonlinear_arith);
}

/// The averages of a pixel and their products are whole, and the scale divides the
/// window sums by `area`.
pub open spec fn is_whole_pixel<A: Arithmetic>(
    m: Semantics<A>,
    whole: spec_fn(A::Narrow) -> bool,
    value: spec_fn(A::Narrow) -> int,
    averaged: TensorModel<A::Narrow>,
    scale: A::Narrow,
    area: int,
    i: int,
) -> bool {
    let a = (m.product)(averaged.xx[i], scale);
    let b = (m.product)(averaged.xy[i], scale);
    let c = (m.product)(averaged.yy[i], scale);
    &&& whole(a) && value(a) * area == value(averaged.xx[i])
    &&& whole(b) && value(b) * area == value(averaged.xy[i])
    &&& whole(c) && value(c) * area == value(averaged.yy[i])
    &&& whole((m.product)(b, b)) && whole((m.negated)((m.product)(b, b)))
}

/// A number is measured exactly where it is the determinant of a sampled pixel that is
/// covered, and above zero.
pub proof fn law_what_is_measured<A: Arithmetic>(
    m: Semantics<A>,
    gray: Seq<A::Narrow>,
    w: int,
    h: int,
    tensor: TensorModel<A::Narrow>,
    averaged: TensorModel<A::Narrow>,
    kernel: Seq<A::Narrow>,
    scale: A::Narrow,
    det: A::Narrow,
)
    requires
        w >= 0,
        h >= 0,
        crate::laws::smoothing::is_window_sum(m, tensor.xx, w, h, kernel, averaged.xx),
        crate::laws::smoothing::is_window_sum(m, tensor.xy, w, h, kernel, averaged.xy),
        crate::laws::smoothing::is_window_sum(m, tensor.yy, w, h, kernel, averaged.yy),
    ensures
        crate::determinant::sampled_determinants(m, gray, w, h, tensor, kernel, scale).contains(det)
            <==> (m.less)((m.from_int)(0), det) && exists|i: int|
            #![trigger averaged.xx[i]]
            crate::determinant::pixel_grid(w, h).contains(i) && !(m.less)(gray[i], (m.from_int)(2))
                && det == (m.mul_add)(
                (m.product)(averaged.xx[i], scale),
                (m.product)(averaged.yy[i], scale),
                (m.negated)(
                    (m.product)(
                        (m.product)(averaged.xy[i], scale),
                        (m.product)(averaged.xy[i], scale),
                    ),
                ),
            ),
{
    let own = crate::determinant::averaged_over(m, tensor, w, h, kernel);
    let grid = crate::determinant::pixel_grid(w, h);
    let kept = crate::determinant::kept_determinant(m, gray, own, scale);
    let dets = crate::determinant::sampled_determinants(m, gray, w, h, tensor, kernel, scale);
    crate::laws::smoothing::law_smoothing_is_the_window_sum(
        m,
        tensor.xx,
        w,
        h,
        kernel,
        averaged.xx,
    );
    crate::laws::smoothing::law_smoothing_is_the_window_sum(
        m,
        tensor.xy,
        w,
        h,
        kernel,
        averaged.xy,
    );
    crate::laws::smoothing::law_smoothing_is_the_window_sum(
        m,
        tensor.yy,
        w,
        h,
        kernel,
        averaged.yy,
    );
    assert(averaged == own);
    if dets.contains(det) {
        crate::laws::measurement::law_only_covered_structure_is_measured(
            m,
            gray,
            w,
            h,
            tensor,
            kernel,
            scale,
            det,
        );
        let i = choose|i: int| #[trigger]
            grid.contains(i) && crate::determinant::is_covered(m, gray[i]) && det
                == crate::determinant::determinant_at(m, own, scale, i);
        assert(averaged.xx[i] == own.xx[i]);
    }
    if (m.less)((m.from_int)(0), det) && exists|i: int|
        #![trigger averaged.xx[i]]
        grid.contains(i) && !(m.less)(gray[i], (m.from_int)(2)) && det == determinant_from(
            m,
            averaged.xx[i],
            averaged.xy[i],
            averaged.yy[i],
            scale,
        ) {
        let i = choose|i: int|
            #![trigger averaged.xx[i]]
            grid.contains(i) && !(m.less)(gray[i], (m.from_int)(2)) && det == determinant_from(
                m,
                averaged.xx[i],
                averaged.xy[i],
                averaged.yy[i],
                scale,
            );
        assert(kept(i) == Some(det));
        lemma_kept_is_listed(grid, kept, i, det);
    }
}

/// What a map keeps of an item is in the result.
proof fn lemma_kept_is_listed<T>(
    places: Seq<int>,
    kept: spec_fn(int) -> Option<T>,
    i: int,
    v: T,
)
    requires
        places.contains(i),
        kept(i) == Some(v),
    ensures
        places.filter_map(kept).contains(v),
    decreases places.len(),
{
    let rest = places.drop_last();
    let before = rest.filter_map(kept);
    if places.last() == i {
        assert(places.filter_map(kept) =~= before.push(v));
        assert(before.push(v)[before.len() as int] == v);
    } else {
        let k = choose|k: int| 0 <= k < places.len() && places[k] == i;
        assert(rest[k] == i);
        lemma_kept_is_listed(rest, kept, i, v);
        let l = choose|l: int| 0 <= l < before.len() && before[l] == v;
        match kept(places.last()) {
            Some(u) => {
                assert(places.filter_map(kept) =~= before.push(u));
                assert(before.push(u)[l] == v);
            },
            None => {
                assert(places.filter_map(kept) =~= before);
            },
        }
    }
}

/// Two pipelines that agree on the finest level of a frame, on its expansion and on the
/// averaging window measure the same: nothing else of the stages is read.
pub proof fn law_what_is_read_of_the_stages<F: FlowStages>(
    s: StageSemantics<F>,
    t: StageSemantics<F>,
    gray: ImageModel<F::Narrow>,
    these: &FarnebackParams<F::Param>,
    those: &FarnebackParams<F::Param>,
)
    requires
        s.arithmetic == t.arithmetic,
        these.winsize == those.winsize,
        these.use_gaussian == those.use_gaussian,
        these.use_gaussian ==> (s.gaussian)(these.winsize) == (t.gaussian)(those.winsize),
        (s.level_image)(gray, 0, these.pyr_scale) == (t.level_image)(gray, 0, those.pyr_scale),
        (s.expansion)(
            (s.level_image)(gray, 0, these.pyr_scale),
            these.poly_n,
            these.poly_sigma,
        ) == (t.expansion)(
            (t.level_image)(gray, 0, those.pyr_scale),
            those.poly_n,
            those.poly_sigma,
        ),
    ensures
        crate::determinant::determinants_of(s, gray, these) == crate::determinant::determinants_of(
            t,
            gray,
            those,
        ),
{
    assert(crate::determinant::window_kernel(s, these) =~= crate::determinant::window_kernel(
        t,
        those,
    ));
}

/// A frame adds nothing where every sampled level of the frame itself is below two,
/// whatever its image at the finest level shows.
pub proof fn law_transparent_frames_add_nothing<F: FlowStages>(
    s: StageSemantics<F>,
    gray: ImageModel<F::Narrow>,
    params: &FarnebackParams<F::Param>,
)
    requires
        ({
            let level = (s.level_image)(gray, 0, params.pyr_scale);
            let grid = crate::determinant::pixel_grid(level.width as int, level.height as int);
            forall|k: int|
                0 <= k < grid.len() ==> (s.arithmetic.less)(
                    gray.data[#[trigger] grid[k]],
                    (s.arithmetic.from_int)(2),
                )
        }),
    ensures
        crate::determinant::determinants_of(s, gray, params) == Seq::<F::Narrow>::empty(),
{
    let level = (s.level_image)(gray, 0, params.pyr_scale);
    let (w, h) = (level.width as int, level.height as int);
    let grid = crate::determinant::pixel_grid(w, h);
    assert forall|k: int| 0 <= k < grid.len() implies !crate::determinant::is_covered(
        s.arithmetic,
        gray.data[#[trigger] grid[k]],
    ) by {}
    crate::laws::measurement::law_pixels_without_structure_add_nothing(
        s.arithmetic,
        gray.data,
        w,
        h,
        crate::determinant::structure_of(
            s.arithmetic,
            (s.expansion)(level, params.poly_n, params.poly_sigma),
            (w * h) as nat,
        ),
        crate::determinant::window_kernel(s, params),
        crate::determinant::window_scale(s, params),
    );
}

/// A map that keeps the items of a filter keeps as many as the filter leaves.
proof fn lemma_kept_are_counted<T>(
    places: Seq<int>,
    kept: spec_fn(int) -> Option<T>,
    p: spec_fn(int) -> bool,
)
    requires
        forall|k: int| 0 <= k < places.len() ==> (kept(#[trigger] places[k]) is Some) == p(
            places[k],
        ),
    ensures
        places.filter_map(kept).len() == places.filter(p).len(),
    decreases places.len(),
{
    reveal(Seq::filter);
    if places.len() > 0 {
        let rest = places.drop_last();
        assert forall|k: int| 0 <= k < rest.len() implies (kept(#[trigger] rest[k]) is Some) == p(
            rest[k],
        ) by {
            assert(rest[k] == places[k]);
        }
        lemma_kept_are_counted(rest, kept, p);
        let last = places[places.len() - 1];
        let before = rest.filter_map(kept);
        match kept(last) {
            Some(v) => {
                assert(places.filter_map(kept) =~= before.push(v));
            },
            None => {
                assert(places.filter_map(kept) =~= before);
            },
        }
    } else {
        assert(places.filter_map(kept) =~= Seq::<T>::empty());
    }
}

/// Every pixel is measured once: there are as many determinants as sampled pixels that
/// are covered and have a determinant above zero.
pub proof fn law_every_pixel_is_measured_once<A: Arithmetic>(
    m: Semantics<A>,
    gray: Seq<A::Narrow>,
    w: int,
    h: int,
    tensor: TensorModel<A::Narrow>,
    kernel: Seq<A::Narrow>,
    scale: A::Narrow,
)
    ensures
        ({
            let averaged = crate::determinant::averaged_over(m, tensor, w, h, kernel);
            crate::determinant::sampled_determinants(m, gray, w, h, tensor, kernel, scale).len()
                == crate::determinant::pixel_grid(w, h).filter(
                |i: int|
                    !(m.less)(gray[i], (m.from_int)(2)) && (m.less)(
                        (m.from_int)(0),
                        (m.mul_add)(
                            (m.product)(averaged.xx[i], scale),
                            (m.product)(averaged.yy[i], scale),
                            (m.negated)(
                                (m.product)(
                                    (m.product)(averaged.xy[i], scale),
                                    (m.product)(averaged.xy[i], scale),
                                ),
                            ),
                        ),
                    ),
            ).len()
        }),
{
    let averaged = crate::determinant::averaged_over(m, tensor, w, h, kernel);
    let p = |i: int|
        !(m.less)(gray[i], (m.from_int)(2)) && (m.less)(
            (m.from_int)(0),
            (m.mul_add)(
                (m.product)(averaged.xx[i], scale),
                (m.product)(averaged.yy[i], scale),
                (m.negated)(
                    (m.product)(
                        (m.product)(averaged.xy[i], scale),
                        (m.product)(averaged.xy[i], scale),
                    ),
                ),
            ),
        );
    lemma_kept_are_counted(
        crate::determinant::pixel_grid(w, h),
        crate::determinant::kept_determinant(m, gray, averaged, scale),
        p,
    );
}

} // verus!
