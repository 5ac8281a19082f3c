//! The uniform gain: how it is found and how it is applied.
use vstd::prelude::*;

use crate::arithmetic::Arithmetic;
#[allow(unused_imports)]
use crate::arithmetic::Semantics;
use crate::determinant::frame_determinants;
#[allow(unused_imports)]
use crate::image::ImageModel;
use crate::image::{FarnebackParams, GrayImage};
use crate::order::sort_keys;
use crate::parallel::{par_flat_map, par_for_each_mut};
use crate::sampling::{concurrent_frames, group_end, sample_indices, saturating_product};
use crate::stages::FlowStages;
#[allow(unused_imports)]
use crate::stages::StageSemantics;

verus! {

/// Percentile of the determinant distribution the gain is sized against.
///
/// The median: boost when the typical covered pixel is below the threshold. Whatever
/// percentile is chosen becomes a cliff at that coverage fraction: material whose
/// flat share exceeds it gets boosted, and below it does not. At the lower
/// quartile a frame that is 40% solid interior and 60% sharp texture would demand
/// the full gain.
pub const DET_PERCENTILE: usize = 50;

/// How far above the regularizer `DET_PERCENTILE` is placed. At 100 times, the
/// regularizer costs under 1% attenuation in the solve.
pub const TARGET_MARGIN: u32 = 100;

/// Upper bound on the gain. In featureless regions an unbounded gain would lift
/// quantization steps into trackable structure and turn noise into motion.
pub const MAX_GAIN: u32 = 8;

// ---------------------------------------------------------------------------
// From determinants to a gain
// ---------------------------------------------------------------------------

/// The place of the percentile among `len` ascending values: that percentage of
/// the way from the first to the last, rounded to the nearest place, up when two
/// are equally near.
pub open spec fn percentile_index(len: int) -> int {
    (2 * ((len - 1) * DET_PERCENTILE) + 100) / 200
}

/// The determinant at the percentile.
pub open spec fn percentile_determinant<A: Arithmetic>(
    m: Semantics<A>,
    dets: Seq<A::Narrow>,
) -> A::Narrow {
    (m.from_order_key)(
        crate::order::ascending(dets.map_values(m.order_key))[percentile_index(
            dets.len() as int,
        )],
    )
}

/// The determinant that clears the regularizer by the margin.
pub open spec fn target_determinant<F: FlowStages>(s: StageSemantics<F>) -> F::Wide {
    (s.arithmetic.wide_product)(
        (s.arithmetic.wide_from_int)(TARGET_MARGIN),
        (s.arithmetic.widen)(s.regularization),
    )
}

/// By what factor `det` falls short of the target.
pub open spec fn shortfall<F: FlowStages>(s: StageSemantics<F>, det: F::Narrow) -> F::Wide {
    (s.arithmetic.wide_quotient)(target_determinant(s), (s.arithmetic.widen)(det))
}

/// One quarter. A determinant grows with the fourth power of the gain, so the
/// gain that makes up for a shortfall is its fourth root.
pub open spec fn quarter<A: Arithmetic>(m: Semantics<A>) -> A::Wide {
    (m.wide_quotient)((m.wide_from_int)(1), (m.wide_from_int)(4))
}

/// Whether `det` clears the target.
pub open spec fn is_clear<F: FlowStages>(s: StageSemantics<F>, det: F::Narrow) -> bool {
    (s.arithmetic.wide_at_most)(target_determinant(s), (s.arithmetic.widen)(det))
}

/// `x` held between `lo` and `hi`.
pub open spec fn held_between<A: Arithmetic>(
    m: Semantics<A>,
    x: A::Narrow,
    lo: A::Narrow,
    hi: A::Narrow,
) -> A::Narrow {
    if (m.less)(x, lo) {
        lo
    } else if (m.less)(hi, x) {
        hi
    } else {
        x
    }
}

/// The gain for material whose percentile determinant is `det` and whose
/// shortfall has the fourth root `root`: one where `det` clears the target, and
/// the root, held between one and `MAX_GAIN`, where it does not.
pub open spec fn gain_with_root<F: FlowStages>(
    s: StageSemantics<F>,
    det: F::Narrow,
    root: F::Wide,
) -> F::Narrow {
    let m = s.arithmetic;
    if is_clear(s, det) {
        (m.from_int)(1)
    } else {
        held_between(m, (m.narrow)(root), (m.from_int)(1), (m.from_int)(MAX_GAIN))
    }
}

/// `gain` is a gain for `det`, with whatever the power of the shortfall came out
/// as.
pub open spec fn may_be_gain<F: FlowStages>(
    s: StageSemantics<F>,
    det: F::Narrow,
    gain: F::Narrow,
) -> bool {
    if is_clear(s, det) {
        gain == (s.arithmetic.from_int)(1)
    } else {
        exists|root: F::Wide| #[trigger]
            call_ensures(F::wide_power, (shortfall(s, det), quarter(s.arithmetic)), root) && gain
                == gain_with_root(s, det, root)
    }
}

/// The gain for `det` where the power is a function of its operands.
pub open spec fn gain_of_determinant<F: FlowStages>(
    s: StageSemantics<F>,
    det: F::Narrow,
) -> F::Narrow {
    gain_with_root(
        s,
        det,
        (s.arithmetic.wide_power)(shortfall(s, det), quarter(s.arithmetic)),
    )
}

/// `gain` is a gain for material with the determinants `dets`: one where there
/// are none, since gain can manufacture neither coverage nor structure.
pub open spec fn may_be_gain_of_all<F: FlowStages>(
    s: StageSemantics<F>,
    dets: Seq<F::Narrow>,
    gain: F::Narrow,
) -> bool {
    if dets.len() == 0 {
        gain == (s.arithmetic.from_int)(1)
    } else {
        may_be_gain(s, percentile_determinant(s.arithmetic, dets), gain)
    }
}

/// The gain for `dets` where the power is a function of its operands.
pub open spec fn gain_of_determinants<F: FlowStages>(
    s: StageSemantics<F>,
    dets: Seq<F::Narrow>,
) -> F::Narrow {
    if dets.len() == 0 {
        (s.arithmetic.from_int)(1)
    } else {
        gain_of_determinant(s, percentile_determinant(s.arithmetic, dets))
    }
}

/// The place of the percentile among `len` ascending values.
///
/// In double precision `len - 1` times the percentile, rounded, is this same
/// place for every `len` of up to 2^53.
pub fn percentile_place(len: usize) -> (r: usize)
    requires
        len > 0,
    ensures
        r == percentile_index(len as int),
        r < len,
{
    let span: usize = len - 1;
    let hundreds: usize = span / 100;
    let rest: usize = span % 100;
    hundreds * DET_PERCENTILE + (2 * (rest * DET_PERCENTILE) + 100) / 200
}

/// `x` held between `lo` and `hi`.
fn hold_between<A: Arithmetic>(x: A::Narrow, lo: A::Narrow, hi: A::Narrow) -> (r: A::Narrow)
    ensures
        forall|m: Semantics<A>| #[trigger]
            m.describes_narrow() ==> r == held_between(m, x, lo, hi),
{
    if A::less(x, lo) {
        lo
    } else if A::less(hi, x) {
        hi
    } else {
        x
    }
}

/// The gain for material whose percentile determinant is `det`.
pub fn gain_for_determinant<F: FlowStages>(det: F::Narrow) -> (r: F::Narrow)
    ensures
        forall|s: StageSemantics<F>| #[trigger]
            s.describes_sizing() ==> may_be_gain(s, det, r),
        forall|s: StageSemantics<F>| #[trigger]
            s.describes_sizing() ==> crate::laws::sizing::is_gain_for(s, det, r),
        forall|s: StageSemantics<F>| #[trigger]
            s.describes_sizing() && s.arithmetic.describes_power() ==> r == gain_of_determinant(
                s,
                det,
            ),
{
    let wide: F::Wide = F::widen(det);
    let target: F::Wide = F::wide_product(
        F::wide_from_int(TARGET_MARGIN),
        F::widen(F::flow_regularization()),
    );
    let one: F::Narrow = F::from_int(1);
    if F::wide_at_most(target, wide) {
        assert forall|s: StageSemantics<F>| #[trigger]
            s.describes_sizing() implies crate::laws::sizing::is_gain_for(s, det, one) by {
            crate::laws::sizing::law_gain_of_determinant(s, det, one);
        }
        return one;
    }
    let a_quarter: F::Wide = F::wide_quotient(F::wide_from_int(1), F::wide_from_int(4));
    let ratio: F::Wide = F::wide_quotient(target, wide);
    let root: F::Wide = F::wide_power(ratio, a_quarter);
    let r: F::Narrow = hold_between::<F>(F::narrow(root), one, F::from_int(MAX_GAIN));
    assert forall|s: StageSemantics<F>| #[trigger] s.describes_sizing() implies !is_clear(s, det)
        && ratio == shortfall(s, det) && a_quarter == quarter(s.arithmetic) && r == gain_with_root(
        s,
        det,
        root,
    ) by {
        assert(s.arithmetic.describes_narrow());
    }
    assert(call_ensures(F::wide_power, (ratio, a_quarter), root));
    assert forall|s: StageSemantics<F>| #[trigger]
        s.describes_sizing() implies crate::laws::sizing::is_gain_for(s, det, r) by {
        assert(may_be_gain(s, det, r));
        crate::laws::sizing::law_gain_of_determinant(s, det, r);
    }
    r
}

/// The gain for material with the determinants `dets`, in whatever order.
pub fn gain_for_determinants<F: FlowStages>(dets: &[F::Narrow]) -> (r: F::Narrow)
    ensures
        dets@.len() == 0 ==> call_ensures(F::from_int, (1u32,), r),
        forall|s: StageSemantics<F>| #[trigger]
            s.describes_sizing() ==> may_be_gain_of_all(s, dets@, r),
        forall|s: StageSemantics<F>| #[trigger]
            s.describes_sizing() ==> crate::laws::sizing::is_gain_of(s, dets@, r),
        forall|s: StageSemantics<F>| #[trigger]
            s.describes_sizing() && s.arithmetic.describes_power() ==> r == gain_of_determinants(
                s,
                dets@,
            ),
{
    if dets.len() == 0 {
        return F::from_int(1);
    }
    let mut keys: Vec<i32> = Vec::new();
    let mut i: usize = 0;
    while i < dets.len()
        invariant
            i <= dets@.len(),
            keys@.len() == i,
            forall|s: StageSemantics<F>, k: int|
                #![trigger s.describes_sizing(), keys@[k]]
                s.describes_sizing() && 0 <= k < i ==> keys@[k] == (s.arithmetic.order_key)(
                    dets@[k],
                ),
        decreases dets@.len() - i,
    {
        keys.push(F::order_key(dets[i]));
        i = i + 1;
    }
    let ghost unsorted = keys@;
    sort_keys(&mut keys);
    let det: F::Narrow = F::from_order_key(keys[percentile_place(keys.len())]);
    assert forall|s: StageSemantics<F>| #[trigger] s.describes_sizing() implies det
        == percentile_determinant(s.arithmetic, dets@) by {
        assert(unsorted =~= dets@.map_values(s.arithmetic.order_key));
    }
    let r: F::Narrow = gain_for_determinant::<F>(det);
    assert forall|s: StageSemantics<F>| #[trigger]
        s.describes_sizing() implies crate::laws::sizing::is_gain_of(s, dets@, r) by {
        crate::laws::sizing::law_gain_of_distribution(s, dets@, r, 0);
    }
    r
}

// ---------------------------------------------------------------------------
// From frames to a gain
// ---------------------------------------------------------------------------

/// What the frames of a sequence hold.
pub open spec fn frame_models<T>(frames: Seq<GrayImage<T>>) -> Seq<ImageModel<T>> {
    frames.map_values(|g: GrayImage<T>| g@)
}

/// The determinants of frame number `i`, as a function of `i`.
pub open spec fn determinants_by_frame<F: FlowStages>(
    s: StageSemantics<F>,
    frames: Seq<ImageModel<F::Narrow>>,
    params: &FarnebackParams<F::Param>,
) -> spec_fn(int) -> Seq<F::Narrow> {
    |i: int| crate::determinant::determinants_of(s, frames[i], params)
}

/// The determinants of all the sampled frames of a sequence.
pub open spec fn sequence_determinants<F: FlowStages>(
    s: StageSemantics<F>,
    frames: Seq<ImageModel<F::Narrow>>,
    params: &FarnebackParams<F::Param>,
) -> Seq<F::Narrow> {
    crate::sampling::sampled_frames(frames.len()).flat_map(
        determinants_by_frame(s, frames, params),
    )
}

/// The gain for a sequence of frames where the power is a function of its
/// operands.
pub open spec fn gain_of_sequence<F: FlowStages>(
    s: StageSemantics<F>,
    frames: Seq<ImageModel<F::Narrow>>,
    params: &FarnebackParams<F::Param>,
) -> F::Narrow {
    gain_of_determinants(s, sequence_determinants(s, frames, params))
}

/// Every sampled frame can be measured.
pub open spec fn sequence_is_measurable<F: FlowStages>(
    frames: Seq<GrayImage<F::Narrow>>,
    params: &FarnebackParams<F::Param>,
) -> bool {
    forall|i: int|
        0 <= i < crate::sampling::sample_count(frames.len())
            ==> crate::determinant::is_measurable::<F>(
            &frames[#[trigger] crate::sampling::sampled_frame(frames.len(), i)],
            params,
        )
}

/// Compute the uniform gain to apply to every analysis gray frame.
///
/// It is one when the material is already above the contrast threshold, which is the
/// common case.
///
/// Only pixels with a non-zero determinant enter the percentile. A zero means the
/// neighbourhood is flat or purely one-dimensional, and gain multiplies zero
/// structure by a constant, so those pixels carry no information about how much
/// gain the sequence needs. With them, any material with a large solid region
/// would push the percentile onto an exact zero and demand maximum gain no matter
/// how sharp the rest of the frame is.
pub fn analysis_gain<F: FlowStages>(
    frames: &[GrayImage<F::Narrow>],
    params: &FarnebackParams<F::Param>,
) -> (r: F::Narrow)
    requires
        sequence_is_measurable::<F>(frames@, params),
    ensures
        frames@.len() == 0 ==> call_ensures(F::from_int, (1u32,), r),
        forall|s: StageSemantics<F>| #[trigger]
            s.describes_all_but_power() ==> may_be_gain_of_all(
                s,
                sequence_determinants(s, frame_models(frames@), params),
                r,
            ),
        forall|s: StageSemantics<F>| #[trigger]
            s.describes_all_but_power() ==> crate::laws::sizing::is_gain_of(
                s,
                sequence_determinants(s, frame_models(frames@), params),
                r,
            ),
        forall|s: StageSemantics<F>| #[trigger]
            s.describes() ==> r == gain_of_sequence(s, frame_models(frames@), params),
{
    let dets: Vec<F::Narrow> = measured_determinants::<F>(frames, params);
    let r: F::Narrow = gain_for_determinants::<F>(dets.as_slice());
    assert forall|s: StageSemantics<F>| #[trigger] s.describes_all_but_power() implies dets@
        == sequence_determinants(s, frame_models(frames@), params)
        && s.describes_sizing() by {
        assert(s.describes_measurement());
    }
    assert forall|s: StageSemantics<F>| #[trigger] s.describes() implies r == gain_of_sequence(
        s,
        frame_models(frames@),
        params,
    ) by {
        assert(s.describes_all_but_power());
    }
    r
}

/// The determinants of an image, as a function of the image.
pub open spec fn determinants_by_image<F: FlowStages>(
    s: StageSemantics<F>,
    params: &FarnebackParams<F::Param>,
) -> spec_fn(&GrayImage<F::Narrow>) -> Seq<F::Narrow> {
    |image: &GrayImage<F::Narrow>| crate::determinant::determinants_of(s, image@, params)
}

/// Measures a group of frames at once. The scratch memory of as many frames of
/// `pixels` pixels, the number that `first` has, must fit the budget.
fn measure_group<F: FlowStages>(
    group: &[&GrayImage<F::Narrow>],
    params: &FarnebackParams<F::Param>,
    pixels: usize,
    first: &GrayImage<F::Narrow>,
) -> (dets: Vec<F::Narrow>)
    requires
        group@.len() <= crate::sampling::frames_in_budget(pixels as int),
        pixels == first.width * first.height || pixels == usize::MAX && first.width * first.height
            > usize::MAX,
        forall|k: int|
            0 <= k < group@.len() ==> crate::determinant::is_measurable::<F>(
                #[trigger] group@[k],
                params,
            ),
    ensures
        forall|s: StageSemantics<F>| #[trigger]
            s.describes_measurement() ==> dets@ == group@.flat_map(
                determinants_by_image(s, params),
            ),
{
    let measure = |frame: &&GrayImage<F::Narrow>| -> (out: Vec<F::Narrow>)
        requires
            crate::determinant::is_measurable::<F>(*frame, params),
        ensures
            forall|s: StageSemantics<F>| #[trigger]
                s.describes_measurement() ==> out@ == crate::determinant::determinants_of(
                    s,
                    (*frame)@,
                    params,
                ),
        { frame_determinants::<F>(*frame, params) };
    let dets: Vec<F::Narrow> = par_flat_map(group, measure);
    proof {
        let parts = choose|parts: Seq<Vec<F::Narrow>>|
            crate::parallel::is_flat_map_of(group@, measure, dets@, parts);
        let views = parts.map_values(|p: Vec<F::Narrow>| p@);
        assert forall|s: StageSemantics<F>| #[trigger] s.describes_measurement() implies dets@
            == group@.flat_map(determinants_by_image(s, params)) by {
            let each = determinants_by_image(s, params);
            assert forall|k: int| 0 <= k < views.len() implies views[k] == group@.map_values(
                each,
            )[k] by {
                assert(call_ensures(measure, (&group@[k],), parts[k]));
            }
            assert(views =~= group@.map_values(each));
        }
    }
    dets
}

/// The determinants of the sampled frames of a sequence.
///
/// Every frame in flight holds several full-resolution scratch buffers at once,
/// so the frames are handed to the thread pool in groups that fit the scratch
/// budget.
pub fn measured_determinants<F: FlowStages>(
    frames: &[GrayImage<F::Narrow>],
    params: &FarnebackParams<F::Param>,
) -> (dets: Vec<F::Narrow>)
    requires
        sequence_is_measurable::<F>(frames@, params),
    ensures
        frames@.len() == 0 ==> dets@.len() == 0,
        forall|s: StageSemantics<F>| #[trigger]
            s.describes_measurement() ==> dets@ == sequence_determinants(
                s,
                frame_models(frames@),
                params,
            ),
{
    let mut dets: Vec<F::Narrow> = Vec::new();
    let ghost places = crate::sampling::sampled_frames(frames@.len());
    let ghost models = frame_models(frames@);
    if frames.len() == 0 {
        assert forall|s: StageSemantics<F>| #[trigger] s.describes_measurement() implies dets@
            == sequence_determinants(s, models, params) by {
            assert(dets@ =~= sequence_determinants(s, models, params));
        }
        return dets;
    }
    let indices: Vec<usize> = sample_indices(frames.len());
    let mut sampled: Vec<&GrayImage<F::Narrow>> = Vec::new();
    let mut i: usize = 0;
    while i < indices.len()
        invariant
            i <= indices@.len(),
            places == crate::sampling::sampled_frames(frames@.len()),
            indices@.map_values(|i: usize| i as int) == places,
            indices@.len() == places.len(),
            sampled@.len() == i,
            forall|k: int| 0 <= k < i ==> *#[trigger] sampled@[k] == frames@[places[k]],
        decreases indices@.len() - i,
    {
        proof {
            crate::sampling::lemma_sampled_frame_in_range(frames@.len(), i as int);
            assert(indices@.map_values(|i: usize| i as int)[i as int] == indices@[i as int]);
        }
        sampled.push(&frames[indices[i]]);
        i = i + 1;
    }
    let pixels: usize = saturating_product(frames[0].width as usize, frames[0].height as usize);
    let group: usize = concurrent_frames(pixels);
    let mut start: usize = 0;
    proof {
        assert forall|s: StageSemantics<F>| #[trigger] s.describes_measurement() implies dets@ == places.take(
            0,
        ).flat_map(determinants_by_frame(s, models, params)) by {
            assert(dets@ =~= places.take(0).flat_map(determinants_by_frame(s, models, params)));
        }
    }
    while start < sampled.len()
        invariant
            start <= sampled@.len(),
            sampled@.len() == places.len(),
            places == crate::sampling::sampled_frames(frames@.len()),
            models == frame_models(frames@),
            1 <= group,
            0 < frames@.len(),
            group == crate::sampling::frames_in_budget(pixels as int),
            pixels == frames@[0].width * frames@[0].height || pixels == usize::MAX
                && frames@[0].width * frames@[0].height > usize::MAX,
            sequence_is_measurable::<F>(frames@, params),
            forall|k: int|
                0 <= k < sampled@.len() ==> *#[trigger] sampled@[k] == frames@[places[k]],
            forall|s: StageSemantics<F>| #[trigger]
                s.describes_measurement() ==> dets@ == places.take(start as int).flat_map(
                    determinants_by_frame(s, models, params),
                ),
        decreases sampled@.len() - start,
    {
        let end: usize = group_end(start, sampled.len(), group);
        let chunk: &[&GrayImage<F::Narrow>] = vstd::slice::slice_subrange(
            sampled.as_slice(),
            start,
            end,
        );
        proof {
            assert forall|k: int| 0 <= k < chunk@.len() implies crate::determinant::is_measurable::<
                F,
            >(#[trigger] chunk@[k], params) by {
                let place = crate::sampling::sampled_frame(frames@.len(), start + k);
                crate::sampling::lemma_sampled_frame_in_range(frames@.len(), start + k);
                assert(chunk@[k] == sampled@[start + k]);
                assert(places[start + k] == place);
            }
        }
        let mut part: Vec<F::Narrow> = measure_group::<F>(chunk, params, pixels, &frames[0]);
        let ghost joined = part@;
        dets.append(&mut part);
        proof {
            assert forall|s: StageSemantics<F>| #[trigger] s.describes_measurement() implies dets@
                == places.take(end as int).flat_map(
                determinants_by_frame(s, models, params),
            ) by {
                let f = determinants_by_frame(s, models, params);
                let here = places.subrange(start as int, end as int);
                let each = determinants_by_image(s, params);
                assert forall|k: int| 0 <= k < here.len() implies chunk@.map_values(each)[k]
                    == here.map_values(f)[k] by {
                    crate::sampling::lemma_sampled_frame_in_range(frames@.len(), start + k);
                    assert(chunk@[k] == sampled@[start + k]);
                    assert(models[places[start + k]] == frames@[places[start + k]]@);
                }
                assert(chunk@.map_values(each) =~= here.map_values(f));
                assert(places.take(end as int).map_values(f) =~= places.take(
                    start as int,
                ).map_values(f) + here.map_values(f));
                vstd::seq_lib::lemma_flatten_concat(
                    places.take(start as int).map_values(f),
                    here.map_values(f),
                );
            }
        }
        start = end;
    }
    assert(places.take(start as int) =~= places);
    dets
}

// ---------------------------------------------------------------------------
// Applying the gain
// ---------------------------------------------------------------------------

/// Whether a gain is one, to the precision of the type.
pub open spec fn is_unit_gain<A: Arithmetic>(m: Semantics<A>, gain: A::Narrow) -> bool {
    (m.less)((m.magnitude)((m.difference)(gain, (m.from_int)(1))), m.epsilon)
}

/// An image with every level multiplied by `gain`.
pub open spec fn scaled_image<A: Arithmetic>(
    m: Semantics<A>,
    image: ImageModel<A::Narrow>,
    gain: A::Narrow,
) -> ImageModel<A::Narrow> {
    ImageModel {
        width: image.width,
        height: image.height,
        data: image.data.map_values(|v: A::Narrow| (m.product)(v, gain)),
    }
}

/// The frames after `gain` is applied.
pub open spec fn gained<A: Arithmetic>(
    m: Semantics<A>,
    frames: Seq<ImageModel<A::Narrow>>,
    gain: A::Narrow,
) -> Seq<ImageModel<A::Narrow>> {
    if is_unit_gain(m, gain) {
        frames
    } else {
        frames.map_values(|image: ImageModel<A::Narrow>| scaled_image(m, image, gain))
    }
}

/// Multiplies every level of one frame by `gain`.
pub fn scale_frame<A: Arithmetic>(frame: &mut GrayImage<A::Narrow>, gain: A::Narrow)
    ensures
        final(frame).width == old(frame).width,
        final(frame).height == old(frame).height,
        final(frame).data@.len() == old(frame).data@.len(),
        forall|m: Semantics<A>| #[trigger]
            m.describes_narrow() ==> final(frame)@ == scaled_image(m, old(frame)@, gain),
        forall|m: Semantics<A>, k: int|
            #![trigger m.describes_narrow(), final(frame).data@[k]]
            m.describes_narrow() && 0 <= k < old(frame).data@.len() ==> final(frame).data@[k] == (
            m.product)(old(frame).data@[k], gain),
{
    let ghost before = frame.data@;
    let mut i: usize = 0;
    while i < frame.data.len()
        invariant
            i <= frame.data@.len(),
            frame.width == old(frame).width,
            frame.height == old(frame).height,
            before == old(frame).data@,
            frame.data@.len() == before.len(),
            forall|k: int| i <= k < before.len() ==> frame.data@[k] == before[k],
            forall|m: Semantics<A>, k: int|
                #![trigger m.describes_narrow(), frame.data@[k]]
                m.describes_narrow() && 0 <= k < i ==> frame.data@[k] == (m.product)(before[k], gain),
        decreases frame.data@.len() - i,
    {
        let v: A::Narrow = A::product(frame.data[i], gain);
        frame.data.set(i, v);
        i = i + 1;
    }
    assert forall|m: Semantics<A>| #[trigger] m.describes_narrow() implies frame@ == scaled_image(
        m,
        old(frame)@,
        gain,
    ) by {
        assert(frame.data@ =~= before.map_values(|v: A::Narrow| (m.product)(v, gain)));
    }
}

/// Apply `gain` to every frame in place.
///
/// The solve compares polynomial expansions between two frames, so the gain is
/// the same for every frame of the sequence: one gain per frame would make them
/// incomparable.
pub fn apply_gain<A: Arithmetic>(frames: &mut [GrayImage<A::Narrow>], gain: A::Narrow)
    ensures
        final(frames)@.len() == old(frames)@.len(),
        forall|i: int|
            #![trigger final(frames)@[i]]
            0 <= i < old(frames)@.len() ==> {
                &&& final(frames)@[i].width == old(frames)@[i].width
                &&& final(frames)@[i].height == old(frames)@[i].height
                &&& final(frames)@[i].data@.len() == old(frames)@[i].data@.len()
            },
        forall|m: Semantics<A>| #[trigger]
            m.describes_narrow() ==> frame_models(final(frames)@) == gained(
                m,
                frame_models(old(frames)@),
                gain,
            ),
        forall|m: Semantics<A>| #[trigger]
            m.describes_narrow() && is_unit_gain(m, gain) ==> final(frames)@ == old(frames)@,
        forall|m: Semantics<A>, i: int, k: int|
            #![trigger m.describes_narrow(), final(frames)@[i].data@[k]]
            m.describes_narrow() && 0 <= i < old(frames)@.len() && 0 <= k < old(
                frames,
            )@[i].data@.len() ==> final(frames)@[i].data@[k] == if (m.less)(
                (m.magnitude)((m.difference)(gain, (m.from_int)(1))),
                m.epsilon,
            ) {
                old(frames)@[i].data@[k]
            } else {
                (m.product)(old(frames)@[i].data@[k], gain)
            },
{
    if A::less(A::magnitude(A::difference(gain, A::from_int(1))), A::epsilon()) {
        return ;
    }
    let scale = |frame: &mut GrayImage<A::Narrow>|
        ensures
            final(frame).width == old(frame).width,
            final(frame).height == old(frame).height,
            final(frame).data@.len() == old(frame).data@.len(),
            forall|m: Semantics<A>| #[trigger]
                m.describes_narrow() ==> final(frame)@ == scaled_image(m, old(frame)@, gain),
        { scale_frame::<A>(frame, gain) };
    par_for_each_mut(frames, scale);
    assert forall|m: Semantics<A>| #[trigger] m.describes_narrow() implies frame_models(frames@)
        == gained(m, frame_models(old(frames)@), gain) by {
        assert forall|i: int| 0 <= i < old(frames)@.len() implies frames@[i]@ == scaled_image(
            m,
            old(frames)@[i]@,
            gain,
        ) by {}
        assert(frame_models(frames@) =~= gained(m, frame_models(old(frames)@), gain));
    }
}

} // verus!
