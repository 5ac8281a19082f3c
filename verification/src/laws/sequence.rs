//! From a sequence of frames to its determinants.
use vstd::prelude::*;

use crate::arithmetic::Arithmetic;
#[allow(unused_imports)]
use crate::arithmetic::Semantics;
#[allow(unused_imports)]
use crate::determinant::TensorModel;
#[allow(unused_imports)]
use crate::image::{FarnebackParams, GrayImage, ImageModel};
use crate::stages::FlowStages;
#[allow(unused_imports)]
use crate::stages::StageSemantics;

verus! {

/// An empty sequence has no determinants.
pub proof fn law_empty_sequence_has_no_determinants<F: FlowStages>(
    s: StageSemantics<F>,
    params: &FarnebackParams<F::Param>,
)
    ensures
        crate::gain::sequence_determinants(s, Seq::empty(), params) == Seq::<F::Narrow>::empty(),
{
    crate::laws::measurement::law_empty_sequence_gets_unit_gain(s, params);
}

/// A sequence of up to eight frames is measured frame by frame: one more frame adds
/// its determinants behind those of the frames before it.
pub proof fn law_short_sequences_are_measured_frame_by_frame<F: FlowStages>(
    s: StageSemantics<F>,
    frames: Seq<ImageModel<F::Narrow>>,
    next: ImageModel<F::Narrow>,
    params: &FarnebackParams<F::Param>,
)
    requires
        frames.len() < 8,
    ensures
        crate::gain::sequence_determinants(s, frames.push(next), params)
            == crate::gain::sequence_determinants(s, frames, params)
            + crate::determinant::determinants_of(s, next, params),
{
    let all = frames.push(next);
    let f = crate::gain::determinants_by_frame(s, frames, params);
    let g = crate::gain::determinants_by_frame(s, all, params);
    let (p, q) = (
        crate::sampling::sampled_frames(frames.len()),
        crate::sampling::sampled_frames(all.len()),
    );
    assert(p.len() == frames.len() && q.len() == all.len());
    assert forall|i: int| 0 <= i < q.len() implies q[i] == i by {
        crate::sampling::law_short_sequences_are_measured_whole(all.len(), i);
    }
    assert forall|i: int| 0 <= i < p.len() implies p[i] == i by {
        crate::sampling::law_short_sequences_are_measured_whole(frames.len(), i);
    }
    let before = p.map_values(f);
    assert(q.map_values(g) =~= before.push(crate::determinant::determinants_of(s, next, params)));
    before.lemma_flatten_push(crate::determinant::determinants_of(s, next, params));
}

/// A sequence of more than eight frames is measured by eight of them: those at the
/// eighths of the sequence, from its first frame on.
pub proof fn law_long_sequences_are_measured_at_the_eighths<F: FlowStages>(
    s: StageSemantics<F>,
    frames: Seq<ImageModel<F::Narrow>>,
    eight: Seq<ImageModel<F::Narrow>>,
    places: Seq<int>,
    params: &FarnebackParams<F::Param>,
)
    requires
        frames.len() >= 8,
        eight.len() == 8,
        places.len() == 8,
        forall|i: int|
            0 <= i < 8 ==> 8 * #[trigger] places[i] <= i * frames.len() && i * frames.len() < 8 * (
            places[i] + 1),
        forall|i: int| 0 <= i < 8 ==> #[trigger] eight[i] == frames[places[i]],
    ensures
        crate::gain::sequence_determinants(s, frames, params) == crate::gain::sequence_determinants(
            s,
            eight,
            params,
        ),
{
    let f = crate::gain::determinants_by_frame(s, frames, params);
    let g = crate::gain::determinants_by_frame(s, eight, params);
    let (p, q) = (
        crate::sampling::sampled_frames(frames.len()),
        crate::sampling::sampled_frames(eight.len()),
    );
    assert(p.len() == 8 && q.len() == 8);
    assert forall|i: int| 0 <= i < 8 implies p.map_values(f)[i] == q.map_values(g)[i] by {
        crate::sampling::law_samples_stand_at_their_fractions(frames.len(), i);
        crate::sampling::law_short_sequences_are_measured_whole(eight.len(), i);
        assert(p[i] == places[i]);
        assert(q[i] == i);
        assert(eight[i] == frames[places[i]]);
    }
    assert(p.map_values(f) =~= q.map_values(g));
}

/// The gain of a sequence is the gain of its determinants, in whatever order.
pub proof fn law_gain_of_sequence<F: FlowStages>(
    s: StageSemantics<F>,
    frames: Seq<ImageModel<F::Narrow>>,
    params: &FarnebackParams<F::Param>,
    dets: Seq<F::Narrow>,
)
    requires
        dets.to_multiset() == crate::gain::sequence_determinants(
            s,
            frames,
            params,
        ).to_multiset(),
    ensures
        crate::gain::gain_of_sequence(s, frames, params) == crate::gain::gain_of_determinants(
            s,
            dets,
        ),
{
    crate::laws::percentile::law_gain_ignores_the_order_of_determinants(
        s,
        dets,
        crate::gain::sequence_determinants(s, frames, params),
    );
}

/// A frame is seen as it is: its extents and its levels.
pub proof fn law_frames_are_seen_as_they_are<T>(frames: Seq<GrayImage<T>>, i: int)
    requires
        0 <= i < frames.len(),
    ensures
        crate::gain::frame_models(frames).len() == frames.len(),
        crate::gain::frame_models(frames)[i].width == frames[i].width,
        crate::gain::frame_models(frames)[i].height == frames[i].height,
        crate::gain::frame_models(frames)[i].data == frames[i].data@,
        frames[i]@.width == frames[i].width,
        frames[i]@.height == frames[i].height,
        frames[i]@.data == frames[i].data@,
{
}

/// The coefficients of a pixel are seen as they are.
pub proof fn law_coefficients_are_seen_as_they_are<T>(data: Seq<[T; 5]>, i: int, c: int)
    requires
        0 <= i < data.len(),
        0 <= c < 5,
    ensures
        crate::image::coefficients(data).len() == data.len(),
        crate::image::coefficients(data)[i].len() == 5,
        crate::image::coefficients(data)[i][c] == data[i][c],
{
}

/// A sequence of frames that can all be measured can be measured.
pub proof fn law_measurable_frames_make_a_measurable_sequence<F: FlowStages>(
    frames: Seq<GrayImage<F::Narrow>>,
    params: &FarnebackParams<F::Param>,
)
    requires
        forall|i: int|
            0 <= i < frames.len() ==> crate::determinant::is_measurable::<F>(
                &#[trigger] frames[i],
                params,
            ),
    ensures
        crate::gain::sequence_is_measurable::<F>(frames, params),
{
    assert forall|i: int|
        0 <= i < crate::sampling::sample_count(
            frames.len(),
        ) implies crate::determinant::is_measurable::<F>(
        &frames[#[trigger] crate::sampling::sampled_frame(frames.len(), i)],
        params,
    ) by {
        crate::sampling::lemma_sampled_frame_in_range(frames.len(), i);
    }
}

} // verus!
