//! Which determinants enter the distribution.
use vstd::prelude::*;

use crate::arithmetic::Arithmetic;
#[allow(unused_imports)]
use crate::arithmetic::Semantics;
#[allow(unused_imports)]
use crate::determinant::TensorModel;
#[allow(unused_imports)]
use crate::image::{FarnebackParams, ImageModel};
use crate::stages::FlowStages;
#[allow(unused_imports)]
use crate::stages::StageSemantics;

verus! {

/// Every determinant that a frame adds to the distribution is that of a sampled
/// pixel that is covered, and is positive.
pub proof fn law_only_covered_structure_is_measured<A: Arithmetic>(
    m: Semantics<A>,
    gray: Seq<A::Narrow>,
    w: int,
    h: int,
    tensor: TensorModel<A::Narrow>,
    kernel: Seq<A::Narrow>,
    scale: A::Narrow,
    det: A::Narrow,
)
    requires
        crate::determinant::sampled_determinants(m, gray, w, h, tensor, kernel, scale).contains(
            det,
        ),
    ensures
        crate::determinant::is_positive(m, det),
        exists|i: int| #[trigger]
            crate::determinant::pixel_grid(w, h).contains(i) && crate::determinant::is_covered(
                m,
                gray[i],
            ) && det == crate::determinant::determinant_at(
                m,
                crate::determinant::averaged_over(m, tensor, w, h, kernel),
                scale,
                i,
            ),
{
    let averaged = crate::determinant::averaged_over(m, tensor, w, h, kernel);
    crate::determinant::pixel_grid(w, h).lemma_filter_map_contains(
        crate::determinant::kept_determinant(m, gray, averaged, scale),
        det,
    );
}

/// A frame adds nothing to the distribution if each of its sampled pixels is
/// transparent or has no structure.
pub proof fn law_pixels_without_structure_add_nothing<A: Arithmetic>(
    m: Semantics<A>,
    gray: Seq<A::Narrow>,
    w: int,
    h: int,
    tensor: TensorModel<A::Narrow>,
    kernel: Seq<A::Narrow>,
    scale: A::Narrow,
)
    requires
        forall|k: int|
            #![trigger crate::determinant::pixel_grid(w, h)[k]]
            0 <= k < crate::determinant::pixel_grid(w, h).len() ==> !crate::determinant::is_covered(
                m,
                gray[crate::determinant::pixel_grid(w, h)[k]],
            ) || !crate::determinant::is_positive(
                m,
                crate::determinant::determinant_at(
                    m,
                    crate::determinant::averaged_over(m, tensor, w, h, kernel),
                    scale,
                    crate::determinant::pixel_grid(w, h)[k],
                ),
            ),
    ensures
        crate::determinant::sampled_determinants(m, gray, w, h, tensor, kernel, scale)
            == Seq::<A::Narrow>::empty(),
{
    let dets = crate::determinant::sampled_determinants(m, gray, w, h, tensor, kernel, scale);
    if dets.len() > 0 {
        assert(dets.contains(dets[0]));
        law_only_covered_structure_is_measured(m, gray, w, h, tensor, kernel, scale, dets[0]);
        let grid = crate::determinant::pixel_grid(w, h);
        let i = choose|i: int| #[trigger]
            grid.contains(i) && crate::determinant::is_covered(m, gray[i]) && dets[0]
                == crate::determinant::determinant_at(
                m,
                crate::determinant::averaged_over(m, tensor, w, h, kernel),
                scale,
                i,
            );
        let k = choose|k: int| 0 <= k < grid.len() && grid[k] == i;
        assert(grid[k] == i);
    }
    assert(dets =~= Seq::<A::Narrow>::empty());
}

/// Whether none of the sampled pixels of a frame is covered.
pub open spec fn is_transparent<F: FlowStages>(
    s: StageSemantics<F>,
    gray: ImageModel<F::Narrow>,
    params: &FarnebackParams<F::Param>,
) -> bool {
    let level = (s.level_image)(gray, 0, params.pyr_scale);
    let grid = crate::determinant::pixel_grid(level.width as int, level.height as int);
    forall|k: int|
        0 <= k < grid.len() ==> !crate::determinant::is_covered(
            s.arithmetic,
            gray.data[#[trigger] grid[k]],
        )
}

/// Joining nothing but empty sequences gives the empty sequence.
proof fn lemma_flatten_of_empties<T>(parts: Seq<Seq<T>>)
    requires
        forall|i: int| 0 <= i < parts.len() ==> #[trigger] parts[i] == Seq::<T>::empty(),
    ensures
        parts.flatten() == Seq::<T>::empty(),
    decreases parts.len(),
{
    if parts.len() > 0 {
        let rest = parts.drop_first();
        assert forall|i: int| 0 <= i < rest.len() implies #[trigger] rest[i]
            == Seq::<T>::empty() by {
            assert(rest[i] == parts[i + 1]);
        }
        lemma_flatten_of_empties(rest);
        assert(parts.first() == parts[0]);
        assert(parts.flatten() =~= Seq::<T>::empty());
    }
}

/// A sequence whose sampled frames are all fully transparent gets a gain of one.
pub proof fn law_transparent_sequence_gets_unit_gain<F: FlowStages>(
    s: StageSemantics<F>,
    frames: Seq<ImageModel<F::Narrow>>,
    params: &FarnebackParams<F::Param>,
)
    requires
        forall|i: int|
            0 <= i < crate::sampling::sample_count(frames.len()) ==> is_transparent(
                s,
                frames[#[trigger] crate::sampling::sampled_frame(frames.len(), i)],
                params,
            ),
    ensures
        crate::gain::sequence_determinants(s, frames, params) == Seq::<F::Narrow>::empty(),
        forall|gain: F::Narrow| #[trigger]
            crate::gain::may_be_gain_of_all(
                s,
                crate::gain::sequence_determinants(s, frames, params),
                gain,
            ) ==> gain == (s.arithmetic.from_int)(1),
        crate::gain::gain_of_sequence(s, frames, params) == (s.arithmetic.from_int)(1),
{
    let places = crate::sampling::sampled_frames(frames.len());
    let f = crate::gain::determinants_by_frame(s, frames, params);
    let parts = places.map_values(f);
    assert forall|i: int| 0 <= i < parts.len() implies #[trigger] parts[i]
        == Seq::<F::Narrow>::empty() by {
        let gray = frames[crate::sampling::sampled_frame(frames.len(), i)];
        let level = (s.level_image)(gray, 0, params.pyr_scale);
        let (w, h) = (level.width as int, level.height as int);
        law_pixels_without_structure_add_nothing(
            s.arithmetic,
            gray.data,
            w,
            h,
            crate::determinant::structure_of(
                s.arithmetic,
                (s.expansion)(level, params.poly_n, params.poly_sigma),
                (w * h) as nat,
            ),
            crate::determinant::window_kernel(s, params),
            crate::determinant::window_scale(s, params),
        );
    }
    lemma_flatten_of_empties(parts);
}

/// An empty sequence gets a gain of one.
pub proof fn law_empty_sequence_gets_unit_gain<F: FlowStages>(
    s: StageSemantics<F>,
    params: &FarnebackParams<F::Param>,
)
    ensures
        crate::gain::sequence_determinants(s, Seq::empty(), params) == Seq::<F::Narrow>::empty(),
        crate::gain::gain_of_sequence(s, Seq::empty(), params) == (s.arithmetic.from_int)(1),
{
    law_transparent_sequence_gets_unit_gain(s, Seq::empty(), params);
}

/// Only the sampled frames count: two sequences of one length that agree on them
/// get the same gain.
pub proof fn law_gain_depends_on_the_sampled_frames<F: FlowStages>(
    s: StageSemantics<F>,
    these: Seq<ImageModel<F::Narrow>>,
    those: Seq<ImageModel<F::Narrow>>,
    params: &FarnebackParams<F::Param>,
)
    requires
        these.len() == those.len(),
        forall|i: int|
            #![trigger crate::sampling::sampled_frame(these.len(), i)]
            0 <= i < crate::sampling::sample_count(these.len())
                ==> these[crate::sampling::sampled_frame(these.len(), i)]
                == those[crate::sampling::sampled_frame(these.len(), i)],
    ensures
        crate::gain::sequence_determinants(s, these, params) == crate::gain::sequence_determinants(
            s,
            those,
            params,
        ),
        crate::gain::gain_of_sequence(s, these, params) == crate::gain::gain_of_sequence(
            s,
            those,
            params,
        ),
{
    let places = crate::sampling::sampled_frames(these.len());
    let f = crate::gain::determinants_by_frame(s, these, params);
    let g = crate::gain::determinants_by_frame(s, those, params);
    assert(places.map_values(f) =~= places.map_values(g));
}

} // verus!
