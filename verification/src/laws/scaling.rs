//! Applying a gain.
use vstd::prelude::*;

use crate::arithmetic::Arithmetic;
#[allow(unused_imports)]
use crate::arithmetic::Semantics;
#[allow(unused_imports)]
use crate::image::ImageModel;

verus! {

/// A gain that is not within the precision of one multiplies every level of every
/// frame, however many there are; one that is leaves every level as it is.
pub proof fn law_every_level_is_multiplied<A: Arithmetic>(
    m: Semantics<A>,
    frames: Seq<ImageModel<A::Narrow>>,
    gain: A::Narrow,
    i: int,
    k: int,
)
    requires
        0 <= i < frames.len(),
        0 <= k < frames[i].data.len(),
    ensures
        crate::gain::gained(m, frames, gain)[i].data[k] == if (m.less)(
            (m.magnitude)((m.difference)(gain, (m.from_int)(1))),
            m.epsilon,
        ) {
            frames[i].data[k]
        } else {
            (m.product)(frames[i].data[k], gain)
        },
{
}

/// Frames are scaled one by one: what becomes of a frame does not depend on the
/// frames around it.
pub proof fn law_frames_are_scaled_one_by_one<A: Arithmetic>(
    m: Semantics<A>,
    these: Seq<ImageModel<A::Narrow>>,
    those: Seq<ImageModel<A::Narrow>>,
    gain: A::Narrow,
)
    ensures
        crate::gain::gained(m, these + those, gain) == crate::gain::gained(m, these, gain)
            + crate::gain::gained(m, those, gain),
{
    assert(crate::gain::gained(m, these + those, gain) =~= crate::gain::gained(m, these, gain)
        + crate::gain::gained(m, those, gain));
}

/// Every frame carries the same scaling: pixels of equal level have equal levels
/// afterwards, in whichever frames they stand.
pub proof fn law_every_frame_carries_the_same_scaling<A: Arithmetic>(
    m: Semantics<A>,
    frames: Seq<ImageModel<A::Narrow>>,
    gain: A::Narrow,
    i: int,
    j: int,
    k: int,
    l: int,
)
    requires
        0 <= i < frames.len(),
        0 <= j < frames.len(),
        0 <= k < frames[i].data.len(),
        0 <= l < frames[j].data.len(),
        frames[i].data[k] == frames[j].data[l],
    ensures
        crate::gain::gained(m, frames, gain)[i].data[k] == crate::gain::gained(
            m,
            frames,
            gain,
        )[j].data[l],
{
}

/// Applying a gain changes levels only: the number of frames, their extents and
/// their pixel counts stay.
pub proof fn law_gain_keeps_the_shape_of_frames<A: Arithmetic>(
    m: Semantics<A>,
    frames: Seq<ImageModel<A::Narrow>>,
    gain: A::Narrow,
    i: int,
)
    requires
        0 <= i < frames.len(),
    ensures
        crate::gain::gained(m, frames, gain).len() == frames.len(),
        crate::gain::gained(m, frames, gain)[i].width == frames[i].width,
        crate::gain::gained(m, frames, gain)[i].height == frames[i].height,
        crate::gain::gained(m, frames, gain)[i].data.len() == frames[i].data.len(),
{
}

/// A gain and then its exact inverse give the frames back.
///
/// The inverse is exact for the levels that occur, and the two are within the
/// precision of one together or not at all.
pub proof fn law_inverse_gain_gives_the_frames_back<A: Arithmetic>(
    m: Semantics<A>,
    frames: Seq<ImageModel<A::Narrow>>,
    gain: A::Narrow,
    inverse: A::Narrow,
)
    requires
        crate::gain::is_unit_gain(m, gain) == crate::gain::is_unit_gain(m, inverse),
        forall|i: int, k: int|
            0 <= i < frames.len() && 0 <= k < frames[i].data.len() ==> (m.product)(
                (m.product)(#[trigger] frames[i].data[k], gain),
                inverse,
            ) == frames[i].data[k],
    ensures
        crate::gain::gained(m, crate::gain::gained(m, frames, gain), inverse) == frames,
{
    let there = crate::gain::gained(m, frames, gain);
    let back = crate::gain::gained(m, there, inverse);
    if !crate::gain::is_unit_gain(m, gain) {
        assert forall|i: int| 0 <= i < frames.len() implies back[i] == frames[i] by {
            assert forall|k: int| 0 <= k < frames[i].data.len() implies back[i].data[k]
                == frames[i].data[k] by {
                assert(there[i].data[k] == (m.product)(frames[i].data[k], gain));
            }
            assert(back[i].data =~= frames[i].data);
        }
        assert(back =~= frames);
    }
}

} // verus!
