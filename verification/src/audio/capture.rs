//! The microphone on its way to the sink: frames come in, are made stereo and amplified,
//! go through the effects, and wait in a bridge until they are played.

use vstd::prelude::*;

use super::virtual_device::{
    amplify, newest, padded, upmix, upmixed, Capture, SampleQueue,
};
use crate::ordered::product_by_one;
use crate::plugins::builtin::gate::{level_of, NoiseGatePlugin};
use crate::plugins::run::{effects_are_applied_in_order, is_passage, Given};
use crate::plugins::Effect;
use crate::rounding::milli;
use crate::scalar::Scalar;

verus! {

/// What goes into the effects: the captured frames as stereo, at the gain of the
/// microphone.
pub open spec fn captured(input: Seq<Scalar>, layout: Capture, gain: Scalar) -> Seq<Scalar> {
    Seq::new(
        2 * layout.frames as nat,
        |i: int| upmixed(input, layout.channels as int, i).product(gain),
    )
}

/// What goes into the effects.
pub fn begin_capture(input: &Vec<Scalar>, layout: Capture, gain: Scalar) -> (samples: Vec<Scalar>)
    requires
        layout.channels > 0,
        layout.frames * layout.channels <= input@.len(),
    ensures
        samples@ == captured(input@, layout, gain),
{
    let mut samples: Vec<Scalar> = upmix(input, layout.channels, layout.frames);
    amplify(&mut samples, gain);
    assert(samples@ =~= captured(input@, layout, gain));
    samples
}

/// What waits in the bridge after a capture, and the level that the meter is told.
pub open spec fn is_passed_on(
    samples: Seq<Scalar>,
    held: Seq<Scalar>,
    limit: nat,
    after: Seq<Scalar>,
    level: Option<Scalar>,
) -> bool {
    &&& after == newest(held + samples, limit)
    &&& level == (if samples.len() > 0 {
        Some(level_of(samples))
    } else {
        None
    })
}

/// Takes what came out of the effects: it waits in the bridge, behind what is there. Tells
/// its level for the meter; nothing was heard if there is no sample.
pub fn end_capture(samples: &Vec<Scalar>, bridge: &mut SampleQueue<Scalar>) -> (level: Option<Scalar>)
    ensures
        is_passed_on(samples@, old(bridge)@, old(bridge).limit(), final(bridge)@, level),
        final(bridge).limit() == old(bridge).limit(),
{
    bridge.push_samples(samples);
    if samples.len() > 0 {
        Some(NoiseGatePlugin::rms(samples))
    } else {
        None
    }
}

/// What is captured goes through the effects in their order and is played behind what was
/// captured before: all of it, as long as it fits into the bridge. Every captured frame
/// gives two samples.
pub proof fn what_is_captured_is_played(
    input: Seq<Scalar>,
    layout: Capture,
    gain: Scalar,
    chains: Seq<Seq<Effect>>,
    blocks: Seq<Seq<Scalar>>,
    rate: u32,
    givens: Seq<Given>,
    held: Seq<Scalar>,
    limit: nat,
)
    requires
        is_passage(chains, blocks, rate, givens),
        blocks[0] == captured(input, layout, gain),
        held.len() + 2 * layout.frames <= limit,
    ensures
        blocks.last().len() == 2 * layout.frames,
        newest(held + blocks.last(), limit) == held + blocks.last(),
        padded(
            newest(held + blocks.last(), limit),
            (held.len() + 2 * layout.frames) as nat,
            Scalar { bits: 0 },
        ) == held + blocks.last(),
        chains[0].len() == 0 ==> blocks.last() == captured(input, layout, gain),
{
    if chains[0].len() > 0 {
        effects_are_applied_in_order(chains, blocks, rate, givens, 0);
    }
    let all = held + blocks.last();
    assert(padded(all, all.len(), Scalar { bits: 0 }) =~= all);
}

/// Left stays left and right stays right: of a microphone with two channels or more, the
/// first channel is heard on the left and the second on the right, and a microphone with
/// one channel is heard on both sides.
pub proof fn channels_keep_their_sides(input: Seq<Scalar>, layout: Capture, gain: Scalar, f: int)
    requires
        layout.channels > 0,
        layout.frames * layout.channels <= input.len(),
        0 <= f < layout.frames,
    ensures
        ({
            let heard = captured(input, layout, gain);
            let (left, right) = (heard[2 * f], heard[2 * f + 1]);
            &&& heard.len() == 2 * layout.frames
            &&& left == input[f * layout.channels].product(gain)
            &&& layout.channels == 1 ==> right == left
            &&& layout.channels >= 2 ==> right == input[f * layout.channels + 1].product(gain)
        }),
{
    assert((2 * f) / 2 == f && (2 * f) % 2 == 0);
    assert((2 * f + 1) / 2 == f && (2 * f + 1) % 2 == 1);
}

/// A stereo capture is heard as it was captured, sample by sample, and with a gain of 1
/// nothing is changed at all.
pub proof fn a_stereo_capture_is_unchanged(input: Seq<Scalar>, layout: Capture, gain: Scalar, i: int)
    requires
        layout.channels == 2,
        2 * layout.frames <= input.len(),
        0 <= i < 2 * layout.frames,
    ensures
        captured(input, layout, gain)[i] == input[i].product(gain),
        gain == milli(1000) && !input[i].is_nan() ==> captured(input, layout, gain)[i] == input[i],
{
    channels_keep_their_sides(input, layout, gain, i / 2);
    assert(i == 2 * (i / 2) || i == 2 * (i / 2) + 1);
    if !input[i].is_nan() {
        product_by_one(input[i]);
    }
}

/// What was captured waits behind what is there, and the meter is told its level; where
/// nothing was captured the meter is left alone.
pub proof fn captures_wait_in_order(
    samples: Seq<Scalar>,
    held: Seq<Scalar>,
    limit: nat,
    after: Seq<Scalar>,
    level: Option<Scalar>,
)
    requires
        is_passed_on(samples, held, limit, after, level),
    ensures
        held.len() + samples.len() <= limit ==> after == held + samples,
        after.len() <= limit,
        level is Some <==> samples.len() > 0,
        level is Some ==> level->0 == level_of(samples),
{
}

} // verus!
