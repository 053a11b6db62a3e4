//! Seconds and samples.

use vstd::prelude::*;

use super::virtual_device::{CHANNELS, SAMPLE_RATE};
use crate::arithmetic::capped;
use crate::double::{double_of, whole_double, Double};
use crate::rounding::{from_milli, milli};
use crate::scalar::{Scalar, INFINITE};

verus! {

/// Samples in a second, both channels together.
pub const PER_SECOND: u64 = 96_000;

/// The samples that fit into the given time; none for a time that is negative or not
/// a number, and as many as can be counted for one beyond that.
pub open spec fn samples_of(secs: Scalar) -> nat {
    secs.whole_times(PER_SECOND as nat, usize::MAX as nat)
}

/// Whole frames: the even number of samples that is not larger.
pub open spec fn whole_frames(samples: nat) -> nat {
    samples / 2 * 2
}

/// The position of the given time: its samples, in whole frames.
pub fn position_at(secs: Scalar) -> (r: usize)
    ensures
        r == whole_frames(samples_of(secs)),
{
    let samples: usize = secs.floor_times(PER_SECOND, usize::MAX as u64) as usize;
    samples / CHANNELS * CHANNELS
}

/// The samples in `ms` milliseconds, at `per_sec` samples a second.
pub fn samples_in(ms: Scalar, per_sec: Scalar) -> (r: usize)
    ensures
        r == ms.ratio(milli(1_000_000)).product(per_sec).whole_times(1, usize::MAX as nat),
{
    ms.over(from_milli(1_000_000)).times(per_sec).floor_times(1, usize::MAX as u64) as usize
}

/// The samples in a playback of `secs` seconds, at `per_sec` samples a second.
pub fn samples_for(secs: Scalar, per_sec: Scalar) -> (r: usize)
    ensures
        r == secs.product(per_sec).whole_times(1, usize::MAX as nat),
{
    secs.times(per_sec).floor_times(1, usize::MAX as u64) as usize
}

/// The samples of a fade of `ms` milliseconds in the mix for the virtual microphone.
pub open spec fn fade_samples(ms: Scalar) -> nat {
    if ms.is_nan() || ms.negative() {
        0
    } else if ms.is_infinite() {
        usize::MAX as nat
    } else {
        capped(
            ms.widened().ratio(whole_double(1000)).product(
                whole_double(PER_SECOND as nat),
            ).whole_part(),
            usize::MAX as nat,
        )
    }
}

/// The samples of a fade of `ms` milliseconds in the mix for the virtual microphone.
pub fn fade_length(ms: Scalar) -> (r: usize)
    ensures
        r == fade_samples(ms),
{
    let p: u32 = ms.get_magnitude();
    if p > INFINITE || ms.get_negative() {
        return 0;
    }
    if p == INFINITE {
        return usize::MAX;
    }
    let secs: Double = ms.widen().over(double_of(1000));
    secs.times(double_of(PER_SECOND)).floor(usize::MAX as u64) as usize
}

/// The samples to mix for the time that has passed since the last mix, half a second
/// of it at most.
pub open spec fn samples_passed(secs: u64, nanos: u32) -> nat {
    let frames = if secs > 0 || nanos >= 500_000_000 {
        (SAMPLE_RATE / 2) as nat
    } else {
        whole_double(nanos as nat).ratio(whole_double(1_000_000_000)).product(
            whole_double(SAMPLE_RATE as nat),
        ).rounded_half_up()
    };
    2 * capped(frames, SAMPLE_RATE as nat)
}

/// The samples to mix for the time that has passed since the last mix: `secs` seconds
/// and `nanos` nanoseconds.
pub fn elapsed_samples(secs: u64, nanos: u32) -> (r: usize)
    ensures
        r == samples_passed(secs, nanos),
{
    let frames: u64 = if secs > 0 || nanos >= 500_000_000 {
        SAMPLE_RATE as u64 / 2
    } else {
        let part: Double = double_of(nanos as u64).over(double_of(1_000_000_000));
        part.times(double_of(SAMPLE_RATE as u64)).round(SAMPLE_RATE as u64)
    };
    frames as usize * CHANNELS
}

/// A time in whole seconds and nanoseconds.
#[derive(Clone, Copy, Debug, PartialEq, Eq, Structural)]
pub struct Span {
    pub secs: u64,
    pub nanos: u32,
}

impl Span {
    /// There is less than a second of nanoseconds.
    pub open spec fn wf(self) -> bool {
        self.nanos < 1_000_000_000
    }

    /// All of it in nanoseconds.
    pub open spec fn total(self) -> int {
        self.secs * 1_000_000_000 + self.nanos
    }

    /// What is left without `other`; nothing where that is longer.
    pub fn without(self, other: Span) -> (r: Span)
        requires
            self.wf(),
            other.wf(),
        ensures
            r.wf(),
            r.total() == (if other.total() < self.total() {
                self.total() - other.total()
            } else {
                0
            }),
    {
        if self.secs < other.secs || (self.secs == other.secs && self.nanos <= other.nanos) {
            Span { secs: 0, nanos: 0 }
        } else if self.nanos >= other.nanos {
            Span { secs: self.secs - other.secs, nanos: self.nanos - other.nanos }
        } else {
            Span {
                secs: self.secs - other.secs - 1,
                nanos: self.nanos + (1_000_000_000 - other.nanos),
            }
        }
    }
}

/// However long a tick was delayed, half a second is mixed at most.
pub proof fn half_a_second_at_most(secs: u64, nanos: u32)
    ensures
        secs > 0 ==> samples_passed(secs, nanos) == 48_000,
        nanos >= 500_000_000 ==> samples_passed(secs, nanos) == 48_000,
        samples_passed(secs, nanos) % 2 == 0,
{
}

/// A fade that is not asked for has no samples: one of no number, or of less than nothing.
pub proof fn fades_need_a_length(ms: Scalar)
    ensures
        ms.is_nan() || ms.negative() ==> fade_samples(ms) == 0,
        ms.is_infinite() && !ms.negative() ==> fade_samples(ms) == usize::MAX,
        fade_samples(ms) <= usize::MAX,
{
}

/// Positions are whole frames, and no sample is skipped for that.
pub proof fn frames_are_pairs_of_samples(samples: nat)
    ensures
        whole_frames(samples) % 2 == 0,
        whole_frames(samples) <= samples < whole_frames(samples) + 2,
{
}

} // verus!
