//! The outline of a sound: its loudest sample in each of a fixed number of buckets.

use vstd::prelude::*;

use super::virtual_device::SAMPLE_RATE;
use crate::rounding::{is_quotient, quotient};
use crate::scalar::Scalar;

verus! {

/// Number of buckets.
pub const WAVE_BUCKETS: usize = 1024;

/// The outline of a sound.
pub struct Wave {
    /// The loudest sample of each bucket, without its sign.
    pub peaks: Vec<Scalar>,
    pub duration_secs: Scalar,
    /// The loudest sample of the whole sound, without its sign.
    pub peak: Scalar,
}

/// The loudest of the samples, without its sign; 0 where there is none. What is not a
/// number makes no sound.
pub open spec fn loudest(samples: Seq<Scalar>) -> Scalar
    decreases samples.len(),
{
    if samples.len() == 0 {
        Scalar { bits: 0 }
    } else {
        loudest(samples.drop_last()).larger(samples.last().absolute())
    }
}

/// The first frame of a bucket, in a sound of `frames` frames: `bucket / 1024` of the
/// way, rounded up.
pub open spec fn bucket_start(bucket: int, frames: int) -> int {
    (bucket * frames + 1023) / 1024
}

/// The samples of a bucket. A frame holds two of them; what is left over at the end
/// belongs to the last bucket.
pub open spec fn bucket_samples(pcm: Seq<Scalar>, bucket: int) -> Seq<Scalar> {
    let frames = pcm.len() as int / 2;
    pcm.subrange(
        2 * bucket_start(bucket, frames),
        if bucket < 1023 {
            2 * bucket_start(bucket + 1, frames)
        } else {
            pcm.len() as int
        },
    )
}

proof fn bucket_bounds(bucket: int, frames: int)
    requires
        0 <= bucket < 1024,
        0 <= frames,
    ensures
        0 <= bucket_start(bucket, frames) <= bucket_start(bucket + 1, frames) <= frames,
        bucket_start(0, frames) == 0,
{
    assert(0 <= bucket * frames && bucket * frames <= 1023 * frames && (bucket + 1) * frames
        == bucket * frames + frames && (bucket + 1) * frames <= 1024 * frames) by (nonlinear_arith)
        requires
            0 <= bucket < 1024,
            0 <= frames,
    ;
    assert(0 * frames == 0);
}

/// Every frame lies in the bucket at its share of the way: frame `i` of `n` in bucket
/// `i * 1024 / n`.
pub proof fn frames_fill_the_buckets(i: int, frames: int)
    requires
        0 <= i < frames,
    ensures
        0 <= i * 1024 / frames < 1024,
        bucket_start(i * 1024 / frames, frames) <= i < bucket_start(
            i * 1024 / frames + 1,
            frames,
        ),
{
    let b = i * 1024 / frames;
    assert(0 <= b < 1024 && b * frames <= i * 1024 && i * 1024 < (b + 1) * frames)
        by (nonlinear_arith)
        requires
            0 <= i < frames,
            b == i * 1024 / frames,
    ;
}

proof fn loudest_is_a_number(samples: Seq<Scalar>)
    ensures
        !loudest(samples).is_nan(),
        !loudest(samples).negative(),
    decreases samples.len(),
{
    if samples.len() > 0 {
        loudest_is_a_number(samples.drop_last());
    }
}

/// No sample is louder than the loudest, and where that is not silence it is one of
/// them.
pub proof fn loudest_is_the_maximum(samples: Seq<Scalar>)
    ensures
        forall|i: int|
            0 <= i < samples.len() && !samples[i].is_nan() ==> (
            #[trigger] samples[i]).absolute().le(loudest(samples)),
        loudest(samples) == (Scalar { bits: 0 }) || exists|i: int|
            0 <= i < samples.len() && (#[trigger] samples[i]).absolute() == loudest(samples),
    decreases samples.len(),
{
    if samples.len() > 0 {
        let front = samples.drop_last();
        loudest_is_the_maximum(front);
        loudest_is_a_number(front);
        assert forall|i: int| 0 <= i < samples.len() && !samples[i].is_nan() implies (
        #[trigger] samples[i]).absolute().le(loudest(samples)) by {
            if i < front.len() {
                assert(front[i] == samples[i]);
            }
        }
        if loudest(samples) == samples.last().absolute() {
            assert(samples[samples.len() - 1].absolute() == loudest(samples));
        } else if loudest(front) != (Scalar { bits: 0 }) {
            let i = choose|i: int|
                0 <= i < front.len() && (#[trigger] front[i]).absolute() == loudest(front);
            assert(samples[i].absolute() == loudest(samples));
        }
    }
}

/// No bucket is louder than the whole sound, and one of them is as loud.
pub proof fn one_bucket_is_the_loudest(pcm: Seq<Scalar>)
    requires
        pcm.len() >= 2,
    ensures
        forall|b: int|
            0 <= b < 1024 ==> loudest(#[trigger] bucket_samples(pcm, b)).le(loudest(pcm)),
        exists|b: int|
            0 <= b < 1024 && loudest(#[trigger] bucket_samples(pcm, b)) == loudest(pcm),
{
    let frames = pcm.len() as int / 2;
    loudest_is_the_maximum(pcm);
    loudest_is_a_number(pcm);
    assert forall|b: int| 0 <= b < 1024 implies loudest(#[trigger] bucket_samples(pcm, b)).le(
        loudest(pcm),
    ) by {
        bucket_is_part(pcm, b);
        let part = bucket_samples(pcm, b);
        loudest_is_the_maximum(part);
        loudest_is_a_number(part);
        if loudest(part) != (Scalar { bits: 0 }) {
            let i = choose|i: int|
                0 <= i < part.len() && (#[trigger] part[i]).absolute() == loudest(part);
            let at = 2 * bucket_start(b, frames) + i;
            assert(part[i] == pcm[at]);
            assert(pcm[at].absolute().le(loudest(pcm)));
        }
    }
    if loudest(pcm) == (Scalar { bits: 0 }) {
        let part = bucket_samples(pcm, 0);
        assert(loudest(part).le(loudest(pcm)));
        loudest_is_a_number(part);
        assert(loudest(part) == loudest(pcm));
    } else {
        let at = choose|i: int|
            0 <= i < pcm.len() && (#[trigger] pcm[i]).absolute() == loudest(pcm);
        let b = if at / 2 < frames {
            (at / 2) * 1024 / frames
        } else {
            1023
        };
        if at / 2 < frames {
            frames_fill_the_buckets(at / 2, frames);
        }
        bucket_is_part(pcm, b);
        let part = bucket_samples(pcm, b);
        let i = at - 2 * bucket_start(b, frames);
        assert(part[i] == pcm[at]);
        loudest_is_the_maximum(part);
        loudest_is_a_number(part);
        assert(part[i].absolute().le(loudest(part)));
        assert(loudest(part).le(loudest(pcm)));
        assert(loudest(part) == loudest(pcm));
    }
}

proof fn bucket_is_part(pcm: Seq<Scalar>, b: int)
    requires
        0 <= b < 1024,
    ensures
        0 <= 2 * bucket_start(b, pcm.len() as int / 2) <= pcm.len(),
        bucket_samples(pcm, b).len() == (if b < 1023 {
            2 * bucket_start(b + 1, pcm.len() as int / 2)
        } else {
            pcm.len() as int
        }) - 2 * bucket_start(b, pcm.len() as int / 2),
        b < 1023 ==> 2 * bucket_start(b + 1, pcm.len() as int / 2) <= pcm.len(),
{
    bucket_bounds(b, pcm.len() as int / 2);
}

fn frame_at(bucket: usize, frames: usize) -> (r: usize)
    requires
        bucket <= 1023,
    ensures
        r == bucket_start(bucket as int, frames as int),
        r <= frames,
{
    proof {
        bucket_bounds(bucket as int, frames as int);
        assert(bucket * frames <= 1023 * 0xffff_ffff_ffff_ffff) by (nonlinear_arith)
            requires
                bucket <= 1023,
                0 <= frames <= 0xffff_ffff_ffff_ffff,
        ;
    }
    let at: u128 = (bucket as u128 * frames as u128 + 1023) / 1024;
    at as usize
}

/// The loudest of the samples from `from` up to `to`.
fn loudest_of(pcm: &Vec<Scalar>, from: usize, to: usize) -> (r: Scalar)
    requires
        from <= to <= pcm@.len(),
    ensures
        r == loudest(pcm@.subrange(from as int, to as int)),
{
    let mut r: Scalar = Scalar::zero();
    let mut i: usize = from;
    while i < to
        invariant
            from <= i <= to <= pcm@.len(),
            r == loudest(pcm@.subrange(from as int, i as int)),
        decreases to - i,
    {
        assert(pcm@.subrange(from as int, i + 1).drop_last() =~= pcm@.subrange(
            from as int,
            i as int,
        ));
        r = r.max_with(pcm[i].abs());
        i = i + 1;
    }
    r
}

/// `r` is the outline of a sound.
pub open spec fn is_wave(pcm: Seq<Scalar>, r: Wave) -> bool {
    &&& is_quotient(pcm.len() / 2, SAMPLE_RATE as nat, r.duration_secs)
    &&& r.peaks@.len() == WAVE_BUCKETS
    &&& forall|b: int|
        0 <= b < WAVE_BUCKETS ==> #[trigger] r.peaks@[b] == (if pcm.len() >= 2 {
            loudest(bucket_samples(pcm, b))
        } else {
            Scalar { bits: 0 }
        })
    &&& r.peak == (if pcm.len() >= 2 {
        loudest(pcm)
    } else {
        Scalar { bits: 0 }
    })
}

/// The outline of a sound, from its decoded samples.
pub fn build_wave(pcm: &Vec<Scalar>) -> (r: Wave)
    ensures
        is_wave(pcm@, r),
{
    let total: usize = pcm.len();
    let frames: usize = total / 2;
    let duration_secs: Scalar = quotient(frames as u64, SAMPLE_RATE);
    let mut peaks: Vec<Scalar> = Vec::new();
    let mut b: usize = 0;
    while b < WAVE_BUCKETS
        invariant
            b <= WAVE_BUCKETS,
            total == pcm@.len(),
            frames == total / 2,
            peaks@.len() == b,
            forall|k: int|
                0 <= k < b ==> #[trigger] peaks@[k] == (if frames > 0 {
                    loudest(bucket_samples(pcm@, k))
                } else {
                    Scalar { bits: 0 }
                }),
        decreases WAVE_BUCKETS - b,
    {
        let loud: Scalar = if frames > 0 {
            proof {
                bucket_bounds(b as int, frames as int);
            }
            let from: usize = 2 * frame_at(b, frames);
            let to: usize = if b < WAVE_BUCKETS - 1 {
                2 * frame_at(b + 1, frames)
            } else {
                total
            };
            loudest_of(pcm, from, to)
        } else {
            Scalar::zero()
        };
        peaks.push(loud);
        b = b + 1;
    }
    let peak: Scalar = if frames > 0 {
        assert(pcm@.subrange(0, pcm@.len() as int) =~= pcm@);
        loudest_of(pcm, 0, total)
    } else {
        Scalar::zero()
    };
    Wave { peaks, duration_secs, peak }
}

/// An outline shows the loudest sample of every stretch of a sound, and no stretch is
/// louder than the whole.
pub proof fn the_outline_shows_the_loudest(pcm: Seq<Scalar>, wave: Wave, i: int)
    requires
        is_wave(pcm, wave),
        pcm.len() >= 2,
        pcm.len() % 2 == 0,
        0 <= i < pcm.len(),
        !pcm[i].is_nan(),
    ensures
        wave.peaks@.len() == 1024,
        pcm[i].absolute().le(wave.peak),
        ({
            let b = (i / 2) * 1024 / (pcm.len() as int / 2);
            &&& 0 <= b < 1024
            &&& pcm[i].absolute().le(wave.peaks@[b])
            &&& wave.peaks@[b].le(wave.peak)
        }),
        is_quotient(pcm.len() / 2, 48_000, wave.duration_secs),
{
    let frames = pcm.len() as int / 2;
    let b = (i / 2) * 1024 / frames;
    frames_fill_the_buckets(i / 2, frames);
    bucket_is_part(pcm, b);
    let part = bucket_samples(pcm, b);
    let from = 2 * bucket_start(b, frames);
    if b == 1023 {
        assert(bucket_start(1024, frames) == frames) by (nonlinear_arith)
            requires
                bucket_start(1024, frames) == (1024 * frames + 1023) / 1024,
                frames >= 0,
        ;
    }
    assert(part[i - from] == pcm[i]);
    loudest_is_the_maximum(part);
    loudest_is_the_maximum(pcm);
    one_bucket_is_the_loudest(pcm);
    assert(wave.peaks@[b] == loudest(bucket_samples(pcm, b)));
}

} // verus!
