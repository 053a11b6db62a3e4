//! Playback: what is playing, what waits, and which samples go into the mix.
//!
//! Each sound plays twice: on the monitor output, from its file, and into the virtual
//! microphone, from its decoded samples. The engine keeps both in step. It knows a
//! sound by a key; the outputs, the decoder and the arithmetic on samples belong to
//! whoever holds the key.

use vstd::prelude::*;

use super::time::{
    fade_length, fade_samples, position_at, samples_for, samples_in, samples_of, whole_frames,
    Span,
};
use super::virtual_device::{CHANNELS, SAMPLE_RATE};
use crate::arithmetic::{capped, from_whole, whole};
use crate::double::{double_of, whole_double, Double, Fraction, FULL};
use crate::path::{equal_paths, same_path};
use crate::rounding::{from_milli, milli, milli_grows, milli_zero};
use crate::scalar::Scalar;
use crate::search::filter_positions;
use crate::text::owned;

verus! {

/// About 85 ms of mono audio: what the oscilloscope shows.
pub const ANALYSIS_LEN: usize = 4096;

/// Everything that shapes one playback: gain, trim window and fades.
#[derive(Clone, Copy, Debug, PartialEq, Eq, Structural)]
pub struct PlayParams {
    /// Linear gain from 0 to 1.
    pub volume: Scalar,
    pub start_secs: Scalar,
    /// 0 plays to the end.
    pub end_secs: Scalar,
    pub fade_in_ms: Scalar,
    pub fade_out_ms: Scalar,
}

impl Default for PlayParams {
    fn default() -> (r: Self)
        ensures
            r == (PlayParams {
                volume: milli(1000),
                start_secs: milli(0),
                end_secs: milli(0),
                fade_in_ms: milli(0),
                fade_out_ms: milli(0),
            }),
    {
        PlayParams {
            volume: from_milli(1000),
            start_secs: from_milli(0),
            end_secs: from_milli(0),
            fade_in_ms: from_milli(0),
            fade_out_ms: from_milli(0),
        }
    }
}

pub open spec fn zero() -> Scalar {
    Scalar { bits: 0 }
}

// ── Fades ────────────────────────────────────────────────────────────────────

/// A gain between 0 and 1, as a fraction.
#[derive(Clone, Copy, Debug, PartialEq, Eq, Structural)]
pub struct Fade {
    pub num: usize,
    pub den: usize,
}

impl Fade {
    pub open spec fn wf(self) -> bool {
        0 < self.den && self.num <= self.den
    }
}

/// The gain of a fade-in of `length` samples, `since` samples after its beginning.
pub open spec fn fade_in_at(since: int, length: int) -> Option<Fade> {
    if 0 < length && since < length {
        Some(Fade { num: since as usize, den: length as usize })
    } else {
        None
    }
}

/// The gain of a fade-out of `length` samples, `left` samples before its end.
pub open spec fn fade_out_at(left: int, length: int) -> Option<Fade> {
    if 0 < length && left <= length {
        Some(Fade { num: left as usize, den: length as usize })
    } else {
        None
    }
}

/// The fades of a playback on the monitor output, counted in its own samples.
pub struct Envelope {
    pub pos: usize,
    pub fade_in: usize,
    pub fade_out: usize,
    /// Length of the playback; without it there is no fade-out.
    pub total: Option<usize>,
}

/// `r` are the fades of a playback of `total_secs` seconds that begins, at the given rate
/// and number of channels.
pub open spec fn is_envelope(
    fade_in_ms: Scalar,
    fade_out_ms: Scalar,
    total_secs: Option<Scalar>,
    sample_rate: u32,
    channels: u16,
    r: Envelope,
) -> bool {
    let per_sec = whole(sample_rate as nat).product(whole(channels as nat));
    &&& r.pos == 0
    &&& r.fade_in == fade_in_ms.ratio(milli(1_000_000)).product(per_sec).whole_times(
        1,
        usize::MAX as nat,
    )
    &&& r.fade_out == fade_out_ms.ratio(milli(1_000_000)).product(per_sec).whole_times(
        1,
        usize::MAX as nat,
    )
    &&& match total_secs {
        Some(secs) => r.total matches Some(total) && total == secs.product(per_sec).whole_times(
            1,
            usize::MAX as nat,
        ),
        None => r.total is None,
    }
}

impl Envelope {
    /// What is left after `pos` samples.
    pub open spec fn left(&self) -> int {
        if self.total->0 < self.pos {
            0
        } else {
            self.total->0 - self.pos
        }
    }

    /// The fades of a playback of `total_secs` seconds, at the given rate and number of
    /// channels.
    pub fn new(
        fade_in_ms: Scalar,
        fade_out_ms: Scalar,
        total_secs: Option<Scalar>,
        sample_rate: u32,
        channels: u16,
    ) -> (r: Self)
        ensures
            is_envelope(fade_in_ms, fade_out_ms, total_secs, sample_rate, channels, r),
    {
        let per_sec: Scalar = from_whole(sample_rate as u64).times(from_whole(channels as u64));
        let total: Option<usize> = match total_secs {
            Some(secs) => Some(samples_for(secs, per_sec)),
            None => None,
        };
        Envelope {
            pos: 0,
            fade_in: samples_in(fade_in_ms, per_sec),
            fade_out: samples_in(fade_out_ms, per_sec),
            total,
        }
    }

    /// The gain of the next sample.
    pub open spec fn gain(&self) -> Scalar {
        let rising = faded(milli(1000), fade_in_at(self.pos as int, self.fade_in as int));
        if self.total is Some {
            faded(rising, fade_out_at(self.left(), self.fade_out as int))
        } else {
            rising
        }
    }

    /// The envelope one sample later.
    pub open spec fn later(self) -> Envelope {
        Envelope {
            pos: if self.pos < usize::MAX {
                (self.pos + 1) as usize
            } else {
                usize::MAX
            },
            ..self
        }
    }

    /// A sample with its fades.
    pub open spec fn shaped(&self, sample: Scalar) -> Scalar {
        sample.product(self.gain())
    }

    /// The next sample, with its fades.
    pub fn shape(&mut self, sample: Scalar) -> (r: Scalar)
        ensures
            r == old(self).shaped(sample),
            *final(self) == old(self).later(),
    {
        let (rising, falling): (Option<Fade>, Option<Fade>) = self.step();
        sample.times(apply_fade(apply_fade(from_milli(1000), rising), falling))
    }

    /// The gains for the next sample.
    pub fn step(&mut self) -> (r: (Option<Fade>, Option<Fade>))
        ensures
            r.0 == fade_in_at(old(self).pos as int, old(self).fade_in as int),
            r.1 == (if old(self).total is Some {
                fade_out_at(old(self).left(), old(self).fade_out as int)
            } else {
                None
            }),
            r.0 matches Some(fade) ==> fade.wf(),
            r.1 matches Some(fade) ==> fade.wf(),
            *final(self) == old(self).later(),
    {
        let rising: Option<Fade> = if self.fade_in > 0 && self.pos < self.fade_in {
            Some(Fade { num: self.pos, den: self.fade_in })
        } else {
            None
        };
        let falling: Option<Fade> = match self.total {
            Some(total) => {
                let left: usize = if total < self.pos {
                    0
                } else {
                    total - self.pos
                };
                if self.fade_out > 0 && left <= self.fade_out {
                    Some(Fade { num: left, den: self.fade_out })
                } else {
                    None
                }
            },
            None => None,
        };
        if self.pos < usize::MAX {
            self.pos = self.pos + 1;
        }
        (rising, falling)
    }
}

// ── Sounds ───────────────────────────────────────────────────────────────────

/// A sound that is playing.
pub struct PlayingSound {
    pub key: u64,
    pub name: String,
    pub path: String,
    /// The request; it defines the window that is shown even after seeks.
    pub params: PlayParams,
    /// Where the monitor output started in the file; changes on a seek.
    pub play_offset_secs: Scalar,
    /// Length of the file, if it is known.
    pub file_secs: Option<Scalar>,
    /// Number of decoded samples, once they are there.
    pub pcm_len: Option<usize>,
    pub pcm_pos: usize,
    pub volume: Scalar,
    pub start_pos: usize,
    pub end_pos: Option<usize>,
    pub fade_in_samples: usize,
    pub fade_out_samples: usize,
}

impl PlayingSound {
    /// The position is behind the start, or behind everything there is.
    pub open spec fn wf(&self) -> bool {
        self.start_pos <= self.pcm_pos || (self.pcm_len is Some && self.pcm_len->0
            <= self.pcm_pos)
    }

    /// The start of the window that is shown.
    pub open spec fn window_start(&self) -> Scalar {
        self.params.start_secs.larger(zero())
    }

    /// The end of the window that is shown, as far as it is known.
    pub open spec fn window_end(&self) -> Option<Scalar> {
        if self.window_start().lt(self.params.end_secs) {
            Some(self.params.end_secs)
        } else {
            self.file_secs
        }
    }

    /// The window that is shown, in file time.
    pub fn window(&self) -> (r: (Scalar, Option<Scalar>))
        ensures
            r.0 == self.window_start(),
            r.1 == self.window_end(),
    {
        let start: Scalar = self.params.start_secs.max_with(Scalar::zero());
        let end: Option<Scalar> = if start.below(self.params.end_secs) {
            Some(self.params.end_secs)
        } else {
            self.file_secs
        };
        (start, end)
    }

    /// The window in which progress is shown.
    pub open spec fn shown_window(&self) -> Option<(Scalar, Scalar)> {
        match self.window_end() {
            Some(end) => if self.window_start().lt(end) {
                Some((self.window_start(), end))
            } else {
                None
            },
            None => None,
        }
    }

    /// The window, if progress can be shown in it: its end is known and behind its
    /// start.
    pub fn progress_window(&self) -> (r: Option<(Scalar, Scalar)>)
        ensures
            r == self.shown_window(),
    {
        let (start, end): (Scalar, Option<Scalar>) = self.window();
        match end {
            Some(end) => {
                if start.below(end) {
                    Some((start, end))
                } else {
                    None
                }
            },
            None => None,
        }
    }

    /// Where the sound is in its file, after its output has played for `played` seconds.
    pub open spec fn position(&self, played: Scalar) -> Scalar {
        self.play_offset_secs.sum(played)
    }

    /// How far the sound is, and how many whole seconds of it are left. Both are about
    /// the window that is shown, which survives seeks.
    pub open spec fn progress_at(&self, played: Scalar) -> (Scalar, Option<u32>) {
        match self.window_end() {
            Some(end) => if self.window_start().lt(end) {
                let pos = self.position(played);
                let start = self.window_start();
                (
                    pos.difference(start).ratio(end.difference(start)).clamped(
                        milli(0),
                        milli(1000),
                    ),
                    Some(
                        end.difference(pos).larger(zero()).whole_times(1, u32::MAX as nat) as u32,
                    ),
                )
            } else {
                (milli(0), None)
            },
            None => (milli(0), None),
        }
    }

    /// How far the sound is, and how many whole seconds of it are left.
    pub fn progress(&self, played: Scalar) -> (r: (Scalar, Option<u32>))
        ensures
            r == self.progress_at(played),
    {
        match self.progress_window() {
            Some((start, end)) => {
                proof {
                    milli_grows(0, 1000);
                }
                let pos: Scalar = self.play_offset_secs.plus(played);
                let fraction: Scalar = pos.minus(start).over(end.minus(start)).clamp_to(
                    from_milli(0),
                    from_milli(1000),
                );
                let left: u64 = end.minus(pos).max_with(Scalar::zero()).floor_times(
                    1,
                    u32::MAX as u64,
                );
                (fraction, Some(left as u32))
            },
            None => (from_milli(0), None),
        }
    }

    /// The samples end here, by the trim or by the file.
    pub open spec fn limit(&self) -> int {
        match self.end_pos {
            Some(end) => if end < self.pcm_len->0 {
                end as int
            } else {
                self.pcm_len->0 as int
            },
            None => self.pcm_len->0 as int,
        }
    }

    /// How many samples go into a mix of `n`.
    pub open spec fn available(&self, n: int) -> int {
        let end = if self.pcm_pos + n < self.limit() {
            self.pcm_pos + n
        } else {
            self.limit()
        };
        if self.pcm_pos < end {
            end - self.pcm_pos
        } else {
            0
        }
    }
}

/// A sound that waits for its turn.
pub struct QueuedSound {
    pub name: String,
    pub path: String,
    pub total_secs: Option<u32>,
    pub params: PlayParams,
}

/// What is shown of a sound that is playing.
pub struct SoundInfo {
    pub name: String,
    /// How much of the window has been played, from 0 to 1.
    pub fraction: Scalar,
    /// Whole seconds left, if that is known.
    pub remaining_secs: Option<u32>,
}

/// What a mix takes from one sound: `count` samples from `from` on.
#[derive(Clone, Copy, Debug, PartialEq, Eq, Structural)]
pub struct Segment {
    pub key: u64,
    pub from: usize,
    pub count: usize,
    /// Gain of all its samples, before the fades.
    pub gain: Scalar,
    pub start_pos: usize,
    pub limit: usize,
    pub fade_in: usize,
    pub fade_out: usize,
}

impl Segment {
    /// The samples lie behind the start and before the end.
    pub open spec fn wf(self) -> bool {
        self.count > 0 ==> self.start_pos <= self.from && self.from + self.count <= self.limit
    }

    /// The gains of sample `i`, on top of the volume.
    pub fn fades(&self, i: usize) -> (r: (Option<Fade>, Option<Fade>))
        requires
            self.wf(),
            i < self.count,
        ensures
            r.0 == fade_in_at(self.from + i - self.start_pos, self.fade_in as int),
            r.1 == fade_out_at(self.limit - (self.from + i), self.fade_out as int),
            r.0 matches Some(fade) ==> fade.wf(),
            r.1 matches Some(fade) ==> fade.wf(),
    {
        let pos: usize = self.from + i;
        let since: usize = pos - self.start_pos;
        let left: usize = self.limit - pos;
        let rising: Option<Fade> = if self.fade_in > 0 && since < self.fade_in {
            Some(Fade { num: since, den: self.fade_in })
        } else {
            None
        };
        let falling: Option<Fade> = if self.fade_out > 0 && left <= self.fade_out {
            Some(Fade { num: left, den: self.fade_out })
        } else {
            None
        };
        (rising, falling)
    }
}

/// What to do with a tick of `n` samples.
pub enum MixPlan {
    /// Add up these, one for each sound with samples.
    Mix(Vec<Segment>),
    /// Sounds play, but their samples are not there yet: the oscilloscope goes on with
    /// this many frames of silence.
    Silence(usize),
    Nothing,
}

/// What a request to play comes to.
#[derive(Clone, Copy, Debug, PartialEq, Eq, Structural)]
pub enum PlayAction {
    Start,
    Queue,
}

/// A seek that can be carried out: where the sound is, how to play it, and from where.
pub struct SeekRequest {
    pub path: String,
    pub params: PlayParams,
    pub target: Scalar,
}

/// The time at a fraction of the window from `start` to `end`.
pub open spec fn time_at(start: Scalar, end: Scalar, fraction: Fraction) -> Scalar {
    start.sum(
        fraction.pinned().narrowed().product(end.difference(start).larger(zero())),
    )
}

// ── The engine ───────────────────────────────────────────────────────────────

pub struct AudioEngine {
    pub playing: Vec<PlayingSound>,
    pub queue: Vec<QueuedSound>,
    pub polyphonic: bool,
    pub monitor_volume: Scalar,
    pub monitor_enabled: bool,
    /// Level of the soundboard mix into the virtual mic.
    pub soundboard_mic_volume: Scalar,
    pub next_key: u64,
    /// Where the preview started in its file, while one runs. It is heard on the monitor
    /// output only.
    pub preview: Option<Scalar>,
}

pub open spec fn sounds_wf(playing: Seq<PlayingSound>) -> bool {
    forall|i: int| 0 <= i < playing.len() ==> (#[trigger] playing[i]).wf()
}

/// The sounds of which `gone` does not hold, by position.
pub open spec fn remaining(playing: Seq<PlayingSound>, gone: Seq<bool>) -> Seq<PlayingSound>
    decreases playing.len(),
{
    if playing.len() == 0 {
        Seq::empty()
    } else {
        let rest = remaining(playing.drop_last(), gone.drop_last());
        if gone.last() {
            rest
        } else {
            rest.push(playing.last())
        }
    }
}

/// A sound after its decoder was looked at: `ready` is the number of its samples, if
/// they have arrived. Until then its position runs on, so that it starts in step.
pub open spec fn advanced(s: PlayingSound, n: usize, ready: Option<usize>) -> PlayingSound {
    if s.pcm_len is Some {
        s
    } else {
        match ready {
            Some(len) => PlayingSound {
                pcm_len: Some(len),
                pcm_pos: if s.pcm_pos < len {
                    s.pcm_pos
                } else {
                    len
                },
                ..s
            },
            None => PlayingSound {
                pcm_pos: if s.pcm_pos + n <= usize::MAX {
                    (s.pcm_pos + n) as usize
                } else {
                    usize::MAX
                },
                ..s
            },
        }
    }
}

/// A sound after a mix of `n` samples.
pub open spec fn mixed(s: PlayingSound, n: usize) -> PlayingSound {
    if s.pcm_len is Some {
        PlayingSound { pcm_pos: (s.pcm_pos + s.available(n as int)) as usize, ..s }
    } else {
        s
    }
}

/// What a mix of `n` samples at the given level takes from a sound.
pub open spec fn segment_of(s: PlayingSound, n: usize, level: Scalar) -> Segment {
    Segment {
        key: s.key,
        from: s.pcm_pos,
        count: s.available(n as int) as usize,
        gain: s.volume.product(level),
        start_pos: s.start_pos,
        limit: s.limit() as usize,
        fade_in: s.fade_in_samples,
        fade_out: s.fade_out_samples,
    }
}

pub open spec fn has_pcm() -> spec_fn(PlayingSound) -> bool {
    |s: PlayingSound| s.pcm_len is Some
}

/// What a mix of `n` samples at the given level takes from all sounds.
pub open spec fn segments_of(playing: Seq<PlayingSound>, n: usize, level: Scalar) -> Seq<Segment> {
    playing.filter(has_pcm()).map_values(|s: PlayingSound| segment_of(s, n, level))
}

/// A sound after a new volume was set for the file at `path`.
pub open spec fn with_volume(s: PlayingSound, path: Seq<char>, volume: Scalar) -> PlayingSound {
    if equal_paths(s.path@, path) {
        PlayingSound { volume, ..s }
    } else {
        s
    }
}

/// A waiting sound after a new volume was set for the file at `path`.
pub open spec fn queued_with_volume(q: QueuedSound, path: Seq<char>, volume: Scalar) -> QueuedSound {
    if equal_paths(q.path@, path) {
        QueuedSound { params: PlayParams { volume, ..q.params }, ..q }
    } else {
        q
    }
}

/// `after` is the playing sound `before`, once the file at `old_path` is at `new_path`.
pub open spec fn playing_renamed(
    before: PlayingSound,
    after: PlayingSound,
    old_path: Seq<char>,
    new_path: Seq<char>,
) -> bool {
    if equal_paths(before.path@, old_path) {
        after.path@ == new_path && after == (PlayingSound { path: after.path, ..before })
    } else {
        after == before
    }
}

/// `after` is the waiting sound `before`, once the file at `old_path` is at `new_path`.
pub open spec fn queued_renamed(
    before: QueuedSound,
    after: QueuedSound,
    old_path: Seq<char>,
    new_path: Seq<char>,
) -> bool {
    if equal_paths(before.path@, old_path) {
        after.path@ == new_path && after == (QueuedSound { path: after.path, ..before })
    } else {
        after == before
    }
}

/// `after` is the engine `before`, once the file at `old_path` is at `new_path`: every
/// playing and waiting instance of it refers to the new path, and nothing else changes.
pub open spec fn engine_renamed(
    before: AudioEngine,
    after: AudioEngine,
    old_path: Seq<char>,
    new_path: Seq<char>,
) -> bool {
    &&& after.playing@.len() == before.playing@.len()
    &&& forall|i: int|
        0 <= i < after.playing@.len() ==> playing_renamed(
            before.playing@[i],
            #[trigger] after.playing@[i],
            old_path,
            new_path,
        )
    &&& after.queue@.len() == before.queue@.len()
    &&& forall|i: int|
        0 <= i < after.queue@.len() ==> queued_renamed(
            before.queue@[i],
            #[trigger] after.queue@[i],
            old_path,
            new_path,
        )
    &&& after == (AudioEngine { playing: after.playing, queue: after.queue, ..before })
}

/// `after` is the engine `before`, once a sound was put at the end of the queue.
pub open spec fn is_cued(
    before: AudioEngine,
    after: AudioEngine,
    path: Seq<char>,
    name: Seq<char>,
    total_secs: Option<u32>,
    params: PlayParams,
) -> bool {
    let q = after.queue@.last();
    &&& after.queue@.len() == before.queue@.len() + 1
    &&& after.queue@.drop_last() == before.queue@
    &&& q.path@ == path
    &&& q.name@ == name
    &&& q.total_secs == total_secs
    &&& q.params == params
    &&& after == (AudioEngine { queue: after.queue, ..before })
}

/// `after` is the engine `before`, once what plays was stopped and the next sound of the
/// queue was taken out as `next`.
pub open spec fn is_skipped(
    before: AudioEngine,
    after: AudioEngine,
    next: Option<QueuedSound>,
) -> bool {
    &&& after.playing@.len() == 0
    &&& match next {
        Some(next) => before.queue@.len() > 0 && next == before.queue@[0] && after.queue@
            == before.queue@.skip(1),
        None => before.queue@.len() == 0 && after.queue@ == before.queue@,
    }
    &&& after == (AudioEngine { playing: after.playing, queue: after.queue, ..before })
}

/// `after` is the engine `before`, once everything was stopped.
pub open spec fn is_stopped(before: AudioEngine, after: AudioEngine) -> bool {
    &&& after.playing@.len() == 0
    &&& after.queue@.len() == 0
    &&& after == (AudioEngine { playing: after.playing, queue: after.queue, ..before })
}

/// `after` is the engine `before`, once every instance of the file at `path` was stopped.
pub open spec fn is_stopped_by_path(
    before: AudioEngine,
    after: AudioEngine,
    path: Seq<char>,
) -> bool {
    &&& after.playing@ == remaining(
        before.playing@,
        Seq::new(
            before.playing@.len(),
            |i: int| equal_paths(before.playing@[i].path@, path),
        ),
    )
    &&& after == (AudioEngine { playing: after.playing, ..before })
}

/// `after` is the engine `before`, once the file at `path` was given a volume.
pub open spec fn is_turned(
    before: AudioEngine,
    after: AudioEngine,
    path: Seq<char>,
    volume: Scalar,
) -> bool {
    &&& after.playing@.len() == before.playing@.len()
    &&& forall|i: int|
        0 <= i < after.playing@.len() ==> #[trigger] after.playing@[i] == with_volume(
            before.playing@[i],
            path,
            volume,
        )
    &&& after.queue@.len() == before.queue@.len()
    &&& forall|i: int|
        0 <= i < after.queue@.len() ==> #[trigger] after.queue@[i] == queued_with_volume(
            before.queue@[i],
            path,
            volume,
        )
    &&& after == (AudioEngine { playing: after.playing, queue: after.queue, ..before })
}

/// `after` is the engine `before`, once the next sound of the queue was asked for.
pub open spec fn is_next_taken(
    before: AudioEngine,
    after: AudioEngine,
    r: Option<QueuedSound>,
) -> bool {
    &&& match r {
        Some(next) => before.playing@.len() == 0 && before.queue@.len() > 0 && next
            == before.queue@[0] && after.queue@ == before.queue@.skip(1),
        None => (before.playing@.len() > 0 || before.queue@.len() == 0) && after.queue@
            == before.queue@,
    }
    &&& after == (AudioEngine { queue: after.queue, ..before })
}

/// Something plays, and all of it is paused.
pub open spec fn all_paused(engine: AudioEngine, paused: Seq<bool>) -> bool {
    engine.playing@.len() > 0 && forall|i: int| 0 <= i < paused.len() ==> #[trigger] paused[i]
}

/// The engine once a preview has been started.
pub open spec fn with_preview(engine: AudioEngine, params: PlayParams) -> AudioEngine {
    AudioEngine { preview: Some(params.start_secs), ..engine }
}

/// `r` is where the preview is after `elapsed` seconds.
pub open spec fn is_preview_place(
    before: AudioEngine,
    after: AudioEngine,
    ended: bool,
    elapsed: Scalar,
    r: Option<Scalar>,
) -> bool {
    &&& r == (match before.preview {
        Some(start) => if ended {
            None
        } else {
            Some(start.sum(elapsed))
        },
        None => None,
    })
    &&& after == (AudioEngine {
        preview: if ended {
            None
        } else {
            before.preview
        },
        ..before
    })
}

/// `seek` is what a seek to a fraction of the first sound's window comes to.
pub open spec fn is_seek(
    engine: AudioEngine,
    fraction: Fraction,
    seek: Option<SeekRequest>,
) -> bool {
    match seek {
        Some(seek) => {
            &&& engine.playing@.len() > 0
            &&& engine.playing@[0].window_end() matches Some(end) && seek.target == time_at(
                engine.playing@[0].window_start(),
                end,
                fraction,
            )
            &&& seek.path@ == engine.playing@[0].path@
            &&& seek.params == (PlayParams { fade_in_ms: zero(), ..engine.playing@[0].params })
        },
        None => engine.playing@.len() == 0 || engine.playing@[0].window_end() is None,
    }
}

/// `after` is the engine `before`, once its first sound plays from `target`.
pub open spec fn is_seeked(before: AudioEngine, after: AudioEngine, target: Scalar) -> bool {
    &&& after.playing@ == before.playing@.update(
        0,
        (PlayingSound {
            play_offset_secs: target,
            pcm_pos: whole_frames(samples_of(target)) as usize,
            start_pos: whole_frames(samples_of(target)) as usize,
            fade_in_samples: 0,
            ..before.playing@[0]
        }),
    )
    &&& after.playing@[0].window_start() == before.playing@[0].window_start()
    &&& after.playing@[0].window_end() == before.playing@[0].window_end()
    &&& after == (AudioEngine { playing: after.playing, ..before })
}

/// `after` is the engine `before`, once a sound was started on the monitor output: it
/// comes behind all the others, under a key of its own.
pub open spec fn is_started(
    before: AudioEngine,
    after: AudioEngine,
    path: Seq<char>,
    name: Seq<char>,
    params: PlayParams,
    file_secs: Option<Scalar>,
    pcm_len: Option<usize>,
) -> bool {
    let s = after.playing@.last();
    let start = whole_frames(samples_of(params.start_secs.larger(zero())));
    &&& after.next_key == before.next_key + 1
    &&& after.playing@.len() == before.playing@.len() + 1
    &&& after.playing@.drop_last() == before.playing@
    &&& s.key == before.next_key
    &&& s.path@ == path
    &&& s.name@ == name
    &&& s.params == params
    &&& s.play_offset_secs == params.start_secs.larger(zero())
    &&& s.file_secs == file_secs
    &&& s.pcm_len == pcm_len
    &&& s.volume == params.volume
    &&& s.start_pos == start
    &&& s.pcm_pos == start
    &&& s.end_pos == (if params.start_secs.lt(params.end_secs) {
        Some(whole_frames(samples_of(params.end_secs)) as usize)
    } else {
        None
    })
    &&& s.fade_in_samples == fade_samples(params.fade_in_ms)
    &&& s.fade_out_samples == fade_samples(params.fade_out_ms)
    &&& after == (AudioEngine { playing: after.playing, next_key: after.next_key, ..before })
}

/// `plan` is what a mix of `n` samples at the given level takes from the sounds, and
/// `after` are the sounds after it.
pub open spec fn is_mix(
    playing: Seq<PlayingSound>,
    n: usize,
    level: Scalar,
    plan: MixPlan,
    after: Seq<PlayingSound>,
) -> bool {
    match plan {
        MixPlan::Mix(segments) => {
            &&& n > 0
            &&& exists|i: int| 0 <= i < playing.len() && (#[trigger] playing[i]).pcm_len is Some
            &&& segments@ == segments_of(playing, n, level)
            &&& forall|k: int|
                0 <= k < segments@.len() ==> (#[trigger] segments@[k]).wf() && segments@[k].count
                    <= n
            &&& after.len() == playing.len()
            &&& forall|i: int|
                0 <= i < after.len() ==> #[trigger] after[i] == mixed(playing[i], n)
        },
        MixPlan::Silence(frames) => {
            &&& n > 0
            &&& playing.len() > 0
            &&& forall|i: int| 0 <= i < playing.len() ==> (#[trigger] playing[i]).pcm_len is None
            &&& frames == n / CHANNELS
            &&& after == playing
        },
        MixPlan::Nothing => {
            &&& n == 0 || playing.len() == 0
            &&& after == playing
        },
    }
}

impl AudioEngine {
    pub open spec fn wf(&self) -> bool {
        sounds_wf(self.playing@)
    }

    /// The gain on the monitor output, before that of each sound.
    pub open spec fn base(&self) -> Scalar {
        if self.monitor_enabled {
            self.monitor_volume
        } else {
            zero()
        }
    }

    pub fn new() -> (r: Self)
        ensures
            r.wf(),
            r.playing@.len() == 0,
            r.queue@.len() == 0,
            r.polyphonic,
            r.monitor_volume == milli(1000),
            r.monitor_enabled,
            r.soundboard_mic_volume == milli(1000),
            r.next_key == 0,
            r.preview is None,
    {
        AudioEngine {
            playing: Vec::new(),
            queue: Vec::new(),
            polyphonic: true,
            monitor_volume: from_milli(1000),
            monitor_enabled: true,
            soundboard_mic_volume: from_milli(1000),
            next_key: 0,
            preview: None,
        }
    }

    pub fn set_polyphonic(&mut self, v: bool)
        ensures
            *final(self) == (AudioEngine { polyphonic: v, ..*old(self) }),
    {
        self.polyphonic = v;
    }

    pub fn set_monitor_volume(&mut self, v: Scalar)
        ensures
            *final(self) == (AudioEngine { monitor_volume: v, ..*old(self) }),
    {
        self.monitor_volume = v;
    }

    /// Switches the monitor output. The virtual mic is not touched: it always carries
    /// soundboard and mic.
    pub fn set_monitor_enabled(&mut self, enabled: bool)
        ensures
            *final(self) == (AudioEngine { monitor_enabled: enabled, ..*old(self) }),
    {
        self.monitor_enabled = enabled;
    }

    pub fn set_soundboard_mic_volume(&mut self, v: Scalar)
        ensures
            *final(self) == (AudioEngine { soundboard_mic_volume: v, ..*old(self) }),
    {
        self.soundboard_mic_volume = v;
    }

    /// The gain on the monitor output, before that of each sound.
    pub fn monitor_base(&self) -> (r: Scalar)
        ensures
            r == self.base(),
    {
        if self.monitor_enabled {
            self.monitor_volume
        } else {
            Scalar::zero()
        }
    }

    /// The gain of sound `i` on the monitor output.
    pub fn monitor_gain(&self, i: usize) -> (r: Scalar)
        requires
            i < self.playing@.len(),
        ensures
            r == self.monitor_level(i as int),
    {
        self.monitor_base().times(self.playing[i].volume)
    }

    // ── Playing and queueing ─────────────────────────────────────────────────

    /// What a request to play comes to now.
    pub open spec fn play_action(&self) -> PlayAction {
        if self.polyphonic || self.playing@.len() == 0 {
            PlayAction::Start
        } else {
            PlayAction::Queue
        }
    }

    /// What a request to play comes to now: sounds pile up in polyphonic mode;
    /// otherwise one plays at a time and the others wait.
    pub fn play(&self) -> (r: PlayAction)
        ensures
            r == self.play_action(),
    {
        if self.polyphonic || self.playing.len() == 0 {
            PlayAction::Start
        } else {
            PlayAction::Queue
        }
    }

    /// Puts a sound at the end of the queue, whatever the mode.
    pub fn cue(&mut self, path: &str, name: &str, total_secs: Option<u32>, params: PlayParams)
        ensures
            is_cued(*old(self), *final(self), path@, name@, total_secs, params),
    {
        self.queue.push(
            QueuedSound { name: owned(name), path: owned(path), total_secs, params },
        );
        assert(self.queue@.drop_last() =~= old(self).queue@);
    }

    /// A sound has been started on the monitor output: takes it in and gives it a key.
    /// `file_secs` is the length of the file, `pcm_len` the number of its samples if
    /// they are decoded already.
    pub fn started(
        &mut self,
        path: &str,
        name: &str,
        params: PlayParams,
        file_secs: Option<Scalar>,
        pcm_len: Option<usize>,
    ) -> (key: u64)
        requires
            old(self).wf(),
            old(self).next_key < u64::MAX,
        ensures
            final(self).wf(),
            key == old(self).next_key,
            is_started(*old(self), *final(self), path@, name@, params, file_secs, pcm_len),
    {
        let key: u64 = self.next_key;
        let offset: Scalar = params.start_secs.max_with(Scalar::zero());
        let start_pos: usize = position_at(offset);
        let end_pos: Option<usize> = if params.start_secs.below(params.end_secs) {
            Some(position_at(params.end_secs))
        } else {
            None
        };
        self.playing.push(
            PlayingSound {
                key,
                name: owned(name),
                path: owned(path),
                params,
                play_offset_secs: offset,
                file_secs,
                pcm_len,
                pcm_pos: start_pos,
                volume: params.volume,
                start_pos,
                end_pos,
                fade_in_samples: fade_length(params.fade_in_ms),
                fade_out_samples: fade_length(params.fade_out_ms),
            },
        );
        self.next_key = key + 1;
        proof {
            assert(self.playing@.drop_last() =~= old(self).playing@);
            assert forall|i: int| 0 <= i < self.playing@.len() implies (
            #[trigger] self.playing@[i]).wf() by {
                if i < old(self).playing@.len() {
                    assert(self.playing@[i] == old(self).playing@[i]);
                }
            }
        }
        key
    }

    /// The next sound of the queue, if nothing is playing.
    pub fn next_queued(&mut self) -> (r: Option<QueuedSound>)
        ensures
            is_next_taken(*old(self), *final(self), r),
    {
        if self.playing.len() == 0 && self.queue.len() > 0 {
            let next: QueuedSound = self.queue.remove(0);
            assert(self.queue@ =~= old(self).queue@.skip(1));
            Some(next)
        } else {
            None
        }
    }

    /// Stops what is playing and takes out the next sound of the queue, to be started
    /// at once.
    pub fn skip_queue(&mut self) -> (r: Option<QueuedSound>)
        ensures
            final(self).wf(),
            is_skipped(*old(self), *final(self), r),
    {
        self.playing.clear();
        self.next_queued()
    }

    /// Stops everything and empties the queue.
    pub fn stop_all(&mut self)
        ensures
            final(self).wf(),
            is_stopped(*old(self), *final(self)),
    {
        self.playing.clear();
        self.queue.clear();
    }
}

impl AudioEngine {
    // ── A tick ───────────────────────────────────────────────────────────────

    /// Drops the sounds that have ended on the monitor output.
    pub fn retire(&mut self, ended: &Vec<bool>)
        requires
            old(self).wf(),
            ended@.len() == old(self).playing@.len(),
        ensures
            final(self).wf(),
            final(self).playing@ == remaining(old(self).playing@, ended@),
            *final(self) == (AudioEngine { playing: final(self).playing, ..*old(self) }),
    {
        let ghost all = self.playing@;
        let mut kept: Vec<PlayingSound> = Vec::new();
        let mut rest: Vec<PlayingSound> = Vec::new();
        std::mem::swap(&mut rest, &mut self.playing);
        let n: usize = rest.len();
        let mut i: usize = 0;
        assert(all.skip(0) =~= all);
        while i < n
            invariant
                i <= n,
                n == all.len(),
                n == ended@.len(),
                sounds_wf(all),
                sounds_wf(kept@),
                rest@ == all.skip(i as int),
                kept@ == remaining(all.take(i as int), ended@.take(i as int)),
            decreases n - i,
        {
            proof {
                assert(all.take(i + 1).drop_last() =~= all.take(i as int));
                assert(ended@.take(i + 1).drop_last() =~= ended@.take(i as int));
            }
            let sound: PlayingSound = rest.remove(0);
            assert(rest@ =~= all.skip(i + 1));
            if !ended[i] {
                assert(all[i as int].wf());
                kept.push(sound);
            }
            i = i + 1;
        }
        proof {
            assert(all.take(n as int) =~= all);
            assert(ended@.take(n as int) =~= ended@);
        }
        self.playing = kept;
    }

    /// Looks after the decoders in a tick of `n` samples. `ready` tells, for each sound,
    /// the number of its samples if they have arrived.
    pub fn advance(&mut self, n: usize, ready: &Vec<Option<usize>>)
        requires
            old(self).wf(),
            ready@.len() == old(self).playing@.len(),
        ensures
            final(self).wf(),
            final(self).playing@.len() == old(self).playing@.len(),
            forall|i: int|
                0 <= i < final(self).playing@.len() ==> #[trigger] final(self).playing@[i]
                    == advanced(old(self).playing@[i], n, ready@[i]),
            *final(self) == (AudioEngine { playing: final(self).playing, ..*old(self) }),
    {
        let ghost all = self.playing@;
        let mut i: usize = 0;
        while i < self.playing.len()
            invariant
                i <= self.playing@.len(),
                self.playing@.len() == all.len(),
                all == old(self).playing@,
                ready@.len() == all.len(),
                sounds_wf(all),
                forall|k: int|
                    0 <= k < i ==> #[trigger] self.playing@[k] == advanced(all[k], n, ready@[k]),
                forall|k: int| i <= k < all.len() ==> #[trigger] self.playing@[k] == all[k],
                *self == (AudioEngine { playing: self.playing, ..*old(self) }),
            decreases self.playing@.len() - i,
        {
            if self.playing[i].pcm_len.is_none() {
                let pos: usize = self.playing[i].pcm_pos;
                match ready[i] {
                    Some(len) => {
                        self.playing[i].pcm_len = Some(len);
                        self.playing[i].pcm_pos = if pos < len {
                            pos
                        } else {
                            len
                        };
                    },
                    None => {
                        self.playing[i].pcm_pos = if pos <= usize::MAX - n {
                            pos + n
                        } else {
                            usize::MAX
                        };
                    },
                }
            }
            i = i + 1;
        }
        assert forall|k: int| 0 <= k < self.playing@.len() implies (
        #[trigger] self.playing@[k]).wf() by {
            assert(all[k].wf());
        }
    }

    fn any_pcm(&self) -> (r: bool)
        ensures
            r == (exists|i: int|
                0 <= i < self.playing@.len() && (#[trigger] self.playing@[i]).pcm_len is Some),
    {
        let mut i: usize = 0;
        while i < self.playing.len()
            invariant
                i <= self.playing@.len(),
                forall|k: int| 0 <= k < i ==> (#[trigger] self.playing@[k]).pcm_len is None,
            decreases self.playing@.len() - i,
        {
            if self.playing[i].pcm_len.is_some() {
                return true;
            }
            i = i + 1;
        }
        false
    }

    /// Decides what goes into a mix of `n` samples, and moves the sounds on by what was
    /// taken. Nothing is mixed before the first samples are there: silence in advance
    /// would only delay what is heard.
    pub fn mix(&mut self, n: usize) -> (r: MixPlan)
        requires
            old(self).wf(),
        ensures
            final(self).wf(),
            is_mix(
                old(self).playing@,
                n,
                old(self).soundboard_mic_volume,
                r,
                final(self).playing@,
            ),
            *final(self) == (AudioEngine { playing: final(self).playing, ..*old(self) }),
    {
        if n == 0 || self.playing.len() == 0 {
            return MixPlan::Nothing;
        }
        if !self.any_pcm() {
            return MixPlan::Silence(n / CHANNELS);
        }
        let ghost all = self.playing@;
        let level: Scalar = self.soundboard_mic_volume;
        let ghost make = |s: PlayingSound| segment_of(s, n, level);
        let mut segments: Vec<Segment> = Vec::new();
        let mut i: usize = 0;
        proof {
            reveal(Seq::filter);
            assert(segments@ =~= segments_of(all.take(0), n, level));
        }
        while i < self.playing.len()
            invariant
                i <= self.playing@.len(),
                n > 0,
                self.playing@.len() == all.len(),
                all == old(self).playing@,
                sounds_wf(all),
                make == (|s: PlayingSound| segment_of(s, n, level)),
                level == old(self).soundboard_mic_volume,
                segments@ == segments_of(all.take(i as int), n, level),
                forall|k: int| 0 <= k < segments@.len() ==> (#[trigger] segments@[k]).wf(),
                forall|k: int| 0 <= k < i ==> #[trigger] self.playing@[k] == mixed(all[k], n),
                forall|k: int| i <= k < all.len() ==> #[trigger] self.playing@[k] == all[k],
                *self == (AudioEngine { playing: self.playing, ..*old(self) }),
            decreases self.playing@.len() - i,
        {
            let ghost after = all.take(i + 1);
            let ghost before = all.take(i as int);
            proof {
                reveal(Seq::filter);
                assert(after.drop_last() =~= before);
                assert(after.last() == all[i as int]);
                assert(all[i as int].wf());
            }
            match self.playing[i].pcm_len {
                Some(len) => {
                    let pos: usize = self.playing[i].pcm_pos;
                    let limit: usize = match self.playing[i].end_pos {
                        Some(end) => {
                            if end < len {
                                end
                            } else {
                                len
                            }
                        },
                        None => len,
                    };
                    let count: usize = if pos >= limit {
                        0
                    } else if limit - pos < n {
                        limit - pos
                    } else {
                        n
                    };
                    assert(count == all[i as int].available(n as int));
                    let segment = Segment {
                        key: self.playing[i].key,
                        from: pos,
                        count,
                        gain: self.playing[i].volume.times(level),
                        start_pos: self.playing[i].start_pos,
                        limit,
                        fade_in: self.playing[i].fade_in_samples,
                        fade_out: self.playing[i].fade_out_samples,
                    };
                    assert(segment == segment_of(all[i as int], n, level));
                    let ghost so_far = segments@;
                    segments.push(segment);
                    self.playing[i].pcm_pos = pos + count;
                    proof {
                        assert(after.filter(has_pcm()) == before.filter(has_pcm()).push(
                            all[i as int],
                        ));
                        assert(segments_of(after, n, level) =~= so_far.push(segment));
                    }
                },
                None => {},
            }
            i = i + 1;
        }
        proof {
            assert(all.take(all.len() as int) =~= all);
            assert forall|k: int| 0 <= k < self.playing@.len() implies (
            #[trigger] self.playing@[k]).wf() by {
                assert(all[k].wf());
            }
        }
        MixPlan::Mix(segments)
    }

    /// What is shown of each playing sound. `played` tells how long its output has
    /// played, in seconds.
    pub fn playing_info(&self, played: &Vec<Scalar>) -> (r: Vec<SoundInfo>)
        requires
            played@.len() == self.playing@.len(),
        ensures
            r@.len() == self.playing@.len(),
            forall|i: int|
                0 <= i < r@.len() ==> (#[trigger] r@[i]).name@ == self.playing@[i].name@ && (
                r@[i].fraction, r@[i].remaining_secs) == self.playing@[i].progress_at(played@[i]),
    {
        let mut r: Vec<SoundInfo> = Vec::new();
        let mut i: usize = 0;
        while i < self.playing.len()
            invariant
                i <= self.playing@.len(),
                played@.len() == self.playing@.len(),
                r@.len() == i,
                forall|k: int|
                    0 <= k < i ==> (#[trigger] r@[k]).name@ == self.playing@[k].name@ && (
                    r@[k].fraction, r@[k].remaining_secs) == self.playing@[k].progress_at(
                        played@[k],
                    ),
            decreases self.playing@.len() - i,
        {
            let (fraction, remaining_secs): (Scalar, Option<u32>) = self.playing[i].progress(
                played[i],
            );
            r.push(SoundInfo { name: self.playing[i].name.clone(), fraction, remaining_secs });
            i = i + 1;
        }
        r
    }

    /// Names and lengths of what waits, in order.
    pub fn queue_info(&self) -> (r: Vec<(String, Option<u32>)>)
        ensures
            r@.len() == self.queue@.len(),
            forall|i: int|
                0 <= i < r@.len() ==> (#[trigger] r@[i]).0@ == self.queue@[i].name@ && r@[i].1
                    == self.queue@[i].total_secs,
    {
        let mut r: Vec<(String, Option<u32>)> = Vec::new();
        let mut i: usize = 0;
        while i < self.queue.len()
            invariant
                i <= self.queue@.len(),
                r@.len() == i,
                forall|k: int|
                    0 <= k < i ==> (#[trigger] r@[k]).0@ == self.queue@[k].name@ && r@[k].1
                        == self.queue@[k].total_secs,
            decreases self.queue@.len() - i,
        {
            r.push((self.queue[i].name.clone(), self.queue[i].total_secs));
            i = i + 1;
        }
        r
    }

    // ── Controls ─────────────────────────────────────────────────────────────

    /// Applies the volume of a sound to every playing and waiting instance of it.
    pub fn set_sound_volume(&mut self, path: &str, volume: Scalar)
        requires
            old(self).wf(),
        ensures
            final(self).wf(),
            is_turned(*old(self), *final(self), path@, volume),
    {
        let ghost all = self.playing@;
        let ghost waiting = self.queue@;
        let mut i: usize = 0;
        while i < self.playing.len()
            invariant
                i <= self.playing@.len(),
                self.playing@.len() == all.len(),
                forall|k: int|
                    0 <= k < i ==> #[trigger] self.playing@[k] == with_volume(
                        all[k],
                        path@,
                        volume,
                    ),
                forall|k: int| i <= k < all.len() ==> #[trigger] self.playing@[k] == all[k],
                *self == (AudioEngine { playing: self.playing, ..*old(self) }),
            decreases self.playing@.len() - i,
        {
            if same_path(self.playing[i].path.as_str(), path) {
                self.playing[i].volume = volume;
            }
            i = i + 1;
        }
        let mut j: usize = 0;
        while j < self.queue.len()
            invariant
                j <= self.queue@.len(),
                self.queue@.len() == waiting.len(),
                forall|k: int|
                    0 <= k < j ==> #[trigger] self.queue@[k] == queued_with_volume(
                        waiting[k],
                        path@,
                        volume,
                    ),
                forall|k: int| j <= k < waiting.len() ==> #[trigger] self.queue@[k] == waiting[k],
                self.playing@.len() == all.len(),
                forall|k: int|
                    0 <= k < all.len() ==> #[trigger] self.playing@[k] == with_volume(
                        all[k],
                        path@,
                        volume,
                    ),
                *self == (AudioEngine { playing: self.playing, queue: self.queue, ..*old(self) }),
            decreases self.queue@.len() - j,
        {
            if same_path(self.queue[j].path.as_str(), path) {
                self.queue[j].params.volume = volume;
            }
            j = j + 1;
        }
        assert forall|k: int| 0 <= k < self.playing@.len() implies (
        #[trigger] self.playing@[k]).wf() by {
            assert(all[k].wf());
        }
    }

    /// A file was renamed: every playing and waiting instance of it refers to the new path.
    pub fn rename_path(&mut self, old_path: &str, new_path: &str)
        requires
            old(self).wf(),
        ensures
            final(self).wf(),
            engine_renamed(*old(self), *final(self), old_path@, new_path@),
    {
        let ghost all = self.playing@;
        let ghost waiting = self.queue@;
        let mut i: usize = 0;
        while i < self.playing.len()
            invariant
                i <= self.playing@.len(),
                self.playing@.len() == all.len(),
                forall|k: int|
                    0 <= k < i ==> playing_renamed(
                        all[k],
                        #[trigger] self.playing@[k],
                        old_path@,
                        new_path@,
                    ),
                forall|k: int| i <= k < all.len() ==> #[trigger] self.playing@[k] == all[k],
                *self == (AudioEngine { playing: self.playing, ..*old(self) }),
            decreases self.playing@.len() - i,
        {
            if same_path(self.playing[i].path.as_str(), old_path) {
                self.playing[i].path = owned(new_path);
            }
            i = i + 1;
        }
        let mut j: usize = 0;
        while j < self.queue.len()
            invariant
                j <= self.queue@.len(),
                self.queue@.len() == waiting.len(),
                forall|k: int|
                    0 <= k < j ==> queued_renamed(
                        waiting[k],
                        #[trigger] self.queue@[k],
                        old_path@,
                        new_path@,
                    ),
                forall|k: int| j <= k < waiting.len() ==> #[trigger] self.queue@[k] == waiting[k],
                self.playing@.len() == all.len(),
                forall|k: int|
                    0 <= k < all.len() ==> playing_renamed(
                        all[k],
                        #[trigger] self.playing@[k],
                        old_path@,
                        new_path@,
                    ),
                *self == (AudioEngine { playing: self.playing, queue: self.queue, ..*old(self) }),
            decreases self.queue@.len() - j,
        {
            if same_path(self.queue[j].path.as_str(), old_path) {
                self.queue[j].path = owned(new_path);
            }
            j = j + 1;
        }
        assert forall|k: int| 0 <= k < self.playing@.len() implies (
        #[trigger] self.playing@[k]).wf() by {
            assert(all[k].wf());
        }
    }

    /// Which of the playing sounds are of the file at `path`.
    pub fn instances(&self, path: &str) -> (r: Vec<bool>)
        ensures
            r@.len() == self.playing@.len(),
            forall|i: int|
                0 <= i < r@.len() ==> #[trigger] r@[i] == equal_paths(
                    self.playing@[i].path@,
                    path@,
                ),
    {
        let mut r: Vec<bool> = Vec::new();
        let mut i: usize = 0;
        while i < self.playing.len()
            invariant
                i <= self.playing@.len(),
                r@.len() == i,
                forall|k: int|
                    0 <= k < i ==> #[trigger] r@[k] == equal_paths(
                        self.playing@[k].path@,
                        path@,
                    ),
            decreases self.playing@.len() - i,
        {
            r.push(same_path(self.playing[i].path.as_str(), path));
            i = i + 1;
        }
        r
    }

    /// Stops every instance of the file at `path`.
    pub fn stop_sound_by_path(&mut self, path: &str)
        requires
            old(self).wf(),
        ensures
            final(self).wf(),
            is_stopped_by_path(*old(self), *final(self), path@),
    {
        let gone: Vec<bool> = self.instances(path);
        assert(gone@ =~= Seq::new(
            self.playing@.len(),
            |i: int| equal_paths(self.playing@[i].path@, path@),
        ));
        self.retire(&gone);
    }

    pub fn is_anything_playing(&self) -> (r: bool)
        ensures
            r == (self.playing@.len() > 0),
    {
        self.playing.len() > 0
    }

    /// Whether everything that plays is paused; `paused` tells it for each sound.
    pub fn is_all_paused(&self, paused: &Vec<bool>) -> (r: bool)
        requires
            paused@.len() == self.playing@.len(),
        ensures
            r == all_paused(*self, paused@),
    {
        let mut i: usize = 0;
        while i < paused.len()
            invariant
                i <= paused@.len(),
                forall|k: int| 0 <= k < i ==> #[trigger] paused@[k],
            decreases paused@.len() - i,
        {
            if !paused[i] {
                return false;
            }
            i = i + 1;
        }
        self.playing.len() > 0
    }

    /// Whether what plays is to go on or to be paused; `paused` tells for each sound
    /// whether it is.
    pub fn toggle_pause(&self, paused: &Vec<bool>) -> (resume: bool)
        requires
            paused@.len() == self.playing@.len(),
        ensures
            resume == all_paused(*self, paused@),
    {
        self.is_all_paused(paused)
    }

    // ── Preview ──────────────────────────────────────────────────────────────

    /// The gain of a preview.
    pub open spec fn preview_level(&self, params: PlayParams) -> Scalar {
        self.monitor_volume.product(params.volume)
    }

    /// The gain of sound `i` on the monitor output.
    pub open spec fn monitor_level(&self, i: int) -> Scalar {
        self.base().product(self.playing@[i].volume)
    }

    /// The gain of a preview. It is heard even while the monitor is switched off.
    pub fn preview_gain(&self, params: &PlayParams) -> (r: Scalar)
        ensures
            r == self.preview_level(*params),
    {
        self.monitor_volume.times(params.volume)
    }

    /// A preview has been started; it takes the place of one that ran.
    pub fn preview_started(&mut self, params: &PlayParams)
        ensures
            *final(self) == with_preview(*old(self), *params),
    {
        self.preview = Some(params.start_secs);
    }

    pub fn stop_preview(&mut self)
        ensures
            *final(self) == (AudioEngine { preview: None, ..*old(self) }),
    {
        self.preview = None;
    }

    /// Where the preview is in its file, after `elapsed` seconds; none when there is no
    /// preview, or when its output has run dry.
    pub fn preview_position(&mut self, ended: bool, elapsed: Scalar) -> (r: Option<Scalar>)
        ensures
            is_preview_place(*old(self), *final(self), ended, elapsed, r),
    {
        if ended {
            self.preview = None;
        }
        match self.preview {
            Some(start) => Some(start.plus(elapsed)),
            None => None,
        }
    }

    // ── Seeking ──────────────────────────────────────────────────────────────

    /// A seek to a fraction of the first sound's window, if the window is known. There
    /// is no fade-in after a seek: in the middle of a sound it would be heard as a
    /// dropout.
    pub fn seek_playing(&self, fraction: Fraction) -> (r: Option<SeekRequest>)
        ensures
            is_seek(*self, fraction, r),
    {
        if self.playing.len() == 0 {
            return None;
        }
        let (start, end): (Scalar, Option<Scalar>) = self.playing[0].window();
        match end {
            Some(end) => {
                let mut params: PlayParams = self.playing[0].params;
                params.fade_in_ms = Scalar::zero();
                let inside: Scalar = fraction.pin().narrow();
                let span: Scalar = end.minus(start).max_with(Scalar::zero());
                let target: Scalar = start.plus(inside.times(span));
                Some(SeekRequest { path: self.playing[0].path.clone(), params, target })
            },
            None => None,
        }
    }

    /// The first sound now plays from `target` in its file. The window that is shown
    /// stays.
    pub fn seeked(&mut self, target: Scalar)
        requires
            old(self).wf(),
            old(self).playing@.len() > 0,
        ensures
            final(self).wf(),
            is_seeked(*old(self), *final(self), target),
    {
        let pos: usize = position_at(target);
        self.playing[0].play_offset_secs = target;
        self.playing[0].pcm_pos = pos;
        self.playing[0].start_pos = pos;
        self.playing[0].fade_in_samples = 0;
        proof {
            let before = old(self).playing@;
            assert(self.playing@ =~= before.update(
                0,
                (PlayingSound {
                    play_offset_secs: target,
                    pcm_pos: pos,
                    start_pos: pos,
                    fade_in_samples: 0,
                    ..before[0]
                }),
            ));
            assert forall|k: int| 0 <= k < self.playing@.len() implies (
            #[trigger] self.playing@[k]).wf() by {
                if k > 0 {
                    assert(self.playing@[k] == before[k]);
                }
            }
        }
    }
}

/// What a monitor output plays of a file: from where, how much if it is trimmed, and
/// how long that is as far as it is known.
#[derive(Clone, Copy, Debug, PartialEq, Eq, Structural)]
pub struct MonitorPlan {
    pub start: Scalar,
    pub take: Option<Scalar>,
    pub played: Option<Scalar>,
}

/// What a monitor output plays of a file that is started at `play_from`.
pub open spec fn monitor_plan_of(
    params: PlayParams,
    play_from: Scalar,
    file_secs: Option<Scalar>,
) -> MonitorPlan {
    let take = if play_from.lt(params.end_secs) {
        Some(params.end_secs.difference(play_from.larger(zero())))
    } else {
        None
    };
    MonitorPlan {
        start: play_from.larger(zero()),
        take,
        played: if play_from.lt(params.end_secs) {
            take
        } else {
            match file_secs {
                Some(secs) => Some(secs.difference(play_from).larger(zero())),
                None => None,
            }
        },
    }
}

/// What a monitor output plays of a file that is started at `play_from`.
pub fn monitor_plan(params: &PlayParams, play_from: Scalar, file_secs: Option<Scalar>) -> (r:
    MonitorPlan)
    ensures
        r == monitor_plan_of(*params, play_from, file_secs),
{
    let start: Scalar = play_from.max_with(Scalar::zero());
    if play_from.below(params.end_secs) {
        let take: Scalar = params.end_secs.minus(start);
        MonitorPlan { start, take: Some(take), played: Some(take) }
    } else {
        let played: Option<Scalar> = match file_secs {
            Some(secs) => Some(secs.minus(play_from).max_with(Scalar::zero())),
            None => None,
        };
        MonitorPlan { start, take: None, played }
    }
}

/// How long a preview is: up to the end marker, or else what is left of the file.
#[derive(Clone, Copy, Debug, PartialEq, Eq, Structural)]
pub enum PreviewLength {
    Trimmed(Scalar),
    Rest(Span),
    Unknown,
}

/// `r` is how long a preview is.
pub open spec fn is_preview_length(
    params: PlayParams,
    start: Span,
    file: Option<Span>,
    r: PreviewLength,
) -> bool {
    match r {
        PreviewLength::Trimmed(secs) => params.start_secs.lt(params.end_secs) && secs
            == params.end_secs.difference(params.start_secs.larger(zero())),
        PreviewLength::Rest(left) => {
            &&& !params.start_secs.lt(params.end_secs)
            &&& file matches Some(file) && left.wf() && left.total() == (if start.total()
                < file.total() {
                file.total() - start.total()
            } else {
                0
            })
        },
        PreviewLength::Unknown => !params.start_secs.lt(params.end_secs) && file is None,
    }
}

/// How long a preview is that starts after `start`, in a file of the given length.
pub fn preview_length(params: &PlayParams, start: Span, file: Option<Span>) -> (r: PreviewLength)
    requires
        start.wf(),
        file matches Some(file) ==> file.wf(),
    ensures
        is_preview_length(*params, start, file, r),
{
    if params.start_secs.below(params.end_secs) {
        return PreviewLength::Trimmed(
            params.end_secs.minus(params.start_secs.max_with(Scalar::zero())),
        );
    }
    match file {
        Some(file) => PreviewLength::Rest(file.without(start)),
        None => PreviewLength::Unknown,
    }
}

// ── The mix ──────────────────────────────────────────────────────────────────

/// A gain after a fade.
pub open spec fn faded(gain: Scalar, fade: Option<Fade>) -> Scalar {
    match fade {
        Some(fade) => gain.product(whole(fade.num as nat).ratio(whole(fade.den as nat))),
        None => gain,
    }
}

impl Segment {
    /// The gain of sample `i`, fades included.
    pub open spec fn gain_at(self, i: int) -> Scalar {
        faded(
            faded(self.gain, fade_in_at(self.from + i - self.start_pos, self.fade_in as int)),
            fade_out_at(self.limit - (self.from + i), self.fade_out as int),
        )
    }
}

/// A sample cut off at full scale.
pub open spec fn cut_off(x: Scalar) -> Scalar {
    x.clamped(milli(-1000), milli(1000))
}

/// A sample cut off at full scale.
pub fn cut(x: Scalar) -> (r: Scalar)
    ensures
        r == cut_off(x),
{
    proof {
        milli_grows(-1000, 1000);
    }
    x.clamp_to(from_milli(-1000), from_milli(1000))
}

/// Sample `i` of the mix: one sound after the other is added, and cut off at full
/// scale each time.
pub open spec fn mixed_sample(segments: Seq<Segment>, pcm: Seq<Seq<Scalar>>, i: int) -> Scalar
    decreases segments.len(),
{
    if segments.len() == 0 {
        zero()
    } else {
        let rest = mixed_sample(segments.drop_last(), pcm.drop_last(), i);
        let s = segments.last();
        if i < s.count {
            cut_off(rest.sum(pcm.last()[s.from + i].product(s.gain_at(i))))
        } else {
            rest
        }
    }
}

/// The samples of each sound.
pub open spec fn pcm_views(pcm: Seq<&Vec<Scalar>>) -> Seq<Seq<Scalar>> {
    Seq::new(pcm.len(), |k: int| pcm[k]@)
}

fn apply_fade(gain: Scalar, fade: Option<Fade>) -> (r: Scalar)
    ensures
        r == faded(gain, fade),
{
    match fade {
        Some(fade) => gain.times(from_whole(fade.num as u64).over(from_whole(fade.den as u64))),
        None => gain,
    }
}

fn add_segment(mix: &mut Vec<Scalar>, segment: &Segment, pcm: &Vec<Scalar>)
    requires
        segment.wf(),
        segment.limit <= pcm@.len(),
        segment.count <= old(mix)@.len(),
    ensures
        final(mix)@.len() == old(mix)@.len(),
        forall|i: int|
            0 <= i < final(mix)@.len() ==> #[trigger] final(mix)@[i] == (if i < segment.count {
                cut_off(
                    old(mix)@[i].sum(pcm@[segment.from + i].product(segment.gain_at(i))),
                )
            } else {
                old(mix)@[i]
            }),
{
    let mut i: usize = 0;
    while i < segment.count
        invariant
            i <= segment.count,
            segment.wf(),
            segment.limit <= pcm@.len(),
            segment.count <= mix@.len(),
            mix@.len() == old(mix)@.len(),
            forall|k: int|
                0 <= k < i ==> #[trigger] mix@[k] == cut_off(
                    old(mix)@[k].sum(pcm@[segment.from + k].product(segment.gain_at(k))),
                ),
            forall|k: int| i <= k < mix@.len() ==> #[trigger] mix@[k] == old(mix)@[k],
        decreases segment.count - i,
    {
        let (rising, falling): (Option<Fade>, Option<Fade>) = segment.fades(i);
        let gain: Scalar = apply_fade(apply_fade(segment.gain, rising), falling);
        let sample: Scalar = pcm[segment.from + i].times(gain);
        let sum: Scalar = mix[i].plus(sample);
        mix.set(i, cut(sum));
        i = i + 1;
    }
}

/// Adds the segments up to a mix of `n` samples. `pcm` holds the samples of the sound
/// behind each segment.
pub fn mix_samples(n: usize, segments: &Vec<Segment>, pcm: &Vec<&Vec<Scalar>>) -> (r: Vec<Scalar>)
    requires
        segments@.len() == pcm@.len(),
        forall|k: int|
            0 <= k < segments@.len() ==> (#[trigger] segments@[k]).wf() && segments@[k].count <= n
                && segments@[k].limit <= pcm@[k]@.len(),
    ensures
        r@.len() == n,
        forall|i: int|
            0 <= i < n ==> #[trigger] r@[i] == mixed_sample(segments@, pcm_views(pcm@), i),
{
    let mut mix: Vec<Scalar> = Vec::new();
    while mix.len() < n
        invariant
            mix@.len() <= n,
            forall|i: int| 0 <= i < mix@.len() ==> #[trigger] mix@[i] == zero(),
        decreases n - mix@.len(),
    {
        mix.push(Scalar::zero());
    }
    let ghost views = pcm_views(pcm@);
    let mut k: usize = 0;
    while k < segments.len()
        invariant
            k <= segments@.len(),
            segments@.len() == pcm@.len(),
            views == pcm_views(pcm@),
            forall|k: int|
                0 <= k < segments@.len() ==> (#[trigger] segments@[k]).wf() && segments@[k].count
                    <= n && segments@[k].limit <= pcm@[k]@.len(),
            mix@.len() == n,
            forall|i: int|
                0 <= i < n ==> #[trigger] mix@[i] == mixed_sample(
                    segments@.take(k as int),
                    views.take(k as int),
                    i,
                ),
        decreases segments@.len() - k,
    {
        let ghost before = mix@;
        add_segment(&mut mix, &segments[k], pcm[k]);
        proof {
            assert(segments@.take(k + 1).drop_last() =~= segments@.take(k as int));
            assert(views.take(k + 1).drop_last() =~= views.take(k as int));
            assert forall|i: int| 0 <= i < n implies #[trigger] mix@[i] == mixed_sample(
                segments@.take(k + 1),
                views.take(k + 1),
                i,
            ) by {
                assert(before[i] == mixed_sample(
                    segments@.take(k as int),
                    views.take(k as int),
                    i,
                ));
            }
        }
        k = k + 1;
    }
    assert(segments@.take(segments@.len() as int) =~= segments@);
    assert(views.take(views.len() as int) =~= views);
    mix
}

/// The mix in mono: half the sum of each frame. A sample that is missing at the end is
/// silent.
pub open spec fn mono(mix: Seq<Scalar>) -> Seq<Scalar> {
    Seq::new(
        (mix.len() + 1) as nat / 2,
        |f: int|
            (if 2 * f + 1 < mix.len() {
                zero().sum(mix[2 * f]).sum(mix[2 * f + 1])
            } else {
                zero().sum(mix[2 * f])
            }).ratio(milli(2000)),
    )
}

/// The last `n` of the samples.
pub open spec fn tail(samples: Seq<Scalar>, n: int) -> Seq<Scalar> {
    if samples.len() <= n {
        samples
    } else {
        samples.skip(samples.len() - n)
    }
}

fn keep_tail(samples: Vec<Scalar>) -> (r: Vec<Scalar>)
    ensures
        r@ == tail(samples@, ANALYSIS_LEN as int),
{
    if samples.len() <= ANALYSIS_LEN {
        return samples;
    }
    let from: usize = samples.len() - ANALYSIS_LEN;
    let mut r: Vec<Scalar> = Vec::new();
    let mut i: usize = from;
    while i < samples.len()
        invariant
            from <= i <= samples@.len(),
            r@ == samples@.subrange(from as int, i as int),
        decreases samples@.len() - i,
    {
        r.push(samples[i]);
        i = i + 1;
    }
    assert(r@ =~= samples@.skip(from as int));
    r
}

/// What the oscilloscope shows after a mix.
pub fn scope_after_mix(scope: Vec<Scalar>, mix: &Vec<Scalar>) -> (r: Vec<Scalar>)
    ensures
        r@ == tail(scope@ + mono(mix@), ANALYSIS_LEN as int),
{
    let ghost before = scope@;
    let mut scope: Vec<Scalar> = scope;
    let mut f: usize = 0;
    let total: usize = mix.len();
    let frames: usize = total / 2 + total % 2;
    assert(scope@ =~= before + mono(mix@).take(0));
    while f < frames
        invariant
            f <= frames,
            total == mix@.len(),
            frames == (total + 1) as nat / 2,
            scope@ == before + mono(mix@).take(f as int),
        decreases frames - f,
    {
        let first: Scalar = Scalar::zero().plus(mix[2 * f]);
        let sum: Scalar = if 2 * f + 1 < total {
            first.plus(mix[2 * f + 1])
        } else {
            first
        };
        scope.push(sum.over(from_milli(2000)));
        assert(scope@ =~= before + mono(mix@).take(f + 1));
        f = f + 1;
    }
    assert(mono(mix@).take(frames as int) =~= mono(mix@));
    keep_tail(scope)
}

/// What the oscilloscope shows after so many frames of silence.
pub fn scope_after_silence(scope: Vec<Scalar>, frames: usize) -> (r: Vec<Scalar>)
    ensures
        r@ == tail(scope@ + Seq::new(frames as nat, |f: int| zero()), ANALYSIS_LEN as int),
{
    let ghost before = scope@;
    let mut scope: Vec<Scalar> = scope;
    let mut f: usize = 0;
    assert(scope@ =~= before + Seq::new(0, |f: int| zero()));
    while f < frames
        invariant
            f <= frames,
            scope@ == before + Seq::new(f as nat, |f: int| zero()),
        decreases frames - f,
    {
        scope.push(Scalar::zero());
        assert(scope@ =~= before + Seq::new((f + 1) as nat, |f: int| zero()));
        f = f + 1;
    }
    keep_tail(scope)
}

/// What the oscilloscope shows after a tick: what it showed, and what the tick mixed.
pub open spec fn shown_scope(
    quiet: bool,
    plan: MixPlan,
    mix: Seq<Scalar>,
    scope: Seq<Scalar>,
) -> Seq<Scalar> {
    if quiet {
        Seq::empty()
    } else {
        match plan {
            MixPlan::Mix(segments) => tail(scope + mono(mix), ANALYSIS_LEN as int),
            MixPlan::Silence(frames) => tail(
                scope + Seq::new(frames as nat, |f: int| zero()),
                ANALYSIS_LEN as int,
            ),
            MixPlan::Nothing => scope,
        }
    }
}

impl AudioEngine {
    /// What the oscilloscope shows after a tick, which had the given plan and mix. It is
    /// empty when nothing plays.
    pub fn scope_after(&self, plan: &MixPlan, mix: &Vec<Scalar>, scope: Vec<Scalar>) -> (r: Vec<
        Scalar,
    >)
        ensures
            r@ == shown_scope(self.playing@.len() == 0, *plan, mix@, scope@),
    {
        if self.playing.len() == 0 {
            return Vec::new();
        }
        match plan {
            MixPlan::Mix(_) => scope_after_mix(scope, mix),
            MixPlan::Silence(frames) => scope_after_silence(scope, *frames),
            MixPlan::Nothing => scope,
        }
    }
}

// ── Decoded samples ──────────────────────────────────────────────────────────

/// Number of frames that `len` samples of `channels` channels make, an incomplete one
/// at the end included.
pub open spec fn frames_of(len: nat, channels: nat) -> nat {
    (len + channels - 1) as nat / channels
}

/// Sample `i` of a file as stereo: the only channel twice, or the first two; a second
/// one that is missing at the end is silent.
pub open spec fn stereo_sample<T>(raw: Seq<T>, channels: int, silence: T, i: int) -> T {
    if channels == 1 {
        raw[i / 2]
    } else if i % 2 == 0 {
        raw[i / 2 * channels]
    } else if i / 2 * channels + 1 < raw.len() {
        raw[i / 2 * channels + 1]
    } else {
        silence
    }
}

/// The frames that a file of `len` samples has as stereo.
pub open spec fn frames_in_stereo(len: nat, channels: nat) -> nat {
    if channels == 2 {
        len / 2
    } else {
        frames_of(len, channels)
    }
}

/// The samples of a file as stereo.
pub open spec fn as_stereo(raw: Seq<Scalar>, channels: nat) -> Seq<Scalar> {
    if channels == 2 {
        raw
    } else {
        Seq::new(
            2 * frames_of(raw.len(), channels),
            |i: int| stereo_sample(raw, channels as int, Scalar { bits: 0 }, i),
        )
    }
}

/// The samples of a file as stereo. Two channels are taken as they are.
pub fn to_stereo<T: Copy>(raw: Vec<T>, channels: usize, silence: T) -> (out: Vec<T>)
    requires
        channels > 0,
        raw@.len() + channels <= usize::MAX,
    ensures
        channels == 2 ==> out@ == raw@,
        channels != 2 ==> out@.len() == 2 * frames_of(raw@.len(), channels as nat),
        channels != 2 ==> forall|i: int|
            0 <= i < out@.len() ==> #[trigger] out@[i] == stereo_sample(
                raw@,
                channels as int,
                silence,
                i,
            ),
{
    if channels == 2 {
        return raw;
    }
    let mut out: Vec<T> = Vec::new();
    let n: usize = raw.len();
    let frames: usize = (n + channels - 1) / channels;
    let mut f: usize = 0;
    while f < frames
        invariant
            f <= frames,
            channels > 0,
            channels != 2,
            n == raw@.len(),
            n + channels <= usize::MAX,
            frames == frames_of(n as nat, channels as nat),
            out@.len() == 2 * f,
            forall|i: int|
                0 <= i < out@.len() ==> #[trigger] out@[i] == stereo_sample(
                    raw@,
                    channels as int,
                    silence,
                    i,
                ),
        decreases frames - f,
    {
        assert(f * channels < n) by (nonlinear_arith)
            requires
                f < frames,
                frames == (n + channels - 1) / channels as int,
                channels > 0,
        ;
        let base: usize = f * channels;
        assert((2 * f) / 2 == f && (2 * f + 1) / 2 == f);
        assert(f * 1 == f);
        out.push(raw[base]);
        if channels == 1 {
            out.push(raw[base]);
        } else if base + 1 < n {
            out.push(raw[base + 1]);
        } else {
            out.push(silence);
        }
        f = f + 1;
    }
    out
}

/// A sample, or silence beyond the end.
pub open spec fn sample_or_silence(input: Seq<Scalar>, i: int) -> Scalar {
    if 0 <= i < input.len() {
        input[i]
    } else {
        Scalar { bits: 0 }
    }
}

/// A stereo sample between frame `frame` and the next, `part` of the way.
pub open spec fn between_frames(
    input: Seq<Scalar>,
    frame: int,
    part: Scalar,
    channel: int,
) -> Scalar {
    let a = sample_or_silence(input, 2 * frame + channel);
    let b = sample_or_silence(input, 2 * (frame + 1) + channel);
    a.sum(b.difference(a).product(part))
}

fn sample_at(input: &Vec<Scalar>, frame: usize, ahead: usize, channel: usize) -> (r: Scalar)
    requires
        ahead <= 1,
        channel <= 1,
    ensures
        r == sample_or_silence(input@, 2 * (frame + ahead) + channel),
{
    let frames: usize = input.len() / 2 + 1;
    if frame > frames {
        return Scalar::zero();
    }
    if input.len() >= 2 * ahead + channel && frame <= (input.len() - 2 * ahead - channel) / 2 && 2
        * frame < input.len() - 2 * ahead - channel {
        input[2 * frame + 2 * ahead + channel]
    } else {
        Scalar::zero()
    }
}

/// How many frames of rate `src` there are to one of rate `dst`.
pub open spec fn rate_ratio(src: u32, dst: u32) -> Double {
    whole_double(src as nat).ratio(whole_double(dst as nat))
}

/// The number of frames that `frames` frames of rate `src` become at rate `dst`: there
/// is no end to them where `src` is 0, and none where `dst` is.
pub open spec fn frames_at_rate(frames: nat, src: u32, dst: u32) -> nat {
    if frames == 0 || dst == 0 {
        0
    } else if src == 0 {
        usize::MAX as nat
    } else {
        capped(
            whole_double(frames).ratio(rate_ratio(src, dst)).rounded_up(),
            usize::MAX as nat,
        )
    }
}

/// Where frame `k` of rate `dst` lies among the frames of rate `src`.
pub open spec fn place_at_rate(k: nat, src: u32, dst: u32) -> Double {
    whole_double(k).product(rate_ratio(src, dst))
}

/// Sample `i` of `input` brought from rate `src` to rate `dst`.
pub open spec fn resampled(input: Seq<Scalar>, src: u32, dst: u32, i: int) -> Scalar {
    let place = place_at_rate((i / 2) as nat, src, dst);
    between_frames(
        input,
        capped(place.whole_part(), usize::MAX as nat) as int,
        place.part(),
        i % 2,
    )
}

/// How many frames of rate `src` there are to one of rate `dst`.
fn ratio_of(src: u32, dst: u32) -> (r: Double)
    requires
        src > 0,
        dst > 0,
    ensures
        r == rate_ratio(src, dst),
        0 < r.m <= 2 * FULL,
        -266 <= r.x <= 214,
{
    double_of(src as u64).over(double_of(dst as u64))
}

/// The number of frames that `frames` frames of rate `src` become at rate `dst`.
pub fn count_frames(frames: usize, src: u32, dst: u32) -> (r: usize)
    ensures
        r == frames_at_rate(frames as nat, src, dst),
{
    if frames == 0 || dst == 0 {
        return 0;
    }
    if src == 0 {
        return usize::MAX;
    }
    let whole: Double = double_of(frames as u64).over(ratio_of(src, dst));
    whole.ceil(usize::MAX as u64) as usize
}

/// Stereo samples of rate `src` at rate `dst`, by straight lines between the frames.
pub fn resample_linear(input: &Vec<Scalar>, src: u32, dst: u32) -> (out: Vec<Scalar>)
    requires
        2 * frames_at_rate(input@.len() / 2, src, dst) <= usize::MAX,
    ensures
        out@.len() == 2 * frames_at_rate(input@.len() / 2, src, dst),
        forall|i: int|
            0 <= i < out@.len() ==> #[trigger] out@[i] == resampled(input@, src, dst, i),
{
    let mut out: Vec<Scalar> = Vec::new();
    let frames: usize = count_frames(input.len() / 2, src, dst);
    if frames == 0 {
        return out;
    }
    let ratio: Double = ratio_of(src, dst);
    let mut k: usize = 0;
    while k < frames
        invariant
            k <= frames,
            2 * frames <= usize::MAX,
            ratio == rate_ratio(src, dst),
            ratio.m <= 2 * FULL,
            -266 <= ratio.x <= 214,
            out@.len() == 2 * k,
            forall|i: int|
                0 <= i < out@.len() ==> #[trigger] out@[i] == resampled(input@, src, dst, i),
        decreases frames - k,
    {
        let place: Double = double_of(k as u64).times(ratio);
        let frame: usize = place.floor(usize::MAX as u64) as usize;
        let part: Scalar = place.fraction();
        assert((2 * k) / 2 == k && (2 * k + 1) / 2 == k);
        let left: Scalar = sample_at(input, frame, 0, 0);
        let right: Scalar = sample_at(input, frame, 0, 1);
        let next_left: Scalar = sample_at(input, frame, 1, 0);
        let next_right: Scalar = sample_at(input, frame, 1, 1);
        out.push(left.plus(next_left.minus(left).times(part)));
        out.push(right.plus(next_right.minus(right).times(part)));
        k = k + 1;
    }
    out
}

/// `out` are the samples of a file as the virtual microphone takes them.
pub open spec fn is_pcm(raw: Seq<Scalar>, channels: nat, rate: u32, out: Seq<Scalar>) -> bool {
    let stereo = as_stereo(raw, channels);
    if rate == SAMPLE_RATE {
        out == stereo
    } else {
        &&& out.len() == 2 * frames_at_rate(stereo.len() / 2, rate, SAMPLE_RATE)
        &&& forall|i: int|
            0 <= i < out.len() ==> #[trigger] out[i] == resampled(stereo, rate, SAMPLE_RATE, i)
    }
}

/// The samples of a file as the virtual microphone takes them: stereo, at its rate.
pub fn to_pcm(raw: Vec<Scalar>, channels: usize, rate: u32) -> (r: Option<Vec<Scalar>>)
    ensures
        r is Some <==> channels > 0 && raw@.len() + channels <= usize::MAX && (rate == SAMPLE_RATE
            || 2 * frames_at_rate(frames_in_stereo(raw@.len(), channels as nat), rate, SAMPLE_RATE)
            <= usize::MAX),
        r matches Some(out) ==> is_pcm(raw@, channels as nat, rate, out@),
{
    if channels == 0 || raw.len() > usize::MAX - channels {
        return None;
    }
    let ghost before = raw@;
    let stereo: Vec<Scalar> = to_stereo(raw, channels, Scalar::zero());
    assert(stereo@ =~= as_stereo(before, channels as nat));
    if rate == SAMPLE_RATE {
        return Some(stereo);
    }
    if count_frames(stereo.len() / 2, rate, SAMPLE_RATE) > usize::MAX / 2 {
        return None;
    }
    Some(resample_linear(&stereo, rate, SAMPLE_RATE))
}

// ── Laws ─────────────────────────────────────────────────────────────────────

/// A mix reads every sample of a sound once and in order: what one mix takes ends
/// where the next begins, and never goes past the end.
pub proof fn mixing_is_seamless(s: PlayingSound, n: usize, m: usize, level: Scalar)
    requires
        s.wf(),
        s.pcm_len is Some,
    ensures
        segment_of(mixed(s, n), m, level).from == segment_of(s, n, level).from + segment_of(s, n, level).count,
        segment_of(s, n, level).count <= n,
        segment_of(s, n, level).count > 0 ==> segment_of(s, n, level).from + segment_of(s, n, level).count
            <= s.pcm_len->0 && s.start_pos <= segment_of(s, n, level).from,
        segment_of(s, n, level).count < n ==> segment_of(mixed(s, n), m, level).count == 0,
{
}

/// Once a file is renamed, nothing that plays or waits refers to its old path.
pub proof fn renamed_references_follow(
    before: AudioEngine,
    after: AudioEngine,
    old_path: Seq<char>,
    new_path: Seq<char>,
    i: int,
)
    requires
        !equal_paths(new_path, old_path),
        engine_renamed(before, after, old_path, new_path),
    ensures
        0 <= i < after.playing@.len() ==> !equal_paths(after.playing@[i].path@, old_path),
        0 <= i < after.queue@.len() ==> !equal_paths(after.queue@[i].path@, old_path),
{
}

/// All sounds after a mix of `n` samples.
pub open spec fn all_mixed(playing: Seq<PlayingSound>, n: usize) -> Seq<PlayingSound> {
    playing.map_values(|s: PlayingSound| mixed(s, n))
}

proof fn mixing_keeps_samples(playing: Seq<PlayingSound>, n: usize)
    ensures
        all_mixed(playing, n).filter(has_pcm()) == all_mixed(playing.filter(has_pcm()), n),
    decreases playing.len(),
{
    reveal(Seq::filter);
    if playing.len() > 0 {
        mixing_keeps_samples(playing.drop_last(), n);
        assert(all_mixed(playing, n).drop_last() =~= all_mixed(playing.drop_last(), n));
        assert(all_mixed(playing, n).last() == mixed(playing.last(), n));
        let rest = playing.drop_last().filter(has_pcm());
        if has_pcm()(playing.last()) {
            assert(all_mixed(rest.push(playing.last()), n) =~= all_mixed(rest, n).push(
                mixed(playing.last(), n),
            ));
        }
    }
    assert(all_mixed(playing, n).filter(has_pcm()) =~= all_mixed(playing.filter(has_pcm()), n));
}

proof fn pieces_of_segments(
    sounds: Seq<PlayingSound>,
    n: usize,
    m: usize,
    level: Scalar,
    pcm: Seq<Seq<Scalar>>,
    i: int,
)
    requires
        n + m <= usize::MAX,
        pcm.len() == sounds.len(),
        0 <= i < n + m,
        forall|k: int|
            0 <= k < sounds.len() ==> (#[trigger] sounds[k]).wf() && sounds[k].pcm_len is Some,
    ensures
        ({
            let whole = sounds.map_values(
                |s: PlayingSound| segment_of(s, (n + m) as usize, level),
            );
            let first = sounds.map_values(|s: PlayingSound| segment_of(s, n, level));
            let second = all_mixed(sounds, n).map_values(
                |s: PlayingSound| segment_of(s, m, level),
            );
            mixed_sample(whole, pcm, i) == (if i < n {
                mixed_sample(first, pcm, i)
            } else {
                mixed_sample(second, pcm, i - n)
            })
        }),
    decreases sounds.len(),
{
    let of_whole = |s: PlayingSound| segment_of(s, (n + m) as usize, level);
    let of_first = |s: PlayingSound| segment_of(s, n, level);
    let of_second = |s: PlayingSound| segment_of(s, m, level);
    let whole = sounds.map_values(of_whole);
    let first = sounds.map_values(of_first);
    let second = all_mixed(sounds, n).map_values(of_second);
    if sounds.len() > 0 {
        let rest = sounds.drop_last();
        pieces_of_segments(rest, n, m, level, pcm.drop_last(), i);
        assert(whole.drop_last() =~= rest.map_values(of_whole));
        assert(first.drop_last() =~= rest.map_values(of_first));
        assert(second.drop_last() =~= all_mixed(rest, n).map_values(of_second));
        let s = sounds.last();
        assert(s.wf() && s.pcm_len is Some);
        assert(whole.last() == of_whole(s) && first.last() == of_first(s));
        assert(second.last() == of_second(mixed(s, n)));
        if i >= n && i < whole.last().count {
            assert(second.last().from + (i - n) == whole.last().from + i);
            assert(second.last().gain_at(i - n) == whole.last().gain_at(i));
        }
    }
}

/// Mixing in pieces is mixing at once: however the time between two mixes falls, every
/// sample of the mix is the same.
pub proof fn mixing_in_pieces_is_mixing_at_once(
    playing: Seq<PlayingSound>,
    n: usize,
    m: usize,
    level: Scalar,
    pcm: Seq<Seq<Scalar>>,
    i: int,
)
    requires
        sounds_wf(playing),
        n + m <= usize::MAX,
        pcm.len() == playing.filter(has_pcm()).len(),
        0 <= i < n + m,
    ensures
        mixed_sample(segments_of(playing, (n + m) as usize, level), pcm, i) == (if i < n {
            mixed_sample(segments_of(playing, n, level), pcm, i)
        } else {
            mixed_sample(segments_of(all_mixed(playing, n), m, level), pcm, i - n)
        }),
{
    let sounds = playing.filter(has_pcm());
    mixing_keeps_samples(playing, n);
    assert forall|k: int| 0 <= k < sounds.len() implies (#[trigger] sounds[k]).wf()
        && sounds[k].pcm_len is Some by {
        let at = filter_positions(playing, has_pcm());
        assert(sounds[k] == playing[at[k]]);
    }
    pieces_of_segments(sounds, n, m, level, pcm, i);
}

/// The fades begin in silence and end in silence: the first sample of a fade-in has
/// gain 0, and so has what would be the sample after the last.
pub proof fn fades_reach_silence(length: int)
    requires
        0 < length <= usize::MAX,
    ensures
        fade_in_at(0, length) == Some(Fade { num: 0, den: length as usize }),
        fade_in_at(length, length) is None,
        fade_out_at(length, length) == Some(Fade { num: length as usize, den: length as usize }),
        fade_out_at(0, length) == Some(Fade { num: 0, den: length as usize }),
{
}

/// The mix never goes past full scale, whatever is added up.
pub proof fn mix_stays_in_scale(segments: Seq<Segment>, pcm: Seq<Seq<Scalar>>, i: int)
    requires
        !mixed_sample(segments, pcm, i).is_nan(),
    ensures
        milli(-1000).le(mixed_sample(segments, pcm, i)),
        mixed_sample(segments, pcm, i).le(milli(1000)),
    decreases segments.len(),
{
    milli_grows(-1000, 0);
    milli_grows(0, 1000);
    milli_zero();
    if segments.len() > 0 {
        if i < segments.last().count {
        } else {
            mix_stays_in_scale(segments.drop_last(), pcm.drop_last(), i);
        }
    }
}

/// What is shown of a playing sound: a fraction from 0 to 1, and nothing where the
/// length is not known. A position that is not a number has no place on the bar.
pub proof fn shown_progress_is_a_fraction(s: PlayingSound, played: Scalar)
    requires
        !s.progress_at(played).0.is_nan(),
    ensures
        milli(0).le(s.progress_at(played).0),
        s.progress_at(played).0.le(milli(1000)),
        s.window_end() is None ==> s.progress_at(played) == (milli(0), None::<u32>),
{
    milli_grows(0, 1000);
    milli_grows(0, 0);
}

/// The oscilloscope never holds more than it can show, tick after tick, and it is empty
/// when nothing plays.
pub proof fn scope_stays_bounded(
    quiet: bool,
    plan: MixPlan,
    mix: Seq<Scalar>,
    scope: Seq<Scalar>,
)
    requires
        scope.len() <= ANALYSIS_LEN,
    ensures
        shown_scope(quiet, plan, mix, scope).len() <= ANALYSIS_LEN,
        quiet ==> shown_scope(quiet, plan, mix, scope).len() == 0,
{
}

/// The oscilloscope keeps the newest samples, and no more than it can show.
pub proof fn scope_is_bounded(samples: Seq<Scalar>)
    ensures
        tail(samples, ANALYSIS_LEN as int).len() <= ANALYSIS_LEN,
        samples.len() > 0 ==> tail(samples, ANALYSIS_LEN as int).last() == samples.last(),
{
}

/// Sounds leave the queue in the order in which they were cued: one that comes in
/// waits behind all the others.
pub proof fn queue_is_fair(queue: Seq<QueuedSound>, sound: QueuedSound)
    requires
        queue.len() > 0,
    ensures
        queue.push(sound)[0] == queue[0],
        queue.push(sound).skip(1) == queue.skip(1).push(sound),
{
    assert(queue.push(sound).skip(1) =~= queue.skip(1).push(sound));
}

/// Positions are whole frames.
pub proof fn positions_are_frames(secs: Scalar)
    ensures
        whole_frames(samples_of(secs)) % 2 == 0,
        whole_frames(samples_of(secs)) <= samples_of(secs),
        samples_of(secs) <= usize::MAX,
{
    reveal(Scalar::whole_times);
}

} // verus!
