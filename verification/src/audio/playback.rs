//! What is heard of a sound: how a request to play comes out of the mix and of the
//! monitor.

use vstd::prelude::*;
use vstd::arithmetic::power2::{lemma_pow2_pos, pow2};

use super::engine::{
    advanced, all_paused, as_stereo, between_frames, cut_off, engine_renamed, fade_in_at, fade_out_at, faded, frames_at_rate,
    frames_of, is_cued, is_envelope, is_next_taken, is_pcm, is_preview_length, is_preview_place, is_seek,
    is_seeked, is_skipped,
    is_started, is_stopped, is_stopped_by_path, is_turned, mixed_sample, mono, monitor_plan_of,
    place_at_rate, playing_renamed, positions_are_frames, queued_renamed, remaining, resampled, sample_or_silence, segment_of, shown_scope, tail, time_at,
    with_preview, zero, AudioEngine, Envelope, MixPlan, PlayAction, PlayParams, PlayingSound, PreviewLength, QueuedSound, SeekRequest,
    Segment, ANALYSIS_LEN,
};
use super::time::{fade_samples, samples_of, whole_frames, Span};
use crate::arithmetic::{milli_one, whole};
use crate::double::Fraction;
use crate::arithmetic::capped;
use crate::ordered::{
    difference_from_nothing, difference_is_rounded_distance, differences_have_signs, differences_keep_order, nothing_and,
    nothing_shared, pinned_fractions_are_at_most_one,
    product_by_one, product_by_zero, product_of_wholes_is_finite, products_commute,
    products_keep_order, share_of_all_or_more, share_of_nothing_or_less, shares_keep_order,
    rounding_is_exact, sign_changes, sum_with_nothing, sum_with_zero, sums_commute, sums_keep_order, wholes_keep_order,
};
use crate::path::equal_paths;
use crate::rounding::{milli, milli_grows, milli_is_finite, milli_zero, rounding_is_unique};
use crate::scalar::{order_is_numeric, units, units_grow, Scalar, ONE_BITS};

verus! {

/// The sample of its file at which a request to play begins.
pub open spec fn first_sample(params: PlayParams) -> int {
    whole_frames(samples_of(params.start_secs.larger(zero()))) as int
}

/// The sample of its file before which a request to play ends, if the file has `len`.
pub open spec fn last_sample(params: PlayParams, len: int) -> int {
    let end = whole_frames(samples_of(params.end_secs)) as int;
    if params.start_secs.lt(params.end_secs) && end < len {
        end
    } else {
        len
    }
}

/// `t` is the sound `s` some time later: its samples are there, and it has gone on.
pub open spec fn is_later(s: PlayingSound, t: PlayingSound) -> bool {
    &&& t == (PlayingSound { pcm_len: t.pcm_len, pcm_pos: t.pcm_pos, ..s })
    &&& t.pcm_len is Some
    &&& s.pcm_pos <= t.pcm_pos
}

/// How many samples after the beginning of the request the mix plays its sample `i`.
pub open spec fn since_start(params: PlayParams, t: PlayingSound, i: int) -> int {
    t.pcm_pos + i - first_sample(params)
}

/// How many samples before the end of the request the mix plays its sample `i`.
pub open spec fn until_end(params: PlayParams, t: PlayingSound, i: int) -> int {
    last_sample(params, t.pcm_len->0 as int) - (t.pcm_pos + i)
}

/// A sound begins where the request says and ends where it says: every sample that the
/// mix takes of it lies between the two, and it takes the samples of the file in order,
/// none left out, each at its volume.
pub proof fn a_started_sound_plays_its_window(
    before: AudioEngine,
    after: AudioEngine,
    path: Seq<char>,
    name: Seq<char>,
    params: PlayParams,
    file_secs: Option<Scalar>,
    pcm_len: Option<usize>,
    t: PlayingSound,
    n: usize,
    level: Scalar,
    pcm: Seq<Scalar>,
    i: int,
)
    requires
        is_started(before, after, path, name, params, file_secs, pcm_len),
        is_later(after.playing@.last(), t),
        0 <= i < segment_of(t, n, level).count,
    ensures
        after.playing@.last().pcm_pos == first_sample(params),
        0 <= since_start(params, t, i),
        0 < until_end(params, t, i),
        segment_of(t, n, level).count < n ==> until_end(
            params,
            t,
            segment_of(t, n, level).count as int,
        ) == 0,
        mixed_sample(seq![segment_of(t, n, level)], seq![pcm], i) == cut_off(
            zero().sum(
                pcm[first_sample(params) + since_start(params, t, i)].product(
                    segment_of(t, n, level).gain_at(i),
                ),
            ),
        ),
{
    positions_are_frames(params.end_secs);
    let segment = segment_of(t, n, level);
    assert(seq![segment].drop_last() =~= Seq::<Segment>::empty());
    assert(seq![pcm].drop_last() =~= Seq::<Seq<Scalar>>::empty());
    reveal_with_fuel(mixed_sample, 2);
}

/// The fades of a request are heard where it asks for them. With a fade-in the sound
/// begins in silence, and from the end of the fade-in on it has its full gain, up to the
/// fade-out; that is heard at the end, where the fade-in is not. In between, each sample
/// of a fade has its share of the full gain.
pub proof fn fades_are_heard_where_they_were_asked_for(
    before: AudioEngine,
    after: AudioEngine,
    path: Seq<char>,
    name: Seq<char>,
    params: PlayParams,
    file_secs: Option<Scalar>,
    pcm_len: Option<usize>,
    t: PlayingSound,
    n: usize,
    level: Scalar,
    i: int,
)
    requires
        is_started(before, after, path, name, params, file_secs, pcm_len),
        is_later(after.playing@.last(), t),
        0 <= i < segment_of(t, n, level).count,
        params.volume.product(level).is_finite(),
    ensures
        ({
            let full = params.volume.product(level);
            let gain = segment_of(t, n, level).gain_at(i);
            let (rise, fall) = (fade_samples(params.fade_in_ms), fade_samples(params.fade_out_ms));
            let (since, left) = (since_start(params, t, i), until_end(params, t, i));
            &&& since >= rise && left > fall ==> gain == full
            &&& since == 0 && rise > 0 ==> gain.magnitude() == 0
            &&& since < rise && left > fall ==> gain == full.product(
                whole(since as nat).ratio(whole(rise)),
            )
            &&& since >= rise && left <= fall ==> gain == full.product(
                whole(left as nat).ratio(whole(fall)),
            )
        }),
{
    let full = params.volume.product(level);
    let (rise, fall) = (fade_samples(params.fade_in_ms), fade_samples(params.fade_out_ms));
    let (since, left) = (since_start(params, t, i), until_end(params, t, i));
    positions_are_frames(params.end_secs);
    let segment = segment_of(t, n, level);
    assert(segment.from + i - segment.start_pos == since);
    assert(segment.limit - (segment.from + i) == left);
    if since == 0 && rise > 0 {
        shares_keep_order(0, 0, rise);
        let share = whole(0).ratio(whole(rise));
        product_by_zero(full, share);
        if left <= fall {
            shares_keep_order(left as nat, left as nat, fall);
            product_by_zero(whole(left as nat).ratio(whole(fall)), full.product(share));
        }
    }
}

/// A fade-in only rises and a fade-out only falls, and neither goes past the full gain.
pub proof fn fades_go_one_way(
    before: AudioEngine,
    after: AudioEngine,
    path: Seq<char>,
    name: Seq<char>,
    params: PlayParams,
    file_secs: Option<Scalar>,
    pcm_len: Option<usize>,
    t: PlayingSound,
    n: usize,
    level: Scalar,
    i: int,
    j: int,
)
    requires
        is_started(before, after, path, name, params, file_secs, pcm_len),
        is_later(after.playing@.last(), t),
        0 <= i <= j < segment_of(t, n, level).count,
        params.volume.product(level).is_finite(),
        !params.volume.product(level).negative(),
    ensures
        ({
            let full = params.volume.product(level);
            let (first, second) = (
                segment_of(t, n, level).gain_at(i),
                segment_of(t, n, level).gain_at(j),
            );
            &&& until_end(params, t, j) > fade_samples(params.fade_out_ms) ==> first.le(second)
                && second.le(full)
            &&& since_start(params, t, i) >= fade_samples(params.fade_in_ms) ==> second.le(first)
                && first.le(full)
        }),
{
    let full = params.volume.product(level);
    let (rise, fall) = (fade_samples(params.fade_in_ms), fade_samples(params.fade_out_ms));
    let segment = segment_of(t, n, level);
    positions_are_frames(params.end_secs);
    assert(segment.from + i - segment.start_pos == since_start(params, t, i));
    assert(segment.from + j - segment.start_pos == since_start(params, t, j));
    assert(segment.limit - (segment.from + i) == until_end(params, t, i));
    assert(segment.limit - (segment.from + j) == until_end(params, t, j));
    if until_end(params, t, j) > fall {
        gains_grow(full, since_start(params, t, i), since_start(params, t, j), rise as int);
    }
    if since_start(params, t, i) >= rise {
        let (a, b) = (until_end(params, t, j), until_end(params, t, i));
        falling_is_rising(full, b, fall as int);
        falling_is_rising(full, a, fall as int);
        gains_grow(full, a, b, fall as int);
    }
}

/// The gain of a fade after `since` samples grows with them, up to the full gain.
proof fn gains_grow(full: Scalar, a: int, b: int, length: int)
    requires
        full.is_finite(),
        !full.negative(),
        0 <= a <= b,
        0 <= length <= usize::MAX,
    ensures
        faded(full, fade_in_at(a, length)).le(faded(full, fade_in_at(b, length))),
        faded(full, fade_in_at(b, length)).le(full),
{
    let one = Scalar { bits: ONE_BITS };
    milli_one();
    product_by_one(full);
    if b < length {
        shares_keep_order(a as nat, b as nat, length as nat);
        let (x, y) = (
            whole(a as nat).ratio(whole(length as nat)),
            whole(b as nat).ratio(whole(length as nat)),
        );
        products_keep_order(full, x, y);
        products_keep_order(full, y, one);
    } else if a < length {
        shares_keep_order(a as nat, a as nat, length as nat);
        products_keep_order(full, whole(a as nat).ratio(whole(length as nat)), one);
    }
}

/// A fade-out that has `left` samples left has the gain of a fade-in after as many.
proof fn falling_is_rising(full: Scalar, left: int, length: int)
    requires
        full.is_finite(),
        0 <= left,
        0 <= length <= usize::MAX,
    ensures
        faded(full, fade_out_at(left, length)) == faded(full, fade_in_at(left, length)),
{
    if 0 < length && left == length {
        shares_keep_order(left as nat, left as nat, length as nat);
        let share = whole(left as nat).ratio(whole(length as nat));
        milli_one();
        assert(share == milli(1000));
        product_by_one(full);
    }
}

// ── The monitor ──────────────────────────────────────────────────────────────

/// The monitor fades as the mix does: a playback that has the fades of a segment, and is
/// as far from its beginning and its end, has the gain of that sample of the mix.
pub proof fn monitor_and_mix_fade_alike(envelope: Envelope, segment: Segment, i: int)
    requires
        segment.wf(),
        0 <= i < segment.count,
        segment.gain == milli(1000),
        envelope.fade_in == segment.fade_in,
        envelope.fade_out == segment.fade_out,
        envelope.pos == segment.from + i - segment.start_pos,
        envelope.total == Some((segment.limit - segment.start_pos) as usize),
    ensures
        envelope.gain() == segment.gain_at(i),
{
    assert(envelope.left() == segment.limit - (segment.from + i));
}

/// On the monitor too a fade-in is heard at the beginning and a fade-out at the end: where
/// only a fade-in was asked for, the playback begins in silence and has its full gain
/// from the end of the fade on, and where only a fade-out was asked for it has its full
/// gain up to that.
pub proof fn monitor_fades_are_heard_where_they_were_asked_for(
    fade_in_ms: Scalar,
    fade_out_ms: Scalar,
    total_secs: Option<Scalar>,
    sample_rate: u32,
    channels: u16,
    r: Envelope,
    e: Envelope,
)
    requires
        is_envelope(fade_in_ms, fade_out_ms, total_secs, sample_rate, channels, r),
        e == (Envelope { pos: e.pos, ..r }),
        sample_rate > 0,
        channels > 0,
    ensures
        r.pos == 0,
        r.total is Some <==> total_secs is Some,
        fade_out_ms.magnitude() == 0 ==> {
            &&& r.fade_out == 0
            &&& e.pos >= r.fade_in ==> e.gain() == milli(1000)
            &&& e.pos == 0 && r.fade_in > 0 ==> e.gain().magnitude() == 0
        },
        fade_in_ms.magnitude() == 0 ==> {
            &&& r.fade_in == 0
            &&& r.total is None || e.pos + r.fade_out < r.total->0 ==> e.gain() == milli(1000)
            &&& r.total is Some && e.pos >= r.total->0 && r.fade_out > 0 ==> e.gain().magnitude()
                == 0
        },
{
    if fade_in_ms.magnitude() == 0 {
        no_fade(fade_in_ms, sample_rate, channels);
    }
    if fade_out_ms.magnitude() == 0 {
        no_fade(fade_out_ms, sample_rate, channels);
    }
    milli_one();
    let one = milli(1000);
    if e.pos == 0 && r.fade_in > 0 {
        shares_keep_order(0, 0, r.fade_in as nat);
        product_by_zero(one, whole(0).ratio(whole(r.fade_in as nat)));
    }
    if r.fade_out > 0 {
        shares_keep_order(0, 0, r.fade_out as nat);
        product_by_zero(one, whole(0).ratio(whole(r.fade_out as nat)));
    }
}

proof fn no_fade(ms: Scalar, sample_rate: u32, channels: u16)
    requires
        ms.magnitude() == 0,
        sample_rate > 0,
        channels > 0,
    ensures
        ms.ratio(milli(1_000_000)).product(
            whole(sample_rate as nat).product(whole(channels as nat)),
        ).whole_times(1, usize::MAX as nat) == 0,
{
    reveal(Scalar::whole_times);
    wholes_keep_order(sample_rate as nat, sample_rate as nat);
    wholes_keep_order(channels as nat, channels as nat);
    milli_is_finite(1_000_000);
    milli_one();
    milli_grows(1000, 1_000_000);
    nothing_shared(ms, milli(1_000_000));
    product_of_wholes_is_finite(sample_rate as nat, channels as nat);
    let per_sec = whole(sample_rate as nat).product(whole(channels as nat));
    product_by_zero(per_sec, ms.ratio(milli(1_000_000)));
    assert(units(0) == 0 && 0nat * 1 == 0);
    lemma_pow2_pos(149);
    assert(0nat / pow2(149) == 0) by (nonlinear_arith)
        requires
            pow2(149) > 0,
    ;
}

// ── Playing, cueing and stopping ─────────────────────────────────────────────

/// A request to play is never held back for nothing: it waits only in sequential mode and
/// behind a sound that plays.
pub proof fn sounds_wait_only_behind_others(engine: AudioEngine)
    ensures
        engine.polyphonic ==> engine.play_action() == PlayAction::Start,
        engine.playing@.len() == 0 ==> engine.play_action() == PlayAction::Start,
        !engine.polyphonic && engine.playing@.len() > 0 ==> engine.play_action()
            == PlayAction::Queue,
{
}

/// What is cued first is skipped to first, and what plays is stopped each time.
pub proof fn skipping_follows_the_order_of_cueing(
    start: AudioEngine,
    one: AudioEngine,
    two: AudioEngine,
    skipped: AudioEngine,
    again: AudioEngine,
    paths: (Seq<char>, Seq<char>),
    names: (Seq<char>, Seq<char>),
    secs: (Option<u32>, Option<u32>),
    params: (PlayParams, PlayParams),
    next: Option<QueuedSound>,
    last: Option<QueuedSound>,
)
    requires
        start.queue@.len() == 0,
        is_cued(start, one, paths.0, names.0, secs.0, params.0),
        is_cued(one, two, paths.1, names.1, secs.1, params.1),
        is_skipped(two, skipped, next),
        is_skipped(skipped, again, last),
    ensures
        two.playing@ == start.playing@,
        next matches Some(q) && q.path@ == paths.0 && q.name@ == names.0 && q.params == params.0,
        last matches Some(q) && q.path@ == paths.1 && q.name@ == names.1 && q.params == params.1,
        skipped.playing@.len() == 0,
        again.queue@.len() == 0,
{
    assert(two.queue@[0] == two.queue@.drop_last()[0]);
    assert(one.queue@.drop_last().len() == 0);
}

/// A skip takes the sound that waits longest, whatever plays and however many wait, and the
/// others go on waiting in their order.
pub proof fn a_skip_takes_the_first_that_waits(
    before: AudioEngine,
    after: AudioEngine,
    next: Option<QueuedSound>,
    i: int,
)
    requires
        is_skipped(before, after, next),
    ensures
        after.playing@.len() == 0,
        next is Some <==> before.queue@.len() > 0,
        next matches Some(q) ==> q == before.queue@[0],
        next is Some ==> after.queue@.len() == before.queue@.len() - 1,
        next is Some && 0 <= i < after.queue@.len() ==> after.queue@[i] == before.queue@[i + 1],
{
}

/// Stopping everything leaves nothing that plays and nothing that waits, and no setting is
/// changed.
pub proof fn stopping_leaves_nothing(before: AudioEngine, after: AudioEngine)
    requires
        is_stopped(before, after),
    ensures
        after.playing@.len() == 0,
        after.queue@.len() == 0,
        after.polyphonic == before.polyphonic,
        after.monitor_volume == before.monitor_volume,
        after.monitor_enabled == before.monitor_enabled,
        after.soundboard_mic_volume == before.soundboard_mic_volume,
        after.next_key == before.next_key,
{
}

/// The sounds that go on are those that are not gone, in the order in which they were:
/// `at` holds their positions.
pub proof fn what_is_not_gone_remains(playing: Seq<PlayingSound>, gone: Seq<bool>) -> (at: Seq<int>)
    requires
        gone.len() == playing.len(),
    ensures
        at.len() == remaining(playing, gone).len(),
        forall|k: int|
            0 <= k < at.len() ==> 0 <= #[trigger] at[k] < playing.len() && !gone[at[k]]
                && remaining(playing, gone)[k] == playing[at[k]],
        forall|j: int, k: int| 0 <= j < k < at.len() ==> #[trigger] at[j] < #[trigger] at[k],
        forall|i: int| 0 <= i < playing.len() && !(#[trigger] gone[i]) ==> at.contains(i),
    decreases playing.len(),
{
    if playing.len() == 0 {
        Seq::empty()
    } else {
        let (p, g) = (playing.drop_last(), gone.drop_last());
        let before = what_is_not_gone_remains(p, g);
        let last = playing.len() - 1;
        let at = if gone.last() {
            before
        } else {
            before.push(last)
        };
        assert forall|k: int| 0 <= k < at.len() implies 0 <= #[trigger] at[k] < playing.len()
            && !gone[at[k]] && remaining(playing, gone)[k] == playing[at[k]] by {
            if k < before.len() {
                assert(at[k] == before[k]);
                assert(!g[before[k]]);
            }
        }
        assert forall|i: int| 0 <= i < playing.len() && !(#[trigger] gone[i]) implies at.contains(
            i,
        ) by {
            if i < last {
                assert(!g[i]);
                let k = before.index_of(i);
                assert(at[k] == i);
            } else {
                assert(at[before.len() as int] == i);
            }
        }
        at
    }
}

/// Once a file was stopped, none of it plays any more, and every other sound plays on.
pub proof fn stopping_a_file_stops_all_of_it(
    before: AudioEngine,
    after: AudioEngine,
    path: Seq<char>,
    i: int,
)
    requires
        is_stopped_by_path(before, after, path),
    ensures
        0 <= i < after.playing@.len() ==> !equal_paths(after.playing@[i].path@, path),
        0 <= i < before.playing@.len() && !equal_paths(before.playing@[i].path@, path)
            ==> after.playing@.contains(before.playing@[i]),
        after.queue@ == before.queue@,
{
    let gone = Seq::new(
        before.playing@.len(),
        |i: int| equal_paths(before.playing@[i].path@, path),
    );
    let at = what_is_not_gone_remains(before.playing@, gone);
    if 0 <= i < after.playing@.len() {
        assert(!gone[at[i]]);
    }
    if 0 <= i < before.playing@.len() && !equal_paths(before.playing@[i].path@, path) {
        assert(!gone[i]);
        let k = at.index_of(i);
        assert(after.playing@[k] == before.playing@[at[k]]);
    }
}

// ── Volumes ──────────────────────────────────────────────────────────────────

/// A volume that is changed is heard at once, in the mix and on the monitor, of every
/// instance of the file that plays, and later of every one that waits. Other sounds keep
/// theirs, and no sound changes its place.
pub proof fn a_changed_volume_is_heard_at_once(
    before: AudioEngine,
    after: AudioEngine,
    path: Seq<char>,
    volume: Scalar,
    n: usize,
    level: Scalar,
    i: int,
)
    requires
        is_turned(before, after, path, volume),
    ensures
        0 <= i < before.playing@.len() ==> {
            let (s, t) = (before.playing@[i], after.playing@[i]);
            let heard = if equal_paths(s.path@, path) {
                volume
            } else {
                s.volume
            };
            &&& segment_of(t, n, level) == (Segment {
                gain: heard.product(level),
                ..segment_of(s, n, level)
            })
            &&& after.monitor_level(i) == after.base().product(heard)
            &&& (t.key, t.path, t.pcm_pos, t.params) == (s.key, s.path, s.pcm_pos, s.params)
        },
        0 <= i < before.queue@.len() ==> {
            let (p, q) = (before.queue@[i], after.queue@[i]);
            let heard = if equal_paths(p.path@, path) {
                volume
            } else {
                p.params.volume
            };
            &&& q.params == (PlayParams { volume: heard, ..p.params })
            &&& (q.path, q.name, q.total_secs) == (p.path, p.name, p.total_secs)
        },
        after.playing@.len() == before.playing@.len(),
        after.queue@.len() == before.queue@.len(),
{
}

/// The switch of the monitor silences the sounds there and nothing else: a preview is
/// heard all the same, and so is the mix.
pub proof fn the_monitor_switch_silences_the_monitor(
    engine: AudioEngine,
    params: PlayParams,
    i: int,
)
    requires
        0 <= i < engine.playing@.len(),
    ensures
        engine.monitor_enabled ==> engine.monitor_level(i) == engine.monitor_volume.product(
            engine.playing@[i].volume,
        ),
        !engine.monitor_enabled && engine.playing@[i].volume.is_finite() ==> engine.monitor_level(
            i,
        ).magnitude() == 0,
        engine.preview_level(params) == engine.monitor_volume.product(params.volume),
{
    if engine.playing@[i].volume.is_finite() {
        product_by_zero(engine.playing@[i].volume, zero());
    }
}

// ── Decoding ─────────────────────────────────────────────────────────────────

/// A sound that is still decoded stays in step: its position runs on by the time that
/// passes, and is kept when its samples arrive. What is decoded is not touched.
pub proof fn a_late_sound_starts_in_step(s: PlayingSound, n: usize, m: usize, len: usize)
    requires
        s.pcm_len is None,
        s.pcm_pos + n + m <= usize::MAX,
    ensures
        advanced(advanced(s, n, None), m, None) == (PlayingSound {
            pcm_pos: (s.pcm_pos + n + m) as usize,
            ..s
        }),
        s.pcm_pos + n <= len ==> advanced(advanced(s, n, None), m, Some(len)) == (PlayingSound {
            pcm_len: Some(len),
            pcm_pos: (s.pcm_pos + n) as usize,
            ..s
        }),
        advanced(advanced(s, n, Some(len)), m, None) == advanced(s, n, Some(len)),
        advanced(s, n, Some(len)).pcm_pos <= len,
{
}

// ── Seeking ──────────────────────────────────────────────────────────────────

/// A seek stays behind the start of the window and goes further the further it is asked
/// to go; its beginning is the start of the window, and of a window that begins with the
/// file its end is the end of the window.
pub proof fn seeks_go_where_they_are_asked_to(
    start: Scalar,
    end: Scalar,
    a: Fraction,
    b: Fraction,
)
    requires
        start.is_finite(),
        end.is_finite(),
        start.lt(end),
        end.difference(start).is_finite(),
        !a.is_nan(),
        !b.is_nan(),
        a.pinned().narrowed().le(b.pinned().narrowed()),
    ensures
        start.le(time_at(start, end, a)),
        time_at(start, end, a).le(time_at(start, end, b)),
        a.pinned().narrowed().magnitude() == 0 ==> equal_times(time_at(start, end, a), start),
        start.magnitude() == 0 && b.pinned().narrowed() == milli(1000) ==> equal_times(
            time_at(start, end, b),
            end,
        ),
{
    let (x, y) = (a.pinned().narrowed(), b.pinned().narrowed());
    pinned_fractions_are_at_most_one(a);
    pinned_fractions_are_at_most_one(b);
    milli_one();
    let long = end.difference(start);
    let span = long.larger(zero());
    assert(units(0) == 0);
    differences_have_signs(end, start);
    assert(span.is_finite() && !span.negative());
    let none = Scalar { bits: 0 };
    if x.magnitude() == 0 {
        product_by_zero(span, x);
    }
    if y.magnitude() == 0 {
        product_by_zero(span, y);
    }
    product_by_zero(span, none);
    product_by_one(span);
    products_commute(x, span);
    products_commute(y, span);
    if !x.negative() {
        products_keep_order(span, none, x);
    }
    if !y.negative() {
        products_keep_order(span, none, y);
        products_keep_order(span, y, milli(1000));
    }
    if !x.negative() && !y.negative() {
        products_keep_order(span, x, y);
        products_keep_order(span, x, milli(1000));
    }
    let (p, q) = (x.product(span), y.product(span));
    sum_with_nothing(start, none);
    sums_keep_order(start, none, p);
    sums_keep_order(start, p, q);
    if x.magnitude() == 0 {
        sum_with_nothing(start, p);
    }
    if start.magnitude() == 0 && y == milli(1000) {
        difference_from_nothing(end, start);
        nothing_and(start, span);
    }
}

/// The two times are the same.
pub open spec fn equal_times(a: Scalar, b: Scalar) -> bool {
    a.le(b) && b.le(a)
}

/// A seek moves both outputs: the mix goes on at the place in the file that the monitor
/// plays from, at the full gain, for there is no fade-in in the middle of a sound. The
/// window that is shown stays, and so do the other sounds.
pub proof fn a_seek_moves_both_outputs(
    before: AudioEngine,
    after: AudioEngine,
    target: Scalar,
    n: usize,
    level: Scalar,
    i: int,
)
    requires
        is_seeked(before, after, target),
        before.playing@.len() > 0,
        before.playing@[0].pcm_len is Some,
        0 <= i < segment_of(after.playing@[0], n, level).count,
    ensures
        ({
            let (s, t) = (before.playing@[0], after.playing@[0]);
            let segment = segment_of(t, n, level);
            &&& segment.from == whole_frames(samples_of(target))
            &&& t.play_offset_secs == target
            &&& segment.limit - (segment.from + i) > s.fade_out_samples ==> segment.gain_at(i)
                == s.volume.product(level)
            &&& t.window_start() == s.window_start()
            &&& t.window_end() == s.window_end()
            &&& after.playing@.skip(1) == before.playing@.skip(1)
        }),
{
    positions_are_frames(target);
    assert(after.playing@.skip(1) =~= before.playing@.skip(1));
}

// ── Progress ─────────────────────────────────────────────────────────────────

/// The bar is empty at the start of the window and before it, and full at its end and
/// behind it, where nothing is left.
pub proof fn the_bar_is_empty_at_the_start_and_full_at_the_end(s: PlayingSound, played: Scalar)
    requires
        s.window_end() is Some,
        s.window_start().is_finite(),
        s.window_end()->0.is_finite(),
        s.window_start().lt(s.window_end()->0),
        s.position(played).is_finite(),
        s.window_end()->0.difference(s.window_start()).is_finite(),
        s.position(played).difference(s.window_start()).is_finite(),
    ensures
        s.position(played).le(s.window_start()) ==> s.progress_at(played).0.magnitude() == 0,
        s.window_end()->0.le(s.position(played)) ==> s.progress_at(played) == (
            milli(1000),
            Some(0u32),
        ),
{
    let (start, end, pos) = (s.window_start(), s.window_end()->0, s.position(played));
    milli_zero();
    milli_one();
    milli_grows(0, 1000);
    differences_have_signs(end, start);
    differences_have_signs(pos, start);
    let (all, way) = (end.difference(start), pos.difference(start));
    if pos.le(start) {
        share_of_nothing_or_less(way, all);
    }
    if end.le(pos) {
        differences_keep_order(end, pos, start);
        share_of_all_or_more(way, all);
        differences_have_signs(end, pos);
        nothing_left(end.difference(pos).larger(zero()));
    }
}

/// Nothing, or less, has no whole part.
proof fn nothing_left(x: Scalar)
    requires
        x.magnitude() == 0,
    ensures
        x.whole_times(1, u32::MAX as nat) == 0,
{
    reveal(Scalar::whole_times);
    assert(units(0) == 0);
    lemma_pow2_pos(149);
    assert(0nat * 1 / pow2(149) == 0) by (nonlinear_arith)
        requires
            pow2(149) > 0,
    ;
}

// ── In step ──────────────────────────────────────────────────────────────────

/// The monitor plays the window that the mix plays: it starts at the same place of the
/// file, and is cut off exactly where the mix is.
pub proof fn monitor_and_mix_play_the_same_window(params: PlayParams, file_secs: Option<Scalar>)
    ensures
        ({
            let plan = monitor_plan_of(params, params.start_secs, file_secs);
            &&& whole_frames(samples_of(plan.start)) == first_sample(params)
            &&& plan.take is Some <==> params.start_secs.lt(params.end_secs)
            &&& plan.take is Some ==> plan.played == plan.take
            &&& plan.take is None && file_secs is None ==> plan.played is None
            &&& params.start_secs.magnitude() == 0 && params.end_secs.is_finite() ==> (
            plan.take matches Some(take) ==> equal_times(take, params.end_secs))
            &&& params.start_secs.magnitude() == 0 && plan.take is None ==> (
            file_secs matches Some(secs) ==> (secs.is_finite() && milli(0).le(secs)
                ==> plan.played is Some && equal_times(plan.played->0, secs)))
        }),
{
    milli_zero();
    if params.start_secs.magnitude() == 0 {
        assert(params.start_secs.larger(zero()).magnitude() == 0);
        if params.end_secs.is_finite() {
            difference_from_nothing(params.end_secs, params.start_secs.larger(zero()));
        }
        if file_secs is Some && file_secs->0.is_finite() {
            difference_from_nothing(file_secs->0, params.start_secs);
        }
    }
}

/// A seek goes on with the same file as it was asked for, at the same volume and with the
/// same trim and fade-out; only the fade-in is not heard again.
pub proof fn a_seek_keeps_the_sound(engine: AudioEngine, fraction: Fraction, seek: Option<SeekRequest>)
    requires
        is_seek(engine, fraction, seek),
    ensures
        seek is Some <==> engine.playing@.len() > 0 && engine.playing@[0].window_end() is Some,
        seek is Some ==> {
            let (r, s) = (seek->0, engine.playing@[0]);
            &&& r.path@ == s.path@
            &&& r.params.volume == s.params.volume
            &&& r.params.start_secs == s.params.start_secs
            &&& r.params.end_secs == s.params.end_secs
            &&& r.params.fade_out_ms == s.params.fade_out_ms
            &&& r.params.fade_in_ms.bits == 0
        },
{
}

/// Every sample of a file is in one of its frames, and no frame is empty.
pub proof fn frames_hold_every_sample(len: nat, channels: nat)
    requires
        channels > 0,
    ensures
        len <= frames_of(len, channels) * channels < len + channels,
{
    let f = frames_of(len, channels);
    assert(len <= f * channels < len + channels) by (nonlinear_arith)
        requires
            f == (len + channels - 1) as nat / channels,
            channels > 0,
    ;
}

/// A file keeps its sides as stereo: its first channel is on the left, its second on the
/// right, and an only channel on both; further channels are left out.
pub proof fn a_file_keeps_its_sides(raw: Seq<Scalar>, channels: nat, f: int)
    requires
        channels > 0,
        0 <= f,
        f * channels + 1 < raw.len() || channels == 1 && f < raw.len(),
    ensures
        2 * f + 1 < as_stereo(raw, channels).len(),
        as_stereo(raw, channels)[2 * f] == raw[f * channels],
        channels == 1 ==> as_stereo(raw, channels)[2 * f + 1] == raw[f * channels],
        channels > 1 ==> as_stereo(raw, channels)[2 * f + 1] == raw[f * channels + 1],
{
    frames_hold_every_sample(raw.len(), channels);
    let frames = frames_of(raw.len(), channels) as int;
    let c = channels as int;
    assert(f * 1 == f && f * 2 == 2 * f);
    assert((2 * f) / 2 == f && (2 * f) % 2 == 0);
    assert((2 * f + 1) / 2 == f && (2 * f + 1) % 2 == 1);
    assert(f < frames) by (nonlinear_arith)
        requires
            f * c < raw.len(),
            raw.len() <= frames * c,
            c > 0,
    ;
}

/// The two sides are brought to another rate apart: what is heard on one side depends on
/// the samples of that side alone.
pub proof fn sides_are_resampled_apart(a: Seq<Scalar>, b: Seq<Scalar>, src: u32, dst: u32, i: int)
    requires
        a.len() == b.len(),
        0 <= i,
        forall|j: int| 0 <= j < a.len() && j % 2 == i % 2 ==> #[trigger] a[j] == b[j],
    ensures
        resampled(a, src, dst, i) == resampled(b, src, dst, i),
{
    let place = place_at_rate((i / 2) as nat, src, dst);
    let frame = capped(place.whole_part(), usize::MAX as nat) as int;
    assert((2 * frame + i % 2) % 2 == i % 2);
    assert((2 * (frame + 1) + i % 2) % 2 == i % 2);
    assert(sample_or_silence(a, 2 * frame + i % 2) == sample_or_silence(b, 2 * frame + i % 2));
    assert(sample_or_silence(a, 2 * (frame + 1) + i % 2) == sample_or_silence(
        b,
        2 * (frame + 1) + i % 2,
    ));
}

/// On a frame the line between frames goes through its sample, and between two equal
/// samples it stays where they are.
pub proof fn lines_go_through_the_samples(input: Seq<Scalar>, frame: int, part: Scalar, channel: int)
    requires
        0 <= frame,
        0 <= channel <= 1,
        2 * frame + 3 < input.len(),
        part.is_finite(),
        input[2 * frame + channel].is_finite(),
        input[2 * frame + 2 + channel].is_finite(),
    ensures
        part.magnitude() == 0 && input[2 * frame + 2 + channel].difference(
            input[2 * frame + channel],
        ).is_finite() ==> between_frames(input, frame, part, channel).place()
            == input[2 * frame + channel].place(),
        input[2 * frame + channel] == input[2 * frame + 2 + channel] ==> between_frames(
            input,
            frame,
            part,
            channel,
        ).place() == input[2 * frame + channel].place(),
{
    let (a, b) = (input[2 * frame + channel], input[2 * frame + 2 + channel]);
    assert(2 * (frame + 1) + channel == 2 * frame + 2 + channel);
    let way = b.difference(a);
    if part.magnitude() == 0 && way.is_finite() {
        product_by_zero(way, part);
        sum_with_nothing(a, way.product(part));
    }
    if a == b {
        difference_is_rounded_distance(a, a);
        assert(units(0) == 0);
        rounding_is_exact(0, 1);
        rounding_is_unique(0, 1, 0, way.magnitude());
        product_by_zero(part, way);
        sum_with_nothing(a, way.product(part));
    }
}

/// Nothing comes of no frames, and of a rate of nothing there is no end.
pub proof fn rates_of_nothing(frames: nat, src: u32, dst: u32)
    ensures
        frames_at_rate(0, src, dst) == 0,
        frames_at_rate(frames, src, 0) == 0,
        frames > 0 && dst > 0 ==> frames_at_rate(frames, 0, dst) == usize::MAX,
        frames_at_rate(frames, src, dst) <= usize::MAX,
{
}

/// With every sample the fades go on by one sample, and by nothing else.
pub proof fn fades_go_on_by_samples(e: Envelope)
    requires
        e.pos < usize::MAX,
    ensures
        e.later().pos == e.pos + 1,
        e.later().fade_in == e.fade_in,
        e.later().fade_out == e.fade_out,
        e.later().total == e.total,
{
}

/// Progress is shown between the start and the end of what is heard, where that is known
/// and not empty.
pub proof fn progress_is_shown_in_the_window(s: PlayingSound)
    ensures
        s.shown_window() is Some <==> s.window_end() is Some && s.window_start().lt(
            s.window_end()->0,
        ),
        s.shown_window() is Some ==> s.shown_window()->0 == (s.window_start(), s.window_end()->0),
{
}

/// A sound that waits has its turn once nothing plays, the one that came first before the
/// others, and is taken out of the queue by that.
pub proof fn the_first_in_the_queue_is_next(
    before: AudioEngine,
    after: AudioEngine,
    r: Option<QueuedSound>,
)
    requires
        is_next_taken(before, after, r),
    ensures
        before.playing@.len() == 0 && before.queue@.len() > 0 ==> r is Some && seq![r->0]
            + after.queue@ == before.queue@,
        before.playing@.len() > 0 ==> r is None && after.queue@ == before.queue@,
        before.queue@.len() == 0 ==> r is None,
        after.playing@ == before.playing@,
{
    if r is Some {
        assert(seq![r->0] + after.queue@ =~= before.queue@);
    }
}

/// The button goes on with what is paused only where all of it is; one sound that still
/// plays is enough to pause.
pub proof fn one_running_sound_is_paused(engine: AudioEngine, paused: Seq<bool>, i: int)
    requires
        paused.len() == engine.playing@.len(),
        0 <= i < paused.len(),
    ensures
        !paused[i] ==> !all_paused(engine, paused),
        (forall|k: int| 0 <= k < paused.len() ==> #[trigger] paused[k]) ==> all_paused(
            engine,
            paused,
        ),
{
}

/// A preview is at its start when nothing has passed, gone when it has ended, and stays
/// gone.
pub proof fn previews_begin_at_their_start(
    engine: AudioEngine,
    params: PlayParams,
    after: AudioEngine,
    ended: bool,
    elapsed: Scalar,
    r: Option<Scalar>,
)
    requires
        is_preview_place(with_preview(engine, params), after, ended, elapsed, r),
    ensures
        r is Some <==> !ended,
        !ended ==> r == Some(params.start_secs.sum(elapsed)) && after.preview == Some(
            params.start_secs,
        ),
        !ended && params.start_secs.is_finite() && elapsed.magnitude() == 0 ==> r->0.place()
            == params.start_secs.place(),
        ended ==> after.preview is None,
        after.playing == engine.playing,
        after.queue == engine.queue,
{
    if params.start_secs.is_finite() && elapsed.magnitude() == 0 {
        sum_with_nothing(params.start_secs, elapsed);
    }
}

/// A preview lasts up to the end marker where there is one behind the start, and else for
/// the rest of the file.
pub proof fn previews_last_up_to_their_end(
    params: PlayParams,
    start: Span,
    file: Option<Span>,
    r: PreviewLength,
)
    requires
        is_preview_length(params, start, file, r),
    ensures
        r is Trimmed <==> params.start_secs.lt(params.end_secs),
        r is Unknown <==> !params.start_secs.lt(params.end_secs) && file is None,
        r matches PreviewLength::Trimmed(secs) ==> (params.start_secs.is_finite()
            && params.end_secs.is_finite() && params.start_secs.magnitude() == 0 ==> secs.place()
            == params.end_secs.place()),
        r matches PreviewLength::Rest(left) ==> start.total() + left.total() == if start.total()
            < file->0.total() {
            file->0.total()
        } else {
            start.total()
        },
{
    if params.start_secs.is_finite() && params.end_secs.is_finite()
        && params.start_secs.magnitude() == 0 {
        difference_from_nothing(params.end_secs, params.start_secs.larger(zero()));
    }
}

// ── Several sounds ───────────────────────────────────────────────────────────

proof fn mixes_are_in_scale(segments: Seq<Segment>, pcm: Seq<Seq<Scalar>>, i: int)
    requires
        !mixed_sample(segments, pcm, i).is_nan(),
    ensures
        mixed_sample(segments, pcm, i).is_finite(),
        cut_off(mixed_sample(segments, pcm, i)) == mixed_sample(segments, pcm, i),
    decreases segments.len(),
{
    milli_grows(-1000, 0);
    milli_grows(0, 1000);
    milli_zero();
    milli_is_finite(1000);
    milli_is_finite(-1000);
    if segments.len() > 0 && i >= segments.last().count {
        mixes_are_in_scale(segments.drop_last(), pcm.drop_last(), i);
    }
}

/// A sound that is silent, or has ended, takes nothing away from the others.
pub proof fn a_silent_sound_leaves_the_others_alone(
    segments: Seq<Segment>,
    pcm: Seq<Seq<Scalar>>,
    silent: Segment,
    samples: Seq<Scalar>,
    i: int,
)
    requires
        pcm.len() == segments.len(),
        !mixed_sample(segments, pcm, i).is_nan(),
        i >= silent.count || (samples[silent.from + i].magnitude() == 0 && silent.gain_at(
            i,
        ).is_finite()),
    ensures
        mixed_sample(segments.push(silent), pcm.push(samples), i).place() == mixed_sample(
            segments,
            pcm,
            i,
        ).place(),
{
    let others = mixed_sample(segments, pcm, i);
    assert(segments.push(silent).drop_last() =~= segments);
    assert(pcm.push(samples).drop_last() =~= pcm);
    if i < silent.count {
        let (x, g) = (samples[silent.from + i], silent.gain_at(i));
        product_by_zero(g, x);
        mixes_are_in_scale(segments, pcm, i);
        nothing_and(others, x.product(g));
        milli_grows(-1000, 1000);
    }
}

/// Every sound of a mix is heard: the louder a sample of it, the louder the mix, whatever
/// the others play.
pub proof fn every_sound_is_heard(
    segments: Seq<Segment>,
    pcm: Seq<Seq<Scalar>>,
    s: Segment,
    soft: Seq<Scalar>,
    loud: Seq<Scalar>,
    i: int,
)
    requires
        pcm.len() == segments.len(),
        !mixed_sample(segments, pcm, i).is_nan(),
        0 <= i < s.count,
        s.gain_at(i).is_finite(),
        !s.gain_at(i).negative(),
        soft[s.from + i].is_finite(),
        loud[s.from + i].is_finite(),
        !soft[s.from + i].negative(),
        !loud[s.from + i].negative(),
        soft[s.from + i].le(loud[s.from + i]),
        s.gain_at(i).product(soft[s.from + i]).is_finite(),
        s.gain_at(i).product(loud[s.from + i]).is_finite(),
    ensures
        mixed_sample(segments.push(s), pcm.push(soft), i).le(
            mixed_sample(segments.push(s), pcm.push(loud), i),
        ),
{
    let others = mixed_sample(segments, pcm, i);
    assert(segments.push(s).drop_last() =~= segments);
    assert(pcm.push(soft).drop_last() =~= pcm);
    assert(pcm.push(loud).drop_last() =~= pcm);
    let (x, y, g) = (soft[s.from + i], loud[s.from + i], s.gain_at(i));
    mixes_are_in_scale(segments, pcm, i);
    products_keep_order(g, x, y);
    products_commute(g, x);
    products_commute(g, y);
    sums_keep_order(others, x.product(g), y.product(g));
    milli_grows(-1000, 1000);
}

/// The level of the soundboard in the microphone counts for every sound: at 1 a sound has
/// its own volume, at 0 it is silent.
pub proof fn the_level_turns_every_sound(s: PlayingSound, n: usize, level: Scalar)
    requires
        s.volume.is_finite(),
    ensures
        segment_of(s, n, milli(1000)).gain == s.volume,
        level.magnitude() == 0 ==> segment_of(s, n, level).gain.magnitude() == 0,
        segment_of(s, n, level) == (Segment {
            gain: segment_of(s, n, level).gain,
            ..segment_of(s, n, milli(1000))
        }),
{
    product_by_one(s.volume);
    if level.magnitude() == 0 {
        product_by_zero(s.volume, level);
    }
}

// ── The oscilloscope ─────────────────────────────────────────────────────────

/// The oscilloscope shows both sides: a frame and its mirror look the same.
pub proof fn the_scope_shows_both_sides(mix: Seq<Scalar>, mirror: Seq<Scalar>, f: int)
    requires
        mirror.len() == mix.len(),
        0 <= f,
        2 * f + 1 < mix.len(),
        mix[2 * f].is_finite(),
        mix[2 * f + 1].is_finite(),
        mirror[2 * f] == mix[2 * f + 1],
        mirror[2 * f + 1] == mix[2 * f],
        mix[2 * f].magnitude() > 0,
        mix[2 * f + 1].magnitude() > 0,
    ensures
        mono(mix)[f] == mono(mirror)[f],
{
    let (l, r) = (mix[2 * f], mix[2 * f + 1]);
    sum_with_zero(l);
    sum_with_zero(r);
    sums_commute(l, r);
}

/// The oscilloscope keeps the newest samples in their order.
pub proof fn the_scope_keeps_the_newest(samples: Seq<Scalar>, n: int, i: int)
    requires
        0 <= i < samples.len(),
        i < n,
    ensures
        tail(samples, n)[tail(samples, n).len() - 1 - i] == samples[samples.len() - 1 - i],
        tail(samples, n).len() == if samples.len() < n {
            samples.len() as int
        } else {
            n
        },
{
}

// ── What is left ─────────────────────────────────────────────────────────────

/// The later it is in a sound, the less of it is left.
pub proof fn less_is_left_later(s: PlayingSound, played: Scalar, later: Scalar)
    requires
        s.window_end() is Some,
        s.window_end()->0.is_finite(),
        s.window_start().lt(s.window_end()->0),
        s.position(played).is_finite(),
        s.position(later).is_finite(),
        s.position(played).le(s.position(later)),
        s.window_end()->0.difference(s.position(played)).is_finite(),
        s.window_end()->0.difference(s.position(later)).is_finite(),
    ensures
        s.progress_at(played).1 is Some,
        s.progress_at(later).1 is Some,
        s.progress_at(later).1->0 <= s.progress_at(played).1->0,
{
    let (end, a, b) = (s.window_end()->0, s.position(played), s.position(later));
    sign_changes(a);
    sign_changes(b);
    order_is_numeric(a, b);
    order_is_numeric(b.negated(), a.negated());
    sums_keep_order(end, b.negated(), a.negated());
    let (x, y) = (end.difference(b).larger(zero()), end.difference(a).larger(zero()));
    whole_parts_keep_order(x, y);
}

proof fn whole_parts_keep_order(x: Scalar, y: Scalar)
    requires
        x.is_finite(),
        y.is_finite(),
        x.le(y),
        x.place() >= 0,
    ensures
        x.whole_times(1, u32::MAX as nat) <= y.whole_times(1, u32::MAX as nat) <= u32::MAX,
{
    reveal(Scalar::whole_times);
    lemma_pow2_pos(149);
    let (p, q) = (x.magnitude(), y.magnitude());
    assert(units(0) == 0);
    if p < q {
        units_grow(p, q);
    }
    vstd::arithmetic::div_mod::lemma_div_is_ordered(
        units(p) as int * 1,
        units(q) as int * 1,
        pow2(149) as int,
    );
    if p == 0 {
        assert(0int / pow2(149) as int == 0) by (nonlinear_arith)
            requires
                pow2(149) > 0,
        ;
    }
}

/// What is heard of a sound ends at its end marker where that is behind the start, and
/// else with the file; it begins at its start marker.
pub proof fn the_window_lies_between_the_markers(s: PlayingSound)
    requires
        zero().le(s.params.start_secs),
    ensures
        s.window_start().place() == s.params.start_secs.place(),
        s.params.start_secs.lt(s.params.end_secs) ==> s.window_end() == Some(s.params.end_secs),
        s.params.end_secs.le(s.params.start_secs) ==> s.window_end() == s.file_secs,
{
}

/// The oscilloscope goes on with what is mixed and with silence, and stands still where
/// nothing is due.
pub proof fn the_scope_goes_on(plan: MixPlan, mix: Seq<Scalar>, scope: Seq<Scalar>, i: int)
    requires
        0 <= i < ANALYSIS_LEN,
    ensures
        plan matches MixPlan::Silence(frames) ==> (i < frames ==> {
            let shown = shown_scope(false, plan, mix, scope);
            &&& i < shown.len()
            &&& shown[shown.len() - 1 - i].bits == 0
        }),
        plan is Mix && i < mono(mix).len() ==> {
            let shown = shown_scope(false, plan, mix, scope);
            &&& i < shown.len()
            &&& shown[shown.len() - 1 - i] == mono(mix)[mono(mix).len() - 1 - i]
        },
        plan is Nothing ==> shown_scope(false, plan, mix, scope) == scope,
        shown_scope(true, plan, mix, scope).len() == 0,
{
}

/// A monitor output is expected to play up to the end marker, else for the rest of the
/// file; nothing is expected of it where neither is known.
pub proof fn the_monitor_is_over_at_the_end(params: PlayParams, from: Scalar, file_secs: Option<Scalar>)
    ensures
        from.lt(params.end_secs) ==> monitor_plan_of(params, from, file_secs).played
            == monitor_plan_of(params, from, file_secs).take,
        !from.lt(params.end_secs) ==> monitor_plan_of(params, from, file_secs).take is None,
        !from.lt(params.end_secs) && file_secs is None ==> monitor_plan_of(
            params,
            from,
            file_secs,
        ).played is None,
        !from.lt(params.end_secs) && file_secs is Some && file_secs->0.is_finite()
            && from.is_finite() && file_secs->0.le(from) ==> monitor_plan_of(
            params,
            from,
            file_secs,
        ).played->0.magnitude() == 0,
        !from.lt(params.end_secs) && file_secs is Some && file_secs->0.is_finite()
            && from.magnitude() == 0 && zero().le(file_secs->0) ==> monitor_plan_of(
            params,
            from,
            file_secs,
        ).played->0.place() == file_secs->0.place(),
{
    if file_secs is Some && file_secs->0.is_finite() && from.is_finite() {
        differences_have_signs(file_secs->0, from);
    }
    if file_secs is Some && file_secs->0.is_finite() && from.magnitude() == 0 {
        difference_from_nothing(file_secs->0, from);
    }
}

/// A renamed file goes on as it was under its new path, and sounds of other files keep
/// theirs.
pub proof fn a_renamed_file_plays_on(
    before: AudioEngine,
    after: AudioEngine,
    old_path: Seq<char>,
    new_path: Seq<char>,
    i: int,
)
    requires
        engine_renamed(before, after, old_path, new_path),
    ensures
        0 <= i < before.playing@.len() ==> {
            let (s, t) = (before.playing@[i], after.playing@[i]);
            &&& equal_paths(s.path@, old_path) ==> t.path@ == new_path
            &&& !equal_paths(s.path@, old_path) ==> t.path@ == s.path@
            &&& (t.key, t.pcm_pos, t.volume, t.params) == (s.key, s.pcm_pos, s.volume, s.params)
        },
        0 <= i < before.queue@.len() ==> {
            let (p, q) = (before.queue@[i], after.queue@[i]);
            &&& equal_paths(p.path@, old_path) ==> q.path@ == new_path
            &&& !equal_paths(p.path@, old_path) ==> q.path@ == p.path@
            &&& (q.params, q.total_secs) == (p.params, p.total_secs)
        },
{
    if 0 <= i < before.playing@.len() {
        assert(playing_renamed(before.playing@[i], after.playing@[i], old_path, new_path));
    }
    if 0 <= i < before.queue@.len() {
        assert(queued_renamed(before.queue@[i], after.queue@[i], old_path, new_path));
    }
}

/// A stereo file at the rate of the microphone is taken as it is; one at another rate
/// keeps its sides.
pub proof fn a_file_is_taken_at_the_rate_of_the_microphone(
    raw: Seq<Scalar>,
    channels: nat,
    rate: u32,
    out: Seq<Scalar>,
    i: int,
)
    requires
        is_pcm(raw, channels, rate, out),
        0 <= i < out.len(),
    ensures
        rate == 48_000 && channels == 2 ==> out == raw,
        rate == 48_000 ==> out == as_stereo(raw, channels),
        rate != 48_000 ==> out[i] == resampled(as_stereo(raw, channels), rate, 48_000, i),
        rate != 48_000 ==> out.len() == 2 * frames_at_rate(
            as_stereo(raw, channels).len() / 2,
            rate,
            48_000,
        ),
{
}

/// A sample of the monitor output is heard at the gain of its fades: in full where that is
/// 1, and not at all where it is 0.
pub proof fn monitor_samples_have_their_gain(e: Envelope, sample: Scalar)
    requires
        sample.is_finite(),
    ensures
        e.gain() == milli(1000) ==> e.shaped(sample) == sample,
        e.gain().magnitude() == 0 ==> e.shaped(sample).magnitude() == 0,
{
    product_by_one(sample);
    if e.gain().magnitude() == 0 {
        product_by_zero(sample, e.gain());
    }
}

} // verus!
