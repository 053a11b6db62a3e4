//! A tick of the engine, step by step.
//!
//! A tick lets go of what has ended, starts what waits if nothing plays any more, mixes
//! what is due since the last tick, and tells what there is to show. Between the steps
//! the outputs are asked: each stage says what has to be done next, and each event what
//! has come of it.

use vstd::prelude::*;

use super::engine::{
    advanced, is_mix, is_started, mix_samples, mixed_sample, pcm_views, remaining, shown_scope,
    AudioEngine, MixPlan, PlayingSound, QueuedSound, SoundInfo,
};
use super::playback::what_is_not_gone_remains;
use super::time::{elapsed_samples, samples_passed};
use crate::scalar::Scalar;

verus! {

/// Where a tick is, and what is to be done there.
pub enum TickStage {
    /// Ask each output whether its sound has ended.
    Begin,
    /// Start this sound on the monitor output.
    Starting(QueuedSound),
    /// Look at the clock and at the decoders.
    Measuring,
    /// Hand over the samples that the plan takes, and what the oscilloscope shows.
    Mixing { n: usize, plan: MixPlan },
    /// Send the mix to the virtual microphone, if there is one; show this on the
    /// oscilloscope; and ask each output how long it has played.
    Showing { mix: Option<Vec<Scalar>>, scope: Vec<Scalar> },
    /// The tick is over: what is shown of the playing and of the waiting sounds.
    Shown { playing: Vec<SoundInfo>, queue: Vec<(String, Option<u32>)> },
}

/// What has come of a stage.
pub enum TickEvent<'a> {
    /// Whether each of the playing sounds has ended.
    Ended(Vec<bool>),
    /// The sound is heard: the length of its file in seconds, and the number of its
    /// samples if they are decoded already.
    Started { file_secs: Option<Scalar>, pcm_len: Option<usize> },
    /// The sound cannot be started.
    Failed,
    /// The time since the last tick, and the number of samples of each sound whose
    /// samples have arrived.
    Passed { secs: u64, nanos: u32, ready: Vec<Option<usize>> },
    /// The samples of the sound behind each segment of the plan, and what the
    /// oscilloscope shows.
    Samples { pcm: Vec<&'a Vec<Scalar>>, scope: Vec<Scalar> },
    /// How long each of the outputs has played, in seconds.
    Played(Vec<Scalar>),
}

/// The event answers the stage, for every sound that it asks about.
pub open spec fn answers(engine: AudioEngine, stage: TickStage, event: TickEvent<'_>) -> bool {
    match (stage, event) {
        (TickStage::Begin, TickEvent::Ended(ended)) => ended@.len() == engine.playing@.len(),
        (TickStage::Starting(_), TickEvent::Started { .. }) => engine.next_key < u64::MAX,
        (TickStage::Starting(_), TickEvent::Failed) => true,
        (TickStage::Measuring, TickEvent::Passed { secs, nanos, ready }) => ready@.len()
            == engine.playing@.len(),
        (TickStage::Mixing { n, plan }, TickEvent::Samples { pcm, scope }) => match plan {
            MixPlan::Mix(segments) => {
                &&& segments@.len() == pcm@.len()
                &&& forall|k: int|
                    0 <= k < segments@.len() ==> (#[trigger] segments@[k]).wf()
                        && segments@[k].count <= n && segments@[k].limit <= pcm@[k]@.len()
            },
            _ => true,
        },
        (TickStage::Showing { .. }, TickEvent::Played(played)) => played@.len()
            == engine.playing@.len(),
        _ => false,
    }
}

/// `after` is the engine `before` with these sounds playing, once it was seen what waits:
/// the first sound of the queue is started if nothing plays.
pub open spec fn turns_to_queue(
    before: AudioEngine,
    playing: Seq<PlayingSound>,
    after: AudioEngine,
    next: TickStage,
) -> bool {
    &&& after.playing@ == playing
    &&& if playing.len() == 0 && before.queue@.len() > 0 {
        &&& next == TickStage::Starting(before.queue@[0])
        &&& after.queue@ == before.queue@.skip(1)
    } else {
        &&& next == TickStage::Measuring
        &&& after.queue@ == before.queue@
    }
    &&& after == (AudioEngine { playing: after.playing, queue: after.queue, ..before })
}

/// The sounds after their decoders were looked at.
pub open spec fn all_advanced(
    playing: Seq<PlayingSound>,
    n: usize,
    ready: Seq<Option<usize>>,
) -> Seq<PlayingSound> {
    Seq::new(playing.len(), |i: int| advanced(playing[i], n, ready[i]))
}

/// `mix` is what the plan comes to, and `shown` what the oscilloscope shows then.
pub open spec fn is_mixed(
    quiet: bool,
    n: usize,
    plan: MixPlan,
    pcm: Seq<&Vec<Scalar>>,
    scope: Seq<Scalar>,
    mix: Option<Vec<Scalar>>,
    shown: Seq<Scalar>,
) -> bool {
    match plan {
        MixPlan::Mix(segments) => mix matches Some(mix) && {
            &&& mix@.len() == n
            &&& forall|i: int|
                0 <= i < n ==> #[trigger] mix@[i] == mixed_sample(segments@, pcm_views(pcm), i)
            &&& shown == shown_scope(quiet, plan, mix@, scope)
        },
        _ => mix is None && shown == shown_scope(quiet, plan, Seq::empty(), scope),
    }
}

/// What is shown of the playing sounds, which have played for so long.
pub open spec fn shows_playing(
    engine: AudioEngine,
    played: Seq<Scalar>,
    shown: Seq<SoundInfo>,
) -> bool {
    &&& shown.len() == engine.playing@.len()
    &&& forall|i: int|
        0 <= i < shown.len() ==> (#[trigger] shown[i]).name@ == engine.playing@[i].name@ && (
        shown[i].fraction, shown[i].remaining_secs) == engine.playing@[i].progress_at(played[i])
}

/// What is shown of the waiting sounds.
pub open spec fn shows_queue(engine: AudioEngine, shown: Seq<(String, Option<u32>)>) -> bool {
    &&& shown.len() == engine.queue@.len()
    &&& forall|i: int|
        0 <= i < shown.len() ==> (#[trigger] shown[i]).0@ == engine.queue@[i].name@ && shown[i].1
            == engine.queue@[i].total_secs
}

/// The event takes the engine from `before` to `after`, and the tick from `stage` to
/// `next`.
pub open spec fn is_step(
    before: AudioEngine,
    stage: TickStage,
    event: TickEvent<'_>,
    after: AudioEngine,
    next: TickStage,
) -> bool {
    match (stage, event) {
        (TickStage::Begin, TickEvent::Ended(ended)) => turns_to_queue(
            before,
            remaining(before.playing@, ended@),
            after,
            next,
        ),
        (TickStage::Starting(sound), TickEvent::Started { file_secs, pcm_len }) => {
            &&& is_started(
                before,
                after,
                sound.path@,
                sound.name@,
                sound.params,
                file_secs,
                pcm_len,
            )
            &&& next == TickStage::Measuring
        },
        (TickStage::Starting(_), TickEvent::Failed) => turns_to_queue(
            before,
            before.playing@,
            after,
            next,
        ),
        (TickStage::Measuring, TickEvent::Passed { secs, nanos, ready }) => {
            &&& next matches TickStage::Mixing { n, plan }
            &&& n == samples_passed(secs, nanos)
            &&& is_mix(
                all_advanced(before.playing@, n, ready@),
                n,
                before.soundboard_mic_volume,
                plan,
                after.playing@,
            )
            &&& after == (AudioEngine { playing: after.playing, ..before })
        },
        (TickStage::Mixing { n, plan }, TickEvent::Samples { pcm, scope }) => {
            &&& next matches TickStage::Showing { mix, scope: shown }
            &&& is_mixed(before.playing@.len() == 0, n, plan, pcm@, scope@, mix, shown@)
            &&& after == before
        },
        (TickStage::Showing { .. }, TickEvent::Played(played)) => {
            &&& next matches TickStage::Shown { playing, queue }
            &&& shows_playing(before, played@, playing@)
            &&& shows_queue(before, queue@)
            &&& after == before
        },
        _ => false,
    }
}

impl AudioEngine {
    /// The stage after the sounds that have ended are gone, or a sound could not be
    /// started.
    fn turn_to_queue(&mut self) -> (next: TickStage)
        requires
            old(self).wf(),
        ensures
            final(self).wf(),
            turns_to_queue(*old(self), old(self).playing@, *final(self), next),
    {
        match self.next_queued() {
            Some(sound) => TickStage::Starting(sound),
            None => TickStage::Measuring,
        }
    }

    /// Takes a tick one step on.
    pub fn tick(&mut self, stage: TickStage, event: TickEvent<'_>) -> (next: TickStage)
        requires
            old(self).wf(),
            answers(*old(self), stage, event),
        ensures
            final(self).wf(),
            is_step(*old(self), stage, event, *final(self), next),
    {
        match (stage, event) {
            (TickStage::Begin, TickEvent::Ended(ended)) => {
                self.retire(&ended);
                self.turn_to_queue()
            },
            (TickStage::Starting(sound), TickEvent::Started { file_secs, pcm_len }) => {
                self.started(
                    sound.path.as_str(),
                    sound.name.as_str(),
                    sound.params,
                    file_secs,
                    pcm_len,
                );
                TickStage::Measuring
            },
            (TickStage::Measuring, TickEvent::Passed { secs, nanos, ready }) => {
                let n: usize = elapsed_samples(secs, nanos);
                self.advance(n, &ready);
                assert(self.playing@ =~= all_advanced(old(self).playing@, n, ready@));
                let plan: MixPlan = self.mix(n);
                TickStage::Mixing { n, plan }
            },
            (TickStage::Mixing { n, plan }, TickEvent::Samples { pcm, scope }) => {
                let mut mix: Option<Vec<Scalar>> = None;
                let shown: Vec<Scalar> = match &plan {
                    MixPlan::Mix(segments) => {
                        let samples: Vec<Scalar> = mix_samples(n, segments, &pcm);
                        let shown: Vec<Scalar> = self.scope_after(&plan, &samples, scope);
                        mix = Some(samples);
                        shown
                    },
                    _ => {
                        let nothing: Vec<Scalar> = Vec::new();
                        assert(nothing@ =~= Seq::empty());
                        self.scope_after(&plan, &nothing, scope)
                    },
                };
                TickStage::Showing { mix, scope: shown }
            },
            (TickStage::Showing { .. }, TickEvent::Played(played)) => TickStage::Shown {
                playing: self.playing_info(&played),
                queue: self.queue_info(),
            },
            (TickStage::Starting(_), TickEvent::Failed) => self.turn_to_queue(),
            (stage, _) => stage,
        }
    }
}

// ── Laws ─────────────────────────────────────────────────────────────────────

/// The steps that a tick may still take.
pub open spec fn steps_left(engine: AudioEngine, stage: TickStage) -> nat {
    match stage {
        TickStage::Begin => engine.queue@.len() + 5,
        TickStage::Starting(_) => engine.queue@.len() + 4,
        TickStage::Measuring => 3,
        TickStage::Mixing { .. } => 2,
        TickStage::Showing { .. } => 1,
        TickStage::Shown { .. } => 0,
    }
}

/// Every step brings a tick nearer to its end, however many of the waiting sounds cannot
/// be started.
pub proof fn a_tick_ends(
    before: AudioEngine,
    stage: TickStage,
    event: TickEvent<'_>,
    after: AudioEngine,
    next: TickStage,
)
    requires
        is_step(before, stage, event, after, next),
    ensures
        steps_left(after, next) < steps_left(before, stage),
{
}

/// A tick in full: the engine at each stage, the stages, and the events between them.
pub open spec fn is_tick(
    engines: Seq<AudioEngine>,
    stages: Seq<TickStage>,
    events: Seq<TickEvent<'_>>,
) -> bool {
    &&& engines.len() == stages.len()
    &&& stages.len() == events.len() + 1
    &&& stages[0] is Begin
    &&& stages.last() is Shown
    &&& forall|i: int|
        0 <= i < events.len() ==> is_step(
            engines[i],
            stages[i],
            #[trigger] events[i],
            engines[i + 1],
            stages[i + 1],
        )
}

/// A stage of a tick that is not the first has one before it.
proof fn stage_before(
    engines: Seq<AudioEngine>,
    stages: Seq<TickStage>,
    events: Seq<TickEvent<'_>>,
    i: int,
)
    requires
        is_tick(engines, stages, events),
        0 <= i < stages.len(),
    ensures
        i == 0 <==> stages[i] is Begin,
        i > 0 ==> is_step(
            engines[i - 1],
            stages[i - 1],
            events[i - 1],
            engines[i],
            stages[i],
        ),
{
    if i > 0 {
        let event = events[i - 1];
    }
}

/// The sounds that were tried before stage `i`, at which the next one is.
proof fn tried_in_order(
    engines: Seq<AudioEngine>,
    stages: Seq<TickStage>,
    events: Seq<TickEvent<'_>>,
    i: int,
)
    requires
        is_tick(engines, stages, events),
        0 <= i < stages.len(),
        stages[i] is Starting,
    ensures
        1 <= i <= engines[0].queue@.len(),
        engines[i].playing@.len() == 0,
        engines[i].queue@ == engines[0].queue@.skip(i),
        forall|k: int|
            1 <= k <= i ==> #[trigger] stages[k] == TickStage::Starting(engines[0].queue@[k - 1]),
        forall|k: int| 1 <= k < i ==> #[trigger] events[k] is Failed,
    decreases i,
{
    stage_before(engines, stages, events, i);
    stage_before(engines, stages, events, i - 1);
    if i > 1 {
        tried_in_order(engines, stages, events, i - 1);
        assert(engines[0].queue@.skip(i - 1).skip(1) =~= engines[0].queue@.skip(i));
    }
}

/// A tick takes its steps in this order: what has ended goes, the waiting sounds are
/// tried in their order until one starts, the time is measured, the mix is made, and
/// what there is to show is told. When the mix is made something plays or nothing waits,
/// and whatever was not tried still waits.
pub proof fn a_tick_goes_in_order(
    engines: Seq<AudioEngine>,
    stages: Seq<TickStage>,
    events: Seq<TickEvent<'_>>,
)
    requires
        is_tick(engines, stages, events),
    ensures
        stages.len() >= 5,
        ({
            let tried = stages.len() - 5;
            let waiting = engines[0].queue@;
            &&& tried <= waiting.len()
            &&& forall|k: int|
                1 <= k <= tried ==> #[trigger] stages[k] == TickStage::Starting(waiting[k - 1])
            &&& forall|k: int| 1 <= k < tried ==> #[trigger] events[k] is Failed
            &&& stages[tried + 1] is Measuring
            &&& stages[tried + 2] is Mixing
            &&& stages[tried + 3] is Showing
            &&& stages[tried + 4] is Shown
            &&& engines.last().queue@ == waiting.skip(tried)
            &&& engines.last().playing@.len() > 0 || engines.last().queue@.len() == 0
        }),
{
    let last = stages.len() - 1;
    let tried = stages.len() - 5;
    stage_before(engines, stages, events, last);
    stage_before(engines, stages, events, last - 1);
    stage_before(engines, stages, events, last - 2);
    stage_before(engines, stages, events, last - 3);
    stage_before(engines, stages, events, last - 4);
    if stages[tried] is Starting {
        tried_in_order(engines, stages, events, tried);
    } else {
        assert(engines[0].queue@.skip(0) =~= engines[0].queue@);
    }
}

/// The panel is told of every sound that plays and of every one that waits, in their order,
/// by their names.
pub proof fn a_tick_shows_what_plays_and_waits(
    before: AudioEngine,
    stage: TickStage,
    event: TickEvent<'_>,
    after: AudioEngine,
    next: TickStage,
    i: int,
)
    requires
        is_step(before, stage, event, after, next),
        next is Shown,
    ensures
        after == before,
        next->playing@.len() == before.playing@.len(),
        next->queue@.len() == before.queue@.len(),
        0 <= i < before.playing@.len() ==> next->playing@[i].name@ == before.playing@[i].name@,
        0 <= i < before.queue@.len() ==> next->queue@[i].0@ == before.queue@[i].name@
            && next->queue@[i].1 == before.queue@[i].total_secs,
{
    if 0 <= i < before.playing@.len() {
        assert(next->playing@[i].name@ == before.playing@[i].name@);
    }
    if 0 <= i < before.queue@.len() {
        assert(next->queue@[i].0@ == before.queue@[i].name@);
    }
}

/// A tick first lets go of the sounds that have ended, and of no other; the rest stay in
/// their order.
pub proof fn a_tick_lets_go_of_what_has_ended(
    before: AudioEngine,
    ended: Seq<bool>,
    event: TickEvent<'_>,
    after: AudioEngine,
    next: TickStage,
) -> (at: Seq<int>)
    requires
        event matches TickEvent::Ended(e) && e@ == ended,
        ended.len() == before.playing@.len(),
        is_step(before, TickStage::Begin, event, after, next),
    ensures
        at.len() == after.playing@.len(),
        forall|k: int|
            0 <= k < at.len() ==> 0 <= #[trigger] at[k] < before.playing@.len() && !ended[at[k]]
                && after.playing@[k] == before.playing@[at[k]],
        forall|j: int, k: int| 0 <= j < k < at.len() ==> #[trigger] at[j] < #[trigger] at[k],
        forall|i: int|
            0 <= i < before.playing@.len() && !(#[trigger] ended[i]) ==> at.contains(i),
{
    what_is_not_gone_remains(before.playing@, ended)
}

} // verus!
