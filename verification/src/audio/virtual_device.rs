//! What flows between the soundboard and the audio graph: nodes, queues of samples
//! and the frames that a capture buffer holds.

use vstd::prelude::*;
use std::collections::VecDeque;

use super::engine::{cut, cut_off};
use super::pw_config::{bridge_module, bridge_module_args, RoutingPlan};
use crate::arithmetic::milli_one;
use crate::ordered::{one_and_minus_one, product_by_one, product_by_zero};
use crate::rounding::milli;
use crate::scalar::Scalar;
use crate::search::{filter_positions, first_index, first_index_holds, found_first, found_none};
use crate::text::{contains, has_part, has_prefix, owned, same_text, starts_with, texts_view};

verus! {

pub const SAMPLE_RATE: u32 = 48000;

pub const CHANNELS: usize = 2;

/// Bytes of one sample.
pub const SAMPLE_BYTES: usize = 4;

/// Names of the graph nodes that make up the virtual microphone.
pub const SINK_NAME: &'static str = "resonate_sink";

pub const SOURCE_NAME: &'static str = "resonate_source";

/// 3 seconds of stereo audio: the most that the soundboard queue holds.
pub const QUEUE_CAP: usize = 288_000;

/// Half a second: the most that waits between mic capture and playback.
pub const MIC_CAP: usize = 48_000;

// ── Control ──────────────────────────────────────────────────────────────────

/// What the audio thread is told to do.
pub enum PwCtrl {
    Terminate,
    Flush,
}

/// What the audio thread remembers between buffers.
pub struct PwState {
    /// Empty the queue before the next buffer is filled.
    pub flush_pending: bool,
}

/// What a message makes of what the thread remembers, and whether it ends the thread.
pub open spec fn is_told(before: PwState, cmd: PwCtrl, after: PwState, quit: bool) -> bool {
    &&& quit == (cmd is Terminate)
    &&& after.flush_pending == (before.flush_pending || cmd is Flush)
}

impl PwState {
    /// Takes a message in; tells whether the thread has to end.
    pub fn control(&mut self, cmd: PwCtrl) -> (quit: bool)
        ensures
            is_told(*old(self), cmd, *final(self), quit),
    {
        match cmd {
            PwCtrl::Terminate => true,
            PwCtrl::Flush => {
                self.flush_pending = true;
                false
            },
        }
    }

    /// Whether to empty the queue now. A flush is done once.
    pub fn take_flush(&mut self) -> (flush: bool)
        ensures
            flush == old(self).flush_pending,
            !final(self).flush_pending,
    {
        let flush: bool = self.flush_pending;
        self.flush_pending = false;
        flush
    }
}

/// The gain on what is played: nothing is heard while the device is off.
pub open spec fn device_gain(enabled: bool, volume: Scalar) -> Scalar {
    if enabled {
        volume
    } else {
        Scalar { bits: 0 }
    }
}

/// The gain on what is played.
pub fn feed_volume(enabled: bool, volume: Scalar) -> (r: Scalar)
    ensures
        r == device_gain(enabled, volume),
{
    if enabled {
        volume
    } else {
        Scalar::zero()
    }
}

/// Arguments of the bridge module, if the plan asks for the bridge.
pub fn bridge_args(plan: &RoutingPlan, device_name: &str) -> (r: Option<String>)
    ensures
        match r {
            Some(args) => plan.create_bridge && args@ == bridge_module(device_name@),
            None => !plan.create_bridge,
        },
{
    if plan.create_bridge {
        Some(bridge_module_args(device_name))
    } else {
        None
    }
}

// ── Queues ───────────────────────────────────────────────────────────────────

/// The last `n` of a sequence, or all of it if it is shorter.
pub open spec fn newest<T>(s: Seq<T>, n: nat) -> Seq<T> {
    if s.len() <= n {
        s
    } else {
        s.skip(s.len() - n)
    }
}

/// `n` items: those in front of `s`, and as many of `rest` as are missing.
pub open spec fn padded<T>(s: Seq<T>, n: nat, rest: T) -> Seq<T> {
    Seq::new(
        n,
        |i: int|
            if i < s.len() {
                s[i]
            } else {
                rest
            },
    )
}

/// What is left of `s` once `n` items were taken from the front, or all if there are less.
pub open spec fn left_behind<T>(s: Seq<T>, n: nat) -> Seq<T> {
    if s.len() <= n {
        Seq::empty()
    } else {
        s.skip(n as int)
    }
}

/// `n` samples for the sink: those in front of `held`, at the given gain and cut off at
/// full scale, and silence for those that are missing.
pub open spec fn fed(held: Seq<Scalar>, n: nat, gain: Scalar) -> Seq<Scalar> {
    Seq::new(
        n,
        |i: int|
            if i < held.len() {
                cut_off(held[i].product(gain))
            } else {
                Scalar { bits: 0 }
            },
    )
}

/// A queue of samples that drops the oldest when it grows over its limit, so that
/// what is heard never lags further behind than that.
pub struct SampleQueue<T> {
    samples: VecDeque<T>,
    cap: usize,
}

impl<T> View for SampleQueue<T> {
    type V = Seq<T>;

    closed spec fn view(&self) -> Seq<T> {
        self.samples@
    }
}

impl<T: Copy> SampleQueue<T> {
    /// The most samples that the queue keeps.
    pub closed spec fn limit(&self) -> nat {
        self.cap as nat
    }

    pub fn new(cap: usize) -> (r: Self)
        ensures
            r@ == Seq::<T>::empty(),
            r.limit() == cap,
    {
        SampleQueue { samples: VecDeque::new(), cap }
    }

    pub fn len(&self) -> (r: usize)
        ensures
            r == self@.len(),
    {
        self.samples.len()
    }

    /// Appends samples; of all that are there, the newest stay.
    pub fn push_samples(&mut self, samples: &Vec<T>)
        ensures
            final(self)@ == newest(old(self)@ + samples@, old(self).limit()),
            final(self)@.len() <= old(self).limit(),
            final(self).limit() == old(self).limit(),
    {
        let ghost all = self@ + samples@;
        let mut i: usize = 0;
        while i < samples.len()
            invariant
                i <= samples@.len(),
                all == old(self)@ + samples@,
                self.samples@ == all.take(old(self)@.len() + i),
                self.cap == old(self).cap,
            decreases samples@.len() - i,
        {
            self.samples.push_back(samples[i]);
            i = i + 1;
        }
        assert(self.samples@ =~= all);
        let ghost mut dropped: int = 0;
        assert(all.skip(0) =~= all);
        while self.samples.len() > self.cap
            invariant
                0 <= dropped <= all.len(),
                self.samples@ == all.skip(dropped),
                dropped == 0 || all.len() - dropped >= self.cap,
                self.cap == old(self).cap,
            decreases self.samples@.len(),
        {
            let _oldest = self.samples.pop_front();
            proof {
                assert(all.skip(dropped).subrange(1, all.len() - dropped) =~= all.skip(
                    dropped + 1,
                ));
                dropped = dropped + 1;
            }
        }
    }

    /// Takes the oldest sample out.
    pub fn pop(&mut self) -> (r: Option<T>)
        ensures
            match r {
                Some(x) => old(self)@.len() > 0 && x == old(self)@[0] && final(self)@ == old(
                    self,
                )@.skip(1),
                None => old(self)@.len() == 0 && final(self)@ == old(self)@,
            },
            final(self).limit() == old(self).limit(),
    {
        let ghost before = self.samples@;
        let r: Option<T> = self.samples.pop_front();
        proof {
            if r is Some {
                assert(self.samples@ =~= before.skip(1));
            }
        }
        r
    }

    /// Takes out the oldest `n` samples for a buffer of that length; what is missing
    /// is filled up with silence.
    pub fn fill(&mut self, n: usize, silence: T) -> (out: Vec<T>)
        ensures
            out@ == padded(old(self)@, n as nat, silence),
            final(self)@ == left_behind(old(self)@, n as nat),
            final(self).limit() == old(self).limit(),
    {
        let mut out: Vec<T> = Vec::new();
        let ghost all = self@;
        assert(all.skip(0) =~= all);
        while out.len() < n
            invariant
                out@.len() <= n,
                all == old(self)@,
                out@ == padded(all, out@.len(), silence),
                self@ == (if all.len() <= out@.len() {
                    Seq::<T>::empty()
                } else {
                    all.skip(out@.len() as int)
                }),
                self.cap == old(self).cap,
            decreases n - out@.len(),
        {
            let ghost k = out@.len() as int;
            match self.pop() {
                Some(x) => {
                    proof {
                        assert(all.skip(k).skip(1) =~= all.skip(k + 1));
                        if all.len() == k + 1 {
                            assert(all.skip(k + 1) =~= Seq::<T>::empty());
                        }
                    }
                    out.push(x);
                },
                None => {
                    assert(all.len() <= k);
                    out.push(silence);
                },
            }
            assert(out@ =~= padded(all, out@.len(), silence));
        }
        out
    }

    /// Forgets everything.
    pub fn clear(&mut self)
        ensures
            final(self)@ == Seq::<T>::empty(),
            final(self).limit() == old(self).limit(),
    {
        self.samples.clear();
    }

    /// All samples, oldest first.
    pub fn to_vec(&self) -> (r: Vec<T>)
        ensures
            r@ == self@,
    {
        let mut r: Vec<T> = Vec::new();
        let mut i: usize = 0;
        while i < self.samples.len()
            invariant
                i <= self.samples@.len(),
                r@ == self.samples@.take(i as int),
            decreases self.samples@.len() - i,
        {
            r.push(self.samples[i]);
            i = i + 1;
        }
        assert(r@ =~= self@);
        r
    }
}

impl SampleQueue<Scalar> {
    /// Takes out the oldest `n` samples for a buffer of that length, at the given gain
    /// and cut off at full scale; what is missing is silent.
    pub fn feed(&mut self, n: usize, gain: Scalar) -> (out: Vec<Scalar>)
        ensures
            out@ == fed(old(self)@, n as nat, gain),
            final(self)@ == left_behind(old(self)@, n as nat),
            final(self).limit() == old(self).limit(),
    {
        let held: usize = self.len();
        let take: usize = if held < n {
            held
        } else {
            n
        };
        let ghost all = self@;
        let mut out: Vec<Scalar> = self.fill(n, Scalar::zero());
        let mut i: usize = 0;
        while i < take
            invariant
                i <= take <= n,
                take <= all.len(),
                out@.len() == n,
                take == all.len() || take == n,
                forall|k: int|
                    0 <= k < i ==> #[trigger] out@[k] == cut_off(all[k].product(gain)),
                forall|k: int|
                    i <= k < n ==> #[trigger] out@[k] == (if k < all.len() {
                        all[k]
                    } else {
                        Scalar { bits: 0 }
                    }),
            decreases take - i,
        {
            let louder: Scalar = out[i].times(gain);
            out.set(i, cut(louder));
            i = i + 1;
        }
        assert(out@ =~= fed(all, n as nat, gain));
        out
    }
}

/// What the queue holds when a buffer of the soundboard is filled: a flush that was asked
/// for comes first.
pub open spec fn held_for_buffer(flush: bool, held: Seq<Scalar>) -> Seq<Scalar> {
    if flush {
        Seq::empty()
    } else {
        held
    }
}

/// `out` is the next buffer, and `left` is what is left in the queue after it.
pub open spec fn is_buffer(
    flush: bool,
    held: Seq<Scalar>,
    n: nat,
    enabled: bool,
    volume: Scalar,
    out: Seq<Scalar>,
    left: Seq<Scalar>,
) -> bool {
    &&& out == fed(held_for_buffer(flush, held), n, device_gain(enabled, volume))
    &&& left == left_behind(held_for_buffer(flush, held), n)
}

/// The next buffer of the soundboard, `n` samples long. Before it is filled, the queue is
/// emptied if that was asked for.
pub fn next_buffer(
    state: &mut PwState,
    queue: &mut SampleQueue<Scalar>,
    n: usize,
    enabled: bool,
    volume: Scalar,
) -> (out: Vec<Scalar>)
    ensures
        is_buffer(
            old(state).flush_pending,
            old(queue)@,
            n as nat,
            enabled,
            volume,
            out@,
            final(queue)@,
        ),
        final(queue).limit() == old(queue).limit(),
        !final(state).flush_pending,
{
    if state.take_flush() {
        queue.clear();
    }
    queue.feed(n, feed_volume(enabled, volume))
}

/// The buffer of the soundboard while its queue is in use elsewhere.
pub fn silent_buffer(n: usize) -> (out: Vec<Scalar>)
    ensures
        out@ == fed(Seq::empty(), n as nat, Scalar { bits: 0 }),
{
    let mut out: Vec<Scalar> = Vec::new();
    while out.len() < n
        invariant
            out@.len() <= n,
            out@ == fed(Seq::empty(), out@.len(), Scalar { bits: 0 }),
        decreases n - out@.len(),
    {
        out.push(Scalar::zero());
        assert(out@ =~= fed(Seq::empty(), out@.len(), Scalar { bits: 0 }));
    }
    out
}

/// After a flush the next buffer is silent, whatever waited, and nothing of it is heard
/// later.
pub proof fn a_flush_silences_what_waits(held: Seq<Scalar>, n: nat, gain: Scalar, i: int)
    requires
        0 <= i < n,
    ensures
        fed(held_for_buffer(true, held), n, gain)[i] == (Scalar { bits: 0 }),
        left_behind(held_for_buffer(true, held), n).len() == 0,
{
}

/// Two buffers play what one as long as both would have played: nothing is lost or
/// repeated between them.
pub proof fn buffers_follow_on(held: Seq<Scalar>, m: nat, n: nat, gain: Scalar)
    ensures
        fed(held, m, gain) + fed(left_behind(held, m), n, gain) == fed(held, m + n, gain),
        left_behind(left_behind(held, m), n) == left_behind(held, m + n),
{
    assert(fed(held, m, gain) + fed(left_behind(held, m), n, gain) =~= fed(held, m + n, gain));
    assert(left_behind(left_behind(held, m), n) =~= left_behind(held, m + n));
}

/// What was pushed comes out again in the same order, as long as it fits.
pub proof fn queue_is_first_in_first_out<T>(held: Seq<T>, pushed: Seq<T>, cap: nat, silence: T)
    requires
        held.len() + pushed.len() <= cap,
    ensures
        padded(newest(held + pushed, cap), held.len() + pushed.len(), silence) == held + pushed,
{
    assert(padded(held + pushed, (held + pushed).len(), silence) =~= held + pushed);
}

// ── Buffers ──────────────────────────────────────────────────────────────────

/// Whole stereo frames that fit into a buffer of `bytes` bytes.
pub fn buffer_frames(bytes: usize) -> (r: usize)
    ensures
        r == bytes / 8,
        r * CHANNELS * SAMPLE_BYTES <= bytes,
{
    bytes / (SAMPLE_BYTES * CHANNELS)
}

/// What a capture buffer holds: `frames` frames of `channels` samples each, from
/// byte `start` on.
#[derive(Clone, Copy, Debug, PartialEq, Eq, Structural)]
pub struct Capture {
    pub start: usize,
    pub channels: usize,
    pub frames: usize,
}

/// What of a capture buffer of `len` bytes is read.
pub open spec fn is_layout(len: usize, offset: usize, size: usize, stride: usize, r: Capture) -> bool {
    &&& r.channels == (if stride >= SAMPLE_BYTES {
        stride / SAMPLE_BYTES
    } else {
        CHANNELS
    })
    &&& r.start == (if offset < len {
        offset
    } else {
        len
    })
    &&& ({
        let rest = len - r.start;
        let used = if size < rest {
            size as int
        } else {
            rest
        };
        r.frames == used / (SAMPLE_BYTES as int) / (r.channels as int)
    })
    &&& r.start + r.frames * r.channels * SAMPLE_BYTES <= len
}

/// Reads the layout of a capture buffer of `len` bytes off its chunk header. The
/// capture may be mono, so the number of channels comes from the frame stride.
pub fn capture_layout(len: usize, offset: usize, size: usize, stride: usize) -> (r: Capture)
    ensures
        is_layout(len, offset, size, stride, r),
{
    let channels: usize = if stride >= SAMPLE_BYTES {
        stride / SAMPLE_BYTES
    } else {
        CHANNELS
    };
    let start: usize = if offset < len {
        offset
    } else {
        len
    };
    let rest: usize = len - start;
    let used: usize = if size < rest {
        size
    } else {
        rest
    };
    let samples: usize = used / SAMPLE_BYTES;
    let frames: usize = samples / channels;
    assert(frames * channels <= samples) by (nonlinear_arith)
        requires
            frames == samples / channels,
            channels > 0,
    ;
    Capture { start, channels, frames }
}

/// Sample `i` of the stereo frames made of frames of `channels` samples: the first
/// two channels, or the only one twice.
pub open spec fn upmixed<T>(input: Seq<T>, channels: int, i: int) -> T {
    if channels == 1 || i % 2 == 0 {
        input[i / 2 * channels]
    } else {
        input[i / 2 * channels + 1]
    }
}

/// Every sample of `after` is that of `before` at the given gain.
pub open spec fn is_amplified(before: Seq<Scalar>, after: Seq<Scalar>, gain: Scalar) -> bool {
    &&& after.len() == before.len()
    &&& forall|i: int| 0 <= i < after.len() ==> #[trigger] after[i] == before[i].product(gain)
}

/// Every sample at the given gain.
pub fn amplify(samples: &mut Vec<Scalar>, gain: Scalar)
    ensures
        is_amplified(old(samples)@, final(samples)@, gain),
{
    let mut i: usize = 0;
    while i < samples.len()
        invariant
            i <= samples@.len(),
            samples@.len() == old(samples)@.len(),
            forall|k: int|
                0 <= k < i ==> #[trigger] samples@[k] == old(samples)@[k].product(gain),
            forall|k: int| i <= k < samples@.len() ==> #[trigger] samples@[k] == old(samples)@[k],
        decreases samples@.len() - i,
    {
        let louder: Scalar = samples[i].times(gain);
        samples.set(i, louder);
        i = i + 1;
    }
}

/// Captured frames as stereo.
pub fn upmix<T: Copy>(input: &Vec<T>, channels: usize, frames: usize) -> (out: Vec<T>)
    requires
        channels > 0,
        frames * channels <= input@.len(),
    ensures
        out@.len() == 2 * frames,
        forall|i: int|
            0 <= i < 2 * frames ==> #[trigger] out@[i] == upmixed(input@, channels as int, i),
{
    let mut out: Vec<T> = Vec::new();
    let mut f: usize = 0;
    while f < frames
        invariant
            f <= frames,
            channels > 0,
            frames * channels <= input.len(),
            out@.len() == 2 * f,
            forall|i: int|
                0 <= i < 2 * f ==> #[trigger] out@[i] == upmixed(input@, channels as int, i),
        decreases frames - f,
    {
        assert(f * channels + channels <= frames * channels) by (nonlinear_arith)
            requires
                f < frames,
        ;
        let base: usize = f * channels;
        assert((2 * f) / 2 == f && (2 * f + 1) / 2 == f);
        if channels == 1 {
            out.push(input[base]);
            out.push(input[base]);
        } else {
            out.push(input[base]);
            out.push(input[base + 1]);
        }
        f = f + 1;
    }
    out
}

// ── Nodes ────────────────────────────────────────────────────────────────────

/// A node of the audio graph.
pub struct AudioNode {
    pub id: u32,
    pub name: String,
    pub media_class: String,
    pub description: String,
}

/// The node that a registry entry describes.
pub open spec fn is_node(
    id: u32,
    class: Option<&str>,
    name: Option<&str>,
    description: Option<&str>,
    r: Option<AudioNode>,
) -> bool {
    match r {
        Some(node) => name is Some && name->0@.len() > 0 && node.id == id && node.name@
            == name->0@ && node.media_class@ == (match class {
            Some(class) => class@,
            None => Seq::<char>::empty(),
        }) && node.description@ == (match description {
            Some(description) => description@,
            None => name->0@,
        }),
        None => name is None || name->0@.len() == 0,
    }
}

/// The node that a registry entry describes; entries without a name are left out.
pub fn node_from_props(
    id: u32,
    class: Option<&str>,
    name: Option<&str>,
    description: Option<&str>,
) -> (r: Option<AudioNode>)
    ensures
        is_node(id, class, name, description, r),
{
    match name {
        Some(name) => {
            if name.unicode_len() == 0 {
                return None;
            }
            let media_class: String = match class {
                Some(class) => owned(class),
                None => String::new(),
            };
            let description: String = match description {
                Some(description) => owned(description),
                None => owned(name),
            };
            Some(AudioNode { id, name: owned(name), media_class, description })
        },
        None => None,
    }
}

/// An input device that the user can choose: not one of the soundboard's own.
pub open spec fn is_input() -> spec_fn(AudioNode) -> bool {
    |n: AudioNode| has_part(n.media_class@, "Source"@) && !has_prefix(n.name@, "resonate"@)
}

/// What the input devices are called.
pub open spec fn input_names(nodes: Seq<AudioNode>) -> Seq<Seq<char>> {
    nodes.filter(is_input()).map_values(|n: AudioNode| n.description@)
}

/// The input devices that the user can choose from, by description.
pub fn input_devices(nodes: &Vec<AudioNode>) -> (r: Vec<String>)
    ensures
        texts_view(r@) == input_names(nodes@),
{
    let mut r: Vec<String> = Vec::new();
    let mut i: usize = 0;
    reveal(Seq::filter);
    assert(texts_view(r@) =~= input_names(nodes@.take(0)));
    while i < nodes.len()
        invariant
            i <= nodes@.len(),
            texts_view(r@) == input_names(nodes@.take(i as int)),
        decreases nodes@.len() - i,
    {
        let ghost before = nodes@.take(i as int);
        let ghost after = nodes@.take(i + 1);
        let ghost names = r@;
        proof {
            reveal(Seq::filter);
            assert(after.drop_last() =~= before);
            assert(after.last() == nodes@[i as int]);
        }
        if contains(nodes[i].media_class.as_str(), "Source") && !starts_with(
            nodes[i].name.as_str(),
            "resonate",
        ) {
            r.push(nodes[i].description.clone());
            assert(texts_view(r@) =~= texts_view(names).push(nodes@[i as int].description@));
        }
        assert(texts_view(r@) =~= input_names(after));
        i = i + 1;
    }
    assert(nodes@.take(nodes@.len() as int) =~= nodes@);
    r
}

/// The virtual microphone by its node name.
pub open spec fn is_own_source() -> spec_fn(AudioNode) -> bool {
    |n: AudioNode| n.name@ == SOURCE_NAME@
}

/// A source that is described as the soundboard's.
pub open spec fn is_described_source() -> spec_fn(AudioNode) -> bool {
    |n: AudioNode| has_part(n.media_class@, "Source"@) && has_part(n.description@, "Resonate"@)
}

/// The node to make the default input: the virtual microphone by name, else the
/// first source described as the soundboard's.
pub open spec fn default_input(nodes: Seq<AudioNode>) -> Option<int> {
    match first_index(nodes, is_own_source()) {
        Some(i) => Some(i),
        None => first_index(nodes, is_described_source()),
    }
}

/// Position of the node to make the default input.
pub fn default_input_node(nodes: &Vec<AudioNode>) -> (r: Option<usize>)
    ensures
        (match r {
            Some(i) => Some(i as int),
            None => None,
        }) == default_input(nodes@),
        r matches Some(i) ==> i < nodes@.len(),
{
    let ghost own = is_own_source();
    let mut i: usize = 0;
    while i < nodes.len()
        invariant
            i <= nodes@.len(),
            own == is_own_source(),
            forall|k: int| 0 <= k < i ==> !own(#[trigger] nodes@[k]),
        decreases nodes@.len() - i,
    {
        if same_text(nodes[i].name.as_str(), SOURCE_NAME) {
            proof {
                found_first(nodes@, own, i as int);
            }
            return Some(i);
        }
        i = i + 1;
    }
    proof {
        found_none(nodes@, own);
    }
    let ghost described = is_described_source();
    let mut j: usize = 0;
    while j < nodes.len()
        invariant
            j <= nodes@.len(),
            described == is_described_source(),
            first_index(nodes@, is_own_source()) is None,
            forall|k: int| 0 <= k < j ==> !described(#[trigger] nodes@[k]),
        decreases nodes@.len() - j,
    {
        if contains(nodes[j].media_class.as_str(), "Source") && contains(
            nodes[j].description.as_str(),
            "Resonate",
        ) {
            proof {
                found_first(nodes@, described, j as int);
            }
            return Some(j);
        }
        j = j + 1;
    }
    proof {
        found_none(nodes@, described);
    }
    None
}

// ── Streams ──────────────────────────────────────────────────────────────────

/// A property of a stream.
pub struct Property {
    pub key: &'static str,
    pub value: String,
}

/// Keys and values of the properties.
pub open spec fn properties_view(props: Seq<Property>) -> Seq<(Seq<char>, Seq<char>)> {
    Seq::new(props.len(), |i: int| (props[i].key@, props[i].value@))
}

/// The pins of a capture stream, and whether it is connected.
pub open spec fn are_pins(
    target: Option<Seq<char>>,
    pins: Seq<(Seq<char>, Seq<char>)>,
    connect: bool,
) -> bool {
    &&& connect == (target is Some)
    &&& pins == (match target {
        Some(target) => seq![
            ("target.object"@, target),
            ("node.target"@, target),
            ("node.dont-reconnect"@, "true"@),
        ],
        None => Seq::empty(),
    })
}

/// Pins of a capture stream to the physical microphone: it must not follow the
/// default source, which may be the virtual microphone itself. Without a microphone
/// there is nothing to pin and the stream is not connected at all.
pub fn capture_pins(mic_target: Option<&str>) -> (r: (Vec<Property>, bool))
    ensures
        are_pins(
            match mic_target {
                Some(target) => Some(target@),
                None => None,
            },
            properties_view(r.0@),
            r.1,
        ),
{
    let mut pins: Vec<Property> = Vec::new();
    match mic_target {
        Some(target) => {
            pins.push(Property { key: "target.object", value: owned(target) });
            pins.push(Property { key: "node.target", value: owned(target) });
            pins.push(Property { key: "node.dont-reconnect", value: owned("true") });
            assert(properties_view(pins@) =~= seq![
                ("target.object"@, target@),
                ("node.target"@, target@),
                ("node.dont-reconnect"@, "true"@),
            ]);
            (pins, true)
        },
        None => {
            assert(properties_view(pins@) =~= Seq::empty());
            (pins, false)
        },
    }
}

/// A stereo frame keeps its two samples, and of more channels the first two are kept.
pub proof fn upmix_keeps_the_first_two_channels<T>(input: Seq<T>, channels: int, f: int)
    requires
        channels > 0,
        0 <= f,
    ensures
        upmixed(input, channels, 2 * f) == input[f * channels],
        channels == 1 ==> upmixed(input, channels, 2 * f + 1) == input[f],
        channels >= 2 ==> upmixed(input, channels, 2 * f + 1) == input[f * channels + 1],
        channels == 2 ==> upmixed(input, channels, 2 * f) == input[2 * f] && upmixed(
            input,
            channels,
            2 * f + 1,
        ) == input[2 * f + 1],
{
    assert((2 * f) / 2 == f && (2 * f) % 2 == 0);
    assert((2 * f + 1) / 2 == f && (2 * f + 1) % 2 == 1);
    assert(f * 1 == f && f * 2 == 2 * f);
}

/// A capture is read from the place that its chunk names, never beyond the buffer or the
/// chunk, and no whole frame is left unread.
pub proof fn a_capture_is_read_whole(
    len: usize,
    offset: usize,
    size: usize,
    stride: usize,
    r: Capture,
)
    requires
        is_layout(len, offset, size, stride, r),
    ensures
        offset <= len ==> r.start == offset,
        stride >= 4 ==> 4 * r.channels <= stride < 4 * r.channels + 4,
        stride < 4 ==> r.channels == 2,
        r.start + 4 * (r.frames * r.channels) <= len,
        4 * (r.frames * r.channels) <= size,
        r.start + 4 * ((r.frames + 1) * r.channels) > len || 4 * ((r.frames + 1) * r.channels)
            > size,
{
    let rest = len - r.start;
    let used = if size < rest {
        size as int
    } else {
        rest
    };
    let (samples, c, f) = (used / 4, r.channels as int, r.frames as int);
    assert(f * c <= samples && samples < (f + 1) * c) by (nonlinear_arith)
        requires
            f == samples / c,
            c > 0,
    ;
}

/// A full queue gives up what has waited longest: what came last is kept, in its order.
pub proof fn the_newest_are_kept<T>(s: Seq<T>, n: nat, i: int)
    requires
        0 <= i < s.len(),
        i < n,
    ensures
        newest(s, n).len() == if s.len() < n {
            s.len()
        } else {
            n
        },
        newest(s, n)[newest(s, n).len() - 1 - i] == s[s.len() - 1 - i],
{
}

/// At full volume the device passes samples on as they are, and switched off it is silent.
pub proof fn the_device_follows_its_switch(held: Seq<Scalar>, n: nat, volume: Scalar, i: int)
    requires
        0 <= i < n,
        i < held.len(),
        milli(-1000).le(held[i]),
        held[i].le(milli(1000)),
    ensures
        fed(held, n, device_gain(true, milli(1000)))[i] == held[i],
        fed(held, n, device_gain(false, volume))[i].magnitude() == 0,
{
    milli_one();
    one_and_minus_one();
    product_by_one(held[i]);
    product_by_zero(held[i], Scalar { bits: 0 });
}

/// A gain of 1 changes no sample, and a gain of 0 silences all of them.
pub proof fn gains_of_one_and_nothing(before: Seq<Scalar>, after: Seq<Scalar>, gain: Scalar, i: int)
    requires
        is_amplified(before, after, gain),
        0 <= i < before.len(),
        before[i].is_finite(),
    ensures
        gain == milli(1000) ==> after[i] == before[i],
        gain.magnitude() == 0 ==> after[i].magnitude() == 0,
{
    product_by_one(before[i]);
    if gain.magnitude() == 0 {
        product_by_zero(before[i], gain);
    }
}

/// A node is known by its name, and shown by its description where it has one; one
/// without a name is not known at all.
pub proof fn nodes_are_shown_by_their_description(
    id: u32,
    class: Option<&str>,
    name: Option<&str>,
    description: Option<&str>,
    r: Option<AudioNode>,
)
    requires
        is_node(id, class, name, description, r),
    ensures
        r is Some <==> name is Some && name->0@.len() > 0,
        r is Some ==> r->0.id == id && r->0.name@ == name->0@,
        r is Some && class is Some ==> r->0.media_class@ == class->0@,
        r is Some && class is None ==> r->0.media_class@.len() == 0,
        r is Some && description is Some ==> r->0.description@ == description->0@,
        r is Some && description is None ==> r->0.description@ == name->0@,
{
}

/// The user can choose every source that is not the soundboard's own, and nothing else,
/// in the order in which the nodes are known.
pub proof fn every_foreign_source_can_be_chosen(nodes: Seq<AudioNode>) -> (at: Seq<int>)
    ensures
        at.len() == input_names(nodes).len(),
        forall|i: int|
            0 <= i < at.len() ==> 0 <= (#[trigger] at[i]) < nodes.len() && input_names(nodes)[i]
                == nodes[at[i]].description@ && has_part(nodes[at[i]].media_class@, "Source"@)
                && !has_prefix(nodes[at[i]].name@, "resonate"@),
        forall|i: int, j: int| 0 <= i < j < at.len() ==> (#[trigger] at[i]) < (#[trigger] at[j]),
        forall|k: int|
            0 <= k < nodes.len() && has_part((#[trigger] nodes[k]).media_class@, "Source"@)
                && !has_prefix(nodes[k].name@, "resonate"@) ==> at.contains(k),
{
    let at = filter_positions(nodes, is_input());
    assert forall|k: int|
        0 <= k < nodes.len() && has_part((#[trigger] nodes[k]).media_class@, "Source"@)
            && !has_prefix(nodes[k].name@, "resonate"@) implies at.contains(k) by {
        assert(is_input()(nodes[k]));
    }
    at
}

/// The microphone of the soundboard is found by its name wherever it stands; only where
/// no node has that name does a source count that is described as the soundboard's.
pub proof fn the_own_microphone_is_found(nodes: Seq<AudioNode>, k: int)
    requires
        0 <= k < nodes.len(),
    ensures
        nodes[k].name@ == "resonate_source"@ ==> default_input(nodes) is Some
            && nodes[default_input(nodes)->0].name@ == "resonate_source"@ && 0 <= default_input(
            nodes,
        )->0 <= k,
        has_part(nodes[k].media_class@, "Source"@) && has_part(nodes[k].description@, "Resonate"@)
            ==> default_input(nodes) is Some,
        default_input(nodes) is Some && nodes[default_input(nodes)->0].name@
            != "resonate_source"@ ==> {
            let i = default_input(nodes)->0;
            &&& 0 <= i < nodes.len()
            &&& has_part(nodes[i].media_class@, "Source"@)
            &&& has_part(nodes[i].description@, "Resonate"@)
            &&& nodes[k].name@ != "resonate_source"@
        },
{
    first_index_holds(nodes, is_own_source());
    first_index_holds(nodes, is_described_source());
    assert(is_own_source()(nodes[k]) == (nodes[k].name@ == "resonate_source"@));
    assert(is_described_source()(nodes[k]) == (has_part(nodes[k].media_class@, "Source"@)
        && has_part(nodes[k].description@, "Resonate"@)));
}

/// A capture is pinned to the microphone and stays with it; without one it is not
/// connected.
pub proof fn captures_stay_with_their_microphone(
    target: Option<Seq<char>>,
    pins: Seq<(Seq<char>, Seq<char>)>,
    connect: bool,
)
    requires
        are_pins(target, pins, connect),
    ensures
        connect == (target is Some),
        target is Some ==> pins.contains(("target.object"@, target->0)) && pins.contains(
            ("node.target"@, target->0),
        ) && pins.contains(("node.dont-reconnect"@, "true"@)),
        target is None ==> pins.len() == 0,
{
    if target is Some {
        assert(pins[0] == ("target.object"@, target->0));
        assert(pins[1] == ("node.target"@, target->0));
        assert(pins[2] == ("node.dont-reconnect"@, "true"@));
    }
}

/// A flush is remembered until the next buffer, whatever else is said; only the message to
/// end ends the thread.
pub proof fn a_flush_is_remembered(before: PwState, cmd: PwCtrl, after: PwState, quit: bool)
    requires
        is_told(before, cmd, after, quit),
    ensures
        cmd is Flush ==> after.flush_pending && !quit,
        cmd is Terminate ==> quit && after.flush_pending == before.flush_pending,
        before.flush_pending ==> after.flush_pending,
{
}

/// A buffer is filled from the front of the queue, sample by sample, and what was not
/// taken waits for the next one. After a flush it is silent, and so it is while the device
/// is switched off, though the queue is emptied all the same.
pub proof fn a_buffer_comes_from_the_queue(
    flush: bool,
    held: Seq<Scalar>,
    n: nat,
    enabled: bool,
    volume: Scalar,
    out: Seq<Scalar>,
    left: Seq<Scalar>,
    i: int,
)
    requires
        is_buffer(flush, held, n, enabled, volume, out, left),
        0 <= i < n,
    ensures
        out.len() == n,
        flush ==> out[i].bits == 0 && left.len() == 0,
        !flush && n <= held.len() ==> left == held.skip(n as int),
        !flush && held.len() <= n ==> left.len() == 0,
        !flush && i >= held.len() ==> out[i].bits == 0,
        !flush && enabled && i < held.len() ==> out[i] == cut_off(held[i].product(volume)),
        !flush && !enabled && i < held.len() && held[i].is_finite() ==> out[i].magnitude() == 0,
{
    one_and_minus_one();
    if !flush && n == held.len() {
        assert(left =~= held.skip(n as int));
    }
    if !flush && i < held.len() && held[i].is_finite() {
        product_by_zero(held[i], Scalar { bits: 0 });
    }
}

} // verus!
