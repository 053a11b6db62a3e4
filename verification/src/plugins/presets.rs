//! Ready-made settings for single effects.
//!
//! A preset of an effect fills in some of its controls; the others keep their
//! values, so that switching between two presets that touch different controls does
//! not reset the rest. There are presets that the soundboard provides, and those
//! that a plugin ships itself.

use vstd::prelude::*;

use super::lv2::{is_lv2, uri_from_id};
use crate::number::{decimal, push_decimal};
use crate::rounding::{from_milli, milli, milli_is_finite};
use crate::scalar::Scalar;
use crate::search::{first_index, first_index_holds, found_first, found_none};
use crate::text::{equal_ignoring_case, owned, same_ignoring_case, same_text};
use crate::text_map::TextMap;

verus! {

/// A control and its value, in thousandths.
pub type Setting = (&'static str, i32);

/// A preset as it is written down: gains are linear, not in decibels.
pub struct Row {
    pub name: &'static str,
    pub values: Vec<Setting>,
}

pub struct RowView {
    pub name: Seq<char>,
    pub values: Seq<(Seq<char>, int)>,
}

impl View for Row {
    type V = RowView;

    open spec fn view(&self) -> RowView {
        RowView {
            name: self.name@,
            values: Seq::new(
                self.values@.len(),
                |i: int| (self.values@[i].0@, self.values@[i].1 as int),
            ),
        }
    }
}

pub open spec fn rows_view(rows: Seq<Row>) -> Seq<RowView> {
    Seq::new(rows.len(), |i: int| rows[i]@)
}

/// The presets of one effect.
pub struct Group {
    pub id: &'static str,
    pub rows: Vec<Row>,
}

pub struct GroupView {
    pub id: Seq<char>,
    pub rows: Seq<RowView>,
}

impl View for Group {
    type V = GroupView;

    open spec fn view(&self) -> GroupView {
        GroupView { id: self.id@, rows: rows_view(self.rows@) }
    }
}

pub open spec fn groups_view(groups: Seq<Group>) -> Seq<GroupView> {
    Seq::new(groups.len(), |i: int| groups[i]@)
}

fn row(name: &'static str, values: Vec<Setting>) -> (r: Row)
    ensures
        r.name == name,
        r.values == values,
{
    Row { name, values }
}

/// Presets for the noise gate.
pub open spec fn gate_table() -> Seq<RowView> {
    seq![
        RowView { name: "Quiet room"@, values: seq![("threshold"@, 10int), ("attack_ms"@, 5000int), ("release_ms"@, 120_000int)] },
        RowView { name: "Noisy room"@, values: seq![("threshold"@, 50int), ("attack_ms"@, 5000int), ("release_ms"@, 150_000int)] },
        RowView { name: "Keyboard basher"@, values: seq![("threshold"@, 100int), ("attack_ms"@, 2000int), ("release_ms"@, 80_000int)] },
    ]
}

fn gate_rows() -> (r: Vec<Row>)
    ensures
        rows_view(r@) == gate_table(),
{
    let r: Vec<Row> = vec![
        row("Quiet room", vec![("threshold", 10), ("attack_ms", 5000), ("release_ms", 120_000)]),
        row("Noisy room", vec![("threshold", 50), ("attack_ms", 5000), ("release_ms", 150_000)]),
        row("Keyboard basher", vec![("threshold", 100), ("attack_ms", 2000), ("release_ms", 80_000)]),
    ];
    proof {
        assert(r@[0]@.values =~= seq![("threshold"@, 10int), ("attack_ms"@, 5000int), ("release_ms"@, 120_000int)]);
        assert(r@[1]@.values =~= seq![("threshold"@, 50int), ("attack_ms"@, 5000int), ("release_ms"@, 150_000int)]);
        assert(r@[2]@.values =~= seq![("threshold"@, 100int), ("attack_ms"@, 2000int), ("release_ms"@, 80_000int)]);
    }
    assert(rows_view(r@) =~= gate_table());
    r
}

/// Presets for distortion.
pub open spec fn distortion_table() -> Seq<RowView> {
    seq![
        RowView { name: "Warm grit"@, values: seq![("drive"@, 2000int), ("mix"@, 600int), ("level"@, 1000int)] },
        RowView { name: "Overdriven"@, values: seq![("drive"@, 5000int), ("mix"@, 1000int), ("level"@, 900int)] },
        RowView { name: "Demon"@, values: seq![("drive"@, 12_000int), ("mix"@, 1000int), ("level"@, 700int)] },
    ]
}

fn distortion_rows() -> (r: Vec<Row>)
    ensures
        rows_view(r@) == distortion_table(),
{
    let r: Vec<Row> = vec![
        row("Warm grit", vec![("drive", 2000), ("mix", 600), ("level", 1000)]),
        row("Overdriven", vec![("drive", 5000), ("mix", 1000), ("level", 900)]),
        row("Demon", vec![("drive", 12_000), ("mix", 1000), ("level", 700)]),
    ];
    proof {
        assert(r@[0]@.values =~= seq![("drive"@, 2000int), ("mix"@, 600int), ("level"@, 1000int)]);
        assert(r@[1]@.values =~= seq![("drive"@, 5000int), ("mix"@, 1000int), ("level"@, 900int)]);
        assert(r@[2]@.values =~= seq![("drive"@, 12_000int), ("mix"@, 1000int), ("level"@, 700int)]);
    }
    assert(rows_view(r@) =~= distortion_table());
    r
}

/// Presets for the bitcrusher.
pub open spec fn bitcrush_table() -> Seq<RowView> {
    seq![
        RowView { name: "Subtle lo-fi"@, values: seq![("bits"@, 10_000int), ("downsample"@, 2000int), ("mix"@, 700int)] },
        RowView { name: "Retro game"@, values: seq![("bits"@, 6000int), ("downsample"@, 6000int), ("mix"@, 1000int)] },
        RowView { name: "Broken robot"@, values: seq![("bits"@, 3000int), ("downsample"@, 16_000int), ("mix"@, 1000int)] },
    ]
}

fn bitcrush_rows() -> (r: Vec<Row>)
    ensures
        rows_view(r@) == bitcrush_table(),
{
    let r: Vec<Row> = vec![
        row("Subtle lo-fi", vec![("bits", 10_000), ("downsample", 2000), ("mix", 700)]),
        row("Retro game", vec![("bits", 6000), ("downsample", 6000), ("mix", 1000)]),
        row("Broken robot", vec![("bits", 3000), ("downsample", 16_000), ("mix", 1000)]),
    ];
    proof {
        assert(r@[0]@.values =~= seq![("bits"@, 10_000int), ("downsample"@, 2000int), ("mix"@, 700int)]);
        assert(r@[1]@.values =~= seq![("bits"@, 6000int), ("downsample"@, 6000int), ("mix"@, 1000int)]);
        assert(r@[2]@.values =~= seq![("bits"@, 3000int), ("downsample"@, 16_000int), ("mix"@, 1000int)]);
    }
    assert(rows_view(r@) =~= bitcrush_table());
    r
}

/// Presets for the telephone effect.
pub open spec fn telephone_table() -> Seq<RowView> {
    seq![
        RowView { name: "Old phone"@, values: seq![("low_cut"@, 300_000int), ("high_cut"@, 3400_000int)] },
        RowView { name: "Walkie-talkie"@, values: seq![("low_cut"@, 500_000int), ("high_cut"@, 2500_000int)] },
        RowView { name: "AM radio"@, values: seq![("low_cut"@, 200_000int), ("high_cut"@, 4500_000int)] },
    ]
}

fn telephone_rows() -> (r: Vec<Row>)
    ensures
        rows_view(r@) == telephone_table(),
{
    let r: Vec<Row> = vec![
        row("Old phone", vec![("low_cut", 300_000), ("high_cut", 3400_000)]),
        row("Walkie-talkie", vec![("low_cut", 500_000), ("high_cut", 2500_000)]),
        row("AM radio", vec![("low_cut", 200_000), ("high_cut", 4500_000)]),
    ];
    proof {
        assert(r@[0]@.values =~= seq![("low_cut"@, 300_000int), ("high_cut"@, 3400_000int)]);
        assert(r@[1]@.values =~= seq![("low_cut"@, 500_000int), ("high_cut"@, 2500_000int)]);
        assert(r@[2]@.values =~= seq![("low_cut"@, 200_000int), ("high_cut"@, 4500_000int)]);
    }
    assert(rows_view(r@) =~= telephone_table());
    r
}

/// Presets for the compressor: `al` is the attack threshold (linear), `cr` the
/// ratio, `mk` the makeup.
pub open spec fn compressor_table() -> Seq<RowView> {
    seq![
        RowView { name: "Gentle voice"@, values: seq![("al"@, 126int), ("at"@, 15_000int), ("rt"@, 150_000int), ("cr"@, 2500int), ("kn"@, 501int), ("mk"@, 1410int)] },
        RowView { name: "Podcast"@, values: seq![("al"@, 63int), ("at"@, 10_000int), ("rt"@, 120_000int), ("cr"@, 4000int), ("kn"@, 501int), ("mk"@, 2000int)] },
        RowView { name: "Radio DJ"@, values: seq![("al"@, 32int), ("at"@, 5000int), ("rt"@, 80_000int), ("cr"@, 8000int), ("kn"@, 355int), ("mk"@, 2820int)] },
        RowView { name: "Squashed (streaming)"@, values: seq![("al"@, 32int), ("at"@, 1000int), ("rt"@, 60_000int), ("cr"@, 20_000int), ("kn"@, 251int), ("mk"@, 3980int)] },
    ]
}

fn compressor_rows() -> (r: Vec<Row>)
    ensures
        rows_view(r@) == compressor_table(),
{
    let r: Vec<Row> = vec![
        row("Gentle voice", vec![("al", 126), ("at", 15_000), ("rt", 150_000), ("cr", 2500), ("kn", 501), ("mk", 1410)]),
        row("Podcast", vec![("al", 63), ("at", 10_000), ("rt", 120_000), ("cr", 4000), ("kn", 501), ("mk", 2000)]),
        row("Radio DJ", vec![("al", 32), ("at", 5000), ("rt", 80_000), ("cr", 8000), ("kn", 355), ("mk", 2820)]),
        row("Squashed (streaming)", vec![("al", 32), ("at", 1000), ("rt", 60_000), ("cr", 20_000), ("kn", 251), ("mk", 3980)]),
    ];
    proof {
        assert(r@[0]@.values =~= seq![("al"@, 126int), ("at"@, 15_000int), ("rt"@, 150_000int), ("cr"@, 2500int), ("kn"@, 501int), ("mk"@, 1410int)]);
        assert(r@[1]@.values =~= seq![("al"@, 63int), ("at"@, 10_000int), ("rt"@, 120_000int), ("cr"@, 4000int), ("kn"@, 501int), ("mk"@, 2000int)]);
        assert(r@[2]@.values =~= seq![("al"@, 32int), ("at"@, 5000int), ("rt"@, 80_000int), ("cr"@, 8000int), ("kn"@, 355int), ("mk"@, 2820int)]);
        assert(r@[3]@.values =~= seq![("al"@, 32int), ("at"@, 1000int), ("rt"@, 60_000int), ("cr"@, 20_000int), ("kn"@, 251int), ("mk"@, 3980int)]);
    }
    assert(rows_view(r@) =~= compressor_table());
    r
}

/// Presets for the pitch shifter: `formant` keeps the size of the vocal tract, so
/// that a shift does not sound like a cartoon.
pub open spec fn pitch_table() -> Seq<RowView> {
    seq![
        RowView { name: "Slightly higher"@, values: seq![("semitones"@, 2000int), ("octaves"@, 0int), ("cents"@, 0int), ("formant"@, 1000int)] },
        RowView { name: "Slightly deeper"@, values: seq![("semitones"@, -2000int), ("octaves"@, 0int), ("cents"@, 0int), ("formant"@, 1000int)] },
        RowView { name: "Chipmunk"@, values: seq![("semitones"@, 7000int), ("octaves"@, 0int), ("cents"@, 0int), ("formant"@, 0int)] },
        RowView { name: "Squeaky (octave up)"@, values: seq![("semitones"@, 0int), ("octaves"@, 1000int), ("cents"@, 0int), ("formant"@, 0int)] },
        RowView { name: "Demon (octave down)"@, values: seq![("semitones"@, 0int), ("octaves"@, -1000int), ("cents"@, 0int), ("formant"@, 0int)] },
        RowView { name: "Anonymous witness"@, values: seq![("semitones"@, -5000int), ("octaves"@, 0int), ("cents"@, 0int), ("formant"@, 0int)] },
    ]
}

fn pitch_rows() -> (r: Vec<Row>)
    ensures
        rows_view(r@) == pitch_table(),
{
    let r: Vec<Row> = vec![
        row("Slightly higher", vec![("semitones", 2000), ("octaves", 0), ("cents", 0), ("formant", 1000)]),
        row("Slightly deeper", vec![("semitones", -2000), ("octaves", 0), ("cents", 0), ("formant", 1000)]),
        row("Chipmunk", vec![("semitones", 7000), ("octaves", 0), ("cents", 0), ("formant", 0)]),
        row("Squeaky (octave up)", vec![("semitones", 0), ("octaves", 1000), ("cents", 0), ("formant", 0)]),
        row("Demon (octave down)", vec![("semitones", 0), ("octaves", -1000), ("cents", 0), ("formant", 0)]),
        row("Anonymous witness", vec![("semitones", -5000), ("octaves", 0), ("cents", 0), ("formant", 0)]),
    ];
    proof {
        assert(r@[0]@.values =~= seq![("semitones"@, 2000int), ("octaves"@, 0int), ("cents"@, 0int), ("formant"@, 1000int)]);
        assert(r@[1]@.values =~= seq![("semitones"@, -2000int), ("octaves"@, 0int), ("cents"@, 0int), ("formant"@, 1000int)]);
        assert(r@[2]@.values =~= seq![("semitones"@, 7000int), ("octaves"@, 0int), ("cents"@, 0int), ("formant"@, 0int)]);
        assert(r@[3]@.values =~= seq![("semitones"@, 0int), ("octaves"@, 1000int), ("cents"@, 0int), ("formant"@, 0int)]);
        assert(r@[4]@.values =~= seq![("semitones"@, 0int), ("octaves"@, -1000int), ("cents"@, 0int), ("formant"@, 0int)]);
        assert(r@[5]@.values =~= seq![("semitones"@, -5000int), ("octaves"@, 0int), ("cents"@, 0int), ("formant"@, 0int)]);
    }
    assert(rows_view(r@) =~= pitch_table());
    r
}

/// Presets for the ring modulator; mode 0 is a sine carrier.
pub open spec fn ring_table() -> Seq<RowView> {
    seq![
        RowView { name: "Robot"@, values: seq![("mod_mode"@, 0int), ("mod_freq"@, 60_000int), ("mod_amount"@, 1000int)] },
        RowView { name: "Dalek"@, values: seq![("mod_mode"@, 0int), ("mod_freq"@, 30_000int), ("mod_amount"@, 1000int)] },
        RowView { name: "Alien"@, values: seq![("mod_mode"@, 0int), ("mod_freq"@, 440_000int), ("mod_amount"@, 800int)] },
        RowView { name: "Wobble"@, values: seq![("mod_mode"@, 0int), ("mod_freq"@, 8000int), ("mod_amount"@, 600int)] },
    ]
}

fn ring_rows() -> (r: Vec<Row>)
    ensures
        rows_view(r@) == ring_table(),
{
    let r: Vec<Row> = vec![
        row("Robot", vec![("mod_mode", 0), ("mod_freq", 60_000), ("mod_amount", 1000)]),
        row("Dalek", vec![("mod_mode", 0), ("mod_freq", 30_000), ("mod_amount", 1000)]),
        row("Alien", vec![("mod_mode", 0), ("mod_freq", 440_000), ("mod_amount", 800)]),
        row("Wobble", vec![("mod_mode", 0), ("mod_freq", 8000), ("mod_amount", 600)]),
    ];
    proof {
        assert(r@[0]@.values =~= seq![("mod_mode"@, 0int), ("mod_freq"@, 60_000int), ("mod_amount"@, 1000int)]);
        assert(r@[1]@.values =~= seq![("mod_mode"@, 0int), ("mod_freq"@, 30_000int), ("mod_amount"@, 1000int)]);
        assert(r@[2]@.values =~= seq![("mod_mode"@, 0int), ("mod_freq"@, 440_000int), ("mod_amount"@, 800int)]);
        assert(r@[3]@.values =~= seq![("mod_mode"@, 0int), ("mod_freq"@, 8000int), ("mod_amount"@, 600int)]);
    }
    assert(rows_view(r@) =~= ring_table());
    r
}

/// Presets for the delay; timing 1 counts in milliseconds.
pub open spec fn delay_table() -> Seq<RowView> {
    seq![
        RowView { name: "Slapback"@, values: seq![("timing"@, 1000int), ("ms"@, 90_000int), ("feedback"@, 150int), ("amount"@, 350int)] },
        RowView { name: "Stadium announcer"@, values: seq![("timing"@, 1000int), ("ms"@, 400_000int), ("feedback"@, 450int), ("amount"@, 500int)] },
        RowView { name: "Canyon"@, values: seq![("timing"@, 1000int), ("ms"@, 700_000int), ("feedback"@, 700int), ("amount"@, 600int)] },
    ]
}

fn delay_rows() -> (r: Vec<Row>)
    ensures
        rows_view(r@) == delay_table(),
{
    let r: Vec<Row> = vec![
        row("Slapback", vec![("timing", 1000), ("ms", 90_000), ("feedback", 150), ("amount", 350)]),
        row("Stadium announcer", vec![("timing", 1000), ("ms", 400_000), ("feedback", 450), ("amount", 500)]),
        row("Canyon", vec![("timing", 1000), ("ms", 700_000), ("feedback", 700), ("amount", 600)]),
    ];
    proof {
        assert(r@[0]@.values =~= seq![("timing"@, 1000int), ("ms"@, 90_000int), ("feedback"@, 150int), ("amount"@, 350int)]);
        assert(r@[1]@.values =~= seq![("timing"@, 1000int), ("ms"@, 400_000int), ("feedback"@, 450int), ("amount"@, 500int)]);
        assert(r@[2]@.values =~= seq![("timing"@, 1000int), ("ms"@, 700_000int), ("feedback"@, 700int), ("amount"@, 600int)]);
    }
    assert(rows_view(r@) =~= delay_table());
    r
}

/// Presets for the crusher.
pub open spec fn crusher_table() -> Seq<RowView> {
    seq![
        RowView { name: "Gentle crunch"@, values: seq![("bits"@, 10_000int), ("samples"@, 2000int), ("morph"@, 500int)] },
        RowView { name: "Arcade"@, values: seq![("bits"@, 5000int), ("samples"@, 8000int), ("morph"@, 500int)] },
        RowView { name: "Destroyed"@, values: seq![("bits"@, 2000int), ("samples"@, 40_000int), ("morph"@, 0int)] },
    ]
}

fn crusher_rows() -> (r: Vec<Row>)
    ensures
        rows_view(r@) == crusher_table(),
{
    let r: Vec<Row> = vec![
        row("Gentle crunch", vec![("bits", 10_000), ("samples", 2000), ("morph", 500)]),
        row("Arcade", vec![("bits", 5000), ("samples", 8000), ("morph", 500)]),
        row("Destroyed", vec![("bits", 2000), ("samples", 40_000), ("morph", 0)]),
    ];
    proof {
        assert(r@[0]@.values =~= seq![("bits"@, 10_000int), ("samples"@, 2000int), ("morph"@, 500int)]);
        assert(r@[1]@.values =~= seq![("bits"@, 5000int), ("samples"@, 8000int), ("morph"@, 500int)]);
        assert(r@[2]@.values =~= seq![("bits"@, 2000int), ("samples"@, 40_000int), ("morph"@, 0int)]);
    }
    assert(rows_view(r@) =~= crusher_table());
    r
}

/// The effects with presets of their own, and the presets of each.
pub open spec fn curated_preset_table() -> Seq<GroupView> {
    seq![
        GroupView { id: "gate"@, rows: gate_table() },
        GroupView { id: "distortion"@, rows: distortion_table() },
        GroupView { id: "bitcrush"@, rows: bitcrush_table() },
        GroupView { id: "telephone"@, rows: telephone_table() },
        GroupView { id: "lv2:http://lsp-plug.in/plugins/lv2/compressor_stereo"@, rows: compressor_table() },
        GroupView { id: "lv2:http://breakfastquay.com/rdf/lv2-rubberband#livestereo"@, rows: pitch_table() },
        GroupView { id: "lv2:http://calf.sourceforge.net/plugins/RingModulator"@, rows: ring_table() },
        GroupView { id: "lv2:http://calf.sourceforge.net/plugins/VintageDelay"@, rows: delay_table() },
        GroupView { id: "lv2:http://calf.sourceforge.net/plugins/Crusher"@, rows: crusher_table() },
    ]
}

/// The effects with presets of their own, and the presets of each.
pub fn curated() -> (r: Vec<Group>)
    ensures
        groups_view(r@) == curated_preset_table(),
{
    let r: Vec<Group> = vec![
        Group { id: "gate", rows: gate_rows() },
        Group { id: "distortion", rows: distortion_rows() },
        Group { id: "bitcrush", rows: bitcrush_rows() },
        Group { id: "telephone", rows: telephone_rows() },
        Group { id: "lv2:http://lsp-plug.in/plugins/lv2/compressor_stereo", rows: compressor_rows() },
        Group { id: "lv2:http://breakfastquay.com/rdf/lv2-rubberband#livestereo", rows: pitch_rows() },
        Group { id: "lv2:http://calf.sourceforge.net/plugins/RingModulator", rows: ring_rows() },
        Group { id: "lv2:http://calf.sourceforge.net/plugins/VintageDelay", rows: delay_rows() },
        Group { id: "lv2:http://calf.sourceforge.net/plugins/Crusher", rows: crusher_rows() },
    ];
    assert(groups_view(r@) =~= curated_preset_table());
    r
}

// ── Presets ──────────────────────────────────────────────────────────────────

/// One ready-made setting for a single effect.
pub struct EffectPreset {
    pub name: String,
    /// Controls and their values: some of those of the effect.
    pub values: Vec<(String, Scalar)>,
}

pub struct PresetView {
    pub name: Seq<char>,
    pub values: Seq<(Seq<char>, Scalar)>,
}

/// Controls and their values.
pub open spec fn values_view(values: Seq<(String, Scalar)>) -> Seq<(Seq<char>, Scalar)> {
    Seq::new(values.len(), |i: int| (values[i].0@, values[i].1))
}

impl View for EffectPreset {
    type V = PresetView;

    open spec fn view(&self) -> PresetView {
        PresetView { name: self.name@, values: values_view(self.values@) }
    }
}

pub open spec fn presets_view(presets: Seq<EffectPreset>) -> Seq<PresetView> {
    Seq::new(presets.len(), |i: int| presets[i]@)
}

impl Clone for EffectPreset {
    fn clone(&self) -> (r: Self)
        ensures
            r@ == self@,
    {
        let mut values: Vec<(String, Scalar)> = Vec::new();
        let mut i: usize = 0;
        while i < self.values.len()
            invariant
                i <= self.values@.len(),
                values@.len() == i,
                forall|k: int|
                    0 <= k < i ==> (#[trigger] values@[k]).0@ == self.values@[k].0@ && values@[k].1
                        == self.values@[k].1,
            decreases self.values@.len() - i,
        {
            values.push((self.values[i].0.clone(), self.values[i].1));
            i = i + 1;
        }
        assert(values_view(values@) =~= values_view(self.values@));
        EffectPreset { name: self.name.clone(), values }
    }
}

/// The preset that a row stands for.
pub open spec fn preset_of(row: RowView) -> PresetView {
    PresetView {
        name: row.name,
        values: Seq::new(
            row.values.len(),
            |i: int| (row.values[i].0, milli(row.values[i].1)),
        ),
    }
}

fn preset_from(row: &Row) -> (r: EffectPreset)
    ensures
        r@ == preset_of(row@),
{
    let mut values: Vec<(String, Scalar)> = Vec::new();
    let mut i: usize = 0;
    while i < row.values.len()
        invariant
            i <= row.values@.len(),
            values@.len() == i,
            forall|k: int|
                0 <= k < i ==> (#[trigger] values@[k]).0@ == row.values@[k].0@ && values@[k].1
                    == milli(row.values@[k].1 as int),
        decreases row.values@.len() - i,
    {
        let (name, value): Setting = row.values[i];
        values.push((owned(name), from_milli(value)));
        i = i + 1;
    }
    assert(values_view(values@) =~= preset_of(row@).values);
    EffectPreset { name: owned(row.name), values }
}

// ── The vocoder ──────────────────────────────────────────────────────────────

/// The vocoder has no oscillator of its own: it filters a carrier with the envelopes
/// of a modulator, and the microphone is fed into both. What makes it a robot is the
/// noise of its 32 bands, which is off unless it is set; its presets are therefore
/// built rather than written out.
pub const CALF_VOCODER: &'static str = "lv2:http://calf.sourceforge.net/plugins/Vocoder";

/// The noise of all bands at the given level; nothing of the dry voice or the raw
/// carrier; then the further settings.
pub open spec fn noisy(name: Seq<char>, noise: int, extra: Seq<(Seq<char>, int)>) -> RowView {
    RowView {
        name,
        values: Seq::new(32, |i: int| ("noise"@ + decimal((i + 1) as nat), noise)) + seq![
            ("processed"@, 1000int),
            ("modulator"@, 0int),
            ("carrier"@, 0int),
        ] + extra,
    }
}

/// Presets for the vocoder.
pub open spec fn vocoder_table() -> Seq<RowView> {
    seq![
        noisy(
            "Robot (noise carrier)"@,
            1000,
            seq![("attack"@, 5000int), ("release"@, 50_000int), ("order"@, 6000int)],
        ),
        noisy(
            "Whisper"@,
            500,
            seq![("attack"@, 20_000int), ("release"@, 200_000int), ("order"@, 4000int)],
        ),
        noisy(
            "Robot + voice"@,
            1000,
            seq![("attack"@, 5000int), ("release"@, 50_000int), ("modulator"@, 400int)],
        ),
    ]
}

fn with_noise(name: &'static str, noise: i32, extra: &Vec<Setting>) -> (r: EffectPreset)
    ensures
        r@ == preset_of(
            noisy(
                name@,
                noise as int,
                Seq::new(extra@.len(), |i: int| (extra@[i].0@, extra@[i].1 as int)),
            ),
        ),
{
    let ghost want = noisy(
        name@,
        noise as int,
        Seq::new(extra@.len(), |i: int| (extra@[i].0@, extra@[i].1 as int)),
    );
    let mut values: Vec<(String, Scalar)> = Vec::new();
    let mut band: u64 = 1;
    while band <= 32
        invariant
            1 <= band <= 33,
            values@.len() == band - 1,
            forall|k: int|
                0 <= k < band - 1 ==> (#[trigger] values@[k]).0@ == "noise"@ + decimal(
                    (k + 1) as nat,
                ) && values@[k].1 == milli(noise as int),
        decreases 33 - band,
    {
        let mut symbol: String = owned("noise");
        push_decimal(&mut symbol, band);
        values.push((symbol, from_milli(noise)));
        band = band + 1;
    }
    values.push((owned("processed"), from_milli(1000)));
    values.push((owned("modulator"), from_milli(0)));
    values.push((owned("carrier"), from_milli(0)));
    let ghost lead = values_view(values@);
    assert(lead =~= preset_of(want).values.take(35));
    let mut i: usize = 0;
    while i < extra.len()
        invariant
            i <= extra@.len(),
            values@.len() == 35 + i,
            lead.len() == 35,
            values_view(values@).take(35) == lead,
            forall|k: int|
                0 <= k < i ==> (#[trigger] values@[35 + k]).0@ == extra@[k].0@ && values@[35 + k].1
                    == milli(extra@[k].1 as int),
        decreases extra@.len() - i,
    {
        let ghost before = values@;
        let (symbol, value): Setting = extra[i];
        values.push((owned(symbol), from_milli(value)));
        assert(values_view(values@).take(35) =~= values_view(before).take(35));
        i = i + 1;
    }
    assert(values_view(values@) =~= preset_of(want).values) by {
        assert forall|k: int| 0 <= k < values@.len() implies values_view(values@)[k] == preset_of(
            want,
        ).values[k] by {
            if k < 35 {
                assert(values_view(values@).take(35)[k] == preset_of(want).values.take(35)[k]);
            } else {
                assert(values@[35 + (k - 35)].0@ == extra@[k - 35].0@);
            }
        }
    }
    EffectPreset { name: owned(name), values }
}

fn vocoder_presets() -> (r: Vec<EffectPreset>)
    ensures
        presets_view(r@) == Seq::new(
            vocoder_table().len(),
            |i: int| preset_of(vocoder_table()[i]),
        ),
{
    // Snappy envelopes keep consonants; slower ones are breathy rather than mechanical.
    let robot: Vec<Setting> = vec![("attack", 5000), ("release", 50_000), ("order", 6000)];
    let whisper: Vec<Setting> = vec![("attack", 20_000), ("release", 200_000), ("order", 4000)];
    // A little of the dry voice under the robot.
    let both: Vec<Setting> = vec![("attack", 5000), ("release", 50_000), ("modulator", 400)];
    proof {
        assert(Seq::new(robot@.len(), |i: int| (robot@[i].0@, robot@[i].1 as int)) =~= seq![
            ("attack"@, 5000int),
            ("release"@, 50_000int),
            ("order"@, 6000int),
        ]);
        assert(Seq::new(whisper@.len(), |i: int| (whisper@[i].0@, whisper@[i].1 as int)) =~= seq![
            ("attack"@, 20_000int),
            ("release"@, 200_000int),
            ("order"@, 4000int),
        ]);
        assert(Seq::new(both@.len(), |i: int| (both@[i].0@, both@[i].1 as int)) =~= seq![
            ("attack"@, 5000int),
            ("release"@, 50_000int),
            ("modulator"@, 400int),
        ]);
    }
    let mut r: Vec<EffectPreset> = Vec::new();
    r.push(with_noise("Robot (noise carrier)", 1000, &robot));
    r.push(with_noise("Whisper", 500, &whisper));
    r.push(with_noise("Robot + voice", 1000, &both));
    assert(presets_view(r@) =~= Seq::new(
        vocoder_table().len(),
        |i: int| preset_of(vocoder_table()[i]),
    ));
    r
}

// ── Looking presets up ───────────────────────────────────────────────────────

/// The group of an effect.
pub open spec fn group_for(id: Seq<char>) -> spec_fn(GroupView) -> bool {
    |g: GroupView| g.id == id
}

/// The rows of the presets that the soundboard provides for an effect.
pub open spec fn provided_rows(id: Seq<char>) -> Seq<RowView> {
    if id == CALF_VOCODER@ {
        vocoder_table()
    } else {
        match first_index(curated_preset_table(), group_for(id)) {
            Some(i) => curated_preset_table()[i].rows,
            None => Seq::empty(),
        }
    }
}

/// The presets that the soundboard provides for an effect.
pub open spec fn provided(id: Seq<char>) -> Seq<PresetView> {
    Seq::new(provided_rows(id).len(), |i: int| preset_of(provided_rows(id)[i]))
}

/// The presets that the soundboard provides for an effect.
pub fn curated_presets(id: &str) -> (r: Vec<EffectPreset>)
    ensures
        presets_view(r@) == provided(id@),
{
    if same_text(id, CALF_VOCODER) {
        return vocoder_presets();
    }
    let groups: Vec<Group> = curated();
    let ghost table = groups_view(groups@);
    let ghost p = group_for(id@);
    let mut i: usize = 0;
    while i < groups.len()
        invariant
            i <= groups@.len(),
            table == groups_view(groups@),
            table == curated_preset_table(),
            p == group_for(id@),
            id@ != CALF_VOCODER@,
            forall|k: int| 0 <= k < i ==> !p(#[trigger] table[k]),
        decreases groups@.len() - i,
    {
        if same_text(groups[i].id, id) {
            proof {
                assert(p(table[i as int]));
                found_first(table, p, i as int);
            }
            let rows: &Vec<Row> = &groups[i].rows;
            let mut r: Vec<EffectPreset> = Vec::new();
            let mut k: usize = 0;
            while k < rows.len()
                invariant
                    k <= rows@.len(),
                    provided_rows(id@) == rows_view(rows@),
                    r@.len() == k,
                    forall|j: int| 0 <= j < k ==> (#[trigger] r@[j])@ == preset_of(rows@[j]@),
                decreases rows@.len() - k,
            {
                r.push(preset_from(&rows[k]));
                k = k + 1;
            }
            assert(presets_view(r@) =~= provided(id@));
            return r;
        }
        assert(!p(table[i as int]));
        i = i + 1;
    }
    proof {
        found_none(table, p);
    }
    let r: Vec<EffectPreset> = Vec::new();
    assert(presets_view(r@) =~= provided(id@));
    r
}

/// One of the presets has the name, whatever the letter case.
pub open spec fn has_name(presets: Seq<PresetView>, name: Seq<char>) -> bool {
    exists|i: int|
        0 <= i < presets.len() && same_ignoring_case(#[trigger] presets[i].name, name)
}

/// The presets of `first`, and those of `more` whose name has not come yet.
pub open spec fn merged(first: Seq<PresetView>, more: Seq<PresetView>) -> Seq<PresetView>
    decreases more.len(),
{
    if more.len() == 0 {
        first
    } else {
        let rest = merged(first, more.drop_last());
        if has_name(rest, more.last().name) {
            rest
        } else {
            rest.push(more.last())
        }
    }
}

/// Every preset for an effect: those that the soundboard provides first, then those
/// that the plugin ships.
pub open spec fn all_presets(id: Seq<char>, shipped: Seq<PresetView>) -> Seq<PresetView> {
    if is_lv2(id) {
        merged(provided(id), shipped)
    } else {
        provided(id)
    }
}

/// Every preset available for a chain entry. `shipped` are those that the plugin
/// ships, if the entry is a plugin.
pub fn presets_for(id: &str, shipped: &Vec<EffectPreset>) -> (r: Vec<EffectPreset>)
    ensures
        presets_view(r@) == all_presets(id@, presets_view(shipped@)),
{
    let mut r: Vec<EffectPreset> = curated_presets(id);
    let plugin: bool = match uri_from_id(id) {
        Some(_) => true,
        None => false,
    };
    if !plugin {
        return r;
    }
    let ghost first = presets_view(r@);
    let ghost more = presets_view(shipped@);
    assert(more.take(0) =~= Seq::empty());
    let mut i: usize = 0;
    while i < shipped.len()
        invariant
            i <= shipped@.len(),
            more == presets_view(shipped@),
            presets_view(r@) == merged(first, more.take(i as int)),
        decreases shipped@.len() - i,
    {
        proof {
            assert(more.take(i + 1).drop_last() =~= more.take(i as int));
            assert(more.take(i + 1).last() == shipped@[i as int]@);
        }
        let ghost so_far = presets_view(r@);
        let mut taken: bool = false;
        let mut k: usize = 0;
        while k < r.len()
            invariant
                k <= r@.len(),
                i < shipped@.len(),
                so_far == presets_view(r@),
                taken == (exists|j: int|
                    0 <= j < k && same_ignoring_case(
                        #[trigger] so_far[j].name,
                        shipped@[i as int].name@,
                    )),
            decreases r@.len() - k,
        {
            assert(so_far[k as int].name == r@[k as int].name@);
            if equal_ignoring_case(r[k].name.as_str(), shipped[i].name.as_str()) {
                taken = true;
            }
            k = k + 1;
        }
        assert(taken == has_name(so_far, shipped@[i as int].name@));
        if !taken {
            let ghost before = r@;
            r.push(shipped[i].clone());
            assert(presets_view(r@) =~= presets_view(before).push(shipped@[i as int]@));
        }
        i = i + 1;
    }
    assert(more.take(more.len() as int) =~= more);
    r
}

/// The presets that the soundboard provides come first and stay; a shipped preset is
/// left out exactly where its name is taken, so no name occurs twice among what it
/// adds, and none is lost.
pub proof fn provided_presets_win(first: Seq<PresetView>, more: Seq<PresetView>)
    ensures
        merged(first, more).len() >= first.len(),
        merged(first, more).take(first.len() as int) == first,
        forall|i: int|
            0 <= i < more.len() ==> has_name(merged(first, more), (#[trigger] more[i]).name),
        forall|i: int, j: int|
            0 <= i < j < merged(first, more).len() && j >= first.len() ==> !same_ignoring_case(
                (#[trigger] merged(first, more)[i]).name,
                (#[trigger] merged(first, more)[j]).name,
            ),
    decreases more.len(),
{
    if more.len() == 0 {
        assert(first.take(first.len() as int) =~= first);
    } else {
        let rest = merged(first, more.drop_last());
        let all = merged(first, more);
        provided_presets_win(first, more.drop_last());
        assert(all.take(first.len() as int) =~= rest.take(first.len() as int));
        assert forall|i: int| 0 <= i < more.len() implies has_name(all, (#[trigger] more[i]).name) by {
            if i < more.len() - 1 {
                assert(more.drop_last()[i] == more[i]);
                let k = choose|k: int|
                    0 <= k < rest.len() && same_ignoring_case(
                        #[trigger] rest[k].name,
                        more[i].name,
                    );
                assert(all[k].name == rest[k].name);
            } else if !has_name(rest, more.last().name) {
                assert(all[rest.len() as int].name == more[i].name);
                assert(same_ignoring_case(all[rest.len() as int].name, more[i].name));
            }
        }
        assert forall|i: int, j: int| 0 <= i < j < all.len() && j >= first.len() implies
            !same_ignoring_case((#[trigger] all[i]).name, (#[trigger] all[j]).name) by {
            if j < rest.len() {
                assert(rest[i] == all[i] && rest[j] == all[j]);
            } else {
                assert(rest[i] == all[i]);
                assert(!has_name(rest, more.last().name));
                assert(!same_ignoring_case(rest[i].name, more.last().name));
            }
        }
    }
}

// ── Applying a preset ────────────────────────────────────────────────────────

/// The controls after the values were set, one after the other.
pub open spec fn applied(
    params: Map<Seq<char>, Scalar>,
    values: Seq<(Seq<char>, Scalar)>,
) -> Map<Seq<char>, Scalar>
    decreases values.len(),
{
    if values.len() == 0 {
        params
    } else {
        applied(params, values.drop_last()).insert(values.last().0, values.last().1)
    }
}

/// Sets the named controls and leaves the others alone.
pub fn apply_values(params: &mut TextMap<Scalar>, values: &Vec<(String, Scalar)>)
    ensures
        final(params)@ == applied(old(params)@, values_view(values@)),
{
    let ghost all = values_view(values@);
    assert(all.take(0) =~= Seq::empty());
    let mut i: usize = 0;
    while i < values.len()
        invariant
            i <= values@.len(),
            all == values_view(values@),
            params@ == applied(old(params)@, all.take(i as int)),
        decreases values@.len() - i,
    {
        assert(all.take(i + 1).drop_last() =~= all.take(i as int));
        params.insert(values[i].0.clone(), values[i].1);
        i = i + 1;
    }
    assert(all.take(all.len() as int) =~= all);
}

/// A preset sets the controls that it names, to the value that comes last for each,
/// and touches no others.
pub proof fn preset_touches_what_it_names(
    params: Map<Seq<char>, Scalar>,
    values: Seq<(Seq<char>, Scalar)>,
    name: Seq<char>,
)
    ensures
        (forall|i: int| 0 <= i < values.len() ==> (#[trigger] values[i]).0 != name) ==> (
        applied(params, values).dom().contains(name) == params.dom().contains(name) && applied(
            params,
            values,
        )[name] == params[name]),
        forall|i: int|
            0 <= i < values.len() && values[i].0 == name && (forall|k: int|
                i < k < values.len() ==> (#[trigger] values[k]).0 != name) ==> applied(
                params,
                values,
            ).dom().contains(name) && applied(params, values)[name] == (#[trigger] values[i]).1,
    decreases values.len(),
{
    if values.len() > 0 {
        let rest = values.drop_last();
        preset_touches_what_it_names(params, rest, name);
        assert(forall|i: int| 0 <= i < rest.len() ==> #[trigger] rest[i] == values[i]);
        if forall|i: int| 0 <= i < values.len() ==> (#[trigger] values[i]).0 != name {
            assert(values.last().0 != name);
            assert forall|i: int| 0 <= i < rest.len() implies (#[trigger] rest[i]).0 != name by {
                assert(values[i].0 != name);
            }
        }
        assert forall|i: int|
            0 <= i < values.len() && values[i].0 == name && (forall|k: int|
                i < k < values.len() ==> (#[trigger] values[k]).0 != name) implies applied(
            params,
            values,
        ).dom().contains(name) && applied(params, values)[name] == (#[trigger] values[i]).1 by {
            if i < rest.len() {
                assert(values.last().0 != name);
                assert(rest[i].0 == name);
                assert forall|k: int| i < k < rest.len() implies (#[trigger] rest[k]).0 != name by {
                    assert(values[k].0 != name);
                }
            }
        }
    }
}

// ── Facts about the tables ───────────────────────────────────────────────────

/// Every value is of ordinary size.
pub open spec fn modest(values: Seq<(Seq<char>, int)>) -> bool {
    forall|i: int| 0 <= i < values.len() ==> -1_000_000_000 <= (#[trigger] values[i]).1 <= 1_000_000_000
}

pub open spec fn modest_rows(rows: Seq<RowView>) -> bool {
    forall|i: int| 0 <= i < rows.len() ==> modest((#[trigger] rows[i]).values)
}

proof fn tables_are_modest()
    ensures
        modest_rows(gate_table()),
        modest_rows(distortion_table()),
        modest_rows(bitcrush_table()),
        modest_rows(telephone_table()),
        modest_rows(compressor_table()),
        modest_rows(pitch_table()),
        modest_rows(ring_table()),
        modest_rows(delay_table()),
        modest_rows(crusher_table()),
        modest_rows(vocoder_table()),
{
}

/// Each effect in the table has one group.
pub proof fn group_is_found(k: int)
    requires
        0 <= k < curated_preset_table().len(),
    ensures
        first_index(curated_preset_table(), group_for(curated_preset_table()[k].id)) == Some(k),
        curated_preset_table()[k].id != CALF_VOCODER@,
{
    let table = curated_preset_table();
    reveal_strlit("gate");
    reveal_strlit("distortion");
    reveal_strlit("bitcrush");
    reveal_strlit("telephone");
    reveal_strlit("lv2:http://lsp-plug.in/plugins/lv2/compressor_stereo");
    reveal_strlit("lv2:http://breakfastquay.com/rdf/lv2-rubberband#livestereo");
    reveal_strlit("lv2:http://calf.sourceforge.net/plugins/RingModulator");
    reveal_strlit("lv2:http://calf.sourceforge.net/plugins/VintageDelay");
    reveal_strlit("lv2:http://calf.sourceforge.net/plugins/Crusher");
    reveal_strlit("lv2:http://calf.sourceforge.net/plugins/Vocoder");
    assert(table[0].id.len() == 4);
    assert(table[1].id.len() == 10);
    assert(table[2].id.len() == 8);
    assert(table[3].id.len() == 9);
    assert(table[4].id.len() == 52);
    assert(table[5].id.len() == 58);
    assert(table[6].id.len() == 53);
    assert(table[7].id.len() == 52);
    assert(table[8].id.len() == 47);
    assert(table[4].id[11] == 'l' && table[7].id[11] == 'c');
    assert(table[8].id[40] == 'C' && CALF_VOCODER@[40] == 'V');
    assert(CALF_VOCODER@.len() == 47);
    let p = group_for(table[k].id);
    assert forall|j: int| 0 <= j < k implies !p(#[trigger] table[j]) by {
        assert(table[j].id != table[k].id);
    }
    found_first(table, p, k);
}

/// The presets that the soundboard provides set ordinary numbers.
pub proof fn provided_presets_are_finite(id: Seq<char>, i: int, k: int)
    requires
        0 <= i < provided(id).len(),
        0 <= k < provided(id)[i].values.len(),
    ensures
        provided(id)[i].values[k].1.is_finite(),
{
    tables_are_modest();
    first_index_holds(curated_preset_table(), group_for(id));
    let row = provided_rows(id)[i];
    assert(modest(row.values)) by {
        if id != CALF_VOCODER@ {
            let g = first_index(curated_preset_table(), group_for(id))->0;
            assert(modest_rows(curated_preset_table()[g].rows));
        }
    }
    milli_is_finite(row.values[k].1);
}

/// A preset that comes with a plugin is offered as it is, under the first of its name, as
/// long as nothing else has that name; nothing is offered that was not there.
pub proof fn shipped_presets_are_offered_as_they_are(
    first: Seq<PresetView>,
    more: Seq<PresetView>,
    k: int,
)
    ensures
        forall|i: int|
            first.len() <= i < merged(first, more).len() ==> more.contains(
                #[trigger] merged(first, more)[i],
            ),
        0 <= k < more.len() && !has_name(first, more[k].name) && !has_name(more.take(k), more[k].name)
            ==> merged(first, more).contains(more[k]),
    decreases more.len(),
{
    if more.len() > 0 {
        let (front, all) = (more.drop_last(), merged(first, more));
        let rest = merged(first, front);
        provided_presets_win(first, front);
        shipped_presets_are_offered_as_they_are(first, front, k);
        assert forall|i: int| first.len() <= i < all.len() implies more.contains(
            #[trigger] all[i],
        ) by {
            if i < rest.len() {
                assert(all[i] == rest[i] && front.contains(rest[i]));
                let j = choose|j: int| 0 <= j < front.len() && front[j] == rest[i];
                assert(more[j] == all[i]);
            } else {
                assert(more[more.len() - 1] == all[i]);
            }
        }
        if 0 <= k < more.len() && !has_name(first, more[k].name) && !has_name(
            more.take(k),
            more[k].name,
        ) {
            if k < front.len() {
                assert(front.take(k) =~= more.take(k));
                let j = choose|j: int| 0 <= j < rest.len() && rest[j] == front[k];
                assert(all[j] == more[k]);
            } else {
                assert(more.take(k) =~= front);
                if has_name(rest, more[k].name) {
                    let j = choose|j: int|
                        0 <= j < rest.len() && same_ignoring_case(
                            #[trigger] rest[j].name,
                            more[k].name,
                        );
                    if j < first.len() {
                        assert(rest.take(first.len() as int)[j] == first[j]);
                    } else {
                        let m = choose|m: int| 0 <= m < front.len() && front[m] == rest[j];
                        assert(same_ignoring_case(front[m].name, more[k].name));
                    }
                }
                assert(all[rest.len() as int] == more[k]);
            }
        }
    }
}

/// The presets of an effect are the rows under its identifier, with the thousandths of
/// each row as values.
pub proof fn rows_are_offered_under_their_effect(k: int, i: int, j: int)
    requires
        0 <= k < curated_preset_table().len(),
        0 <= i < curated_preset_table()[k].rows.len(),
        0 <= j < curated_preset_table()[k].rows[i].values.len(),
    ensures
        ({
            let group = curated_preset_table()[k];
            let offered = provided(group.id);
            &&& offered.len() == group.rows.len()
            &&& offered[i].name == group.rows[i].name
            &&& offered[i].values.len() == group.rows[i].values.len()
            &&& offered[i].values[j] == (
                group.rows[i].values[j].0,
                milli(group.rows[i].values[j].1),
            )
        }),
{
    group_is_found(k);
}

} // verus!
