//! The effects on the microphone: what there is, what each is called, and how a
//! saved chain entry becomes an effect.

pub mod builtin;
pub mod chains;
pub mod controls;
pub mod host;
pub mod layout;
pub mod lv2;
pub mod presets;
pub mod run;
pub mod shipped;
pub mod sides;
pub mod sound;

use vstd::prelude::*;

use self::builtin::{
    BitcrushPlugin, DistortionPlugin, GainPlugin, NoiseGatePlugin, TelephonePlugin,
};
use self::builtin::telephone::Biquad;
use self::lv2::Lv2Plugin;
use self::presets::values_view;
use crate::config::{EffectEntry, EffectView};
use crate::rounding::{from_milli, milli};
use crate::scalar::{smaller_is_at_most_larger, Scalar};
use crate::search::{first_index, found_first, found_none};
use crate::text::same_text;
use crate::text_map::TextMap;

verus! {

/// Where an effect sits in the sheet of effects to add: workhorses that make a voice
/// sound better, and character effects that make it sound different.
#[derive(Clone, Copy, Debug, PartialEq, Eq, Structural)]
pub enum Category {
    Voice,
    Fun,
}

impl Category {
    pub fn label(self) -> (r: &'static str)
        ensures
            r@ == (match self {
                Category::Voice => "Voice & Cleanup"@,
                Category::Fun => "Character & Fun"@,
            }),
    {
        match self {
            Category::Voice => "Voice & Cleanup",
            Category::Fun => "Character & Fun",
        }
    }
}

/// An effect as it is listed: its identifier (for a plugin, its URI) and how it is
/// presented.
#[derive(Clone, Copy, Debug)]
pub struct Listed {
    pub id: &'static str,
    pub name: &'static str,
    pub description: &'static str,
    pub category: Category,
}

/// The effects that are always there.
pub open spec fn builtin_table() -> Seq<Listed> {
    seq![
        Listed {
            id: "gate",
            name: "Noise Gate",
            description: "Silence audio below a threshold",
            category: Category::Voice,
        },
        Listed {
            id: "gain",
            name: "Gain",
            description: "Boost or cut the microphone volume",
            category: Category::Voice,
        },
        Listed {
            id: "distortion",
            name: "Distortion",
            description: "Waveshaper drive for a gritty, overdriven voice",
            category: Category::Fun,
        },
        Listed {
            id: "bitcrush",
            name: "Bitcrusher",
            description: "Lo-fi bit depth and sample rate reduction",
            category: Category::Fun,
        },
        Listed {
            id: "telephone",
            name: "Telephone",
            description: "Band-limit the voice like an old phone or radio",
            category: Category::Fun,
        },
    ]
}

/// Plugins worth putting on a microphone, under friendly names. One that is not
/// installed is simply not offered.
pub open spec fn curated_table() -> Seq<Listed> {
    seq![
        Listed {
            id: "https://github.com/werman/noise-suppression-for-voice#stereo",
            name: "Noise Suppression (RNNoise)",
            description: "AI voice noise removal — the engine Easy Effects uses",
            category: Category::Voice,
        },
        Listed {
            id: "http://lsp-plug.in/plugins/lv2/autogain_stereo",
            name: "Auto Gain",
            description: "Keeps your voice at a steady loudness (LSP)",
            category: Category::Voice,
        },
        Listed {
            id: "http://lsp-plug.in/plugins/lv2/compressor_stereo",
            name: "Compressor",
            description: "Even out your voice level (LSP)",
            category: Category::Voice,
        },
        Listed {
            id: "http://calf.sourceforge.net/plugins/Compressor",
            name: "Compressor (Calf)",
            description: "Simpler compressor with ready-made vocal presets",
            category: Category::Voice,
        },
        Listed {
            id: "http://calf.sourceforge.net/plugins/Deesser",
            name: "De-esser",
            description: "Tames harsh S sounds (Calf)",
            category: Category::Voice,
        },
        Listed {
            id: "http://lsp-plug.in/plugins/lv2/limiter_stereo",
            name: "Limiter",
            description: "Catch peaks before they clip (LSP)",
            category: Category::Voice,
        },
        Listed {
            id: "http://lsp-plug.in/plugins/lv2/graph_equalizer_x16_stereo",
            name: "Graphic Equalizer",
            description: "16-band tone shaping (LSP)",
            category: Category::Voice,
        },
        Listed {
            id: "http://lsp-plug.in/plugins/lv2/para_equalizer_x16_stereo",
            name: "Parametric Equalizer",
            description: "16 fully adjustable bands (LSP)",
            category: Category::Voice,
        },
        Listed {
            id: "http://calf.sourceforge.net/plugins/Exciter",
            name: "Exciter",
            description: "Adds air and presence to a dull mic (Calf)",
            category: Category::Voice,
        },
        Listed {
            id: "http://calf.sourceforge.net/plugins/BassEnhancer",
            name: "Bass Enhancer",
            description: "Adds weight to a thin voice (Calf)",
            category: Category::Voice,
        },
        Listed {
            id: "http://breakfastquay.com/rdf/lv2-rubberband#livestereo",
            name: "Pitch Shifter",
            description: "Chipmunk or demon voice — low-latency Rubber Band",
            category: Category::Fun,
        },
        Listed {
            id: "http://gareus.org/oss/lv2/fat1",
            name: "Auto-Tune",
            description: "Snaps your pitch to a scale — hard-tune singing (x42)",
            category: Category::Fun,
        },
        Listed {
            id: "http://calf.sourceforge.net/plugins/RingModulator",
            name: "Ring Modulator",
            description: "Metallic robot / Dalek voice (Calf)",
            category: Category::Fun,
        },
        Listed {
            id: "http://calf.sourceforge.net/plugins/Vocoder",
            name: "Vocoder",
            description: "Classic talk-box robot; best with a carrier signal (Calf)",
            category: Category::Fun,
        },
        Listed {
            id: "http://calf.sourceforge.net/plugins/Reverb",
            name: "Reverb",
            description: "Room, hall or cathedral space (Calf)",
            category: Category::Fun,
        },
        Listed {
            id: "http://calf.sourceforge.net/plugins/VintageDelay",
            name: "Vintage Delay",
            description: "Echo with tape character — stadium announcer (Calf)",
            category: Category::Fun,
        },
        Listed {
            id: "http://calf.sourceforge.net/plugins/ReverseDelay",
            name: "Reverse Delay",
            description: "Echoes that play backwards (Calf)",
            category: Category::Fun,
        },
        Listed {
            id: "http://calf.sourceforge.net/plugins/RotarySpeaker",
            name: "Rotary Speaker",
            description: "Swirling Leslie cabinet (Calf)",
            category: Category::Fun,
        },
        Listed {
            id: "http://calf.sourceforge.net/plugins/MultiChorus",
            name: "Multi Chorus",
            description: "Many detuned copies — a crowd of you (Calf)",
            category: Category::Fun,
        },
        Listed {
            id: "http://calf.sourceforge.net/plugins/Flanger",
            name: "Flanger",
            description: "Metallic comb-filtered sweep (Calf)",
            category: Category::Fun,
        },
        Listed {
            id: "http://calf.sourceforge.net/plugins/Phaser",
            name: "Phaser",
            description: "Jet-plane whoosh (Calf)",
            category: Category::Fun,
        },
        Listed {
            id: "http://calf.sourceforge.net/plugins/Pulsator",
            name: "Pulsator",
            description: "Rhythmic tremolo / chopper (Calf)",
            category: Category::Fun,
        },
        Listed {
            id: "http://calf.sourceforge.net/plugins/Saturator",
            name: "Saturator",
            description: "Tube-style warmth and grit (Calf)",
            category: Category::Fun,
        },
        Listed {
            id: "http://calf.sourceforge.net/plugins/Crusher",
            name: "Crusher",
            description: "Bit and sample-rate destruction (Calf)",
            category: Category::Fun,
        },
        Listed {
            id: "http://calf.sourceforge.net/plugins/TapeSimulator",
            name: "Tape Simulator",
            description: "Warm, slightly wobbly tape (Calf)",
            category: Category::Fun,
        },
    ]
}

/// The effects that are always there.
pub fn builtins() -> (r: Vec<Listed>)
    ensures
        r@ == builtin_table(),
{
    vec![
        Listed {
            id: "gate",
            name: "Noise Gate",
            description: "Silence audio below a threshold",
            category: Category::Voice,
        },
        Listed {
            id: "gain",
            name: "Gain",
            description: "Boost or cut the microphone volume",
            category: Category::Voice,
        },
        Listed {
            id: "distortion",
            name: "Distortion",
            description: "Waveshaper drive for a gritty, overdriven voice",
            category: Category::Fun,
        },
        Listed {
            id: "bitcrush",
            name: "Bitcrusher",
            description: "Lo-fi bit depth and sample rate reduction",
            category: Category::Fun,
        },
        Listed {
            id: "telephone",
            name: "Telephone",
            description: "Band-limit the voice like an old phone or radio",
            category: Category::Fun,
        },
    ]
}

/// Plugins worth putting on a microphone.
pub fn curated_lv2() -> (r: Vec<Listed>)
    ensures
        r@ == curated_table(),
{
    vec![
        Listed {
            id: "https://github.com/werman/noise-suppression-for-voice#stereo",
            name: "Noise Suppression (RNNoise)",
            description: "AI voice noise removal — the engine Easy Effects uses",
            category: Category::Voice,
        },
        Listed {
            id: "http://lsp-plug.in/plugins/lv2/autogain_stereo",
            name: "Auto Gain",
            description: "Keeps your voice at a steady loudness (LSP)",
            category: Category::Voice,
        },
        Listed {
            id: "http://lsp-plug.in/plugins/lv2/compressor_stereo",
            name: "Compressor",
            description: "Even out your voice level (LSP)",
            category: Category::Voice,
        },
        Listed {
            id: "http://calf.sourceforge.net/plugins/Compressor",
            name: "Compressor (Calf)",
            description: "Simpler compressor with ready-made vocal presets",
            category: Category::Voice,
        },
        Listed {
            id: "http://calf.sourceforge.net/plugins/Deesser",
            name: "De-esser",
            description: "Tames harsh S sounds (Calf)",
            category: Category::Voice,
        },
        Listed {
            id: "http://lsp-plug.in/plugins/lv2/limiter_stereo",
            name: "Limiter",
            description: "Catch peaks before they clip (LSP)",
            category: Category::Voice,
        },
        Listed {
            id: "http://lsp-plug.in/plugins/lv2/graph_equalizer_x16_stereo",
            name: "Graphic Equalizer",
            description: "16-band tone shaping (LSP)",
            category: Category::Voice,
        },
        Listed {
            id: "http://lsp-plug.in/plugins/lv2/para_equalizer_x16_stereo",
            name: "Parametric Equalizer",
            description: "16 fully adjustable bands (LSP)",
            category: Category::Voice,
        },
        Listed {
            id: "http://calf.sourceforge.net/plugins/Exciter",
            name: "Exciter",
            description: "Adds air and presence to a dull mic (Calf)",
            category: Category::Voice,
        },
        Listed {
            id: "http://calf.sourceforge.net/plugins/BassEnhancer",
            name: "Bass Enhancer",
            description: "Adds weight to a thin voice (Calf)",
            category: Category::Voice,
        },
        Listed {
            id: "http://breakfastquay.com/rdf/lv2-rubberband#livestereo",
            name: "Pitch Shifter",
            description: "Chipmunk or demon voice — low-latency Rubber Band",
            category: Category::Fun,
        },
        Listed {
            id: "http://gareus.org/oss/lv2/fat1",
            name: "Auto-Tune",
            description: "Snaps your pitch to a scale — hard-tune singing (x42)",
            category: Category::Fun,
        },
        Listed {
            id: "http://calf.sourceforge.net/plugins/RingModulator",
            name: "Ring Modulator",
            description: "Metallic robot / Dalek voice (Calf)",
            category: Category::Fun,
        },
        Listed {
            id: "http://calf.sourceforge.net/plugins/Vocoder",
            name: "Vocoder",
            description: "Classic talk-box robot; best with a carrier signal (Calf)",
            category: Category::Fun,
        },
        Listed {
            id: "http://calf.sourceforge.net/plugins/Reverb",
            name: "Reverb",
            description: "Room, hall or cathedral space (Calf)",
            category: Category::Fun,
        },
        Listed {
            id: "http://calf.sourceforge.net/plugins/VintageDelay",
            name: "Vintage Delay",
            description: "Echo with tape character — stadium announcer (Calf)",
            category: Category::Fun,
        },
        Listed {
            id: "http://calf.sourceforge.net/plugins/ReverseDelay",
            name: "Reverse Delay",
            description: "Echoes that play backwards (Calf)",
            category: Category::Fun,
        },
        Listed {
            id: "http://calf.sourceforge.net/plugins/RotarySpeaker",
            name: "Rotary Speaker",
            description: "Swirling Leslie cabinet (Calf)",
            category: Category::Fun,
        },
        Listed {
            id: "http://calf.sourceforge.net/plugins/MultiChorus",
            name: "Multi Chorus",
            description: "Many detuned copies — a crowd of you (Calf)",
            category: Category::Fun,
        },
        Listed {
            id: "http://calf.sourceforge.net/plugins/Flanger",
            name: "Flanger",
            description: "Metallic comb-filtered sweep (Calf)",
            category: Category::Fun,
        },
        Listed {
            id: "http://calf.sourceforge.net/plugins/Phaser",
            name: "Phaser",
            description: "Jet-plane whoosh (Calf)",
            category: Category::Fun,
        },
        Listed {
            id: "http://calf.sourceforge.net/plugins/Pulsator",
            name: "Pulsator",
            description: "Rhythmic tremolo / chopper (Calf)",
            category: Category::Fun,
        },
        Listed {
            id: "http://calf.sourceforge.net/plugins/Saturator",
            name: "Saturator",
            description: "Tube-style warmth and grit (Calf)",
            category: Category::Fun,
        },
        Listed {
            id: "http://calf.sourceforge.net/plugins/Crusher",
            name: "Crusher",
            description: "Bit and sample-rate destruction (Calf)",
            category: Category::Fun,
        },
        Listed {
            id: "http://calf.sourceforge.net/plugins/TapeSimulator",
            name: "Tape Simulator",
            description: "Warm, slightly wobbly tape (Calf)",
            category: Category::Fun,
        },
    ]
}

/// The row for `id`.
pub open spec fn listed_as(id: Seq<char>) -> spec_fn(Listed) -> bool {
    |row: Listed| row.id@ == id
}

/// The name in the first row for `id`.
pub open spec fn listed_name(table: Seq<Listed>, id: Seq<char>) -> Option<Seq<char>> {
    match first_index(table, listed_as(id)) {
        Some(i) => Some(table[i].name@),
        None => None,
    }
}

/// Position of the first row for `id`.
pub fn find_listed(table: &Vec<Listed>, id: &str) -> (r: Option<usize>)
    ensures
        match r {
            Some(i) => i < table@.len() && first_index(table@, listed_as(id@)) == Some(i as int),
            None => first_index(table@, listed_as(id@)) is None,
        },
{
    let ghost p = listed_as(id@);
    let mut i: usize = 0;
    while i < table.len()
        invariant
            i <= table@.len(),
            p == listed_as(id@),
            forall|k: int| 0 <= k < i ==> !p(#[trigger] table@[k]),
        decreases table@.len() - i,
    {
        if same_text(table[i].id, id) {
            proof {
                found_first(table@, p, i as int);
            }
            return Some(i);
        }
        i = i + 1;
    }
    proof {
        found_none(table@, p);
    }
    None
}

/// The friendly name of a chain identifier: that of a built-in effect, or of a
/// curated plugin.
pub open spec fn friendly_name_of(id: Seq<char>) -> Option<Seq<char>> {
    match listed_name(builtin_table(), id) {
        Some(name) => Some(name),
        None => if lv2::is_lv2(id) {
            listed_name(curated_table(), lv2::uri_of(id))
        } else {
            None
        },
    }
}

/// Friendly display name for a chain identifier, if it is a built-in effect or a
/// curated plugin.
pub fn friendly_name(id: &str) -> (r: Option<&'static str>)
    ensures
        (match r {
            Some(name) => Some(name@),
            None => None,
        }) == friendly_name_of(id@),
{
    let builtin: Vec<Listed> = builtins();
    match find_listed(&builtin, id) {
        Some(i) => {
            return Some(builtin[i].name);
        },
        None => {},
    }
    match lv2::uri_from_id(id) {
        Some(uri) => {
            let curated: Vec<Listed> = curated_lv2();
            match find_listed(&curated, uri.as_str()) {
                Some(i) => Some(curated[i].name),
                None => None,
            }
        },
        None => None,
    }
}

/// Where a curated plugin stands in the table, told by the length of its identifier and
/// two characters of it.
spec fn place_in_table(id: Seq<char>) -> int {
    if id.len() == 30 {
        11
    } else if id.len() == 42 {
        if id[36] == 'R' {
            14
        } else {
            20
        }
    } else if id.len() == 43 {
        if id[36] == 'D' {
            4
        } else if id[36] == 'E' {
            8
        } else if id[36] == 'V' {
            13
        } else if id[36] == 'F' {
            19
        } else {
            23
        }
    } else if id.len() == 44 {
        21
    } else if id.len() == 45 {
        if id[36] == 'e' {
            5
        } else {
            22
        }
    } else if id.len() == 46 {
        if id[36] == 'a' {
            1
        } else {
            3
        }
    } else if id.len() == 47 {
        18
    } else if id.len() == 48 {
        if id[36] == 'e' {
            2
        } else if id[36] == 'B' {
            9
        } else if id[36] == 'V' {
            15
        } else {
            16
        }
    } else if id.len() == 49 {
        if id[36] == 'R' {
            if id[37] == 'i' {
                12
            } else {
                17
            }
        } else {
            24
        }
    } else if id.len() == 54 {
        10
    } else if id.len() == 56 {
        7
    } else if id.len() == 57 {
        6
    } else if id.len() == 60 {
        0
    } else {
        -1
    }
}

proof fn curated_places()
    ensures
        curated_table().len() == 25,
        forall|k: int| 0 <= k < 25 ==> place_in_table((#[trigger] curated_table()[k]).id@) == k,
{
    let t = curated_table();
    reveal_strlit("https://github.com/werman/noise-suppression-for-voice#stereo");
    reveal_strlit("http://lsp-plug.in/plugins/lv2/autogain_stereo");
    reveal_strlit("http://lsp-plug.in/plugins/lv2/compressor_stereo");
    reveal_strlit("http://calf.sourceforge.net/plugins/Compressor");
    reveal_strlit("http://calf.sourceforge.net/plugins/Deesser");
    reveal_strlit("http://lsp-plug.in/plugins/lv2/limiter_stereo");
    reveal_strlit("http://lsp-plug.in/plugins/lv2/graph_equalizer_x16_stereo");
    reveal_strlit("http://lsp-plug.in/plugins/lv2/para_equalizer_x16_stereo");
    reveal_strlit("http://calf.sourceforge.net/plugins/Exciter");
    reveal_strlit("http://calf.sourceforge.net/plugins/BassEnhancer");
    reveal_strlit("http://breakfastquay.com/rdf/lv2-rubberband#livestereo");
    reveal_strlit("http://gareus.org/oss/lv2/fat1");
    reveal_strlit("http://calf.sourceforge.net/plugins/RingModulator");
    reveal_strlit("http://calf.sourceforge.net/plugins/Vocoder");
    reveal_strlit("http://calf.sourceforge.net/plugins/Reverb");
    reveal_strlit("http://calf.sourceforge.net/plugins/VintageDelay");
    reveal_strlit("http://calf.sourceforge.net/plugins/ReverseDelay");
    reveal_strlit("http://calf.sourceforge.net/plugins/RotarySpeaker");
    reveal_strlit("http://calf.sourceforge.net/plugins/MultiChorus");
    reveal_strlit("http://calf.sourceforge.net/plugins/Flanger");
    reveal_strlit("http://calf.sourceforge.net/plugins/Phaser");
    reveal_strlit("http://calf.sourceforge.net/plugins/Pulsator");
    reveal_strlit("http://calf.sourceforge.net/plugins/Saturator");
    reveal_strlit("http://calf.sourceforge.net/plugins/Crusher");
    reveal_strlit("http://calf.sourceforge.net/plugins/TapeSimulator");
    assert(place_in_table(t[0].id@) == 0);
    assert(place_in_table(t[1].id@) == 1);
    assert(place_in_table(t[2].id@) == 2);
    assert(place_in_table(t[3].id@) == 3);
    assert(place_in_table(t[4].id@) == 4);
    assert(place_in_table(t[5].id@) == 5);
    assert(place_in_table(t[6].id@) == 6);
    assert(place_in_table(t[7].id@) == 7);
    assert(place_in_table(t[8].id@) == 8);
    assert(place_in_table(t[9].id@) == 9);
    assert(place_in_table(t[10].id@) == 10);
    assert(place_in_table(t[11].id@) == 11);
    assert(place_in_table(t[12].id@) == 12);
    assert(place_in_table(t[13].id@) == 13);
    assert(place_in_table(t[14].id@) == 14);
    assert(place_in_table(t[15].id@) == 15);
    assert(place_in_table(t[16].id@) == 16);
    assert(place_in_table(t[17].id@) == 17);
    assert(place_in_table(t[18].id@) == 18);
    assert(place_in_table(t[19].id@) == 19);
    assert(place_in_table(t[20].id@) == 20);
    assert(place_in_table(t[21].id@) == 21);
    assert(place_in_table(t[22].id@) == 22);
    assert(place_in_table(t[23].id@) == 23);
    assert(place_in_table(t[24].id@) == 24);
}

proof fn builtin_places(i: int, j: int)
    requires
        0 <= i < j < builtin_table().len(),
    ensures
        builtin_table()[i].id@ != builtin_table()[j].id@,
{
    let t = builtin_table();
    reveal_strlit("gate");
    reveal_strlit("gain");
    reveal_strlit("distortion");
    reveal_strlit("bitcrush");
    reveal_strlit("telephone");
    assert(t[0].id@[2] == 't' && t[1].id@[2] == 'i');
    assert(t[0].id@.len() == 4 && t[1].id@.len() == 4);
    assert(t[2].id@.len() == 10 && t[3].id@.len() == 8 && t[4].id@.len() == 9);
}

/// No identifier is listed twice.
pub proof fn listed_identifiers_differ(i: int, j: int)
    requires
        i < j,
    ensures
        0 <= i && j < builtin_table().len() ==> builtin_table()[i].id@ != builtin_table()[j].id@,
        0 <= i && j < curated_table().len() ==> curated_table()[i].id@ != curated_table()[j].id@,
{
    curated_places();
    if 0 <= i && j < builtin_table().len() {
        builtin_places(i, j);
    }
    if 0 <= i && j < curated_table().len() {
        assert(place_in_table(curated_table()[i].id@) == i);
        assert(place_in_table(curated_table()[j].id@) == j);
    }
}

proof fn found_by_identifier(table: Seq<Listed>, k: int)
    requires
        0 <= k < table.len(),
        forall|i: int, j: int|
            0 <= i < j < table.len() ==> (#[trigger] table[i]).id@ != (#[trigger] table[j]).id@,
    ensures
        listed_name(table, table[k].id@) == Some(table[k].name@),
{
    let p = listed_as(table[k].id@);
    assert forall|i: int| 0 <= i < k implies !p(#[trigger] table[i]) by {
        assert(table[i].id@ != table[k].id@);
    }
    found_first(table, p, k);
}

/// Every effect is found by its own identifier: the name that it is listed with is its
/// friendly name.
pub proof fn listed_effects_are_found(k: int)
    ensures
        0 <= k < builtin_table().len() ==> friendly_name_of(builtin_table()[k].id@) == Some(
            builtin_table()[k].name@,
        ),
        0 <= k < curated_table().len() ==> friendly_name_of(
            lv2::LV2_ID_PREFIX@ + curated_table()[k].id@,
        ) == Some(curated_table()[k].name@),
{
    let (b, c) = (builtin_table(), curated_table());
    assert forall|i: int, j: int| 0 <= i < j < b.len() implies (#[trigger] b[i]).id@ != (
    #[trigger] b[j]).id@ by {
        listed_identifiers_differ(i, j);
    }
    assert forall|i: int, j: int| 0 <= i < j < c.len() implies (#[trigger] c[i]).id@ != (
    #[trigger] c[j]).id@ by {
        listed_identifiers_differ(i, j);
    }
    if 0 <= k < b.len() {
        found_by_identifier(b, k);
    }
    if 0 <= k < c.len() {
        found_by_identifier(c, k);
        let uri = c[k].id@;
        let id = lv2::LV2_ID_PREFIX@ + uri;
        lv2::identifiers_round_trip(id, uri);
        assert(listed_name(b, id) is None) by {
            plugins_are_no_builtins(uri);
        }
    }
}

proof fn plugins_are_no_builtins(uri: Seq<char>)
    ensures
        listed_name(builtin_table(), lv2::LV2_ID_PREFIX@ + uri) is None,
{
    let t = builtin_table();
    let id = lv2::LV2_ID_PREFIX@ + uri;
    reveal_strlit("lv2:");
    reveal_strlit("gate");
    reveal_strlit("gain");
    reveal_strlit("distortion");
    reveal_strlit("bitcrush");
    reveal_strlit("telephone");
    assert(id[0] == 'l');
    let p = listed_as(id);
    assert forall|i: int| 0 <= i < t.len() implies !p(#[trigger] t[i]) by {
        assert(t[i].id@[0] != 'l');
    }
    found_none(t, p);
}

// ── Controls ─────────────────────────────────────────────────────────────────

/// How a control is presented and edited.
pub enum ParamKind {
    /// Any number: a slider.
    Continuous,
    /// Whole numbers: a slider with whole steps.
    Integer,
    /// On or off: a switch (0 is off, 1 is on).
    Toggle,
    /// Some choices: a dropdown of labels and values.
    Enum(Vec<(String, Scalar)>),
}

/// A control of an effect.
pub struct PluginParam {
    pub id: String,
    pub label: String,
    pub min: Scalar,
    pub max: Scalar,
    pub default: Scalar,
    pub value: Scalar,
    pub kind: ParamKind,
}

pub enum KindView {
    Continuous,
    Integer,
    Toggle,
    Enum(Seq<(Seq<char>, Scalar)>),
}

impl View for ParamKind {
    type V = KindView;

    open spec fn view(&self) -> KindView {
        match self {
            ParamKind::Continuous => KindView::Continuous,
            ParamKind::Integer => KindView::Integer,
            ParamKind::Toggle => KindView::Toggle,
            ParamKind::Enum(points) => KindView::Enum(values_view(points@)),
        }
    }
}

pub struct ParamView {
    pub id: Seq<char>,
    pub label: Seq<char>,
    pub min: Scalar,
    pub max: Scalar,
    pub default: Scalar,
    pub value: Scalar,
    pub kind: KindView,
}

impl View for PluginParam {
    type V = ParamView;

    open spec fn view(&self) -> ParamView {
        ParamView {
            id: self.id@,
            label: self.label@,
            min: self.min,
            max: self.max,
            default: self.default,
            value: self.value,
            kind: self.kind@,
        }
    }
}

pub open spec fn params_view(params: Seq<PluginParam>) -> Seq<ParamView> {
    Seq::new(params.len(), |i: int| params[i]@)
}

/// A control with the range `a..=b`, whichever of the two is the larger; a bound that
/// is not a number does not count.
pub open spec fn in_range(x: Scalar, a: Scalar, b: Scalar) -> Scalar {
    x.clamped(a.smaller(b), a.larger(b))
}

/// `x` brought into the range between `a` and `b`.
pub fn clamp_between(x: Scalar, a: Scalar, b: Scalar) -> (r: Scalar)
    requires
        !a.is_nan() || !b.is_nan(),
    ensures
        r == in_range(x, a, b),
{
    proof {
        smaller_is_at_most_larger(a, b);
    }
    x.clamp_to(a.min_with(b), a.max_with(b))
}

// ── From a chain entry to an effect ──────────────────────────────────────────

/// An effect to put on the microphone.
pub enum Effect {
    Gain(GainPlugin),
    Gate(NoiseGatePlugin),
    Distortion(DistortionPlugin),
    Bitcrush(BitcrushPlugin),
    Telephone(TelephonePlugin),
    Lv2(Lv2Plugin),
}

/// The value that an entry gives a control, or else `default` thousandths.
pub open spec fn given(entry: EffectView, name: Seq<char>, default: int) -> Scalar {
    if entry.params.dom().contains(name) {
        entry.params[name]
    } else {
        milli(default)
    }
}

fn param_or(params: &TextMap<Scalar>, name: &str, default: i32) -> (r: Scalar)
    ensures
        r == (if params@.dom().contains(name@) {
            params@[name@]
        } else {
            milli(default as int)
        }),
{
    match params.get(name) {
        Some(value) => *value,
        None => from_milli(default),
    }
}

/// `effect` is what a chain entry stands for; `None` if it names no effect.
pub open spec fn stands_for(
    entry: EffectView,
    hosted: Option<Lv2Plugin>,
    effect: Option<Effect>,
) -> bool {
    let on = entry.enabled;
    if entry.id == "gain"@ {
        effect matches Some(Effect::Gain(p)) && p.enabled == on && p.gain == given(
            entry,
            "gain"@,
            1000,
        ).clamped(milli(0), milli(4000))
    } else if entry.id == "gate"@ {
        effect matches Some(Effect::Gate(p)) && p.enabled == on && p.threshold == given(
            entry,
            "threshold"@,
            20,
        ).clamped(milli(0), milli(1000)) && p.attack_ms == given(entry, "attack_ms"@, 10_000)
            && p.release_ms == given(entry, "release_ms"@, 100_000) && !p.gate_open
            && p.attack_counter == 0 && p.release_counter == 0
    } else if entry.id == "distortion"@ {
        effect matches Some(Effect::Distortion(p)) && p.enabled == on && p.drive == given(
            entry,
            "drive"@,
            5000,
        ).clamped(milli(1000), milli(50_000)) && p.mix == given(entry, "mix"@, 1000).clamped(
            milli(0),
            milli(1000),
        ) && p.level == given(entry, "level"@, 1000).clamped(milli(0), milli(2000))
    } else if entry.id == "bitcrush"@ {
        effect matches Some(Effect::Bitcrush(p)) && p.enabled == on && p.bits == given(
            entry,
            "bits"@,
            8000,
        ).clamped(milli(1000), milli(16_000)) && p.downsample == given(
            entry,
            "downsample"@,
            8000,
        ).clamped(milli(1000), milli(50_000)) && p.mix == given(entry, "mix"@, 1000).clamped(
            milli(0),
            milli(1000),
        ) && p.counter == 0 && p.hold == (Scalar { bits: 0 }, Scalar { bits: 0 })
    } else if entry.id == "telephone"@ {
        effect matches Some(Effect::Telephone(p)) && p.enabled == on && p.low_cut == given(
            entry,
            "low_cut"@,
            300_000,
        ).clamped(milli(20_000), milli(2_000_000)) && p.high_cut == given(
            entry,
            "high_cut"@,
            3_400_000,
        ).clamped(milli(200_000), milli(20_000_000)) && p.hp == Biquad::blank() && p.lp
            == Biquad::blank() && p.built_for == (
                Scalar { bits: 0 },
                Scalar { bits: 0 },
                0u32,
            )
    } else if lv2::is_lv2(entry.id) {
        match hosted {
            Some(plugin) => effect == Some(Effect::Lv2((Lv2Plugin { enabled: on, ..plugin }))),
            None => effect is None,
        }
    } else {
        effect is None
    }
}

/// The effect that a saved chain entry stands for, with the controls that the entry
/// sets. `hosted` is the plugin that was loaded for the entry, if it names one. `None` if
/// the identifier is unknown or the plugin could not be loaded.
pub fn plugin_from_entry(entry: &EffectEntry, hosted: Option<Lv2Plugin>) -> (r: Option<Effect>)
    ensures
        stands_for(entry@, hosted, r),
{
    let id: &str = entry.id.as_str();
    let params: &TextMap<Scalar> = &entry.params;
    let on: bool = entry.enabled;
    if same_text(id, "gain") {
        Some(Effect::Gain(GainPlugin::new(param_or(params, "gain", 1000), on)))
    } else if same_text(id, "gate") {
        Some(
            Effect::Gate(
                NoiseGatePlugin::new(
                    param_or(params, "threshold", 20),
                    param_or(params, "attack_ms", 10_000),
                    param_or(params, "release_ms", 100_000),
                    on,
                ),
            ),
        )
    } else if same_text(id, "distortion") {
        Some(
            Effect::Distortion(
                DistortionPlugin::new(
                    param_or(params, "drive", 5000),
                    param_or(params, "mix", 1000),
                    param_or(params, "level", 1000),
                    on,
                ),
            ),
        )
    } else if same_text(id, "bitcrush") {
        Some(
            Effect::Bitcrush(
                BitcrushPlugin::new(
                    param_or(params, "bits", 8000),
                    param_or(params, "downsample", 8000),
                    param_or(params, "mix", 1000),
                    on,
                ),
            ),
        )
    } else if same_text(id, "telephone") {
        Some(
            Effect::Telephone(
                TelephonePlugin::new(
                    param_or(params, "low_cut", 300_000),
                    param_or(params, "high_cut", 3_400_000),
                    on,
                ),
            ),
        )
    } else {
        match lv2::uri_from_id(id) {
            Some(_) => match hosted {
                Some(mut plugin) => {
                    plugin.set_enabled(on);
                    Some(Effect::Lv2(plugin))
                },
                None => None,
            },
            None => None,
        }
    }
}

/// `p` is the installed plugin for a chain entry: it has a control for each control port,
/// with the value that the entry gives it.
pub open spec fn is_plugin_for(
    entry: EffectView,
    plugin: lv2::InstalledPlugin,
    ports: Seq<lv2::Port>,
    p: Lv2Plugin,
) -> bool {
    let controls = ports.filter(lv2::is_control());
    &&& p.wf()
    &&& p.id@ == entry.id
    &&& p.name@ == plugin.name@
    &&& p.enabled == entry.enabled
    &&& p.audio_in == plugin.audio_inputs
    &&& p.audio_out == plugin.audio_outputs
    &&& p.params@.len() == controls.len()
    &&& forall|k: int|
        0 <= k < p.params@.len() ==> lv2::is_param_of(
            &controls[k],
            entry.params,
            (#[trigger] p.params@[k])@,
        )
    &&& p.control_ports@ == lv2::port_map(controls)
}

/// The entry names the plugin.
pub open spec fn names_plugin(entry: EffectView, plugin: lv2::InstalledPlugin) -> bool {
    lv2::is_lv2(entry.id) && lv2::uri_of(entry.id) == plugin.uri@
}

/// The plugin that a chain entry stands for, with the controls that the entry sets, if it
/// is the installed one.
pub fn host_entry(
    entry: &EffectEntry,
    plugin: &lv2::InstalledPlugin,
    ports: &Vec<lv2::Port>,
) -> (r: Option<Lv2Plugin>)
    requires
        forall|i: int|
            0 <= i < ports@.len() && (#[trigger] ports@[i]).control_input ==> lv2::usable(
                &ports@[i],
            ),
    ensures
        r is Some <==> names_plugin(entry@, *plugin),
        r matches Some(p) ==> is_plugin_for(entry@, *plugin, ports@, p),
{
    match lv2::uri_from_id(entry.id.as_str()) {
        Some(uri) => {
            if !same_text(uri.as_str(), plugin.uri.as_str()) {
                return None;
            }
            let mut p: Lv2Plugin = Lv2Plugin::instantiate(plugin, ports, &entry.params);
            p.set_enabled(entry.enabled);
            proof {
                lv2::identifiers_round_trip(entry.id@, plugin.uri@);
            }
            Some(p)
        },
        None => None,
    }
}

/// `r` is the effect that a chain entry stands for.
pub open spec fn is_effect_of(
    entry: EffectView,
    installed: Option<lv2::InstalledPlugin>,
    ports: Seq<lv2::Port>,
    r: Option<Effect>,
) -> bool {
    &&& !lv2::is_lv2(entry.id) ==> stands_for(entry, None, r)
    &&& lv2::is_lv2(entry.id) ==> match installed {
        Some(plugin) => if names_plugin(entry, plugin) {
            r matches Some(Effect::Lv2(p)) && is_plugin_for(entry, plugin, ports, p)
        } else {
            r is None
        },
        None => r is None,
    }
}

/// The effect that a chain entry stands for, on a machine where `installed` is the plugin
/// that it names, if there is one, and `ports` are the ports of that.
pub fn effect_from_entry(
    entry: &EffectEntry,
    installed: Option<&lv2::InstalledPlugin>,
    ports: &Vec<lv2::Port>,
) -> (r: Option<Effect>)
    requires
        forall|i: int|
            0 <= i < ports@.len() && (#[trigger] ports@[i]).control_input ==> lv2::usable(
                &ports@[i],
            ),
    ensures
        is_effect_of(
            entry@,
            match installed {
                Some(plugin) => Some(*plugin),
                None => None,
            },
            ports@,
            r,
        ),
{
    let hosted: Option<Lv2Plugin> = match installed {
        Some(plugin) => host_entry(entry, plugin, ports),
        None => None,
    };
    let r: Option<Effect> = plugin_from_entry(entry, hosted);
    proof {
        if lv2::is_lv2(entry.id@) {
            reveal_strlit("lv2:");
            reveal_strlit("gain");
            reveal_strlit("gate");
            reveal_strlit("distortion");
            reveal_strlit("bitcrush");
            reveal_strlit("telephone");
            assert(entry.id@.take(4)[0] == 'l');
            assert(entry.id@[0] == 'l');
        }
    }
    r
}

/// An entry names a plugin by its address behind the mark of a plugin.
pub proof fn entries_name_plugins_by_address(entry: EffectView, plugin: lv2::InstalledPlugin)
    ensures
        names_plugin(entry, plugin) <==> entry.id == "lv2:"@ + plugin.uri@,
{
    if names_plugin(entry, plugin) {
        assert(entry.id =~= "lv2:"@ + plugin.uri@);
    }
    if entry.id == "lv2:"@ + plugin.uri@ {
        assert(entry.id.take("lv2:"@.len() as int) =~= "lv2:"@);
        assert(lv2::uri_of(entry.id) =~= plugin.uri@);
    }
}

/// An entry of a plugin stands for the installed plugin that it names and for no other; any
/// other entry does not depend on what is installed.
pub proof fn plugins_are_found_by_their_entry(
    entry: EffectView,
    installed: Option<lv2::InstalledPlugin>,
    ports: Seq<lv2::Port>,
    r: Option<Effect>,
)
    requires
        is_effect_of(entry, installed, ports, r),
    ensures
        lv2::is_lv2(entry.id) ==> (r is Some <==> installed is Some && entry.id == "lv2:"@
            + installed->0.uri@),
        lv2::is_lv2(entry.id) && r is Some ==> r->0 is Lv2 && r->0->Lv2_0.enabled == entry.enabled
            && r->0->Lv2_0.name@ == installed->0.name@,
        !lv2::is_lv2(entry.id) ==> stands_for(entry, None, r),
{
    if installed is Some {
        entries_name_plugins_by_address(entry, installed->0);
    }
}

} // verus!
