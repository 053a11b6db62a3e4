//! Which controls of an effect to show first.
//!
//! A list of sliders is fine for a plugin with five controls and hopeless for a
//! serious one, which may have two hundred. Each unwieldy effect therefore has a list
//! of primary controls, in the order in which they should appear; the rest is folded
//! away behind them. Nothing is hidden: an effect without such a list, or one whose
//! controls are all primary, is shown as it is.

use vstd::prelude::*;

use crate::search::{first_index, first_index_holds, found_first, found_none};
use crate::text::{same_text, texts_view, views};

verus! {

/// The primary controls of an effect.
pub struct Layout {
    pub id: &'static str,
    pub primary: Vec<&'static str>,
}

pub struct LayoutView {
    pub id: Seq<char>,
    pub primary: Seq<Seq<char>>,
}

impl View for Layout {
    type V = LayoutView;

    open spec fn view(&self) -> LayoutView {
        LayoutView { id: self.id@, primary: views(self.primary@) }
    }
}

pub open spec fn layouts_view(layouts: Seq<Layout>) -> Seq<LayoutView> {
    Seq::new(layouts.len(), |i: int| layouts[i]@)
}

/// The effects with a list of primary controls.
pub open spec fn primary_table() -> Seq<LayoutView> {
    seq![
        LayoutView {
            id: "lv2:http://lsp-plug.in/plugins/lv2/compressor_stereo"@,
            primary: seq!["al"@, "cr"@, "at"@, "rt"@, "kn"@, "mk"@, "g_in"@, "g_out"@],
        },
        LayoutView {
            id: "lv2:http://lsp-plug.in/plugins/lv2/limiter_stereo"@,
            primary: seq!["th"@, "at"@, "rt"@, "lk"@, "mode"@, "boost"@, "g_in"@, "g_out"@],
        },
        LayoutView {
            id: "lv2:http://lsp-plug.in/plugins/lv2/autogain_stereo"@,
            primary: seq!["level"@, "preamp"@, "max_amp"@, "silence"@, "lkahead"@, "weight"@],
        },
        LayoutView {
            id: "lv2:http://lsp-plug.in/plugins/lv2/para_equalizer_x16_stereo"@,
            primary: seq!["g_in"@, "g_out"@, "ft_0"@, "f_0"@, "g_0"@, "q_0"@, "ft_1"@, "f_1"@, "g_1"@, "q_1"@, "ft_2"@, "f_2"@, "g_2"@, "q_2"@, "ft_3"@, "f_3"@, "g_3"@, "q_3"@],
        },
        LayoutView {
            id: "lv2:http://calf.sourceforge.net/plugins/Vocoder"@,
            primary: seq!["bands"@, "order"@, "attack"@, "release"@, "hiq"@, "carrier"@, "modulator"@, "processed"@, "lower"@, "upper"@, "tilt"@],
        },
        LayoutView {
            id: "lv2:http://calf.sourceforge.net/plugins/RingModulator"@,
            primary: seq!["mod_mode"@, "mod_freq"@, "mod_amount"@, "mod_phase"@, "mod_detune"@, "level_in"@, "level_out"@],
        },
        LayoutView {
            id: "lv2:http://gareus.org/oss/lv2/fat1"@,
            primary: seq!["mode"@, "tuning"@, "bias"@, "filter"@, "corr"@, "offset"@, "bendrange"@, "fastmode"@],
        },
        LayoutView {
            id: "lv2:http://calf.sourceforge.net/plugins/VintageDelay"@,
            primary: seq!["timing"@, "ms"@, "feedback"@, "amount"@, "dry"@, "mix_mode"@, "medium"@, "width"@, "level_out"@],
        },
        LayoutView {
            id: "lv2:http://calf.sourceforge.net/plugins/ReverseDelay"@,
            primary: seq!["window"@, "time_l"@, "time_r"@, "feedback"@, "amount"@, "width"@, "level_out"@],
        },
        LayoutView {
            id: "lv2:http://calf.sourceforge.net/plugins/MultiChorus"@,
            primary: seq!["voices"@, "mod_depth"@, "mod_rate"@, "min_delay"@, "amount"@, "dry"@, "stereo"@],
        },
        LayoutView {
            id: "lv2:http://calf.sourceforge.net/plugins/Pulsator"@,
            primary: seq!["mode"@, "amount"@, "ms"@, "pulsewidth"@, "mono"@, "offset_l"@, "offset_r"@],
        },
        LayoutView {
            id: "lv2:http://calf.sourceforge.net/plugins/Saturator"@,
            primary: seq!["drive"@, "blend"@, "mix"@, "level_in"@, "level_out"@],
        },
        LayoutView {
            id: "lv2:http://calf.sourceforge.net/plugins/RotarySpeaker"@,
            primary: seq!["vib_speed"@, "treble_speed"@, "bass_speed"@, "mod_depth"@, "mic_distance"@, "am_depth"@],
        },
    ]
}

/// The effects with a list of primary controls.
pub fn primary_layouts() -> (r: Vec<Layout>)
    ensures
        layouts_view(r@) == primary_table(),
{
    let r: Vec<Layout> = vec![
        Layout {
            id: "lv2:http://lsp-plug.in/plugins/lv2/compressor_stereo",
            primary: vec!["al", "cr", "at", "rt", "kn", "mk", "g_in", "g_out"],
        },
        Layout {
            id: "lv2:http://lsp-plug.in/plugins/lv2/limiter_stereo",
            primary: vec!["th", "at", "rt", "lk", "mode", "boost", "g_in", "g_out"],
        },
        Layout {
            id: "lv2:http://lsp-plug.in/plugins/lv2/autogain_stereo",
            primary: vec!["level", "preamp", "max_amp", "silence", "lkahead", "weight"],
        },
        Layout {
            id: "lv2:http://lsp-plug.in/plugins/lv2/para_equalizer_x16_stereo",
            primary: vec!["g_in", "g_out", "ft_0", "f_0", "g_0", "q_0", "ft_1", "f_1", "g_1", "q_1", "ft_2", "f_2", "g_2", "q_2", "ft_3", "f_3", "g_3", "q_3"],
        },
        Layout {
            id: "lv2:http://calf.sourceforge.net/plugins/Vocoder",
            primary: vec!["bands", "order", "attack", "release", "hiq", "carrier", "modulator", "processed", "lower", "upper", "tilt"],
        },
        Layout {
            id: "lv2:http://calf.sourceforge.net/plugins/RingModulator",
            primary: vec!["mod_mode", "mod_freq", "mod_amount", "mod_phase", "mod_detune", "level_in", "level_out"],
        },
        Layout {
            id: "lv2:http://gareus.org/oss/lv2/fat1",
            primary: vec!["mode", "tuning", "bias", "filter", "corr", "offset", "bendrange", "fastmode"],
        },
        Layout {
            id: "lv2:http://calf.sourceforge.net/plugins/VintageDelay",
            primary: vec!["timing", "ms", "feedback", "amount", "dry", "mix_mode", "medium", "width", "level_out"],
        },
        Layout {
            id: "lv2:http://calf.sourceforge.net/plugins/ReverseDelay",
            primary: vec!["window", "time_l", "time_r", "feedback", "amount", "width", "level_out"],
        },
        Layout {
            id: "lv2:http://calf.sourceforge.net/plugins/MultiChorus",
            primary: vec!["voices", "mod_depth", "mod_rate", "min_delay", "amount", "dry", "stereo"],
        },
        Layout {
            id: "lv2:http://calf.sourceforge.net/plugins/Pulsator",
            primary: vec!["mode", "amount", "ms", "pulsewidth", "mono", "offset_l", "offset_r"],
        },
        Layout {
            id: "lv2:http://calf.sourceforge.net/plugins/Saturator",
            primary: vec!["drive", "blend", "mix", "level_in", "level_out"],
        },
        Layout {
            id: "lv2:http://calf.sourceforge.net/plugins/RotarySpeaker",
            primary: vec!["vib_speed", "treble_speed", "bass_speed", "mod_depth", "mic_distance", "am_depth"],
        },
    ];
    proof {
        assert(views(r@[0].primary@) =~= primary_table()[0].primary);
        assert(views(r@[1].primary@) =~= primary_table()[1].primary);
        assert(views(r@[2].primary@) =~= primary_table()[2].primary);
        assert(views(r@[3].primary@) =~= primary_table()[3].primary);
        assert(views(r@[4].primary@) =~= primary_table()[4].primary);
        assert(views(r@[5].primary@) =~= primary_table()[5].primary);
        assert(views(r@[6].primary@) =~= primary_table()[6].primary);
        assert(views(r@[7].primary@) =~= primary_table()[7].primary);
        assert(views(r@[8].primary@) =~= primary_table()[8].primary);
        assert(views(r@[9].primary@) =~= primary_table()[9].primary);
        assert(views(r@[10].primary@) =~= primary_table()[10].primary);
        assert(views(r@[11].primary@) =~= primary_table()[11].primary);
        assert(views(r@[12].primary@) =~= primary_table()[12].primary);
    }
    assert(layouts_view(r@) =~= primary_table());
    r
}

/// The list of an effect.
pub open spec fn layout_for(id: Seq<char>) -> spec_fn(LayoutView) -> bool {
    |l: LayoutView| l.id == id
}

/// The primary controls of an effect, if it has a list.
pub open spec fn primary_of(id: Seq<char>) -> Option<Seq<Seq<char>>> {
    match first_index(primary_table(), layout_for(id)) {
        Some(i) => Some(primary_table()[i].primary),
        None => None,
    }
}

/// The controls to show above the fold for `id`, or `None` when the effect is small
/// enough to show whole.
pub fn primary_params(id: &str) -> (r: Option<Vec<&'static str>>)
    ensures
        (match r {
            Some(primary) => Some(views(primary@)),
            None => None,
        }) == primary_of(id@),
{
    let mut layouts: Vec<Layout> = primary_layouts();
    let ghost table = layouts_view(layouts@);
    let ghost p = layout_for(id@);
    let mut i: usize = 0;
    while i < layouts.len()
        invariant
            i <= layouts@.len(),
            table == layouts_view(layouts@),
            table == primary_table(),
            p == layout_for(id@),
            forall|k: int| 0 <= k < i ==> !p(#[trigger] table[k]),
        decreases layouts@.len() - i,
    {
        assert(table[i as int].id == layouts@[i as int].id@);
        if same_text(layouts[i].id, id) {
            proof {
                found_first(table, p, i as int);
            }
            let layout: Layout = layouts.remove(i);
            return Some(layout.primary);
        }
        i = i + 1;
    }
    proof {
        found_none(table, p);
    }
    None
}

// ── Folding ──────────────────────────────────────────────────────────────────

/// Position of a control.
pub open spec fn control_at(controls: Seq<Seq<char>>, id: Seq<char>) -> Option<int> {
    first_index(controls, |c: Seq<char>| c == id)
}

/// Positions of the primary controls that there are, in the order of the list.
pub open spec fn promoted(controls: Seq<Seq<char>>, primary: Seq<Seq<char>>) -> Seq<int>
    decreases primary.len(),
{
    if primary.len() == 0 {
        Seq::empty()
    } else {
        let rest = promoted(controls, primary.drop_last());
        match control_at(controls, primary.last()) {
            Some(i) => if rest.contains(i) {
                rest
            } else {
                rest.push(i)
            },
            None => rest,
        }
    }
}

/// Positions below `n` that are not among `shown`, in order.
pub open spec fn left_over(n: nat, shown: Seq<int>) -> Seq<int>
    decreases n,
{
    if n == 0 {
        Seq::empty()
    } else if shown.contains(n - 1) {
        left_over((n - 1) as nat, shown)
    } else {
        left_over((n - 1) as nat, shown).push(n - 1)
    }
}

/// All positions below `n`.
pub open spec fn everything(n: nat) -> Seq<int> {
    Seq::new(n, |i: int| i)
}

/// What is shown and what is folded away.
pub open spec fn folded(controls: Seq<Seq<char>>, primary: Option<Seq<Seq<char>>>) -> (
    Seq<int>,
    Seq<int>,
) {
    match primary {
        Some(primary) => {
            let shown = promoted(controls, primary);
            let rest = left_over(controls.len(), shown);
            if rest.len() == 0 {
                (everything(controls.len()), Seq::empty())
            } else {
                (shown, rest)
            }
        },
        None => (everything(controls.len()), Seq::empty()),
    }
}

/// Positions as mathematical integers.
pub open spec fn ints(positions: Seq<usize>) -> Seq<int> {
    Seq::new(positions.len(), |i: int| positions[i] as int)
}

proof fn left_over_excludes(n: nat, shown: Seq<int>)
    ensures
        forall|i: int|
            #[trigger] left_over(n, shown).contains(i) <==> (0 <= i < n && !shown.contains(i)),
        left_over(n, shown).no_duplicates(),
    decreases n,
{
    if n > 0 {
        let rest = left_over((n - 1) as nat, shown);
        left_over_excludes((n - 1) as nat, shown);
        if !shown.contains(n - 1) {
            let all = rest.push(n - 1);
            assert forall|i: int| #[trigger] all.contains(i) <==> (0 <= i < n && !shown.contains(i)) by {
                if all.contains(i) {
                    let k = choose|k: int| 0 <= k < all.len() && all[k] == i;
                    if k < rest.len() {
                        assert(rest[k] == i);
                        assert(rest.contains(i));
                    }
                }
                if 0 <= i < n && !shown.contains(i) {
                    if i < n - 1 {
                        assert(rest.contains(i));
                        let k = choose|k: int| 0 <= k < rest.len() && rest[k] == i;
                        assert(all[k] == i);
                    } else {
                        assert(all[rest.len() as int] == i);
                    }
                }
            }
            assert forall|a: int, b: int|
                0 <= a < all.len() && 0 <= b < all.len() && a != b implies all[a] != all[b] by {
                if a < rest.len() {
                    assert(rest.contains(rest[a]));
                }
                if b < rest.len() {
                    assert(rest.contains(rest[b]));
                }
            }
        }
    }
}

proof fn promoted_are_controls(controls: Seq<Seq<char>>, primary: Seq<Seq<char>>)
    ensures
        promoted(controls, primary).no_duplicates(),
        forall|k: int|
            0 <= k < promoted(controls, primary).len() ==> 0 <= #[trigger] promoted(
                controls,
                primary,
            )[k] < controls.len(),
    decreases primary.len(),
{
    if primary.len() > 0 {
        promoted_are_controls(controls, primary.drop_last());
        crate::search::first_index_holds(controls, |c: Seq<char>| c == primary.last());
    }
}

/// Nothing is hidden: every control is either shown or folded away, and none of them
/// twice.
pub proof fn nothing_is_hidden(
    controls: Seq<Seq<char>>,
    primary: Option<Seq<Seq<char>>>,
    i: int,
)
    requires
        0 <= i < controls.len(),
    ensures
        ({
            let (shown, rest) = folded(controls, primary);
            &&& shown.contains(i) != rest.contains(i)
            &&& shown.no_duplicates()
            &&& rest.no_duplicates()
        }),
{
    let all = everything(controls.len());
    assert(all[i] == i);
    if let Some(primary) = primary {
        promoted_are_controls(controls, primary);
        left_over_excludes(controls.len(), promoted(controls, primary));
    }
}

/// The controls to show, and those to fold away, by their positions among
/// `controls`.
pub fn fold_params(id: &str, controls: &Vec<String>) -> (r: (Vec<usize>, Vec<usize>))
    ensures
        (ints(r.0@), ints(r.1@)) == folded(texts_view(controls@), primary_of(id@)),
{
    let ghost names = texts_view(controls@);
    let n: usize = controls.len();
    match primary_params(id) {
        Some(primary) => {
            let ghost wanted = views(primary@);
            let mut shown: Vec<usize> = Vec::new();
            let mut k: usize = 0;
            proof {
                assert(wanted.take(0) =~= Seq::empty());
                assert(ints(shown@) =~= promoted(names, wanted.take(0)));
            }
            while k < primary.len()
                invariant
                    k <= primary@.len(),
                    names == texts_view(controls@),
                    wanted == views(primary@),
                    ints(shown@) == promoted(names, wanted.take(k as int)),
                decreases primary@.len() - k,
            {
                proof {
                    assert(wanted.take(k + 1).drop_last() =~= wanted.take(k as int));
                    assert(wanted.take(k + 1).last() == primary@[k as int]@);
                }
                match position_in(controls, primary[k]) {
                    Some(i) => {
                        if !holds(&shown, i) {
                            let ghost before = shown@;
                            shown.push(i);
                            assert(ints(shown@) =~= ints(before).push(i as int));
                        }
                    },
                    None => {},
                }
                k = k + 1;
            }
            assert(wanted.take(wanted.len() as int) =~= wanted);
            let mut rest: Vec<usize> = Vec::new();
            let mut i: usize = 0;
            assert(ints(rest@) =~= left_over(0, ints(shown@)));
            while i < n
                invariant
                    i <= n,
                    ints(rest@) == left_over(i as nat, ints(shown@)),
                decreases n - i,
            {
                if !holds(&shown, i) {
                    let ghost before = rest@;
                    rest.push(i);
                    assert(ints(rest@) =~= ints(before).push(i as int));
                }
                i = i + 1;
            }
            if rest.len() == 0 {
                let r: (Vec<usize>, Vec<usize>) = (positions(n), rest);
                assert(ints(r.1@) =~= Seq::empty());
                r
            } else {
                assert(rest@.len() == ints(rest@).len());
                (shown, rest)
            }
        },
        None => {
            let r: (Vec<usize>, Vec<usize>) = (positions(n), Vec::new());
            assert(ints(r.1@) =~= Seq::empty());
            r
        },
    }
}

fn positions(n: usize) -> (r: Vec<usize>)
    ensures
        ints(r@) == everything(n as nat),
{
    let mut r: Vec<usize> = Vec::new();
    while r.len() < n
        invariant
            r@.len() <= n,
            forall|k: int| 0 <= k < r@.len() ==> #[trigger] r@[k] == k,
        decreases n - r@.len(),
    {
        let i: usize = r.len();
        r.push(i);
    }
    assert(ints(r@) =~= everything(n as nat));
    r
}

fn holds(positions: &Vec<usize>, i: usize) -> (r: bool)
    ensures
        r == ints(positions@).contains(i as int),
{
    let mut k: usize = 0;
    while k < positions.len()
        invariant
            k <= positions@.len(),
            forall|j: int| 0 <= j < k ==> ints(positions@)[j] != i,
        decreases positions@.len() - k,
    {
        if positions[k] == i {
            assert(ints(positions@)[k as int] == i);
            return true;
        }
        k = k + 1;
    }
    false
}

fn position_in(controls: &Vec<String>, id: &str) -> (r: Option<usize>)
    ensures
        (match r {
            Some(i) => Some(i as int),
            None => None,
        }) == control_at(texts_view(controls@), id@),
{
    let ghost names = texts_view(controls@);
    let ghost p = |c: Seq<char>| c == id@;
    let mut i: usize = 0;
    while i < controls.len()
        invariant
            i <= controls@.len(),
            names == texts_view(controls@),
            p == (|c: Seq<char>| c == id@),
            forall|k: int| 0 <= k < i ==> !p(#[trigger] names[k]),
        decreases controls@.len() - i,
    {
        assert(names[i as int] == controls@[i as int]@);
        if same_text(controls[i].as_str(), id) {
            proof {
                found_first(names, p, i as int);
            }
            return Some(i);
        }
        i = i + 1;
    }
    proof {
        found_none(names, p);
    }
    None
}

/// The controls that are shown first come in the order of the list, each of them once;
/// every control of the list that there is is among them, and nothing else.
pub proof fn listed_controls_come_in_order(controls: Seq<Seq<char>>, primary: Seq<Seq<char>>) -> (at:
    Seq<int>)
    ensures
        at.len() == promoted(controls, primary).len(),
        forall|i: int|
            0 <= i < at.len() ==> 0 <= (#[trigger] at[i]) < primary.len() && 0 <= promoted(
                controls,
                primary,
            )[i] < controls.len() && controls[promoted(controls, primary)[i]] == primary[at[i]],
        forall|i: int, j: int| 0 <= i < j < at.len() ==> (#[trigger] at[i]) < (#[trigger] at[j]),
        forall|k: int|
            0 <= k < primary.len() && controls.contains(#[trigger] primary[k]) ==> exists|i: int|
                0 <= i < at.len() && controls[#[trigger] promoted(controls, primary)[i]]
                    == primary[k],
    decreases primary.len(),
{
    if primary.len() == 0 {
        Seq::empty()
    } else {
        let front = primary.drop_last();
        let (rest, all) = (promoted(controls, front), promoted(controls, primary));
        let before = listed_controls_come_in_order(controls, front);
        let p = |c: Seq<char>| c == primary.last();
        first_index_holds(controls, p);
        let at = if rest.len() < all.len() {
            before.push(primary.len() - 1)
        } else {
            before
        };
        assert forall|i: int| 0 <= i < at.len() implies 0 <= (#[trigger] at[i]) < primary.len() && 0
            <= all[i] < controls.len() && controls[all[i]] == primary[at[i]] by {
            if i < rest.len() {
                assert(all[i] == rest[i] && at[i] == before[i]);
                assert(front[before[i]] == primary[before[i]]);
            }
        }
        assert forall|k: int|
            0 <= k < primary.len() && controls.contains(#[trigger] primary[k]) implies exists|i: int|
            0 <= i < at.len() && controls[#[trigger] all[i]] == primary[k] by {
            if k < front.len() {
                assert(front[k] == primary[k]);
                let i = choose|i: int| 0 <= i < before.len() && controls[#[trigger] rest[i]]
                    == front[k];
                assert(all[i] == rest[i]);
            } else {
                let c = choose|c: int| 0 <= c < controls.len() && controls[c] == primary[k];
                assert(p(controls[c]));
                let i = control_at(controls, primary.last())->0;
                assert(p(controls[i]));
                if rest.contains(i) {
                    let j = choose|j: int| 0 <= j < rest.len() && rest[j] == i;
                    assert(all[j] == i);
                } else {
                    assert(all[rest.len() as int] == i);
                }
            }
        }
        at
    }
}

proof fn left_over_goes_up(n: nat, shown: Seq<int>)
    ensures
        forall|i: int| 0 <= i < left_over(n, shown).len() ==> (#[trigger] left_over(n, shown)[i]) < n,
        forall|i: int, j: int|
            0 <= i < j < left_over(n, shown).len() ==> (#[trigger] left_over(n, shown)[i]) < (
            #[trigger] left_over(n, shown)[j]),
    decreases n,
{
    if n > 0 {
        let (rest, all) = (left_over((n - 1) as nat, shown), left_over(n, shown));
        left_over_goes_up((n - 1) as nat, shown);
        assert forall|i: int| 0 <= i < all.len() implies (#[trigger] all[i]) < n by {
            if i < rest.len() {
                assert(all[i] == rest[i]);
            }
        }
        assert forall|i: int, j: int| 0 <= i < j < all.len() implies (#[trigger] all[i]) < (
        #[trigger] all[j]) by {
            assert(all[i] == rest[i]);
            if j < rest.len() {
                assert(all[j] == rest[j]);
            }
        }
    }
}

/// What is folded away keeps the order that it has in the plugin; where nothing is, all
/// controls are shown in that order.
pub proof fn the_rest_keeps_its_order(
    controls: Seq<Seq<char>>,
    primary: Option<Seq<Seq<char>>>,
    i: int,
    j: int,
)
    ensures
        ({
            let (shown, rest) = folded(controls, primary);
            &&& 0 <= i < j < rest.len() ==> rest[i] < rest[j]
            &&& rest.len() == 0 ==> shown.len() == controls.len()
            &&& rest.len() == 0 && 0 <= i < shown.len() ==> shown[i] == i
            &&& primary is None ==> rest.len() == 0
            &&& rest.len() > 0 ==> shown == promoted(controls, primary->0)
        }),
{
    if primary is Some {
        left_over_goes_up(controls.len(), promoted(controls, primary->0));
    }
}

/// A plugin that has a list of its own is shown by it.
pub proof fn lists_are_found(k: int)
    requires
        0 <= k < primary_table().len(),
    ensures
        primary_of(primary_table()[k].id) is Some,
        exists|j: int|
            0 <= j <= k && (#[trigger] primary_table()[j]).id == primary_table()[k].id && primary_of(
                primary_table()[k].id,
            ) == Some(primary_table()[j].primary),
{
    let p = layout_for(primary_table()[k].id);
    first_index_holds(primary_table(), p);
    assert(p(primary_table()[k]));
    let j = first_index(primary_table(), p)->0;
    assert(p(primary_table()[j]));
}

} // verus!
