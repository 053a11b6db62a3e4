//! The tray menu.
//!
//! The menu carries the effect presets as a group of radio options, so that a chain
//! can be switched without opening the window. The active preset is repeated in the
//! label of the submenu and in the tooltip, because some desktops draw radio marks
//! poorly.

use vstd::prelude::*;

use crate::text::{owned, position_of, replace_char, replaced, texts_view};

verus! {

pub const APP_ID: &'static str = "io.github.kilo2071.Resonate";

/// What a click in the tray asks for.
#[derive(Debug)]
pub enum TrayCmd {
    /// Show the main window.
    Show,
    /// Quit for real, not just hide in the background.
    Quit,
    /// Apply the named preset.
    LoadPreset(String),
}

impl Clone for TrayCmd {
    fn clone(&self) -> (r: Self)
        ensures
            r == *self,
    {
        match self {
            TrayCmd::Show => TrayCmd::Show,
            TrayCmd::Quit => TrayCmd::Quit,
            TrayCmd::LoadPreset(name) => TrayCmd::LoadPreset(name.clone()),
        }
    }
}

/// What the tray shows.
pub struct ResonateTray {
    /// Names of the presets, in the order of the menu.
    pub presets: Vec<String>,
    /// The preset that the live chain matches, if any.
    pub active: Option<String>,
}

/// The body of the preset submenu.
pub enum PresetMenu {
    /// One greyed-out item.
    Nothing { label: String },
    /// Radio options, one of them marked.
    Choice { selected: usize, options: Vec<String> },
}

/// An item of the tray menu.
pub enum MenuItem {
    Action { label: String, icon: String, cmd: TrayCmd },
    Separator,
    SubMenu { label: String, icon: String, body: PresetMenu },
}

/// The preset to mark: the active one, if it is among the presets.
pub open spec fn marked(presets: Seq<Seq<char>>, active: Option<Seq<char>>) -> Option<Seq<char>> {
    match active {
        Some(name) => if presets.contains(name) {
            Some(name)
        } else {
            None
        },
        None => None,
    }
}

/// What to call the current chain.
pub open spec fn label_of(presets: Seq<Seq<char>>, active: Option<Seq<char>>) -> Seq<char> {
    match marked(presets, active) {
        Some(name) => name,
        None => "Custom"@,
    }
}

/// A name as a menu label: an underscore is doubled, a single one would mark a
/// mnemonic.
pub open spec fn escaped(name: Seq<char>) -> Seq<char> {
    replaced(name, '_', "__"@)
}

/// The options: the presets, behind an option for a chain that matches none of them
/// if that is the case.
pub open spec fn options_of(presets: Seq<Seq<char>>, active: Option<Seq<char>>) -> Seq<Seq<char>> {
    let names = Seq::new(presets.len(), |i: int| escaped(presets[i]));
    match marked(presets, active) {
        Some(_) => names,
        None => seq!["Custom (unsaved)"@] + names,
    }
}

/// The marked option.
pub open spec fn is_selected(
    presets: Seq<Seq<char>>,
    active: Option<Seq<char>>,
    selected: int,
) -> bool {
    match marked(presets, active) {
        Some(name) => 0 <= selected < presets.len() && presets[selected] == name && forall|k: int|
            0 <= k < selected ==> #[trigger] presets[k] != name,
        None => selected == 0,
    }
}

/// The preset that picking option `idx` loads, if any.
pub open spec fn picked(
    presets: Seq<Seq<char>>,
    active: Option<Seq<char>>,
    idx: int,
) -> Option<Seq<char>> {
    let i = match marked(presets, active) {
        Some(_) => idx,
        None => idx - 1,
    };
    if 0 <= i < presets.len() {
        Some(presets[i])
    } else {
        None
    }
}

/// Escapes a name for a menu label.
pub fn escape_label(label: &str) -> (r: String)
    ensures
        r@ == escaped(label@),
{
    replace_char(label, '_', "__")
}

/// What picking an option asks for.
pub open spec fn is_pick(tray: ResonateTray, idx: int, r: Option<TrayCmd>) -> bool {
    match r {
        Some(TrayCmd::LoadPreset(name)) => picked(tray.names(), tray.active_name(), idx) == Some(
            name@,
        ),
        Some(_) => false,
        None => picked(tray.names(), tray.active_name(), idx) is None,
    }
}

/// The menu of a tray.
pub open spec fn is_menu(tray: ResonateTray, r: Seq<MenuItem>) -> bool {
    &&& r.len() == 5
    &&& r[0] matches MenuItem::Action { label, icon, cmd } && label@ == "Show Resonate"@ && icon@
        == APP_ID@ && cmd is Show
    &&& r[1] is Separator
    &&& r[2] matches MenuItem::SubMenu { label, icon, body } && label@ == "Effect Preset: "@
        + escaped(label_of(tray.names(), tray.active_name())) && icon@ == "media-eq-symbolic"@ && (
    match body {
        PresetMenu::Nothing { label } => tray.presets@.len() == 0 && label@
            == "No presets saved"@,
        PresetMenu::Choice { selected, options } => tray.presets@.len() > 0 && is_selected(
            tray.names(),
            tray.active_name(),
            selected as int,
        ) && texts_view(options@) == options_of(tray.names(), tray.active_name()),
    })
    &&& r[3] is Separator
    &&& r[4] matches MenuItem::Action { label, icon, cmd } && label@ == "Quit"@ && icon@
        == "application-exit-symbolic"@ && cmd is Quit
}

impl ResonateTray {
    /// Names of the presets.
    pub open spec fn names(&self) -> Seq<Seq<char>> {
        texts_view(self.presets@)
    }

    /// Name of the active preset.
    pub open spec fn active_name(&self) -> Option<Seq<char>> {
        match self.active {
            Some(name) => Some(name@),
            None => None,
        }
    }

    /// A tray without presets.
    pub fn new() -> (r: Self)
        ensures
            r.names() == Seq::<Seq<char>>::empty(),
            r.active_name() is None,
    {
        let r = ResonateTray { presets: Vec::new(), active: None };
        assert(r.names() =~= Seq::<Seq<char>>::empty());
        r
    }

    /// Replaces the presets that the menu shows.
    pub fn set_presets(&mut self, presets: Vec<String>, active: Option<String>)
        ensures
            final(self).presets == presets,
            final(self).active == active,
    {
        self.presets = presets;
        self.active = active;
    }

    fn active_position(&self) -> (r: Option<usize>)
        ensures
            match r {
                Some(i) => marked(self.names(), self.active_name()) is Some && is_selected(
                    self.names(),
                    self.active_name(),
                    i as int,
                ),
                None => marked(self.names(), self.active_name()) is None,
            },
    {
        match &self.active {
            Some(name) => {
                let r: Option<usize> = position_of(&self.presets, name.as_str());
                proof {
                    let names = self.names();
                    match r {
                        Some(i) => {
                            assert(names[i as int] == name@);
                            assert(names.contains(name@));
                            assert forall|k: int| 0 <= k < i implies #[trigger] names[k] != name@ by {
                                assert(self.presets@[k]@ != name@);
                            }
                        },
                        None => {
                            assert forall|k: int| 0 <= k < names.len() implies names[k] != name@ by {
                                assert(self.presets@[k]@ != name@);
                            }
                        },
                    }
                }
                r
            },
            None => None,
        }
    }

    /// What to show as the current preset: its name, or "Custom" when the live chain
    /// matches none of the presets.
    pub fn active_label(&self) -> (r: String)
        ensures
            r@ == label_of(self.names(), self.active_name()),
    {
        match self.active_position() {
            Some(i) => self.presets[i].clone(),
            None => owned("Custom"),
        }
    }

    /// The text of the tooltip.
    pub fn tool_tip(&self) -> (r: String)
        ensures
            r@ == "Effect preset: "@ + label_of(self.names(), self.active_name()),
    {
        let mut r: String = owned("Effect preset: ");
        let label: String = self.active_label();
        r.append(label.as_str());
        r
    }

    fn preset_menu(&self) -> (r: PresetMenu)
        ensures
            match r {
                PresetMenu::Nothing { label } => self.presets@.len() == 0 && label@
                    == "No presets saved"@,
                PresetMenu::Choice { selected, options } => self.presets@.len() > 0
                    && is_selected(self.names(), self.active_name(), selected as int)
                    && texts_view(options@) == options_of(self.names(), self.active_name()),
            },
    {
        if self.presets.len() == 0 {
            return PresetMenu::Nothing { label: owned("No presets saved") };
        }
        let position: Option<usize> = self.active_position();
        let mut options: Vec<String> = Vec::new();
        match position {
            Some(_) => {},
            None => {
                options.push(owned("Custom (unsaved)"));
            },
        }
        let ghost lead = texts_view(options@);
        let ghost names = Seq::new(
            self.presets@.len(),
            |i: int| escaped(self.presets@[i]@),
        );
        let mut i: usize = 0;
        assert(lead + names.take(0) =~= lead);
        while i < self.presets.len()
            invariant
                i <= self.presets@.len(),
                names == Seq::new(self.presets@.len(), |i: int| escaped(self.presets@[i]@)),
                texts_view(options@) == lead + names.take(i as int),
            decreases self.presets@.len() - i,
        {
            let ghost before = options@;
            options.push(escape_label(self.presets[i].as_str()));
            assert(texts_view(options@) =~= texts_view(before).push(names[i as int]));
            assert(lead + names.take(i + 1) =~= (lead + names.take(i as int)).push(
                names[i as int],
            ));
            i = i + 1;
        }
        let selected: usize = match position {
            Some(i) => i,
            None => 0,
        };
        assert(texts_view(options@) =~= options_of(self.names(), self.active_name())) by {
            assert(names.take(names.len() as int) =~= names);
            assert(names =~= Seq::new(self.names().len(), |i: int| escaped(self.names()[i])));
            if position is Some {
                assert(lead + names =~= names);
            } else {
                assert(lead =~= seq!["Custom (unsaved)"@]);
            }
        }
        PresetMenu::Choice { selected, options }
    }

    /// The tray menu, from top to bottom.
    pub fn menu(&self) -> (r: Vec<MenuItem>)
        ensures
            is_menu(*self, r@),
    {
        let mut label: String = owned("Effect Preset: ");
        let current: String = self.active_label();
        let current: String = escape_label(current.as_str());
        label.append(current.as_str());
        let mut r: Vec<MenuItem> = Vec::new();
        r.push(
            MenuItem::Action {
                label: owned("Show Resonate"),
                icon: owned(APP_ID),
                cmd: TrayCmd::Show,
            },
        );
        r.push(MenuItem::Separator);
        r.push(
            MenuItem::SubMenu { label, icon: owned("media-eq-symbolic"), body: self.preset_menu() },
        );
        r.push(MenuItem::Separator);
        r.push(
            MenuItem::Action {
                label: owned("Quit"),
                icon: owned("application-exit-symbolic"),
                cmd: TrayCmd::Quit,
            },
        );
        r
    }

    /// What picking option `idx` of the preset submenu asks for. The option for a
    /// chain that matches no preset keeps what there is.
    pub fn pick(&self, idx: usize) -> (r: Option<TrayCmd>)
        ensures
            is_pick(*self, idx as int, r),
    {
        let i: usize = match self.active_position() {
            Some(_) => idx,
            None => {
                if idx == 0 {
                    return None;
                }
                idx - 1
            },
        };
        if i < self.presets.len() {
            Some(TrayCmd::LoadPreset(self.presets[i].clone()))
        } else {
            None
        }
    }
}

/// The marked option is one of the options; picking it changes nothing: it loads the
/// preset that is active, or nothing if none is.
pub proof fn marked_option_is_current(
    presets: Seq<Seq<char>>,
    active: Option<Seq<char>>,
    selected: int,
)
    requires
        presets.len() > 0,
        is_selected(presets, active, selected),
    ensures
        0 <= selected < options_of(presets, active).len(),
        picked(presets, active, selected) == marked(presets, active),
{
}

/// Every option but the one for an unsaved chain loads the preset that it shows.
pub proof fn options_load_what_they_show(
    presets: Seq<Seq<char>>,
    active: Option<Seq<char>>,
    idx: int,
)
    requires
        0 <= idx < options_of(presets, active).len(),
    ensures
        picked(presets, active, idx) matches Some(name) ==> options_of(presets, active)[idx]
            == escaped(name),
        picked(presets, active, idx) is None <==> (marked(presets, active) is None && idx == 0),
{
}

/// Different names have different labels.
pub proof fn labels_differ(a: Seq<char>, b: Seq<char>)
    requires
        escaped(a) == escaped(b),
    ensures
        a == b,
    decreases a.len(),
{
    reveal_strlit("__");
    let two = "__"@;
    if a.len() == 0 {
        if b.len() > 0 {
            assert(escaped(b).len() > 0);
        }
        assert(a =~= b);
    } else {
        assert(escaped(a).len() > 0);
        if b.len() == 0 {
            assert(escaped(b).len() == 0);
        }
        let ra = escaped(a.drop_last());
        let rb = escaped(b.drop_last());
        assert(escaped(a).last() == a.last());
        assert(escaped(b).last() == b.last());
        if a.last() == '_' {
            assert(ra =~= escaped(a).take(escaped(a).len() - 2));
            assert(rb =~= escaped(b).take(escaped(b).len() - 2));
        } else {
            assert(ra =~= escaped(a).drop_last());
            assert(rb =~= escaped(b).drop_last());
        }
        labels_differ(a.drop_last(), b.drop_last());
        assert(a =~= a.drop_last().push(a.last()));
        assert(b =~= b.drop_last().push(b.last()));
    }
}

/// The tray names the preset that the chain matches, as long as it is in the menu, and says
/// otherwise that the chain is one of its own.
pub proof fn the_tray_names_the_active_preset(presets: Seq<Seq<char>>, active: Option<Seq<char>>)
    ensures
        active is Some && presets.contains(active->0) ==> label_of(presets, active) == active->0,
        active is None || !presets.contains(active->0) ==> label_of(presets, active)
            == "Custom"@,
        active is Some && presets.contains(active->0) ==> options_of(presets, active).len()
            == presets.len(),
        active is None || !presets.contains(active->0) ==> options_of(presets, active).len()
            == presets.len() + 1,
{
}

/// The entries of the menu do what they say: the first shows the window, the last quits,
/// and the presets are in between.
pub proof fn menu_entries_do_what_they_say(tray: ResonateTray, r: Seq<MenuItem>)
    requires
        is_menu(tray, r),
    ensures
        r.len() > 0,
        r[0] matches MenuItem::Action { label, icon, cmd } && label@ == "Show Resonate"@ && cmd is Show,
        r.last() matches MenuItem::Action { label, icon, cmd } && label@ == "Quit"@ && cmd is Quit,
        r[2] is SubMenu,
        r[2]->body is Nothing <==> tray.presets@.len() == 0,
        tray.presets@.len() > 0 ==> r[2]->body->options@.len() == tray.presets@.len()
            + if tray.active_name() is Some && tray.names().contains(tray.active_name()->0) {
            0int
        } else {
            1int
        },
{
    if tray.presets@.len() > 0 {
        assert(texts_view(r[2]->body->options@).len() == r[2]->body->options@.len());
    }
}

/// Picking an option loads the preset that it shows, or nothing.
pub proof fn a_pick_loads_what_it_shows(tray: ResonateTray, idx: int, r: Option<TrayCmd>)
    requires
        is_pick(tray, idx, r),
        0 <= idx < options_of(tray.names(), tray.active_name()).len(),
    ensures
        r is None <==> !(tray.active_name() is Some && tray.names().contains(
            tray.active_name()->0,
        )) && idx == 0,
        r matches Some(cmd) ==> cmd is LoadPreset && options_of(
            tray.names(),
            tray.active_name(),
        )[idx] == escaped(cmd->LoadPreset_0@),
{
}

} // verus!
