//! The window: what happens when sounds are added, played, renamed and removed, when the
//! chain of effects is edited, and when the window is closed.

use vstd::prelude::*;
use vstd::arithmetic::power2::pow2;

use crate::arithmetic::{milli_one, nearest_exists};
use crate::audio::engine::{engine_renamed, AudioEngine, PlayParams};
use crate::config::{
    carried_over, chain_view, clone_chain, finite_chain, gain_view, gate_view, is_active_preset,
    preset_chains, preset_matches, sound_key_of, Config, EffectEntry, EffectView, SoundSettings,
    StartMode,
};
use crate::config::chain_matches_itself;
use crate::number::{decimal, push_decimal};
use crate::order::{
    is_sorted_order, keys_view, sort_order, sorted_order_is_a_permutation, sorts_before, SortKey,
};
use crate::ordered::{share_by_one, shares_by_more_are_less};
use crate::path::{
    a_file_is_in_its_folder, body, equal_paths, extension, extension_of, file_name, file_stem, has_file_name, join, joined, last_dot, last_segment,
    parent, parent_of, plain_name, same_path, set_extension, stem_of, with_extension,
};
use crate::path::{extension_is_added, file_names_are_plain, last_dot_is_inside, name_in_a_folder};
use crate::plugins::chains::{
    called, chain_called, factory_chain, first_match, matching_factory, named_view, NamedChain, NamedView,
};
use crate::plugins::presets::{applied, apply_values, values_view};
use crate::rounding::{from_milli, is_percent, milli, milli_grows, milli_is_finite, milli_zero};
use crate::scalar::{clamping_is_idempotent, units, units_grow, Scalar};
use crate::search::{filter_positions, first_index, first_index_holds, found_first, found_none};
use crate::text::{
    concat, concat_all, has_part, lex_lt, lowercase, occurs_at, owned, position_of, same_text,
    texts_view, to_lowercase, trim, trimmed, views,
};
use crate::tray::APP_ID;
use crate::ui::soundboard::{is_added, is_at, text_view, ResonateSoundboardPage};

verus! {

// ── Sound files ──────────────────────────────────────────────────────────────

/// The extensions of sound files.
pub open spec fn audio_extensions() -> Seq<Seq<char>> {
    seq!["wav"@, "mp3"@, "ogg"@, "flac"@, "aac"@, "m4a"@, "opus"@, "wma"@]
}

/// The extensions of sound files.
pub fn audio_extension_list() -> (r: Vec<&'static str>)
    ensures
        views(r@) == audio_extensions(),
{
    let r: Vec<&'static str> = vec!["wav", "mp3", "ogg", "flac", "aac", "m4a", "opus", "wma"];
    assert(views(r@) =~= audio_extensions());
    r
}

/// The file has the extension of a sound file, whatever the letter case.
pub open spec fn is_audio(path: Seq<char>) -> bool {
    let name = last_segment(path);
    has_file_name(path) && last_dot(name) > 0 && audio_extensions().contains(
        lowercase(name.skip(last_dot(name) + 1)),
    )
}

fn is_known_extension(ext: &str) -> (r: bool)
    ensures
        r == audio_extensions().contains(ext@),
{
    let known: Vec<&'static str> = audio_extension_list();
    let mut i: usize = 0;
    while i < known.len()
        invariant
            i <= known@.len(),
            views(known@) == audio_extensions(),
            forall|k: int| 0 <= k < i ==> (#[trigger] audio_extensions()[k]) != ext@,
        decreases known@.len() - i,
    {
        assert(views(known@)[i as int] == known@[i as int]@);
        if same_text(known[i], ext) {
            assert(audio_extensions()[i as int] == ext@);
            return true;
        }
        i = i + 1;
    }
    false
}

/// Whether a file is a sound file, by its extension.
pub fn is_audio_file(path: &str) -> (r: bool)
    ensures
        r == is_audio(path@),
{
    match extension(path) {
        Some(ext) => {
            let small: String = to_lowercase(ext.as_str());
            is_known_extension(small.as_str())
        },
        None => false,
    }
}

/// What happens to a file that is added when files are moved to the sounds folder.
pub enum MovePlan {
    /// It is there already, or has no name.
    Stay,
    /// It goes here.
    Go(String),
}

/// `plan` is where a file goes that is moved to a folder.
pub open spec fn is_move_plan(src: Seq<char>, dest_dir: Seq<char>, plan: MovePlan) -> bool {
    match plan {
        MovePlan::Stay => !has_file_name(src) || (parent_of(src) matches Some(dir)
            && equal_paths(dir, dest_dir)),
        MovePlan::Go(dest) => {
            &&& has_file_name(src)
            &&& !(parent_of(src) matches Some(dir) && equal_paths(dir, dest_dir))
            &&& dest@ == joined(dest_dir, last_segment(src))
        },
    }
}

/// Where a file goes that is moved to a folder.
pub fn move_plan(src: &str, dest_dir: &str) -> (r: MovePlan)
    ensures
        is_move_plan(src@, dest_dir@, r),
{
    match parent(src) {
        Some(dir) => {
            if same_path(dir.as_str(), dest_dir) {
                return MovePlan::Stay;
            }
        },
        None => {},
    }
    match file_name(src) {
        Some(name) => MovePlan::Go(join(dest_dir, name.as_str())),
        None => MovePlan::Stay,
    }
}

/// What came of a move: whether the folder is there, and whether the file was moved.
pub struct MoveTry {
    pub folder_made: bool,
    pub moved: bool,
}

/// Where a file is after it was to be moved.
pub open spec fn moved_to(src: Seq<char>, plan: MovePlan, tried: MoveTry) -> Seq<char> {
    match plan {
        MovePlan::Stay => src,
        MovePlan::Go(dest) => if tried.folder_made && tried.moved {
            dest@
        } else {
            src
        },
    }
}

/// Where the file is afterwards.
pub fn place_after_move(src: &str, plan: &MovePlan, tried: &MoveTry) -> (r: String)
    ensures
        r@ == moved_to(src@, *plan, *tried),
{
    match plan {
        MovePlan::Stay => owned(src),
        MovePlan::Go(dest) => {
            if tried.folder_made && tried.moved {
                owned(dest.as_str())
            } else {
                owned(src)
            }
        },
    }
}

/// The volume that brings the peak of a sound near full scale; none for silence.
pub open spec fn normal_volume(peak: Scalar) -> Option<Scalar> {
    if milli(0).lt(peak) {
        Some(milli(890).ratio(peak).clamped(milli(0), milli(1000)))
    } else {
        None
    }
}

/// The volume that brings the peak of a sound near full scale; none for silence. It
/// only ever turns a sound down.
pub fn normalised_volume(peak: Scalar) -> (r: Option<Scalar>)
    ensures
        r == normal_volume(peak),
{
    proof {
        milli_grows(0, 1000);
    }
    if from_milli(0).below(peak) {
        Some(from_milli(890).over(peak).clamp_to(from_milli(0), from_milli(1000)))
    } else {
        None
    }
}

// ── The order of the tiles ───────────────────────────────────────────────────

/// The place of a name in the saved order; behind all of them for a name that is not in
/// it.
pub open spec fn rank_of(order: Seq<Seq<char>>, name: Seq<char>) -> nat {
    match first_index(order, |k: Seq<char>| k == name) {
        Some(i) => i as nat,
        None => usize::MAX as nat,
    }
}

/// What the names of sound files are sorted by: their place in the saved order, then the
/// alphabet.
pub open spec fn scan_keys(order: Seq<Seq<char>>, names: Seq<Seq<char>>) -> Seq<(nat, Seq<char>)> {
    Seq::new(names.len(), |i: int| (rank_of(order, names[i]), names[i]))
}

/// The names, sorted.
pub open spec fn is_arranged(
    order: Seq<Seq<char>>,
    names: Seq<Seq<char>>,
    r: Seq<Seq<char>>,
) -> bool {
    exists|by: Seq<usize>| #[trigger]
        is_sorted_order(by, scan_keys(order, names)) && r == Seq::new(
            by.len(),
            |i: int| names[by[i] as int],
        )
}

/// The sound files among the names.
pub open spec fn audio_names(names: Seq<Seq<char>>) -> Seq<Seq<char>> {
    names.filter(|name: Seq<char>| is_audio(name))
}

fn rank(order: &Vec<String>, name: &str) -> (r: usize)
    ensures
        r == rank_of(texts_view(order@), name@),
{
    let ghost all = texts_view(order@);
    let ghost p = |k: Seq<char>| k == name@;
    match position_of(order, name) {
        Some(i) => {
            proof {
                assert forall|k: int| 0 <= k < i implies !p(#[trigger] all[k]) by {
                    assert(order@[k]@ != name@);
                }
                assert(p(all[i as int]));
                found_first(all, p, i as int);
            }
            i
        },
        None => {
            proof {
                assert forall|k: int| 0 <= k < all.len() implies !p(#[trigger] all[k]) by {
                    assert(order@[k]@ != name@);
                }
                found_none(all, p);
            }
            usize::MAX
        },
    }
}

/// The names of sound files in the order of their tiles: the saved order first, the
/// others behind it by the alphabet.
pub fn arrange(order: &Vec<String>, names: &Vec<String>) -> (r: Vec<String>)
    ensures
        is_arranged(texts_view(order@), texts_view(names@), texts_view(r@)),
{
    let ghost saved = texts_view(order@);
    let ghost all = texts_view(names@);
    let mut keys: Vec<SortKey> = Vec::new();
    let mut i: usize = 0;
    while i < names.len()
        invariant
            i <= names@.len(),
            saved == texts_view(order@),
            all == texts_view(names@),
            keys@.len() == i,
            forall|k: int|
                0 <= k < i ==> (#[trigger] keys@[k])@ == (rank_of(saved, all[k]), all[k]),
        decreases names@.len() - i,
    {
        let name: &str = names[i].as_str();
        keys.push(SortKey::new(rank(order, name), name));
        i = i + 1;
    }
    assert(keys_view(keys@) =~= scan_keys(saved, all));
    let by: Vec<usize> = sort_order(&keys);
    let mut r: Vec<String> = Vec::new();
    let mut k: usize = 0;
    while k < by.len()
        invariant
            k <= by@.len(),
            is_sorted_order(by@, scan_keys(saved, all)),
            all == texts_view(names@),
            r@.len() == k,
            forall|j: int| 0 <= j < k ==> (#[trigger] r@[j])@ == all[by@[j] as int],
        decreases by@.len() - k,
    {
        assert(by@[k as int] < scan_keys(saved, all).len());
        r.push(names[by[k]].clone());
        k = k + 1;
    }
    assert(texts_view(r@) =~= Seq::new(by@.len(), |i: int| all[by@[i] as int]));
    r
}

/// The sound files of a folder, in the order of their tiles. `names` are the names of
/// the files in it.
pub fn scan(order: &Vec<String>, names: &Vec<String>) -> (r: Vec<String>)
    ensures
        is_arranged(texts_view(order@), audio_names(texts_view(names@)), texts_view(r@)),
{
    let ghost all = texts_view(names@);
    let ghost p = |name: Seq<char>| is_audio(name);
    let mut found: Vec<String> = Vec::new();
    let mut i: usize = 0;
    proof {
        reveal(Seq::filter);
        assert(texts_view(found@) =~= all.take(0).filter(p));
    }
    while i < names.len()
        invariant
            i <= names@.len(),
            all == texts_view(names@),
            p == (|name: Seq<char>| is_audio(name)),
            texts_view(found@) == all.take(i as int).filter(p),
        decreases names@.len() - i,
    {
        let ghost after = all.take(i + 1);
        let ghost before = found@;
        proof {
            reveal(Seq::filter);
            assert(after.drop_last() =~= all.take(i as int));
            assert(after.last() == names@[i as int]@);
        }
        if is_audio_file(names[i].as_str()) {
            found.push(names[i].clone());
            assert(texts_view(found@) =~= texts_view(before).push(names@[i as int]@));
        }
        i = i + 1;
    }
    assert(all.take(all.len() as int) =~= all);
    arrange(order, &found)
}

// ── Renaming and removing ────────────────────────────────────────────────────

/// What the rename dialog shows: the name of the file without its extension.
pub fn rename_prefill(path: &str) -> (r: String)
    ensures
        r@ == (if has_file_name(path@) {
            stem_of(last_segment(path@))
        } else {
            Seq::empty()
        }),
{
    match file_stem(path) {
        Some(stem) => stem,
        None => {
            let r = String::new();
            assert(r@ =~= Seq::<char>::empty());
            r
        },
    }
}

/// The new name, if the text in the dialog is one: not empty without the white space
/// around it, and not the current one.
pub fn rename_request(text: &str, current: &str) -> (r: Option<String>)
    ensures
        match r {
            Some(name) => name@ == trimmed(text@) && name@.len() > 0 && name@ != current@,
            None => trimmed(text@).len() == 0 || trimmed(text@) == current@,
        },
{
    let name: String = trim(text);
    if name.as_str().unicode_len() == 0 || same_text(name.as_str(), current) {
        None
    } else {
        Some(name)
    }
}

/// The path of a sound after it was given a new name: in the same folder, with the same
/// extension.
pub open spec fn renamed_path(old_path: Seq<char>, new_name: Seq<char>) -> Seq<char> {
    let dir = match parent_of(old_path) {
        Some(dir) => dir,
        None => Seq::empty(),
    };
    let bare = joined(dir, new_name);
    let name = last_segment(old_path);
    if has_file_name(old_path) && last_dot(name) > 0 {
        with_extension(bare, name.skip(last_dot(name) + 1))
    } else {
        bare
    }
}

/// `after` is the window `before`, once the sound at `old_path` has another name and path:
/// its settings, its tile and its selection follow, and nothing else changes.
pub open spec fn sound_renamed(
    before: ResonateWindow,
    after: ResonateWindow,
    old_path: Seq<char>,
    new_name: Seq<char>,
    new_path: Seq<char>,
) -> bool {
    &&& after.config.sounds@ == carried_over(before.config.sounds@, old_path, new_path)
    &&& after.config == (Config { sounds: after.config.sounds, ..before.config })
    &&& after.page.tiles() == before.page.with_name(old_path, new_name, new_path)
    &&& text_view(after.page.selected) == before.page.selected_after_rename(old_path, new_path)
    &&& after.page == (ResonateSoundboardPage {
        sounds: after.page.sounds,
        selected: after.page.selected,
        ..before.page
    })
    &&& after == (ResonateWindow { config: after.config, page: after.page, ..before })
}

/// The path of a sound after it was given a new name.
pub fn rename_target(old_path: &str, new_name: &str) -> (r: String)
    ensures
        r@ == renamed_path(old_path@, new_name@),
{
    let dir: String = match parent(old_path) {
        Some(dir) => dir,
        None => {
            let none = String::new();
            assert(none@ =~= Seq::<char>::empty());
            none
        },
    };
    let bare: String = join(dir.as_str(), new_name);
    match extension(old_path) {
        Some(ext) => set_extension(bare.as_str(), ext.as_str()),
        None => bare,
    }
}

/// A word of three parts.
fn three(a: &str, b: &str, c: &str) -> (r: String)
    ensures
        r@ == concat(seq![a@, b@, c@]),
{
    let parts: Vec<&str> = vec![a, b, c];
    assert(views(parts@) =~= seq![a@, b@, c@]);
    concat_all(&parts)
}

/// What is said after a rename.
pub fn renamed_message(name: &str) -> (r: String)
    ensures
        r@ == concat(seq!["Renamed to \""@, name@, "\""@]),
{
    three("Renamed to \"", name, "\"")
}

/// What is asked before a sound is removed.
pub fn remove_question(name: &str) -> (r: String)
    ensures
        r@ == concat(
            seq!["\""@, name@, "\" will be permanently deleted from your Sounds Folder."@],
        ),
{
    three("\"", name, "\" will be permanently deleted from your Sounds Folder.")
}

/// What is said after a sound was removed.
pub fn removed_message(name: &str) -> (r: String)
    ensures
        r@ == concat(seq!["Removed \""@, name@, "\""@]),
{
    three("Removed \"", name, "\"")
}

/// Where a removed file waits for an undo, given the time in milliseconds.
pub fn undo_path(temp_dir: &str, millis: u64) -> (r: String)
    ensures
        r@ == joined(temp_dir@, "resonate_undo_"@ + decimal(millis as nat)),
{
    let mut name: String = owned("resonate_undo_");
    push_decimal(&mut name, millis);
    join(temp_dir, name.as_str())
}

// ── Starting with the session ────────────────────────────────────────────────

/// Where the entry is kept that starts the soundboard with the session.
pub fn autostart_path(config_dir: &str) -> (r: String)
    ensures
        r@ == joined(joined(config_dir@, "autostart"@), concat(seq![APP_ID@, ".desktop"@])),
{
    let dir: String = join(config_dir, "autostart");
    let parts: Vec<&str> = vec![APP_ID, ".desktop"];
    assert(views(parts@) =~= seq![APP_ID@, ".desktop"@]);
    let name: String = concat_all(&parts);
    join(dir.as_str(), name.as_str())
}

/// The program as the entry starts it.
pub open spec fn program_of(exe: Option<&str>) -> Seq<char> {
    match exe {
        Some(path) => path@,
        None => "resonate"@,
    }
}

/// The text of the entry.
pub open spec fn entry_text(exe: Option<&str>) -> Seq<char> {
    concat(
        seq![
            "[Desktop Entry]\nType=Application\nName=Resonate\n"@,
            "Comment=Soundboard with a virtual microphone and real-time mic effects\nExec="@,
            program_of(exe),
            " --hidden\nIcon="@,
            APP_ID@,
            "\nCategories=AudioVideo;Audio;\nX-GNOME-Autostart-enabled=true\n"@,
        ],
    )
}

/// What the entry says: the program is started hidden, so that the effects run without a
/// window popping up.
pub fn autostart_contents(exe: Option<&str>) -> (r: String)
    ensures
        r@ == entry_text(exe),
{
    let program: &str = match exe {
        Some(path) => path,
        None => "resonate",
    };
    let parts: Vec<&str> = vec![
        "[Desktop Entry]\nType=Application\nName=Resonate\n",
        "Comment=Soundboard with a virtual microphone and real-time mic effects\nExec=",
        program,
        " --hidden\nIcon=",
        APP_ID,
        "\nCategories=AudioVideo;Audio;\nX-GNOME-Autostart-enabled=true\n",
    ];
    assert(views(parts@) =~= seq![
        "[Desktop Entry]\nType=Application\nName=Resonate\n"@,
        "Comment=Soundboard with a virtual microphone and real-time mic effects\nExec="@,
        program_of(exe),
        " --hidden\nIcon="@,
        APP_ID@,
        "\nCategories=AudioVideo;Audio;\nX-GNOME-Autostart-enabled=true\n"@,
    ]);
    concat_all(&parts)
}

/// Whether the program is started hidden, by its arguments.
pub fn starts_hidden(args: &Vec<String>) -> (r: bool)
    ensures
        r == texts_view(args@).contains("--hidden"@),
{
    match position_of(args, "--hidden") {
        Some(i) => {
            assert(texts_view(args@)[i as int] == "--hidden"@);
            true
        },
        None => {
            assert(!texts_view(args@).contains("--hidden"@)) by {
                if texts_view(args@).contains("--hidden"@) {
                    let k = choose|k: int|
                        0 <= k < args@.len() && texts_view(args@)[k] == "--hidden"@;
                    assert(args@[k]@ == "--hidden"@);
                }
            }
            false
        },
    }
}

/// What activating the program comes to.
#[derive(Clone, Copy, Debug, PartialEq, Eq, Structural)]
pub enum Activation {
    /// There is a window: bring it back.
    Raise,
    /// Make a window and show it.
    Show,
    /// Make a window, so that the effects run, and keep it hidden.
    Hide,
}

/// What activating the program comes to.
pub open spec fn activated(has_window: bool, hidden: bool) -> Activation {
    if has_window {
        Activation::Raise
    } else if hidden {
        Activation::Hide
    } else {
        Activation::Show
    }
}

/// What activating the program comes to. There is one window at most.
pub fn activation(has_window: bool, hidden: bool) -> (r: Activation)
    ensures
        r == activated(has_window, hidden),
{
    if has_window {
        Activation::Raise
    } else if hidden {
        Activation::Hide
    } else {
        Activation::Show
    }
}

// ── The window ───────────────────────────────────────────────────────────────

/// What closing the window comes to.
#[derive(Clone, Copy, Debug, PartialEq, Eq, Structural)]
pub enum CloseAction {
    /// It is hidden, and the effects keep running.
    Hide,
    /// The virtual microphone is torn down, and the program ends.
    Quit,
}

/// What the play button comes to.
pub enum PlayPause {
    /// Something plays: pause it, or go on.
    Toggle,
    /// Nothing plays: start the selected sound at this volume.
    Start(String, Scalar),
    Nothing,
}

/// The state behind the window.
pub struct ResonateWindow {
    pub config: Config,
    pub page: ResonateSoundboardPage,
    /// The user chose to quit.
    pub force_quit: bool,
    /// The preset that is marked on the effects page and in the tray.
    pub active_preset: Option<String>,
}

/// The settings of a sound, or plain ones at the default volume.
pub open spec fn is_settings_of(config: &Config, path: Seq<char>, s: SoundSettings) -> bool {
    let key = sound_key_of(path);
    if config.sounds@.dom().contains(key) {
        s == config.sounds@[key]
    } else {
        s == SoundSettings::plain(s.volume) && is_percent(config.default_volume as nat, s.volume)
    }
}

/// How a sound with these settings is played from the given start.
pub open spec fn shape(s: SoundSettings, volume: Scalar, start: Scalar) -> PlayParams {
    PlayParams {
        volume,
        start_secs: start,
        end_secs: s.end_secs,
        fade_in_ms: s.fade_in_ms,
        fade_out_ms: s.fade_out_ms,
    }
}

/// The configuration after a sound was started from its marker: one that holds only once
/// is switched off.
pub open spec fn after_start(before: Config, after: Config, path: Seq<char>, s: SoundSettings) -> bool {
    if s.start_mode == StartMode::Once {
        &&& after.sounds@ == before.sounds@.insert(
            sound_key_of(path),
            (SoundSettings { start_mode: StartMode::Off, ..s }),
        )
        &&& after == (Config { sounds: after.sounds, ..before })
    } else {
        after == before
    }
}

/// A play of the sound at `path` takes the window from `before` to `after` and is asked for
/// as `r.0`; `r.1` tells whether the saved start was used up.
pub open spec fn is_play(
    before: ResonateWindow,
    after: ResonateWindow,
    path: Seq<char>,
    volume: Scalar,
    r: (PlayParams, bool),
) -> bool {
    &&& exists|s: SoundSettings| #[trigger]
        is_settings_of(&before.config, path, s) && match before.page.pending(path) {
            Some(start) => r.0 == shape(s, volume, start) && !r.1 && after.config
                == before.config,
            None => r.0 == shape(s, volume, s.next_start()) && r.1 == (s.start_mode
                == StartMode::Once) && after_start(before.config, after.config, path, s),
        }
    &&& after.page == (if before.page.pending(path) is Some {
        ResonateSoundboardPage { one_shot: None, ..before.page }
    } else {
        before.page
    })
    &&& after == (ResonateWindow { config: after.config, page: after.page, ..before })
}

/// `r` is how the sound at `path` is previewed.
pub open spec fn is_preview(
    win: ResonateWindow,
    path: Seq<char>,
    start_override: Option<Scalar>,
    r: PlayParams,
) -> bool {
    exists|s: SoundSettings| #[trigger]
        is_settings_of(&win.config, path, s) && r == shape(
            s,
            s.volume,
            match start_override {
                Some(start) => start,
                None => match win.page.pending(path) {
                    Some(start) => start,
                    None => s.next_start(),
                },
            },
        )
}

/// `after` is the window `before`, once the start of a sound was taken as `r`.
pub open spec fn is_start_taken(
    before: ResonateWindow,
    after: ResonateWindow,
    path: Seq<char>,
    r: (Scalar, bool),
) -> bool {
    &&& exists|s: SoundSettings| #[trigger]
        is_settings_of(&before.config, path, s) && r.0 == s.next_start() && r.1 == (s.start_mode
            == StartMode::Once) && after_start(before.config, after.config, path, s)
    &&& after == (ResonateWindow { config: after.config, ..before })
}

/// `after` is the window `before`, once the active preset was marked.
pub open spec fn is_synced(
    before: ResonateWindow,
    after: ResonateWindow,
    factory: Seq<NamedView>,
    changed: bool,
) -> bool {
    &&& after.is_active(factory, text_view(after.active_preset))
    &&& changed == (text_view(after.active_preset) != text_view(before.active_preset))
    &&& after == (ResonateWindow { active_preset: after.active_preset, ..before })
}

/// `r` is what the preview button comes to.
pub open spec fn is_preview_toggle(
    win: ResonateWindow,
    previewing: bool,
    r: Option<Option<(String, PlayParams)>>,
) -> bool {
    match r {
        None => win.page.selected is None,
        Some(None) => win.page.selected is Some && previewing,
        Some(Some(request)) => {
            &&& !previewing
            &&& text_view(win.page.selected) == Some(request.0@)
            &&& is_preview(win, request.0@, None, request.1)
        },
    }
}

/// `after` is the window `before`, with one more sound on the board.
pub open spec fn is_sound_added(
    before: ResonateWindow,
    after: ResonateWindow,
    path: Seq<char>,
    is_new: bool,
) -> bool {
    &&& is_new == !before.config.sounds@.dom().contains(sound_key_of(path))
    &&& exists|s: SoundSettings| #[trigger]
        is_settings_of(&before.config, path, s) && is_added(
            before.page,
            after.page,
            path,
            s.volume,
        )
    &&& after == (ResonateWindow { page: after.page, ..before })
}

/// What comes of a rename that was tried on disk: `r` is the new path, if it went well.
pub open spec fn is_rename_tried(
    before: ResonateWindow,
    after: ResonateWindow,
    engine: AudioEngine,
    engine_after: AudioEngine,
    old_path: Seq<char>,
    new_name: Seq<char>,
    renamed: bool,
    r: Option<String>,
) -> bool {
    match r {
        Some(new_path) => {
            &&& renamed
            &&& new_path@ == renamed_path(old_path, new_name)
            &&& sound_renamed(before, after, old_path, new_name, new_path@)
            &&& engine_renamed(engine, engine_after, old_path, new_path@)
        },
        None => !renamed && after == before && engine_after == engine,
    }
}

/// `r` is what the play button comes to.
pub open spec fn is_play_pause(win: ResonateWindow, playing: bool, r: PlayPause) -> bool {
    match r {
        PlayPause::Toggle => playing,
        PlayPause::Start(path, volume) => {
            &&& !playing
            &&& text_view(win.page.selected) == Some(path@)
            &&& exists|s: SoundSettings| #[trigger]
                is_settings_of(&win.config, path@, s) && volume == s.volume
        },
        PlayPause::Nothing => !playing && win.page.selected is None,
    }
}

/// `after` is the window `before`, once the sound at `path` was given a volume.
pub open spec fn is_volume_set(
    before: ResonateWindow,
    after: ResonateWindow,
    path: Seq<char>,
    volume: Scalar,
) -> bool {
    &&& exists|s: SoundSettings| #[trigger]
        is_settings_of(&before.config, path, s) && after.config.sounds@
            == before.config.sounds@.insert(
            sound_key_of(path),
            (SoundSettings { volume, ..s }),
        )
    &&& after.config == (Config { sounds: after.config.sounds, ..before.config })
    &&& after == (ResonateWindow { config: after.config, ..before })
}

/// `after` is the window `before`, once the settings of the sound at `path` were saved.
pub open spec fn is_settings_saved(
    before: ResonateWindow,
    after: ResonateWindow,
    path: Seq<char>,
    settings: SoundSettings,
) -> bool {
    &&& after.config.sounds@ == before.config.sounds@.insert(sound_key_of(path), settings)
    &&& after.config == (Config { sounds: after.config.sounds, ..before.config })
    &&& after.page.tiles() == before.page.with_volume(path, settings.volume)
    &&& after.page == (ResonateSoundboardPage { sounds: after.page.sounds, ..before.page })
    &&& after == (ResonateWindow { config: after.config, page: after.page, ..before })
}

/// `after` is the window `before`, once the removal of a sound cannot be undone any more.
pub open spec fn is_removal_final(
    before: ResonateWindow,
    after: ResonateWindow,
    path: Seq<char>,
    pending: bool,
) -> bool {
    &&& after.config.sounds@ == (if pending {
        before.config.sounds@.remove(sound_key_of(path))
    } else {
        before.config.sounds@
    })
    &&& after.config == (Config { sounds: after.config.sounds, ..before.config })
    &&& after == (ResonateWindow { config: after.config, ..before })
}

/// The chain with an effect switched on or off.
pub open spec fn switched_at(chain: Seq<EffectView>, idx: int, enabled: bool) -> Seq<EffectView> {
    if 0 <= idx < chain.len() {
        chain.update(idx, (EffectView { enabled, ..chain[idx] }))
    } else {
        chain
    }
}

/// The chain with a control of an effect set.
pub open spec fn turned_at(
    chain: Seq<EffectView>,
    idx: int,
    param: Seq<char>,
    value: Scalar,
) -> Seq<EffectView> {
    if 0 <= idx < chain.len() {
        chain.update(
            idx,
            (EffectView { params: chain[idx].params.insert(param, value), ..chain[idx] }),
        )
    } else {
        chain
    }
}

/// The chain with the values of a preset set on an effect.
pub open spec fn preset_at(
    chain: Seq<EffectView>,
    idx: int,
    values: Seq<(Seq<char>, Scalar)>,
) -> Seq<EffectView> {
    if 0 <= idx < chain.len() {
        chain.update(
            idx,
            (EffectView { params: applied(chain[idx].params, values), ..chain[idx] }),
        )
    } else {
        chain
    }
}

/// The chain without an effect.
pub open spec fn without(chain: Seq<EffectView>, idx: int) -> Seq<EffectView> {
    if 0 <= idx < chain.len() {
        chain.remove(idx)
    } else {
        chain
    }
}

/// `after` is the window `before`, once its chain was saved under a name.
pub open spec fn is_preset_saved(
    before: ResonateWindow,
    after: ResonateWindow,
    name: Seq<char>,
) -> bool {
    &&& preset_chains(after.config.effect_presets@) == preset_chains(
        before.config.effect_presets@,
    ).insert(name, before.chain())
    &&& after.config == (Config { effect_presets: after.config.effect_presets, ..before.config })
    &&& after == (ResonateWindow { config: after.config, ..before })
}

/// `after` is the window `before`, once the chain with a name was deleted.
pub open spec fn is_preset_deleted(
    before: ResonateWindow,
    after: ResonateWindow,
    name: Seq<char>,
) -> bool {
    &&& preset_chains(after.config.effect_presets@) == preset_chains(
        before.config.effect_presets@,
    ).remove(name)
    &&& after.config == (Config { effect_presets: after.config.effect_presets, ..before.config })
    &&& after == (ResonateWindow { config: after.config, ..before })
}

/// `after` is the window `before`, once the chain with a name was loaded, if there is one.
pub open spec fn is_preset_applied(
    before: ResonateWindow,
    after: ResonateWindow,
    factory: Seq<NamedView>,
    name: Seq<char>,
    found: bool,
) -> bool {
    match before.preset_called(factory, name) {
        Some(chain) => found && after.chain() == chain && after.only_chain_differs(&before),
        None => !found && after == before,
    }
}

/// The chain with two neighbours exchanged, if both are there.
pub open spec fn neighbours_swapped(chain: Seq<EffectView>, idx: int, up: bool) -> Option<
    Seq<EffectView>,
> {
    let target = if up {
        idx - 1
    } else {
        idx + 1
    };
    if 0 <= idx < chain.len() && 0 <= target < chain.len() {
        Some(chain.update(idx, chain[target]).update(target, chain[idx]))
    } else {
        None
    }
}

/// What a new effect starts with.
pub open spec fn default_entry(id: Seq<char>) -> EffectView {
    if id == "gain"@ {
        gain_view(milli(1000), true)
    } else if id == "gate"@ {
        gate_view(milli(20), milli(10_000), milli(100_000), true)
    } else {
        EffectView { id, enabled: true, params: Map::empty() }
    }
}

/// What a new effect starts with: gain and noise gate with their controls set, any other
/// with the defaults of its own.
pub fn default_entry_for(id: &str) -> (r: EffectEntry)
    ensures
        r@ == default_entry(id@),
{
    if same_text(id, "gain") {
        EffectEntry::gain(from_milli(1000), true)
    } else if same_text(id, "gate") {
        EffectEntry::gate(from_milli(20), from_milli(10_000), from_milli(100_000), true)
    } else {
        EffectEntry { id: owned(id), enabled: true, params: crate::text_map::TextMap::new() }
    }
}

pub open spec fn list_view(list: Seq<(String, bool)>) -> Seq<(Seq<char>, bool)> {
    Seq::new(list.len(), |i: int| (list[i].0@, list[i].1))
}

/// The chains that come with the soundboard, without those that a saved one of the same
/// name stands in front of.
pub open spec fn shipped_names(factory: Seq<NamedView>, saved: Set<Seq<char>>) -> Seq<
    (Seq<char>, bool),
> {
    factory.filter(|c: NamedView| !saved.contains(c.name)).map_values(
        |c: NamedView| (c.name, true),
    )
}

/// The saved chains, by the alphabet.
pub open spec fn is_saved_list(saved: Set<Seq<char>>, list: Seq<(Seq<char>, bool)>) -> bool {
    &&& forall|i: int, j: int|
        0 <= i < j < list.len() ==> lex_lt((#[trigger] list[i]).0, (#[trigger] list[j]).0)
    &&& forall|i: int| 0 <= i < list.len() ==> !(#[trigger] list[i]).1
    &&& forall|name: Seq<char>| #[trigger] saved.contains(name) <==> list.contains((name, false))
}

/// The list of presets: those that come with the soundboard first, the saved ones behind
/// them.
pub open spec fn is_preset_list(
    factory: Seq<NamedView>,
    saved: Set<Seq<char>>,
    list: Seq<(Seq<char>, bool)>,
) -> bool {
    let n = shipped_names(factory, saved).len() as int;
    &&& n <= list.len()
    &&& list.take(n) == shipped_names(factory, saved)
    &&& is_saved_list(saved, list.skip(n))
}

impl ResonateWindow {
    // ── Playing ──────────────────────────────────────────────────────────────

    /// Where the next play of a sound starts by its settings. A marker that holds only
    /// once is switched off; tells whether the configuration changed.
    pub fn take_start_point(&mut self, path: &str) -> (r: (Scalar, bool))
        ensures
            is_start_taken(*old(self), *final(self), path@, r),
    {
        let s: SoundSettings = self.config.sound_settings(path);
        let start: Scalar = s.effective_start();
        let once: bool = match s.start_mode {
            StartMode::Once => true,
            StartMode::Off | StartMode::Every => false,
        };
        assert(is_settings_of(&self.config, path@, s));
        if once {
            let slot: &mut SoundSettings = self.config.sound_settings_mut(path);
            slot.start_mode = StartMode::Off;
        }
        (start, once)
    }

    /// How a sound is played now. A start that was marked for one play wins over the
    /// marker in the settings, and is used up. Tells whether the configuration changed.
    pub fn play_params_for(&mut self, path: &str, volume: Scalar) -> (r: (PlayParams, bool))
        ensures
            is_play(*old(self), *final(self), path@, volume, r),
    {
        let s: SoundSettings = self.config.sound_settings(path);
        assert(is_settings_of(&self.config, path@, s));
        let (start, changed): (Scalar, bool) = match self.page.consume_one_shot(path) {
            Some(start) => (start, false),
            None => self.take_start_point(path),
        };
        let params = PlayParams {
            volume,
            start_secs: start,
            end_secs: s.end_secs,
            fade_in_ms: s.fade_in_ms,
            fade_out_ms: s.fade_out_ms,
        };
        (params, changed)
    }

    /// How a sound is previewed: from `start_override` if it is given, or else from where
    /// the next play would start. Nothing is used up.
    pub fn preview_params_for(&self, path: &str, start_override: Option<Scalar>) -> (r: PlayParams)
        ensures
            is_preview(*self, path@, start_override, r),
    {
        let s: SoundSettings = self.config.sound_settings(path);
        assert(is_settings_of(&self.config, path@, s));
        let start: Scalar = match start_override {
            Some(start) => start,
            None => match self.page.peek_one_shot(path) {
                Some(start) => start,
                None => s.effective_start(),
            },
        };
        PlayParams {
            volume: s.volume,
            start_secs: start,
            end_secs: s.end_secs,
            fade_in_ms: s.fade_in_ms,
            fade_out_ms: s.fade_out_ms,
        }
    }

    /// What the play button comes to: it pauses what plays, and otherwise starts the
    /// selected sound.
    pub fn play_pause(&self, playing: bool) -> (r: PlayPause)
        ensures
            is_play_pause(*self, playing, r),
    {
        if playing {
            return PlayPause::Toggle;
        }
        match self.page.selected_path() {
            Some(path) => {
                let s: SoundSettings = self.config.sound_settings(path.as_str());
                assert(is_settings_of(&self.config, path@, s));
                PlayPause::Start(path, s.volume)
            },
            None => PlayPause::Nothing,
        }
    }

    /// Whether the play button can be used: something plays, or a sound is selected.
    pub fn play_pause_sensitive(&self, playing: bool) -> (r: bool)
        ensures
            r == (playing || self.page.selected is Some),
    {
        playing || self.page.selected.is_some()
    }

    /// What the preview button comes to: nothing without a selected sound; it stops a
    /// running preview, and otherwise starts one.
    pub fn toggle_lcd_preview(&self, previewing: bool) -> (r: Option<Option<(String, PlayParams)>>)
        ensures
            is_preview_toggle(*self, previewing, r),
    {
        match self.page.selected_path() {
            Some(path) => {
                if previewing {
                    Some(None)
                } else {
                    let params: PlayParams = self.preview_params_for(path.as_str(), None);
                    Some(Some((path, params)))
                }
            },
            None => None,
        }
    }

    // ── Sounds ───────────────────────────────────────────────────────────────

    /// Puts a sound on the board, with the volume that it had. Tells whether it is new: a
    /// new sound is brought to a common level once its samples are decoded.
    pub fn add_sound(&mut self, path: &str) -> (is_new: bool)
        requires
            old(self).page.wf(),
            old(self).page.sounds@.len() + 1 < u32::MAX,
        ensures
            final(self).page.wf(),
            is_sound_added(*old(self), *final(self), path@, is_new),
    {
        let s: SoundSettings = self.config.sound_settings(path);
        assert(is_settings_of(&self.config, path@, s));
        let key: String = Config::sound_key(path);
        let is_new: bool = self.config.sounds.get(key.as_str()).is_none();
        self.page.add_sound_from_path(path, s.volume);
        is_new
    }

    /// Sets the volume of a sound, in its settings.
    pub fn set_volume(&mut self, path: &str, volume: Scalar)
        ensures
            is_volume_set(*old(self), *final(self), path@, volume),
    {
        let slot: &mut SoundSettings = self.config.sound_settings_mut(path);
        let ghost before = *slot;
        slot.volume = volume;
        assert(is_settings_of(&old(self).config, path@, before));
    }

    /// Saves the settings of a sound that was edited, and sets its tile.
    pub fn save_settings(&mut self, path: &str, settings: SoundSettings)
        requires
            old(self).page.wf(),
        ensures
            final(self).page.wf(),
            is_settings_saved(*old(self), *final(self), path@, settings),
    {
        let slot: &mut SoundSettings = self.config.sound_settings_mut(path);
        *slot = settings;
        self.page.set_tile_volume(path, settings.volume);
    }

    /// A sound was renamed on disk: its settings, its tile and its selection follow.
    pub fn rename_sound(&mut self, old_path: &str, new_name: &str, new_path: &str)
        requires
            old(self).page.wf(),
        ensures
            final(self).page.wf(),
            sound_renamed(*old(self), *final(self), old_path@, new_name@, new_path@),
    {
        self.config.rename_sound_key(old_path, new_path);
        self.page.rename_sound_by_path(old_path, new_name, new_path);
    }

    /// The rename of a sound on disk has been tried. If it went well (`renamed`), the
    /// settings, the tile, the selection and everything that plays or waits follow, and
    /// the new path is handed out. If not, nothing changes.
    pub fn do_rename_sound(
        &mut self,
        engine: &mut AudioEngine,
        old_path: &str,
        new_name: &str,
        renamed: bool,
    ) -> (r: Option<String>)
        requires
            old(self).page.wf(),
            old(engine).wf(),
        ensures
            final(self).page.wf(),
            final(engine).wf(),
            is_rename_tried(
                *old(self),
                *final(self),
                *old(engine),
                *final(engine),
                old_path@,
                new_name@,
                renamed,
                r,
            ),
    {
        if !renamed {
            return None;
        }
        let new_path: String = rename_target(old_path, new_name);
        self.rename_sound(old_path, new_name, new_path.as_str());
        engine.rename_path(old_path, new_path.as_str());
        Some(new_path)
    }

    /// The undo of a removal has run out: if the removed file still waited for it
    /// (`pending`), the settings of the sound are forgotten. Tells whether they were.
    pub fn removal_is_final(&mut self, path: &str, pending: bool) -> (saved: bool)
        ensures
            saved == pending,
            is_removal_final(*old(self), *final(self), path@, pending),
    {
        if pending {
            self.config.remove_sound_settings(path);
        }
        pending
    }

    // ── The chain of effects ─────────────────────────────────────────────────

    /// The chain, as it is saved.
    pub open spec fn chain(&self) -> Seq<EffectView> {
        chain_view(self.config.effects_chain@)
    }

    /// Nothing but the chain is different.
    pub open spec fn only_chain_differs(&self, other: &ResonateWindow) -> bool {
        *self == (ResonateWindow {
            config: Config { effects_chain: self.config.effects_chain, ..other.config },
            ..*other
        })
    }

    pub fn set_effect_enabled(&mut self, idx: usize, enabled: bool)
        ensures
            final(self).chain() == switched_at(old(self).chain(), idx as int, enabled),
            final(self).only_chain_differs(old(self)),
    {
        if idx < self.config.effects_chain.len() {
            let ghost before = self.config.effects_chain@;
            self.config.effects_chain[idx].enabled = enabled;
            assert(self.chain() =~= chain_view(before).update(
                idx as int,
                (EffectView { enabled, ..chain_view(before)[idx as int] }),
            ));
        }
    }

    /// Sets a control of an effect.
    pub fn set_effect_param(&mut self, idx: usize, param: &str, value: Scalar)
        ensures
            final(self).chain() == turned_at(old(self).chain(), idx as int, param@, value),
            final(self).only_chain_differs(old(self)),
    {
        if idx < self.config.effects_chain.len() {
            let ghost before = self.config.effects_chain@;
            self.config.effects_chain[idx].params.insert(owned(param), value);
            assert(self.chain() =~= chain_view(before).update(
                idx as int,
                (EffectView {
                    params: chain_view(before)[idx as int].params.insert(param@, value),
                    ..chain_view(before)[idx as int]
                }),
            ));
        }
    }

    /// Applies a preset to an effect: the controls that it names are set, the others are
    /// left alone.
    pub fn apply_effect_preset(&mut self, idx: usize, values: &Vec<(String, Scalar)>)
        ensures
            final(self).chain() == preset_at(
                old(self).chain(),
                idx as int,
                values_view(values@),
            ),
            final(self).only_chain_differs(old(self)),
    {
        if idx < self.config.effects_chain.len() {
            let ghost before = self.config.effects_chain@;
            apply_values(&mut self.config.effects_chain[idx].params, values);
            assert(self.chain() =~= chain_view(before).update(
                idx as int,
                (EffectView {
                    params: applied(chain_view(before)[idx as int].params, values_view(values@)),
                    ..chain_view(before)[idx as int]
                }),
            ));
        }
    }

    /// Puts a new effect at the end of the chain.
    pub fn add_effect(&mut self, id: &str)
        ensures
            final(self).chain() == old(self).chain().push(default_entry(id@)),
            final(self).only_chain_differs(old(self)),
    {
        let ghost before = self.chain();
        self.config.effects_chain.push(default_entry_for(id));
        assert(self.chain() =~= before.push(default_entry(id@)));
    }

    /// Takes an effect out of the chain.
    pub fn remove_effect(&mut self, idx: usize)
        ensures
            final(self).chain() == without(old(self).chain(), idx as int),
            final(self).only_chain_differs(old(self)),
    {
        if idx < self.config.effects_chain.len() {
            let ghost before = self.chain();
            let _gone: EffectEntry = self.config.effects_chain.remove(idx);
            assert(self.chain() =~= before.remove(idx as int));
        }
    }

    /// Moves an effect up or down by one; tells whether it moved.
    pub fn move_effect(&mut self, idx: usize, up: bool) -> (moved: bool)
        ensures
            match neighbours_swapped(old(self).chain(), idx as int, up) {
                Some(chain) => moved && final(self).chain() == chain,
                None => !moved && *final(self) == *old(self),
            },
            final(self).only_chain_differs(old(self)),
    {
        let n: usize = self.config.effects_chain.len();
        if idx >= n || (up && idx == 0) || (!up && idx + 1 >= n) {
            return false;
        }
        let target: usize = if up {
            idx - 1
        } else {
            idx + 1
        };
        let ghost before = self.chain();
        let (low, high): (usize, usize) = if up {
            (target, idx)
        } else {
            (idx, target)
        };
        let second: EffectEntry = self.config.effects_chain.remove(high);
        self.config.effects_chain.insert(low, second);
        assert(self.chain() =~= before.update(idx as int, before[target as int]).update(
            target as int,
            before[idx as int],
        ));
        true
    }

    // ── Presets of the chain ─────────────────────────────────────────────────

    /// The preset that the chain matches: a saved one, or else one of those that come
    /// with the soundboard.
    pub open spec fn is_active(&self, factory: Seq<NamedView>, name: Option<Seq<char>>) -> bool {
        let saved = preset_chains(self.config.effect_presets@);
        match name {
            Some(_) => is_active_preset(saved, self.chain(), name) || (is_active_preset(
                saved,
                self.chain(),
                None,
            ) && first_match(factory, self.chain()) == name),
            None => is_active_preset(saved, self.chain(), None) && first_match(
                factory,
                self.chain(),
            ) is None,
        }
    }

    /// The preset that the chain matches now.
    pub fn current_preset(&self, factory: &Vec<NamedChain>) -> (r: Option<String>)
        ensures
            self.is_active(named_view(factory@), text_view(r)),
    {
        match self.config.active_preset() {
            Some(name) => Some(name),
            None => matching_factory(factory, &self.config.effects_chain),
        }
    }

    /// Marks the preset that the chain matches; tells whether the mark changed, so that
    /// the lists that show it need an update.
    pub fn sync_active_preset(&mut self, factory: &Vec<NamedChain>) -> (changed: bool)
        ensures
            is_synced(*old(self), *final(self), named_view(factory@), changed),
    {
        let now: Option<String> = self.current_preset(factory);
        let same: bool = match &now {
            Some(name) => match &self.active_preset {
                Some(old_name) => same_text(name.as_str(), old_name.as_str()),
                None => false,
            },
            None => self.active_preset.is_none(),
        };
        self.active_preset = now;
        !same
    }

    /// Saves the chain under a name.
    pub fn save_preset(&mut self, name: &str)
        ensures
            is_preset_saved(*old(self), *final(self), name@),
    {
        let chain: Vec<EffectEntry> = clone_chain(&self.config.effects_chain);
        self.config.effect_presets.insert(owned(name), chain);
        assert(preset_chains(self.config.effect_presets@) =~= preset_chains(
            old(self).config.effect_presets@,
        ).insert(name@, old(self).chain()));
    }

    /// Forgets a saved chain.
    pub fn delete_preset(&mut self, name: &str)
        ensures
            is_preset_deleted(*old(self), *final(self), name@),
    {
        let _gone: Option<Vec<EffectEntry>> = self.config.effect_presets.remove(name);
        assert(preset_chains(self.config.effect_presets@) =~= preset_chains(
            old(self).config.effect_presets@,
        ).remove(name@));
    }

    /// The names of the presets, each with whether it comes with the soundboard.
    pub fn preset_list(&self, factory: &Vec<NamedChain>) -> (r: Vec<(String, bool)>)
        ensures
            is_preset_list(
                named_view(factory@),
                preset_chains(self.config.effect_presets@).dom(),
                list_view(r@),
            ),
    {
        let ghost all = named_view(factory@);
        let ghost saved = preset_chains(self.config.effect_presets@).dom();
        let ghost p = |c: NamedView| !saved.contains(c.name);
        let mut r: Vec<(String, bool)> = Vec::new();
        let mut i: usize = 0;
        proof {
            reveal(Seq::filter);
            assert(list_view(r@) =~= shipped_names(all.take(0), saved));
        }
        while i < factory.len()
            invariant
                i <= factory@.len(),
                all == named_view(factory@),
                saved == preset_chains(self.config.effect_presets@).dom(),
                p == (|c: NamedView| !saved.contains(c.name)),
                list_view(r@) == shipped_names(all.take(i as int), saved),
            decreases factory@.len() - i,
        {
            let ghost after = all.take(i + 1);
            let ghost before = r@;
            proof {
                reveal(Seq::filter);
                assert(after.drop_last() =~= all.take(i as int));
                assert(after.last() == all[i as int]);
                assert(all[i as int].name == factory@[i as int].name@);
            }
            if self.config.effect_presets.get(factory[i].name.as_str()).is_none() {
                r.push((factory[i].name.clone(), true));
                proof {
                    assert(after.filter(p) == all.take(i as int).filter(p).push(all[i as int]));
                    assert(list_view(r@) =~= list_view(before).push((all[i as int].name, true)));
                    assert(shipped_names(after, saved) =~= shipped_names(
                        all.take(i as int),
                        saved,
                    ).push((all[i as int].name, true)));
                }
            }
            i = i + 1;
        }
        assert(all.take(all.len() as int) =~= all);
        let n: usize = self.config.effect_presets.len();
        let ghost names = self.config.effect_presets.keys();
        let mut keys: Vec<SortKey> = Vec::new();
        let mut k: usize = 0;
        while k < n
            invariant
                k <= n,
                n == names.len(),
                names == self.config.effect_presets.keys(),
                keys@.len() == k,
                forall|j: int| 0 <= j < k ==> (#[trigger] keys@[j])@ == (0nat, names[j]),
            decreases n - k,
        {
            keys.push(SortKey::new(0, self.config.effect_presets.key_at(k).as_str()));
            k = k + 1;
        }
        let by: Vec<usize> = sort_order(&keys);
        let ghost kv = keys_view(keys@);
        let ghost first = list_view(r@);
        let ghost own = Seq::new(by@.len(), |i: int| (names[by@[i] as int], false));
        let mut j: usize = 0;
        assert(list_view(r@) =~= first + own.take(0));
        while j < by.len()
            invariant
                j <= by@.len(),
                n == names.len(),
                kv.len() == n,
                names == self.config.effect_presets.keys(),
                is_sorted_order(by@, kv),
                own == Seq::new(by@.len(), |i: int| (names[by@[i] as int], false)),
                list_view(r@) == first + own.take(j as int),
            decreases by@.len() - j,
        {
            assert(by@[j as int] < kv.len());
            let ghost before = r@;
            r.push((self.config.effect_presets.key_at(by[j]).clone(), false));
            assert(list_view(r@) =~= list_view(before).push(own[j as int]));
            assert(first + own.take(j + 1) =~= (first + own.take(j as int)).push(own[j as int]));
            j = j + 1;
        }
        proof {
            assert(own.take(own.len() as int) =~= own);
            sorted_order_is_a_permutation(by@, kv);
            assert(is_saved_list(saved, own)) by {
                assert forall|a: int, b: int| 0 <= a < b < own.len() implies lex_lt(
                    (#[trigger] own[a]).0,
                    (#[trigger] own[b]).0,
                ) by {
                    let (x, y) = (by@[a] as int, by@[b] as int);
                    assert(sorts_before(kv, x, y));
                    assert(kv[x] == (0nat, names[x]) && kv[y] == (0nat, names[y]));
                    if names[x] == names[y] {
                        assert(x == y);
                        assert(by@[a] == by@[b]);
                    }
                }
                assert forall|name: Seq<char>| #[trigger] saved.contains(name) <==> own.contains(
                    (name, false),
                ) by {
                    if saved.contains(name) {
                        assert(self.config.effect_presets@.dom().contains(name));
                        let q = choose|q: int| 0 <= q < names.len() && names[q] == name;
                        assert(by@.contains(q as usize));
                        let a = choose|a: int| 0 <= a < by@.len() && by@[a] == q as usize;
                        assert(own[a] == (name, false));
                    }
                    if own.contains((name, false)) {
                        let a = choose|a: int| 0 <= a < own.len() && own[a] == (name, false);
                        assert(by@[a] < kv.len());
                        assert(names[by@[a] as int] == name);
                        assert(names.contains(name));
                        assert(self.config.effect_presets@.dom().contains(name));
                    }
                }
            }
            assert(is_preset_list(all, saved, list_view(r@))) by {
                assert(list_view(r@).take(first.len() as int) =~= first);
                assert(list_view(r@).skip(first.len() as int) =~= own);
            }
        }
        r
    }

    /// The chain that a name stands for: a saved one, or else one of those that come with
    /// the soundboard.
    pub open spec fn preset_called(&self, factory: Seq<NamedView>, name: Seq<char>) -> Option<
        Seq<EffectView>,
    > {
        let saved = preset_chains(self.config.effect_presets@);
        if saved.dom().contains(name) {
            Some(saved[name])
        } else {
            chain_called(factory, name)
        }
    }

    /// Loads a chain by its name; tells whether there is one.
    pub fn apply_preset(&mut self, factory: &Vec<NamedChain>, name: &str) -> (found: bool)
        ensures
            is_preset_applied(*old(self), *final(self), named_view(factory@), name@, found),
    {
        let ghost saved = preset_chains(self.config.effect_presets@);
        let mine: Option<Vec<EffectEntry>> = match self.config.effect_presets.get(name) {
            Some(chain) => {
                assert(saved.dom().contains(name@));
                Some(clone_chain(chain))
            },
            None => {
                assert(!saved.dom().contains(name@));
                None
            },
        };
        let chosen: Option<Vec<EffectEntry>> = match mine {
            Some(chain) => Some(chain),
            None => factory_chain(factory, name),
        };
        match chosen {
            Some(chain) => {
                self.config.effects_chain = chain;
                true
            },
            None => false,
        }
    }

    // ── Closing ──────────────────────────────────────────────────────────────

    /// What a request to close the window comes to.
    pub open spec fn on_close(&self) -> CloseAction {
        if self.force_quit {
            CloseAction::Quit
        } else {
            CloseAction::Hide
        }
    }

    /// What closing the window comes to.
    pub fn close_request(&self) -> (r: CloseAction)
        ensures
            r == self.on_close(),
    {
        if self.force_quit {
            CloseAction::Quit
        } else {
            CloseAction::Hide
        }
    }

    /// The user chose to quit: closing ends the program from now on.
    pub fn do_quit(&mut self)
        ensures
            *final(self) == (ResonateWindow { force_quit: true, ..*old(self) }),
    {
        self.force_quit = true;
    }
}

// ── Laws ─────────────────────────────────────────────────────────────────────

/// A marker that holds only once is used up by a play: the next one starts at the
/// beginning, and the other settings of the sound are kept.
pub proof fn once_means_once(
    before: Config,
    after: Config,
    path: Seq<char>,
    s: SoundSettings,
    later: SoundSettings,
)
    requires
        s.start_mode == StartMode::Once,
        after_start(before, after, path, s),
        is_settings_of(&after, path, later),
    ensures
        later.start_mode == StartMode::Off,
        later.next_start() == (Scalar { bits: 0 }),
        later == (SoundSettings { start_mode: StartMode::Off, ..s }),
{
}

/// A play from the marker leaves the settings of every other sound alone.
pub proof fn a_play_touches_one_sound(
    before: Config,
    after: Config,
    path: Seq<char>,
    s: SoundSettings,
    key: Seq<char>,
)
    requires
        after_start(before, after, path, s),
        key != sound_key_of(path),
    ensures
        after.sounds@.dom().contains(key) == before.sounds@.dom().contains(key),
        before.sounds@.dom().contains(key) ==> after.sounds@[key] == before.sounds@[key],
{
}

/// Moving an effect up and then down again, or the other way round, changes nothing.
pub proof fn a_move_is_undone_by_the_opposite(chain: Seq<EffectView>, idx: int, up: bool)
    requires
        neighbours_swapped(chain, idx, up) is Some,
    ensures
        neighbours_swapped(
            neighbours_swapped(chain, idx, up)->0,
            if up {
                idx - 1
            } else {
                idx + 1
            },
            !up,
        ) == Some(chain),
{
    let target = if up {
        idx - 1
    } else {
        idx + 1
    };
    let once = neighbours_swapped(chain, idx, up)->0;
    assert(once.update(target, once[idx]).update(idx, once[target]) =~= chain);
}

/// Whatever the list of presets offers can be loaded; a saved chain stands in front of
/// one of the same name that comes with the soundboard.
pub proof fn listed_presets_can_be_loaded(
    win: ResonateWindow,
    factory: Seq<NamedView>,
    list: Seq<(Seq<char>, bool)>,
    i: int,
)
    requires
        is_preset_list(factory, preset_chains(win.config.effect_presets@).dom(), list),
        0 <= i < list.len(),
    ensures
        win.preset_called(factory, list[i].0) is Some,
        list[i].1 <==> !preset_chains(win.config.effect_presets@).dom().contains(list[i].0),
{
    let saved = preset_chains(win.config.effect_presets@).dom();
    let first = shipped_names(factory, saved);
    let n = first.len() as int;
    let p = |c: NamedView| !saved.contains(c.name);
    if i < n {
        assert(list.take(n)[i] == list[i]);
        let at = crate::search::filter_positions(factory, p);
        assert(factory.filter(p)[i] == factory[at[i]]);
        let name = list[i].0;
        assert(factory[at[i]].name == name);
        first_index_holds(factory, called(name));
    } else {
        let rest = list.skip(n);
        assert(rest[i - n] == list[i]);
        assert(!rest[i - n].1);
        assert(rest.contains((list[i].0, false))) by {
            assert(rest[i - n] == (list[i].0, false));
        }
    }
}

/// A chain that was just saved is marked as the active preset, by its own name or by one
/// that comes first in the alphabet and holds the same chain.
pub proof fn a_saved_chain_is_marked(
    presets: Map<Seq<char>, Seq<EffectView>>,
    chain: Seq<EffectView>,
    name: Seq<char>,
    active: Option<Seq<char>>,
)
    requires
        finite_chain(chain),
        is_active_preset(presets.insert(name, chain), chain, active),
    ensures
        active matches Some(first) && (first == name || lex_lt(first, name)),
{
    chain_matches_itself(chain);
    assert(preset_matches(presets.insert(name, chain), chain, name));
}

/// Arranging loses no file and adds none.
pub proof fn arranging_keeps_every_file(
    order: Seq<Seq<char>>,
    names: Seq<Seq<char>>,
    r: Seq<Seq<char>>,
)
    requires
        is_arranged(order, names, r),
        names.len() <= usize::MAX,
    ensures
        r.len() == names.len(),
        forall|name: Seq<char>| #[trigger] names.contains(name) <==> r.contains(name),
{
    let by = choose|by: Seq<usize>| #[trigger]
        is_sorted_order(by, scan_keys(order, names)) && r == Seq::new(
            by.len(),
            |i: int| names[by[i] as int],
        );
    sorted_order_is_a_permutation(by, scan_keys(order, names));
    assert forall|name: Seq<char>| #[trigger] names.contains(name) <==> r.contains(name) by {
        if names.contains(name) {
            let k = choose|k: int| 0 <= k < names.len() && names[k] == name;
            assert(by.contains(k as usize));
            let a = choose|a: int| 0 <= a < by.len() && by[a] == k as usize;
            assert(r[a] == name);
        }
        if r.contains(name) {
            let a = choose|a: int| 0 <= a < r.len() && r[a] == name;
            assert(by[a] < scan_keys(order, names).len());
            assert(names[by[a] as int] == name);
        }
    }
}

/// Files in the saved order come in that order and before all others; the others come by
/// the alphabet.
pub proof fn arranged_files_are_in_order(
    order: Seq<Seq<char>>,
    names: Seq<Seq<char>>,
    r: Seq<Seq<char>>,
    i: int,
    j: int,
)
    requires
        is_arranged(order, names, r),
        0 <= i < j < r.len(),
    ensures
        rank_of(order, r[i]) <= rank_of(order, r[j]),
        rank_of(order, r[i]) == rank_of(order, r[j]) ==> r[i] == r[j] || lex_lt(r[i], r[j]),
{
    let keys = scan_keys(order, names);
    let by = choose|by: Seq<usize>| #[trigger]
        is_sorted_order(by, keys) && r == Seq::new(by.len(), |i: int| names[by[i] as int]);
    assert(sorts_before(keys, by[i] as int, by[j] as int));
}

proof fn ascending_ranks(ranks: Seq<int>, i: int)
    requires
        0 <= i < ranks.len(),
        forall|a: int| 0 <= a < ranks.len() ==> 0 <= (#[trigger] ranks[a]) < ranks.len(),
        forall|a: int, b: int| 0 <= a < b < ranks.len() ==> (#[trigger] ranks[a]) < (
        #[trigger] ranks[b]),
    ensures
        ranks[i] == i,
{
    at_least_index(ranks, i);
    at_most_index(ranks, i);
}

proof fn at_least_index(ranks: Seq<int>, i: int)
    requires
        0 <= i < ranks.len(),
        forall|a: int| 0 <= a < ranks.len() ==> 0 <= (#[trigger] ranks[a]) < ranks.len(),
        forall|a: int, b: int| 0 <= a < b < ranks.len() ==> (#[trigger] ranks[a]) < (
        #[trigger] ranks[b]),
    ensures
        ranks[i] >= i,
    decreases i,
{
    if i > 0 {
        at_least_index(ranks, i - 1);
    }
}

proof fn at_most_index(ranks: Seq<int>, i: int)
    requires
        0 <= i < ranks.len(),
        forall|a: int| 0 <= a < ranks.len() ==> 0 <= (#[trigger] ranks[a]) < ranks.len(),
        forall|a: int, b: int| 0 <= a < b < ranks.len() ==> (#[trigger] ranks[a]) < (
        #[trigger] ranks[b]),
    ensures
        ranks[i] <= i,
    decreases ranks.len() - i,
{
    if i < ranks.len() - 1 {
        at_most_index(ranks, i + 1);
    }
}

/// The order of the tiles survives a restart: the files of the saved order come back in
/// exactly that order.
pub proof fn saved_order_comes_back(
    order: Seq<Seq<char>>,
    names: Seq<Seq<char>>,
    r: Seq<Seq<char>>,
)
    requires
        order.no_duplicates(),
        names.no_duplicates(),
        names.len() == order.len(),
        order.len() < usize::MAX,
        forall|i: int| 0 <= i < names.len() ==> order.contains(#[trigger] names[i]),
        is_arranged(order, names, r),
    ensures
        r == order,
{
    let keys = scan_keys(order, names);
    let by = choose|by: Seq<usize>| #[trigger]
        is_sorted_order(by, keys) && r == Seq::new(by.len(), |i: int| names[by[i] as int]);
    let ranks = Seq::new(r.len(), |i: int| rank_of(order, r[i]) as int);
    assert forall|a: int| 0 <= a < r.len() implies 0 <= (#[trigger] ranks[a]) < r.len()
        && order[ranks[a]] == r[a] by {
        assert(by[a] < keys.len());
        assert(order.contains(names[by[a] as int]));
        let p = |k: Seq<char>| k == r[a];
        first_index_holds(order, p);
        if first_index(order, p) is None {
            let q = choose|q: int| 0 <= q < order.len() && order[q] == r[a];
            assert(!p(order[q]));
        }
    }
    assert forall|a: int, b: int| 0 <= a < b < ranks.len() implies (#[trigger] ranks[a]) < (
    #[trigger] ranks[b]) by {
        let (x, y) = (by[a] as int, by[b] as int);
        assert(sorts_before(keys, x, y));
        if ranks[a] == ranks[b] {
            assert(r[a] == r[b]);
            assert(names[x] == names[y]);
            assert(x == y);
            assert(keys[x] == keys[y]);
            crate::text::lex_is_total(names[x], names[x]);
        }
    }
    assert forall|i: int| 0 <= i < r.len() implies r[i] == order[i] by {
        ascending_ranks(ranks, i);
    }
    assert(r =~= order);
}

/// A sound that is renamed stays in its folder and keeps its extension: its file is
/// called by the new name and the old extension.
pub proof fn renaming_keeps_folder_and_extension(
    old_path: Seq<char>,
    new_name: Seq<char>,
    ext: Seq<char>,
)
    requires
        plain_name(new_name),
        forall|i: int| 0 <= i < new_name.len() ==> new_name[i] != '.',
        has_file_name(old_path),
        last_dot(last_segment(old_path)) > 0,
        ext == last_segment(old_path).skip(last_dot(last_segment(old_path)) + 1),
        ext.len() > 0,
    ensures
        parent_of(old_path) matches Some(dir) ==> renamed_path(old_path, new_name) == joined(
            dir,
            new_name.push('.') + ext,
        ),
        sound_key_of(renamed_path(old_path, new_name)) == new_name.push('.') + ext,
{
    let dir = match parent_of(old_path) {
        Some(dir) => dir,
        None => Seq::empty(),
    };
    file_names_are_plain(old_path);
    let name = last_segment(old_path);
    last_dot_is_inside(name);
    assert forall|i: int| 0 <= i < ext.len() implies ext[i] != '/' by {
        assert(ext[i] == name[last_dot(name) + 1 + i]);
    }
    extension_is_added(dir, new_name, ext);
}

/// A file that is moved to the sounds folder keeps its settings: they go by the file
/// name, which does not change.
pub proof fn moving_keeps_settings(src: Seq<char>, dest_dir: Seq<char>)
    requires
        has_file_name(src),
    ensures
        sound_key_of(joined(dest_dir, last_segment(src))) == sound_key_of(src),
{
    file_names_are_plain(src);
    name_in_a_folder(dest_dir, last_segment(src));
}

/// Bringing a new sound to a common level never makes it louder than it is.
pub proof fn normalising_only_turns_down(peak: Scalar)
    requires
        milli(0).lt(peak),
    ensures
        normal_volume(peak) is Some,
        milli(0).le(normal_volume(peak)->0),
        normal_volume(peak)->0.le(milli(1000)),
{
    reveal(Scalar::ratio);
    milli_grows(0, 1000);
    milli_is_finite(890);
    milli_zero();
    if peak.is_finite() {
        units_grow(0, peak.magnitude());
        nearest_exists(
            milli(890).negative() != peak.negative(),
            units(milli(890).magnitude()) * pow2(149),
            units(peak.magnitude()),
        );
    }
    clamping_is_idempotent(milli(890).ratio(peak), milli(0), milli(1000));
}

// ── What a play is asked for ─────────────────────────────────────────────────

/// Every setting of a sound goes into its own part of the request.
pub proof fn a_request_has_the_settings_of_the_sound(
    s: SoundSettings,
    volume: Scalar,
    start: Scalar,
)
    ensures
        shape(s, volume, start).volume == volume,
        shape(s, volume, start).start_secs == start,
        shape(s, volume, start).end_secs == s.end_secs,
        shape(s, volume, start).fade_in_ms == s.fade_in_ms,
        shape(s, volume, start).fade_out_ms == s.fade_out_ms,
{
}

/// A play begins at the start that was marked for it, and the next one does not: that
/// begins where the saved start says, which the first one has not touched.
pub proof fn a_marked_start_is_used_by_one_play(
    first: ResonateWindow,
    second: ResonateWindow,
    third: ResonateWindow,
    path: Seq<char>,
    volume: Scalar,
    start: Scalar,
    r1: (PlayParams, bool),
    r2: (PlayParams, bool),
)
    requires
        first.page.pending(path) == Some(start),
        is_play(first, second, path, volume, r1),
        is_play(second, third, path, volume, r2),
        first.config.sounds@.dom().contains(sound_key_of(path)),
    ensures
        ({
            let s = first.config.sounds@[sound_key_of(path)];
            &&& r1.0.start_secs == start
            &&& !r1.1
            &&& second.config == first.config
            &&& s.start_mode == StartMode::Off ==> r2.0.start_secs == (Scalar { bits: 0 })
            &&& s.start_mode != StartMode::Off && milli(0).le(s.start_secs)
                ==> r2.0.start_secs == s.start_secs
            &&& r1.0 == (PlayParams { start_secs: start, ..r2.0 })
            &&& r1.0.volume == volume
            &&& (r1.0.end_secs, r1.0.fade_in_ms, r1.0.fade_out_ms) == (
                s.end_secs,
                s.fade_in_ms,
                s.fade_out_ms,
            )
        }),
{
    milli_zero();
}

/// A start that holds for every play is there again at the next one, and one that holds
/// once is not: the second play then begins with the file.
pub proof fn the_saved_start_holds_as_long_as_it_says(
    first: ResonateWindow,
    second: ResonateWindow,
    third: ResonateWindow,
    path: Seq<char>,
    volume: Scalar,
    r1: (PlayParams, bool),
    r2: (PlayParams, bool),
)
    requires
        first.page.pending(path) is None,
        is_play(first, second, path, volume, r1),
        is_play(second, third, path, volume, r2),
        first.config.sounds@.dom().contains(sound_key_of(path)),
        milli(0).le(first.config.sounds@[sound_key_of(path)].start_secs),
    ensures
        ({
            let s = first.config.sounds@[sound_key_of(path)];
            &&& s.start_mode == StartMode::Every ==> r1.0.start_secs == s.start_secs && r2.0
                == r1.0
            &&& s.start_mode == StartMode::Once ==> r1.0.start_secs == s.start_secs
                && r2.0.start_secs == (Scalar { bits: 0 }) && r1.1 && !r2.1
            &&& s.start_mode == StartMode::Off ==> r1.0.start_secs == (Scalar { bits: 0 })
            &&& r2.0 == (PlayParams { start_secs: r2.0.start_secs, ..r1.0 })
        }),
{
    milli_zero();
    let s = first.config.sounds@[sound_key_of(path)];
    assert(is_settings_of(&first.config, path, s));
    assert(second.config.sounds@.dom().contains(sound_key_of(path)));
}

/// A preview is heard as the next play will be, from the same start, and uses nothing up;
/// a start that is given wins over both.
pub proof fn a_preview_is_heard_as_the_next_play(
    win: ResonateWindow,
    after: ResonateWindow,
    path: Seq<char>,
    preview: PlayParams,
    given: Scalar,
    from_there: PlayParams,
    play: (PlayParams, bool),
)
    requires
        is_preview(win, path, None, preview),
        is_preview(win, path, Some(given), from_there),
        win.config.sounds@.dom().contains(sound_key_of(path)),
        is_play(win, after, path, win.config.sounds@[sound_key_of(path)].volume, play),
    ensures
        preview == play.0,
        from_there == (PlayParams { start_secs: given, ..preview }),
{
}

/// The play button stops or goes on with what plays, and starts the selected sound
/// otherwise, at its own volume.
pub proof fn the_play_button_does_the_one_or_the_other(
    win: ResonateWindow,
    playing: bool,
    r: PlayPause,
)
    requires
        is_play_pause(win, playing, r),
    ensures
        playing ==> r is Toggle,
        !playing && win.page.selected is None ==> r is Nothing,
        !playing && win.page.selected is Some ==> {
            &&& r matches PlayPause::Start(path, volume)
            &&& path@ == win.page.selected->0@
            &&& win.config.sounds@.dom().contains(sound_key_of(path@)) ==> volume
                == win.config.sounds@[sound_key_of(path@)].volume
        },
{
}

// ── What is kept ─────────────────────────────────────────────────────────────

/// What was saved for a sound is what it has from then on, and its tile shows the volume.
/// The settings of other files stay.
pub proof fn saved_settings_come_back(
    before: ResonateWindow,
    after: ResonateWindow,
    path: Seq<char>,
    settings: SoundSettings,
    found: SoundSettings,
    key: Seq<char>,
)
    requires
        is_settings_saved(before, after, path, settings),
        is_settings_of(&after.config, path, found),
        key != sound_key_of(path),
    ensures
        found == settings,
        after.config.sounds@.dom().contains(key) == before.config.sounds@.dom().contains(key),
        before.config.sounds@.dom().contains(key) ==> after.config.sounds@[key]
            == before.config.sounds@[key],
        after.config.effects_chain == before.config.effects_chain,
{
}

/// A volume that is set is kept, and no other setting of the sound changes.
pub proof fn a_set_volume_is_kept(
    before: ResonateWindow,
    after: ResonateWindow,
    path: Seq<char>,
    volume: Scalar,
    found: SoundSettings,
)
    requires
        is_volume_set(before, after, path, volume),
        before.config.sounds@.dom().contains(sound_key_of(path)),
        is_settings_of(&after.config, path, found),
    ensures
        found == (SoundSettings { volume, ..before.config.sounds@[sound_key_of(path)] }),
{
}

/// While a removal can be undone the settings of the sound are kept; when it is final they
/// are gone, and those of other files stay.
pub proof fn settings_go_when_a_removal_is_final(
    before: ResonateWindow,
    after: ResonateWindow,
    path: Seq<char>,
    pending: bool,
    key: Seq<char>,
)
    requires
        is_removal_final(before, after, path, pending),
        key != sound_key_of(path),
    ensures
        pending ==> !after.config.sounds@.dom().contains(sound_key_of(path)),
        !pending ==> after.config.sounds@ == before.config.sounds@,
        after.config.sounds@.dom().contains(key) == before.config.sounds@.dom().contains(key),
        before.config.sounds@.dom().contains(key) ==> after.config.sounds@[key]
            == before.config.sounds@[key],
{
}

/// A sound without settings of its own is played whole, without fades.
pub proof fn a_new_sound_is_played_as_it_is(config: Config, path: Seq<char>, s: SoundSettings)
    requires
        is_settings_of(&config, path, s),
        !config.sounds@.dom().contains(sound_key_of(path)),
    ensures
        s.start_secs.magnitude() == 0,
        s.end_secs.magnitude() == 0,
        s.fade_in_ms.magnitude() == 0,
        s.fade_out_ms.magnitude() == 0,
        s.start_mode == StartMode::Off,
        is_percent(config.default_volume as nat, s.volume),
{
}

// ── The chain ────────────────────────────────────────────────────────────────

/// A change to one effect of the chain leaves the others, and the order, as they are.
pub proof fn a_change_touches_one_effect(
    chain: Seq<EffectView>,
    idx: int,
    enabled: bool,
    param: Seq<char>,
    value: Scalar,
    values: Seq<(Seq<char>, Scalar)>,
    k: int,
)
    requires
        0 <= idx < chain.len(),
        0 <= k < chain.len(),
    ensures
        switched_at(chain, idx, enabled).len() == chain.len(),
        turned_at(chain, idx, param, value).len() == chain.len(),
        preset_at(chain, idx, values).len() == chain.len(),
        k != idx ==> {
            &&& switched_at(chain, idx, enabled)[k] == chain[k]
            &&& turned_at(chain, idx, param, value)[k] == chain[k]
            &&& preset_at(chain, idx, values)[k] == chain[k]
        },
        switched_at(chain, idx, enabled)[idx] == (EffectView { enabled, ..chain[idx] }),
        ({
            let (e, f) = (chain[idx], turned_at(chain, idx, param, value)[idx]);
            &&& f.id == e.id && f.enabled == e.enabled
            &&& f.params.dom().contains(param) && f.params[param] == value
            &&& forall|name: Seq<char>|
                name != param ==> f.params.dom().contains(name) == e.params.dom().contains(name)
                    && (#[trigger] e.params.dom().contains(name) ==> f.params[name]
                    == e.params[name])
        }),
        preset_at(chain, idx, values)[idx].id == chain[idx].id,
        preset_at(chain, idx, values)[idx].enabled == chain[idx].enabled,
{
}

/// An effect that is taken out is gone and the others close up in their order; one that is
/// added comes last.
pub proof fn effects_come_and_go_in_order(chain: Seq<EffectView>, idx: int, id: Seq<char>, k: int)
    requires
        0 <= idx < chain.len(),
    ensures
        without(chain, idx).len() == chain.len() - 1,
        0 <= k < idx ==> without(chain, idx)[k] == chain[k],
        idx <= k < chain.len() - 1 ==> without(chain, idx)[k] == chain[k + 1],
        default_entry(id).id == id,
        default_entry(id).enabled,
        without(chain.push(default_entry(id)), chain.len() as int) == chain,
{
    reveal_strlit("gain");
    reveal_strlit("gate");
    assert("gain"@[2] != "gate"@[2]);
    assert(without(chain.push(default_entry(id)), chain.len() as int) =~= chain);
}

/// An effect that moves up changes places with the one before it, and one that moves down
/// with the one behind it; the first cannot move up, nor the last down.
pub proof fn a_move_swaps_neighbours(chain: Seq<EffectView>, idx: int, k: int)
    requires
        0 <= idx < chain.len(),
        0 <= k < chain.len(),
    ensures
        neighbours_swapped(chain, 0, true) is None,
        neighbours_swapped(chain, chain.len() - 1, false) is None,
        idx > 0 ==> {
            &&& neighbours_swapped(chain, idx, true) matches Some(moved)
            &&& moved.len() == chain.len()
            &&& moved[idx - 1] == chain[idx]
            &&& moved[idx] == chain[idx - 1]
            &&& k != idx && k != idx - 1 ==> moved[k] == chain[k]
        },
        idx + 1 < chain.len() ==> {
            &&& neighbours_swapped(chain, idx, false) matches Some(moved)
            &&& moved.len() == chain.len()
            &&& moved[idx + 1] == chain[idx]
            &&& moved[idx] == chain[idx + 1]
            &&& k != idx && k != idx + 1 ==> moved[k] == chain[k]
        },
{
}

/// A chain that was saved under a name is the chain that is loaded by it, whatever was done
/// to the chain in between; deleting it leaves the other saved chains.
pub proof fn a_saved_chain_is_loaded_again(
    before: ResonateWindow,
    saved: ResonateWindow,
    later: ResonateWindow,
    loaded: ResonateWindow,
    factory: Seq<NamedView>,
    name: Seq<char>,
    found: bool,
)
    requires
        is_preset_saved(before, saved, name),
        later.config.effect_presets == saved.config.effect_presets,
        is_preset_applied(later, loaded, factory, name, found),
    ensures
        found,
        loaded.chain() == before.chain(),
        saved.chain() == before.chain(),
        loaded.config.sounds == later.config.sounds,
        loaded.config.effect_presets == later.config.effect_presets,
{
}

/// A chain that was deleted is not saved any more, and every other one still is.
pub proof fn a_deleted_chain_is_gone(
    before: ResonateWindow,
    after: ResonateWindow,
    name: Seq<char>,
    other: Seq<char>,
)
    requires
        is_preset_deleted(before, after, name),
        other != name,
    ensures
        ({
            let (p, q) = (
                preset_chains(before.config.effect_presets@),
                preset_chains(after.config.effect_presets@),
            );
            &&& !q.dom().contains(name)
            &&& q.dom().contains(other) == p.dom().contains(other)
            &&& p.dom().contains(other) ==> q[other] == p[other]
        }),
        after.chain() == before.chain(),
{
}

/// The window is hidden when it is closed, until the user chooses to quit.
pub proof fn closing_hides_until_quit(win: ResonateWindow)
    ensures
        win.on_close() == CloseAction::Quit <==> win.force_quit,
        !win.force_quit ==> win.on_close() == CloseAction::Hide,
{
}

// ── Volumes of new sounds ────────────────────────────────────────────────────

/// A sound is only ever turned down, a louder one not less than a quieter one; one that
/// reaches full scale is brought to 0.89 of it, and silence is left alone.
pub proof fn louder_sounds_are_turned_down_more(a: Scalar, b: Scalar)
    requires
        milli(0).lt(a),
        a.le(b),
        b.is_finite(),
    ensures
        normal_volume(a) is Some,
        normal_volume(b) is Some,
        normal_volume(b)->0.le(normal_volume(a)->0),
        milli(0).le(normal_volume(b)->0),
        normal_volume(a)->0.le(milli(1000)),
        b == milli(1000) ==> normal_volume(b) == Some(milli(890)),
        normal_volume(milli(0)) is None,
{
    milli_zero();
    milli_one();
    milli_grows(0, 890);
    milli_grows(890, 1000);
    milli_grows(0, 1000);
    milli_is_finite(890);
    shares_by_more_are_less(milli(890), a, b);
    if b == milli(1000) {
        share_by_one(milli(890));
    }
}

/// A file is a sound by its extension alone, whatever its folder and name.
pub proof fn sounds_are_told_by_their_extension(path: Seq<char>, other: Seq<char>)
    ensures
        extension_of(path) is None ==> !is_audio(path),
        extension_of(path) is Some && extension_of(other) is Some && lowercase(
            extension_of(path)->0,
        ) == lowercase(extension_of(other)->0) ==> is_audio(path) == is_audio(other),
        extension_of(path) is Some && lowercase(extension_of(path)->0) == "wav"@ ==> is_audio(path),
        extension_of(path) is Some && lowercase(extension_of(path)->0) == "mp3"@ ==> is_audio(path),
        extension_of(path) is Some && lowercase(extension_of(path)->0) == "ogg"@ ==> is_audio(path),
        extension_of(path) is Some && lowercase(extension_of(path)->0) == "flac"@ ==> is_audio(path),
        extension_of(path) is Some && lowercase(extension_of(path)->0) == "aac"@ ==> is_audio(path),
        extension_of(path) is Some && lowercase(extension_of(path)->0) == "m4a"@ ==> is_audio(path),
        extension_of(path) is Some && lowercase(extension_of(path)->0) == "opus"@ ==> is_audio(path),
        extension_of(path) is Some && lowercase(extension_of(path)->0) == "wma"@ ==> is_audio(path),
{
    let known = audio_extensions();
    assert(known[0] == "wav"@ && known[1] == "mp3"@ && known[2] == "ogg"@ && known[3] == "flac"@);
    assert(known[4] == "aac"@ && known[5] == "m4a"@ && known[6] == "opus"@ && known[7] == "wma"@);
}

/// Every sound file in the folder is found, and nothing else, in the order of the folder.
pub proof fn every_sound_file_is_found(names: Seq<Seq<char>>) -> (at: Seq<int>)
    ensures
        at.len() == audio_names(names).len(),
        forall|i: int|
            0 <= i < at.len() ==> 0 <= (#[trigger] at[i]) < names.len() && audio_names(names)[i]
                == names[at[i]] && is_audio(names[at[i]]),
        forall|i: int, j: int| 0 <= i < j < at.len() ==> (#[trigger] at[i]) < (#[trigger] at[j]),
        forall|k: int| 0 <= k < names.len() && is_audio(#[trigger] names[k]) ==> at.contains(k),
{
    let keep = |name: Seq<char>| is_audio(name);
    let at = filter_positions(names, keep);
    assert forall|k: int| 0 <= k < names.len() && is_audio(#[trigger] names[k]) implies at.contains(
        k,
    ) by {
        assert(keep(names[k]));
    }
    at
}

/// A renamed sound keeps its settings, its volume and its place among the tiles, and no
/// other sound changes.
pub proof fn a_renamed_sound_stays_in_place(
    before: ResonateWindow,
    after: ResonateWindow,
    old_path: Seq<char>,
    new_name: Seq<char>,
    new_path: Seq<char>,
    i: int,
)
    requires
        sound_renamed(before, after, old_path, new_name, new_path),
        0 <= i < before.page.tiles().len(),
    ensures
        after.page.tiles().len() == before.page.tiles().len(),
        ({
            let (old, new) = (before.page.tiles()[i], after.page.tiles()[i]);
            &&& new.number == old.number
            &&& new.volume == old.volume
            &&& equal_paths(old.path, old_path) && (forall|k: int|
                0 <= k < i ==> !equal_paths((#[trigger] before.page.tiles()[k]).path, old_path))
                ==> new.name == new_name && new.path == new_path
            &&& !equal_paths(old.path, old_path) ==> new == old
        }),
        before.config.sounds@.dom().contains(sound_key_of(old_path))
            ==> after.config.sounds@.dom().contains(sound_key_of(new_path))
            && after.config.sounds@[sound_key_of(new_path)]
            == before.config.sounds@[sound_key_of(old_path)],
        after.config.effects_chain == before.config.effects_chain,
        after.config.default_volume == before.config.default_volume,
{
    let tiles = before.page.tiles();
    first_index_holds(tiles, is_at(old_path));
    assert(is_at(old_path)(tiles[i]) == equal_paths(tiles[i].path, old_path));
}

/// A saved preset that the chain matches is the active one; only where no saved one does,
/// one that comes with the soundboard is.
pub proof fn saved_presets_come_first(
    win: ResonateWindow,
    factory: Seq<NamedView>,
    name: Option<Seq<char>>,
    saved: Seq<char>,
)
    requires
        win.is_active(factory, name),
    ensures
        preset_matches(preset_chains(win.config.effect_presets@), win.chain(), saved) ==> name is Some
            && preset_matches(preset_chains(win.config.effect_presets@), win.chain(), name->0),
        (forall|other: Seq<char>|
            !preset_matches(preset_chains(win.config.effect_presets@), win.chain(), other)) ==> name
            == first_match(factory, win.chain()),
{
}

/// There is one window at most: where there is one, it comes back.
pub proof fn there_is_one_window(hidden: bool)
    ensures
        activated(true, hidden) == Activation::Raise,
        activated(false, true) == Activation::Hide,
        activated(false, false) == Activation::Show,
{
}

/// A sound comes on the board with the volume of its settings, and it is new as long as it
/// has none of its own; its settings stay as they are.
pub proof fn a_sound_comes_with_its_volume(
    before: ResonateWindow,
    after: ResonateWindow,
    path: Seq<char>,
    is_new: bool,
)
    requires
        is_sound_added(before, after, path, is_new),
    ensures
        is_new <==> !before.config.sounds@.dom().contains(sound_key_of(path)),
        !is_new ==> after.page.tiles().last().volume
            == before.config.sounds@[sound_key_of(path)].volume,
        is_new ==> is_percent(
            before.config.default_volume as nat,
            after.page.tiles().last().volume,
        ),
        after.page.tiles().last().path == path,
        after.page.tiles().len() == before.page.tiles().len() + 1,
        after.config == before.config,
{
}

/// The preview button does nothing without a selected sound, stops a preview that runs,
/// and otherwise previews the selected sound as the next play would be heard.
pub proof fn the_preview_button_tries_the_selected_sound(
    win: ResonateWindow,
    previewing: bool,
    r: Option<Option<(String, PlayParams)>>,
    preview: PlayParams,
)
    requires
        is_preview_toggle(win, previewing, r),
    ensures
        r is None <==> win.page.selected is None,
        win.page.selected is Some && previewing ==> r == Some(None::<(String, PlayParams)>),
        win.page.selected is Some && !previewing ==> r is Some && r->0 is Some && (r->0->0).0@
            == win.page.selected->0@,
        win.page.selected is Some && !previewing && win.config.sounds@.dom().contains(
            sound_key_of(win.page.selected->0@),
        ) && is_preview(win, win.page.selected->0@, None, preview) ==> (r->0->0).1 == preview,
{
}

/// A rename that failed on disk changes nothing, neither on the board nor in what plays.
pub proof fn a_failed_rename_changes_nothing(
    before: ResonateWindow,
    after: ResonateWindow,
    engine: AudioEngine,
    engine_after: AudioEngine,
    old_path: Seq<char>,
    new_name: Seq<char>,
    renamed: bool,
    r: Option<String>,
)
    requires
        is_rename_tried(before, after, engine, engine_after, old_path, new_name, renamed, r),
    ensures
        r is Some <==> renamed,
        !renamed ==> after == before && engine_after == engine,
        renamed ==> r->0@ == renamed_path(old_path, new_name) && sound_renamed(
            before,
            after,
            old_path,
            new_name,
            r->0@,
        ) && engine_renamed(engine, engine_after, old_path, r->0@),
{
}

/// A file that is brought to a folder keeps its name; one that is there already stays.
pub proof fn files_keep_their_names_in_the_folder(
    src: Seq<char>,
    dest_dir: Seq<char>,
    plan: MovePlan,
    dir: Seq<char>,
    name: Seq<char>,
)
    requires
        is_move_plan(src, dest_dir, plan),
        plain_name(name),
        dir.len() > 0,
        src == joined(dir, name),
    ensures
        plan matches MovePlan::Go(dest) ==> dest@ == joined(dest_dir, name),
        plan is Stay <==> equal_paths(body(dir), dest_dir),
{
    a_file_is_in_its_folder(dir, name);
    name_in_a_folder(dir, name);
}

/// A file is at its new place only once it was moved; as long as anything failed it is
/// where it was.
pub proof fn a_file_is_where_it_was_moved(src: Seq<char>, plan: MovePlan, tried: MoveTry)
    ensures
        plan is Stay ==> moved_to(src, plan, tried) == src,
        !tried.moved || !tried.folder_made ==> moved_to(src, plan, tried) == src,
        plan matches MovePlan::Go(dest) ==> (tried.moved && tried.folder_made ==> moved_to(
            src,
            plan,
            tried,
        ) == dest@),
{
}

/// Files that have a place in the saved order come by it, in front of all that have none;
/// those come by the alphabet.
pub proof fn files_without_a_place_come_last(
    order: Seq<Seq<char>>,
    names: Seq<Seq<char>>,
    r: Seq<Seq<char>>,
    i: int,
    j: int,
)
    requires
        is_arranged(order, names, r),
        order.len() < usize::MAX,
        0 <= i < j < r.len(),
    ensures
        order.contains(r[j]) ==> order.contains(r[i]),
        !order.contains(r[i]) && !order.contains(r[j]) ==> r[i] == r[j] || lex_lt(r[i], r[j]),
        forall|a: int, b: int|
            0 <= b < a < order.len() && order.no_duplicates() && r[i] == #[trigger] order[a]
                ==> r[j] != #[trigger] order[b],
{
    arranged_files_are_in_order(order, names, r, i, j);
    let (p, q) = (|k: Seq<char>| k == r[i], |k: Seq<char>| k == r[j]);
    first_index_holds(order, p);
    first_index_holds(order, q);
    if order.contains(r[j]) {
        let k = choose|k: int| 0 <= k < order.len() && order[k] == r[j];
        assert(q(order[k]));
    }
    if order.contains(r[i]) {
        let k = choose|k: int| 0 <= k < order.len() && order[k] == r[i];
        assert(p(order[k]));
    }
    if first_index(order, p) is Some {
        assert(p(order[first_index(order, p)->0]));
    }
    if first_index(order, q) is Some {
        assert(q(order[first_index(order, q)->0]));
    }
    assert forall|a: int, b: int|
        0 <= b < a < order.len() && order.no_duplicates() && r[i] == #[trigger] order[a] implies r[j]
        != #[trigger] order[b] by {
        assert(p(order[a]));
        if r[j] == order[b] {
            assert(q(order[b]));
        }
    }
}

/// Taking the start of a sound uses up a marker that holds once, and leaves every other
/// setting and every other sound alone.
pub proof fn taking_the_start_uses_it_up(
    before: ResonateWindow,
    after: ResonateWindow,
    path: Seq<char>,
    r: (Scalar, bool),
    other: Seq<char>,
)
    requires
        is_start_taken(before, after, path, r),
        before.config.sounds@.dom().contains(sound_key_of(path)),
        other != sound_key_of(path),
    ensures
        ({
            let s = before.config.sounds@[sound_key_of(path)];
            let t = after.config.sounds@[sound_key_of(path)];
            &&& r.0 == s.next_start()
            &&& r.1 <==> s.start_mode == StartMode::Once
            &&& s.start_mode == StartMode::Once ==> t.start_mode == StartMode::Off && t.start_secs
                == s.start_secs && t.volume == s.volume && t.end_secs == s.end_secs
            &&& s.start_mode != StartMode::Once ==> t == s
        }),
        after.config.sounds@.dom().contains(other) == before.config.sounds@.dom().contains(other),
        before.config.sounds@.dom().contains(other) ==> after.config.sounds@[other]
            == before.config.sounds@[other],
        after.page == before.page,
{
}

/// The lists are told of a change exactly where the marked preset is another one.
pub proof fn a_new_mark_is_told(
    before: ResonateWindow,
    after: ResonateWindow,
    factory: Seq<NamedView>,
    changed: bool,
)
    requires
        is_synced(before, after, factory, changed),
    ensures
        changed <==> text_view(after.active_preset) != text_view(before.active_preset),
        after.is_active(factory, text_view(after.active_preset)),
        after.config == before.config,
        after.page == before.page,
{
}

/// The program is started hidden, by its own path where that is known.
pub proof fn the_entry_starts_the_program_hidden(exe: Option<&str>, path: Seq<char>)
    requires
        exe is Some ==> path == exe->0@,
        exe is None ==> path == "resonate"@,
    ensures
        has_part(entry_text(exe), "\nExec="@ + path + " --hidden\n"@),
{
    let (a, b) = (
        "[Desktop Entry]\nType=Application\nName=Resonate\n"@,
        "Comment=Soundboard with a virtual microphone and real-time mic effects\nExec="@,
    );
    let (d, f) = (
        " --hidden\nIcon="@,
        "\nCategories=AudioVideo;Audio;\nX-GNOME-Autostart-enabled=true\n"@,
    );
    let (c, e) = (program_of(exe), APP_ID@);
    reveal_with_fuel(concat, 7);
    assert(seq![a, b, c, d, e, f].drop_last() =~= seq![a, b, c, d, e]);
    assert(seq![a, b, c, d, e].drop_last() =~= seq![a, b, c, d]);
    assert(seq![a, b, c, d].drop_last() =~= seq![a, b, c]);
    assert(seq![a, b, c].drop_last() =~= seq![a, b]);
    assert(seq![a, b].drop_last() =~= seq![a]);
    assert(seq![a].drop_last() =~= Seq::<Seq<char>>::empty());
    assert(Seq::<char>::empty() + a =~= a);
    let all = entry_text(exe);
    assert(all =~= a + b + c + d + e + f);
    reveal_strlit("Comment=Soundboard with a virtual microphone and real-time mic effects\nExec=");
    reveal_strlit(" --hidden\nIcon=");
    reveal_strlit("\nExec=");
    reveal_strlit(" --hidden\n");
    let part = "\nExec="@ + path + " --hidden\n"@;
    let at = (a + b).len() - 6;
    assert(b.skip(b.len() - 6) =~= "\nExec="@);
    assert(d.take(10) =~= " --hidden\n"@);
    assert(all.subrange(at, at + part.len()) =~= part) by {
        assert forall|k: int| 0 <= k < part.len() implies all[at + k] == part[k] by {
            if k < 6 {
                assert(all[at + k] == b[b.len() - 6 + k]);
                assert(b.skip(b.len() - 6)[k] == b[b.len() - 6 + k]);
            } else if k < 6 + c.len() {
                assert(all[at + k] == c[k - 6]);
            } else {
                assert(all[at + k] == d[k - 6 - c.len()]);
                assert(d.take(10)[k - 6 - c.len()] == d[k - 6 - c.len()]);
            }
        }
    }
    assert(occurs_at(all, part, at));
}

} // verus!
