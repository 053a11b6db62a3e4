//! The soundboard page: its tiles in order, the selected sound, and the progress bar
//! with its start marker.

use vstd::prelude::*;
use vstd::arithmetic::div_mod::{
    lemma_div_basics, lemma_div_is_ordered, lemma_div_multiples_vanish, lemma_div_pos_is_pos,
    lemma_multiply_divide_lt,
};

use super::lcd::{
    format_playback_markup, next_label, panel_text, playing_secs, queue_secs, time_labels, total_label,
};
use crate::arithmetic::milli_one;
use crate::audio::engine::SoundInfo;
use crate::config::{sound_key_of, Config};
use crate::double::Fraction;
use crate::ordered::{share_of_all_or_more, share_of_nothing_or_less};
use crate::path::{
    equal_paths, file_stem, has_file_name, joined, last_dot, last_segment, name_in_a_folder,
    plain_name, same_path, stem_of,
};
use crate::rounding::{from_milli, milli, milli_grows, milli_zero};
use crate::scalar::Scalar;
use crate::search::{first_index, first_index_holds, found_first, found_none};
use crate::text::{
    contains, has_part, lowercase, occurs_at, owned, texts_view, to_lowercase,
};

verus! {

/// A sound on the board, with its tile.
pub struct SoundEntry {
    pub name: String,
    pub path: String,
    /// Gain of the sound, from 0 to 1.
    pub volume: Scalar,
    /// The number on the tile.
    pub number: u32,
    /// The tile is shown; a search takes away those that do not match.
    pub shown: bool,
    /// The tile is marked as selected.
    pub marked: bool,
}

pub struct EntryView {
    pub name: Seq<char>,
    pub path: Seq<char>,
    pub volume: Scalar,
    pub number: u32,
    pub shown: bool,
    pub marked: bool,
}

impl View for SoundEntry {
    type V = EntryView;

    open spec fn view(&self) -> EntryView {
        EntryView {
            name: self.name@,
            path: self.path@,
            volume: self.volume,
            number: self.number,
            shown: self.shown,
            marked: self.marked,
        }
    }
}

pub open spec fn entries_view(sounds: Seq<SoundEntry>) -> Seq<EntryView> {
    Seq::new(sounds.len(), |i: int| sounds[i]@)
}

/// Is the sound of the file at `path`.
pub open spec fn is_at(path: Seq<char>) -> spec_fn(EntryView) -> bool {
    |e: EntryView| equal_paths(e.path, path)
}

/// Position of the sound of the file at `path`.
pub open spec fn position_at(sounds: Seq<EntryView>, path: Seq<char>) -> Option<int> {
    first_index(sounds, is_at(path))
}

/// The tiles numbered from 1 on, in their order.
pub open spec fn renumbered(sounds: Seq<EntryView>) -> Seq<EntryView> {
    Seq::new(sounds.len(), |i: int| EntryView { number: (i + 1) as u32, ..sounds[i] })
}

/// The name of a sound: that of its file, without the extension.
pub open spec fn title_of(path: Seq<char>) -> Seq<char> {
    if has_file_name(path) {
        stem_of(last_segment(path))
    } else {
        "Sound"@
    }
}

/// The tiles after one was dropped on another: it moves in front of that one.
pub open spec fn moved_before(
    sounds: Seq<EntryView>,
    src: Seq<char>,
    dest: Seq<char>,
) -> Seq<EntryView> {
    match drop_positions(sounds, src, dest) {
        Some((from, to)) => renumbered(sounds.remove(from).insert(to, sounds[from])),
        None => sounds,
    }
}

/// From where to where a tile moves that was dropped on another, if it moves at all.
pub open spec fn drop_positions(
    sounds: Seq<EntryView>,
    src: Seq<char>,
    dest: Seq<char>,
) -> Option<(int, int)> {
    if equal_paths(src, dest) {
        None
    } else {
        match position_at(sounds, src) {
            Some(from) => match position_at(sounds.remove(from), dest) {
                Some(to) => Some((from, to)),
                None => None,
            },
            None => None,
        }
    }
}

/// The name of a sound.
pub fn title(path: &str) -> (r: String)
    ensures
        r@ == title_of(path@),
{
    match file_stem(path) {
        Some(stem) => stem,
        None => owned("Sound"),
    }
}

/// What a touch of the progress bar comes to.
pub enum ScrubAction {
    /// Nothing plays and nothing is known of the sound: nothing happens.
    Ignore,
    /// The bar shows where the seek would go.
    Drag,
    /// Seek to this fraction.
    Seek(Fraction),
    /// The start marker was moved.
    Mark,
    /// The start marker was moved and let go: start this sound there next time.
    Marked(String, Scalar),
}

/// How much of the bar is filled.
#[derive(Clone, Copy, Debug, PartialEq, Eq, Structural)]
pub enum Fill {
    /// Up to where it is dragged.
    Dragged(Fraction),
    /// Up to what has been played.
    Played(Scalar),
}

/// The soundboard page.
pub struct ResonateSoundboardPage {
    pub sounds: Vec<SoundEntry>,
    pub selected: Option<String>,
    /// Length of the selected sound, once its samples have been decoded.
    pub duration: Option<Scalar>,
    /// Where the selected sound starts the next time it is played, and only then.
    pub one_shot: Option<Scalar>,
    pub preview_pos: Option<Scalar>,
    pub progress_fraction: Scalar,
    pub is_playing: bool,
    /// Where the bar is dragged to while something plays.
    pub drag_frac: Option<Fraction>,
}

pub open spec fn text_view(text: Option<String>) -> Option<Seq<char>> {
    match text {
        Some(text) => Some(text@),
        None => None,
    }
}

pub open spec fn length_of(duration: Option<Scalar>) -> Scalar {
    match duration {
        Some(d) => d,
        None => milli(0),
    }
}

/// A time as a fraction of the length.
pub open spec fn fraction_of(secs: Scalar, duration: Scalar) -> Scalar {
    secs.ratio(duration).clamped(milli(0), milli(1000))
}

fn find(sounds: &Vec<SoundEntry>, path: &str) -> (r: Option<usize>)
    ensures
        match r {
            Some(i) => i < sounds@.len() && position_at(entries_view(sounds@), path@) == Some(
                i as int,
            ),
            None => position_at(entries_view(sounds@), path@) is None,
        },
{
    let ghost all = entries_view(sounds@);
    let mut i: usize = 0;
    while i < sounds.len()
        invariant
            i <= sounds@.len(),
            all == entries_view(sounds@),
            forall|k: int| 0 <= k < i ==> !is_at(path@)(#[trigger] all[k]),
        decreases sounds@.len() - i,
    {
        assert(all[i as int].path == sounds@[i as int].path@);
        if same_path(sounds[i].path.as_str(), path) {
            proof {
                found_first(all, is_at(path@), i as int);
            }
            return Some(i);
        }
        i = i + 1;
    }
    proof {
        found_none(all, is_at(path@));
    }
    None
}

fn renumber(sounds: &mut Vec<SoundEntry>)
    requires
        old(sounds)@.len() <= u32::MAX,
    ensures
        entries_view(final(sounds)@) == renumbered(entries_view(old(sounds)@)),
        final(sounds)@.len() == old(sounds)@.len(),
        forall|i: int|
            0 <= i < final(sounds)@.len() ==> (#[trigger] final(sounds)@[i]).number == i + 1,
{
    let mut i: usize = 0;
    while i < sounds.len()
        invariant
            i <= sounds@.len(),
            sounds@.len() == old(sounds)@.len(),
            sounds@.len() <= u32::MAX,
            forall|k: int|
                0 <= k < i ==> (#[trigger] sounds@[k])@ == (EntryView {
                    number: (k + 1) as u32,
                    ..old(sounds)@[k]@
                }) && sounds@[k].number == k + 1,
            forall|k: int| i <= k < sounds@.len() ==> #[trigger] sounds@[k] == old(sounds)@[k],
        decreases sounds@.len() - i,
    {
        sounds[i].number = i as u32 + 1;
        i = i + 1;
    }
    assert(entries_view(sounds@) =~= renumbered(entries_view(old(sounds)@)));
}

/// The tiles after a search: those are shown whose name has the text in it, whatever the
/// letter case, and all of them for an empty text.
pub open spec fn searched(tiles: Seq<EntryView>, query: Seq<char>) -> Seq<EntryView> {
    Seq::new(
        tiles.len(),
        |i: int|
            EntryView {
                shown: lowercase(query).len() == 0 || has_part(
                    lowercase(tiles[i].name),
                    lowercase(query),
                ),
                ..tiles[i]
            },
    )
}

/// The tiles with those at the given path marked.
pub open spec fn marked_at(tiles: Seq<EntryView>, path: Seq<char>) -> Seq<EntryView> {
    Seq::new(
        tiles.len(),
        |i: int| EntryView { marked: equal_paths(tiles[i].path, path), ..tiles[i] },
    )
}

/// The file names of the tiles, in their order.
pub open spec fn order_of(tiles: Seq<EntryView>) -> Seq<Seq<char>> {
    Seq::new(tiles.len(), |i: int| sound_key_of(tiles[i].path))
}

/// The path and the volume of the tile at a position.
pub open spec fn sound_at(tiles: Seq<EntryView>, idx: int) -> Option<(Seq<char>, Scalar)> {
    if 0 <= idx < tiles.len() {
        Some((tiles[idx].path, tiles[idx].volume))
    } else {
        None
    }
}

/// `after` is the page `before`, once the sound at `path` was selected.
pub open spec fn is_selection(
    before: ResonateSoundboardPage,
    after: ResonateSoundboardPage,
    path: Seq<char>,
    duration: Option<Scalar>,
    changed: bool,
) -> bool {
    &&& changed == !before.is_selected(path)
    &&& !changed ==> after == before
    &&& changed ==> {
        &&& after.selected matches Some(selected) && selected@ == path
        &&& after.tiles() == marked_at(before.tiles(), path)
        &&& after == (ResonateSoundboardPage {
            sounds: after.sounds,
            selected: after.selected,
            duration,
            one_shot: None,
            ..before
        })
    }
}

/// `after` is the page `before`, once the tile at `path` was taken away as `entry`.
pub open spec fn is_removal(
    before: ResonateSoundboardPage,
    after: ResonateSoundboardPage,
    path: Seq<char>,
    entry: Option<SoundEntry>,
) -> bool {
    match position_at(before.tiles(), path) {
        Some(i) => {
            &&& entry matches Some(entry) && entry@ == before.tiles()[i]
            &&& after.tiles() == renumbered(before.tiles().remove(i))
            &&& if before.is_selected(path) {
                after == (ResonateSoundboardPage {
                    sounds: after.sounds,
                    selected: None,
                    duration: None,
                    one_shot: None,
                    ..before
                })
            } else {
                after == (ResonateSoundboardPage { sounds: after.sounds, ..before })
            }
        },
        None => entry is None && after == before,
    }
}

/// `after` is the page `before`, once the bar was dragged to a fraction, or let go there.
pub open spec fn is_scrub(
    before: ResonateSoundboardPage,
    after: ResonateSoundboardPage,
    fraction: Fraction,
    done: bool,
    action: ScrubAction,
) -> bool {
    let at = fraction.pinned();
    let length = length_of(before.duration);
    let secs = at.narrowed().product(length);
    if before.is_playing {
        &&& after == (ResonateSoundboardPage {
            drag_frac: if done {
                None
            } else {
                Some(at)
            },
            ..before
        })
        &&& done ==> action == ScrubAction::Seek(at)
        &&& !done ==> action is Drag
    } else if length.le(milli(0)) {
        action is Ignore && after == before
    } else {
        &&& after == (ResonateSoundboardPage { one_shot: Some(secs), ..before })
        &&& match before.selected {
            Some(path) => if done {
                action matches ScrubAction::Marked(marked, start) && marked@ == path@ && start
                    == secs
            } else {
                action is Mark
            },
            None => action is Mark,
        }
    }
}

/// `after` is the page `before`, once it was told where the preview is.
pub open spec fn is_playhead_moved(
    before: ResonateSoundboardPage,
    after: ResonateSoundboardPage,
    pos: Option<Scalar>,
    changed: bool,
) -> bool {
    &&& changed == !ResonateSoundboardPage::same_position(before.preview_pos, pos)
    &&& after == (if changed {
        ResonateSoundboardPage { preview_pos: pos, ..before }
    } else {
        before
    })
}

/// `after` is the page `before`, with a tile more at the end.
pub open spec fn is_added(
    before: ResonateSoundboardPage,
    after: ResonateSoundboardPage,
    path: Seq<char>,
    volume: Scalar,
) -> bool {
    &&& after.tiles() == before.tiles().push(
        (EntryView {
            name: title_of(path),
            path,
            volume,
            number: (before.sounds@.len() + 1) as u32,
            shown: true,
            marked: false,
        }),
    )
    &&& after == (ResonateSoundboardPage { sounds: after.sounds, ..before })
}

impl ResonateSoundboardPage {
    /// The page once the samples of the sound at `path` are decoded.
    pub open spec fn with_wave(self, path: Seq<char>, duration: Scalar) -> ResonateSoundboardPage {
        if self.is_selected(path) {
            ResonateSoundboardPage { duration: Some(duration), ..self }
        } else {
            self
        }
    }

    /// The tiles, in order.
    pub open spec fn tiles(&self) -> Seq<EntryView> {
        entries_view(self.sounds@)
    }

    /// The tiles with another name and path for the sound at `old_path`.
    pub open spec fn with_name(
        &self,
        old_path: Seq<char>,
        new_name: Seq<char>,
        new_path: Seq<char>,
    ) -> Seq<EntryView> {
        match position_at(self.tiles(), old_path) {
            Some(i) => self.tiles().update(
                i,
                (EntryView { name: new_name, path: new_path, ..self.tiles()[i] }),
            ),
            None => self.tiles(),
        }
    }

    /// The tiles with another volume for the sound at `path`.
    pub open spec fn with_volume(&self, path: Seq<char>, volume: Scalar) -> Seq<EntryView> {
        match position_at(self.tiles(), path) {
            Some(i) => self.tiles().update(i, (EntryView { volume, ..self.tiles()[i] })),
            None => self.tiles(),
        }
    }

    /// Tiles are numbered from 1 on, in their order.
    pub open spec fn wf(&self) -> bool {
        &&& self.sounds@.len() < u32::MAX
        &&& forall|i: int|
            0 <= i < self.sounds@.len() ==> (#[trigger] self.sounds@[i]).number == i + 1
    }

    /// The file at `path` is the selected one.
    pub open spec fn is_selected(&self, path: Seq<char>) -> bool {
        self.selected matches Some(selected) && equal_paths(selected@, path)
    }

    pub fn new() -> (r: Self)
        ensures
            r.wf(),
            r.sounds@.len() == 0,
            r.selected is None,
            r.duration is None,
            r.one_shot is None,
            r.preview_pos is None,
            r.progress_fraction == milli(0),
            !r.is_playing,
            r.drag_frac is None,
    {
        ResonateSoundboardPage {
            sounds: Vec::new(),
            selected: None,
            duration: None,
            one_shot: None,
            preview_pos: None,
            progress_fraction: from_milli(0),
            is_playing: false,
            drag_frac: None,
        }
    }

    // ── Tiles ────────────────────────────────────────────────────────────────

    /// Adds a sound at the end.
    pub fn add_sound_from_path(&mut self, path: &str, volume: Scalar)
        requires
            old(self).wf(),
            old(self).sounds@.len() + 1 < u32::MAX,
        ensures
            final(self).wf(),
            is_added(*old(self), *final(self), path@, volume),
    {
        let number: u32 = self.sounds.len() as u32 + 1;
        let ghost before = self.sounds@;
        let entry = SoundEntry {
            name: title(path),
            path: owned(path),
            volume,
            number,
            shown: true,
            marked: false,
        };
        self.sounds.push(entry);
        assert(entries_view(self.sounds@) =~= entries_view(before).push(entry@));
    }

    /// The selected path, once the file at `old_path` is at `new_path`.
    pub open spec fn selected_after_rename(
        &self,
        old_path: Seq<char>,
        new_path: Seq<char>,
    ) -> Option<Seq<char>> {
        if self.is_selected(old_path) {
            Some(new_path)
        } else {
            text_view(self.selected)
        }
    }

    /// Gives a sound another name and path, after its file was renamed. A selection that
    /// it has stays with it.
    pub fn rename_sound_by_path(&mut self, old_path: &str, new_name: &str, new_path: &str)
        requires
            old(self).wf(),
        ensures
            final(self).wf(),
            final(self).tiles() == old(self).with_name(old_path@, new_name@, new_path@),
            text_view(final(self).selected) == old(self).selected_after_rename(
                old_path@,
                new_path@,
            ),
            *final(self) == (ResonateSoundboardPage {
                sounds: final(self).sounds,
                selected: final(self).selected,
                ..*old(self)
            }),
    {
        if self.selects(old_path) {
            self.selected = Some(owned(new_path));
        }
        match find(&self.sounds, old_path) {
            Some(i) => {
                let ghost before = self.sounds@;
                self.sounds[i].name = owned(new_name);
                self.sounds[i].path = owned(new_path);
                proof {
                    assert forall|k: int| 0 <= k < self.sounds@.len() implies (
                    #[trigger] self.sounds@[k]).number == k + 1 by {
                        assert(before[k].number == k + 1);
                    }
                    assert(entries_view(self.sounds@) =~= entries_view(before).update(
                        i as int,
                        (EntryView {
                            name: new_name@,
                            path: new_path@,
                            ..entries_view(before)[i as int]
                        }),
                    ));
                }
            },
            None => {},
        }
    }

    /// Takes a sound off the board and hands it out, for undo. A selection that it had
    /// is gone.
    pub fn remove_sound_by_path(&mut self, path: &str) -> (r: Option<SoundEntry>)
        requires
            old(self).wf(),
        ensures
            final(self).wf(),
            is_removal(*old(self), *final(self), path@, r),
    {
        match find(&self.sounds, path) {
            Some(i) => {
                proof {
                    first_index_holds(self.tiles(), is_at(path@));
                }
                let ghost before = self.tiles();
                let entry: SoundEntry = self.sounds.remove(i);
                assert(self.tiles() =~= before.remove(i as int));
                renumber(&mut self.sounds);
                if self.selects(path) {
                    self.selected = None;
                    self.duration = None;
                    self.one_shot = None;
                }
                Some(entry)
            },
            None => None,
        }
    }

    fn selects(&self, path: &str) -> (r: bool)
        ensures
            r == self.is_selected(path@),
    {
        match &self.selected {
            Some(selected) => same_path(selected.as_str(), path),
            None => false,
        }
    }

    /// Moves the tile of `src` in front of the tile of `dest`; tells whether it moved.
    pub fn move_sound_before(&mut self, src: &str, dest: &str) -> (moved: bool)
        requires
            old(self).wf(),
        ensures
            final(self).wf(),
            final(self).tiles() == moved_before(old(self).tiles(), src@, dest@),
            moved <==> drop_positions(old(self).tiles(), src@, dest@) is Some,
            *final(self) == (ResonateSoundboardPage { sounds: final(self).sounds, ..*old(self) }),
    {
        if same_path(src, dest) {
            return false;
        }
        match find(&self.sounds, src) {
            Some(from) => {
                let ghost before = self.tiles();
                let ghost all = self.sounds@;
                proof {
                    first_index_holds(before, is_at(src@));
                }
                let entry: SoundEntry = self.sounds.remove(from);
                assert(self.tiles() =~= before.remove(from as int));
                match find(&self.sounds, dest) {
                    Some(to) => {
                        proof {
                            first_index_holds(self.tiles(), is_at(dest@));
                        }
                        self.sounds.insert(to, entry);
                        assert(self.tiles() =~= before.remove(from as int).insert(
                            to as int,
                            before[from as int],
                        ));
                        renumber(&mut self.sounds);
                        true
                    },
                    None => {
                        self.sounds.insert(from, entry);
                        assert(self.sounds@ =~= all);
                        false
                    },
                }
            },
            None => false,
        }
    }

    /// The file names of the sounds, in the order of their tiles.
    pub fn current_order(&self) -> (r: Vec<String>)
        ensures
            texts_view(r@) == order_of(self.tiles()),
    {
        let mut r: Vec<String> = Vec::new();
        let mut i: usize = 0;
        while i < self.sounds.len()
            invariant
                i <= self.sounds@.len(),
                r@.len() == i,
                forall|k: int|
                    0 <= k < i ==> (#[trigger] r@[k])@ == sound_key_of(self.sounds@[k].path@),
            decreases self.sounds@.len() - i,
        {
            r.push(Config::sound_key(self.sounds[i].path.as_str()));
            i = i + 1;
        }
        r
    }

    /// Path and volume of the sound at a position, counted from 0.
    pub fn sound_at_index(&self, idx: usize) -> (r: Option<(String, Scalar)>)
        ensures
            (match r {
                Some((path, volume)) => Some((path@, volume)),
                None => None,
            }) == sound_at(self.tiles(), idx as int),
    {
        if idx < self.sounds.len() {
            Some((self.sounds[idx].path.clone(), self.sounds[idx].volume))
        } else {
            None
        }
    }

    /// Sets the volume of a tile.
    pub fn set_tile_volume(&mut self, path: &str, fraction: Scalar)
        requires
            old(self).wf(),
        ensures
            final(self).wf(),
            final(self).tiles() == old(self).with_volume(path@, fraction),
            *final(self) == (ResonateSoundboardPage { sounds: final(self).sounds, ..*old(self) }),
    {
        match find(&self.sounds, path) {
            Some(i) => {
                let ghost before = self.sounds@;
                self.sounds[i].volume = fraction;
                proof {
                    assert forall|k: int| 0 <= k < self.sounds@.len() implies (
                    #[trigger] self.sounds@[k]).number == k + 1 by {
                        assert(before[k].number == k + 1);
                    }
                    assert(entries_view(self.sounds@) =~= entries_view(before).update(
                        i as int,
                        (EntryView { volume: fraction, ..entries_view(before)[i as int] }),
                    ));
                }
            },
            None => {},
        }
    }

    /// Shows the tiles whose names hold the query, whatever the letter case; all of them
    /// for an empty query.
    pub fn search(&mut self, query: &str)
        requires
            old(self).wf(),
        ensures
            final(self).wf(),
            final(self).tiles() == searched(old(self).tiles(), query@),
            *final(self) == (ResonateSoundboardPage { sounds: final(self).sounds, ..*old(self) }),
    {
        let wanted: String = to_lowercase(query);
        let all: bool = wanted.as_str().unicode_len() == 0;
        let ghost before = self.sounds@;
        let mut i: usize = 0;
        while i < self.sounds.len()
            invariant
                i <= self.sounds@.len(),
                self.sounds@.len() == before.len(),
                before == old(self).sounds@,
                wanted@ == lowercase(query@),
                all == (wanted@.len() == 0),
                *self == (ResonateSoundboardPage { sounds: self.sounds, ..*old(self) }),
                forall|k: int|
                    0 <= k < i ==> (#[trigger] self.sounds@[k])@ == (EntryView {
                        shown: lowercase(query@).len() == 0 || has_part(
                            lowercase(before[k].name@),
                            lowercase(query@),
                        ),
                        ..before[k]@
                    }),
                forall|k: int| i <= k < before.len() ==> #[trigger] self.sounds@[k] == before[k],
            decreases self.sounds@.len() - i,
        {
            let name: String = to_lowercase(self.sounds[i].name.as_str());
            self.sounds[i].shown = all || contains(name.as_str(), wanted.as_str());
            i = i + 1;
        }
        proof {
            assert forall|k: int| 0 <= k < self.sounds@.len() implies (
            #[trigger] self.sounds@[k]).number == k + 1 by {
                assert(self.sounds@[k]@.number == before[k].number);
            }
            assert(entries_view(self.sounds@) =~= Seq::new(
                before.len(),
                |i: int|
                    EntryView {
                        shown: lowercase(query@).len() == 0 || has_part(
                            lowercase(entries_view(before)[i].name),
                            lowercase(query@),
                        ),
                        ..entries_view(before)[i]
                    },
            ));
        }
    }

    /// What to show: the tiles, or an invitation to add some.
    pub fn visible_child(&self) -> (r: &'static str)
        ensures
            r@ == (if self.sounds@.len() == 0 {
                "empty"@
            } else {
                "grid"@
            }),
    {
        if self.sounds.len() == 0 {
            "empty"
        } else {
            "grid"
        }
    }
}

impl ResonateSoundboardPage {
    // ── Selection ────────────────────────────────────────────────────────────

    /// Selects a sound and marks its tile; a start marker is not kept. `duration` is the
    /// length of the sound, if it is known already. Tells whether the selection changed.
    pub fn select_sound(&mut self, path: &str, duration: Option<Scalar>) -> (changed: bool)
        requires
            old(self).wf(),
        ensures
            final(self).wf(),
            is_selection(*old(self), *final(self), path@, duration, changed),
    {
        if self.selects(path) {
            return false;
        }
        self.selected = Some(owned(path));
        self.one_shot = None;
        self.duration = duration;
        let ghost before = self.sounds@;
        let ghost start = *self;
        let mut i: usize = 0;
        while i < self.sounds.len()
            invariant
                i <= self.sounds@.len(),
                self.sounds@.len() == before.len(),
                *self == (ResonateSoundboardPage { sounds: self.sounds, ..start }),
                forall|k: int|
                    0 <= k < i ==> (#[trigger] self.sounds@[k])@ == (EntryView {
                        marked: equal_paths(before[k].path@, path@),
                        ..before[k]@
                    }),
                forall|k: int| i <= k < before.len() ==> #[trigger] self.sounds@[k] == before[k],
            decreases self.sounds@.len() - i,
        {
            self.sounds[i].marked = same_path(self.sounds[i].path.as_str(), path);
            i = i + 1;
        }
        proof {
            assert forall|k: int| 0 <= k < self.sounds@.len() implies (
            #[trigger] self.sounds@[k]).number == k + 1 by {
                assert(self.sounds@[k]@.number == before[k].number);
            }
            assert(entries_view(self.sounds@) =~= Seq::new(
                before.len(),
                |i: int|
                    EntryView {
                        marked: equal_paths(entries_view(before)[i].path, path@),
                        ..entries_view(before)[i]
                    },
            ));
        }
        true
    }

    /// The length of a sound has become known. It matters only if the sound is still the
    /// selected one; tells whether it is.
    pub fn wave_ready(&mut self, path: &str, duration: Scalar) -> (applied: bool)
        ensures
            applied == old(self).is_selected(path@),
            *final(self) == old(self).with_wave(path@, duration),
    {
        if self.selects(path) {
            self.duration = Some(duration);
            true
        } else {
            false
        }
    }

    pub fn selected_path(&self) -> (r: Option<String>)
        ensures
            text_view(r) == text_view(self.selected),
    {
        match &self.selected {
            Some(path) => Some(path.clone()),
            None => None,
        }
    }

    /// Where a sound starts the next time it is played, if that was marked.
    pub open spec fn pending(&self, path: Seq<char>) -> Option<Scalar> {
        if self.is_selected(path) {
            self.one_shot
        } else {
            None
        }
    }

    /// The marked start of a sound, which stays: a preview does not use it up.
    pub fn peek_one_shot(&self, path: &str) -> (r: Option<Scalar>)
        ensures
            r == self.pending(path@),
    {
        if self.selects(path) {
            self.one_shot
        } else {
            None
        }
    }

    /// The page once the marked start of a sound is used up.
    pub open spec fn consumed(self, path: Seq<char>) -> ResonateSoundboardPage {
        if self.pending(path) is Some {
            ResonateSoundboardPage { one_shot: None, ..self }
        } else {
            self
        }
    }

    /// The marked start of a sound, which is used up: it holds for one play only.
    pub fn consume_one_shot(&mut self, path: &str) -> (r: Option<Scalar>)
        ensures
            r == old(self).pending(path@),
            *final(self) == old(self).consumed(path@),
    {
        let hit: Option<Scalar> = self.peek_one_shot(path);
        if hit.is_some() {
            self.one_shot = None;
        }
        hit
    }

    /// The two positions are the same; two zeros are, whatever their signs.
    pub open spec fn same_position(a: Option<Scalar>, b: Option<Scalar>) -> bool {
        match (a, b) {
            (Some(a), Some(b)) => a.le(b) && b.le(a),
            (None, None) => true,
            _ => false,
        }
    }

    /// Moves the playhead of a preview; tells whether there is anything to draw.
    pub fn set_preview_pos(&mut self, pos: Option<Scalar>) -> (changed: bool)
        ensures
            is_playhead_moved(*old(self), *final(self), pos, changed),
    {
        let same: bool = match self.preview_pos {
            Some(a) => match pos {
                Some(b) => a.at_most(b) && b.at_most(a),
                None => false,
            },
            None => pos.is_none(),
        };
        if !same {
            self.preview_pos = pos;
        }
        !same
    }

    // ── The progress bar ─────────────────────────────────────────────────────

    /// The bar is touched at a fraction of its width. While something plays, that is a
    /// seek, carried out when the bar is let go. Otherwise it marks where the selected
    /// sound starts.
    pub fn scrub(&mut self, fraction: Fraction, done: bool) -> (r: ScrubAction)
        ensures
            is_scrub(*old(self), *final(self), fraction, done, r),
    {
        let at: Fraction = fraction.pin();
        if self.is_playing {
            if done {
                self.drag_frac = None;
                return ScrubAction::Seek(at);
            }
            self.drag_frac = Some(at);
            return ScrubAction::Drag;
        }
        let length: Scalar = self.length();
        if length.at_most(from_milli(0)) {
            return ScrubAction::Ignore;
        }
        let secs: Scalar = at.narrow().times(length);
        self.one_shot = Some(secs);
        match &self.selected {
            Some(path) => {
                if done {
                    ScrubAction::Marked(path.clone(), secs)
                } else {
                    ScrubAction::Mark
                }
            },
            None => ScrubAction::Mark,
        }
    }

    fn length(&self) -> (r: Scalar)
        ensures
            r == length_of(self.duration),
    {
        match self.duration {
            Some(d) => d,
            None => from_milli(0),
        }
    }

    /// How much of the bar is filled.
    pub open spec fn filled(&self) -> Option<Fill> {
        match self.drag_frac {
            Some(at) => if at.above(0) {
                Some(Fill::Dragged(at.pinned()))
            } else {
                None
            },
            None => if milli(0).lt(self.progress_fraction) {
                Some(Fill::Played(self.progress_fraction.clamped(milli(0), milli(1000))))
            } else {
                None
            },
        }
    }

    /// Where the start marker is drawn.
    pub open spec fn marked_place(&self) -> Option<Scalar> {
        match self.one_shot {
            Some(secs) => if !self.is_playing && milli(0).lt(length_of(self.duration)) {
                Some(fraction_of(secs, length_of(self.duration)))
            } else {
                None
            },
            None => None,
        }
    }

    /// Where the playhead of a preview is drawn.
    pub open spec fn previewed_place(&self) -> Option<Scalar> {
        match self.preview_pos {
            Some(pos) => if milli(0).lt(length_of(self.duration)) {
                Some(fraction_of(pos, length_of(self.duration)))
            } else {
                None
            },
            None => None,
        }
    }

    /// The page once it was told what plays.
    pub open spec fn displaying(self, playing: Seq<SoundInfo>) -> ResonateSoundboardPage {
        ResonateSoundboardPage {
            progress_fraction: if playing.len() > 0 {
                playing[0].fraction
            } else {
                milli(0)
            },
            is_playing: playing.len() > 0,
            ..self
        }
    }

    /// How much of the bar is filled: where it is dragged to, or else what has been
    /// played. Nothing is drawn at 0.
    pub fn fill(&self) -> (r: Option<Fill>)
        ensures
            r == self.filled(),
    {
        proof {
            milli_grows(0, 1000);
        }
        match self.drag_frac {
            Some(at) => {
                if at.is_above(0) {
                    Some(Fill::Dragged(at.pin()))
                } else {
                    None
                }
            },
            None => {
                let at: Scalar = self.progress_fraction;
                if from_milli(0).below(at) {
                    Some(Fill::Played(at.clamp_to(from_milli(0), from_milli(1000))))
                } else {
                    None
                }
            },
        }
    }

    /// Where the start marker is drawn: only while nothing plays, and only if the length
    /// of the sound is known.
    pub fn marker(&self) -> (r: Option<Scalar>)
        ensures
            r == self.marked_place(),
    {
        proof {
            milli_grows(0, 1000);
        }
        let length: Scalar = self.length();
        match self.one_shot {
            Some(secs) => {
                if !self.is_playing && from_milli(0).below(length) {
                    Some(secs.over(length).clamp_to(from_milli(0), from_milli(1000)))
                } else {
                    None
                }
            },
            None => None,
        }
    }

    /// Where the playhead of a preview is drawn.
    pub fn playhead(&self) -> (r: Option<Scalar>)
        ensures
            r == self.previewed_place(),
    {
        proof {
            milli_grows(0, 1000);
        }
        let length: Scalar = self.length();
        match self.preview_pos {
            Some(pos) => {
                if from_milli(0).below(length) {
                    Some(pos.over(length).clamp_to(from_milli(0), from_milli(1000)))
                } else {
                    None
                }
            },
            None => None,
        }
    }

    /// Takes in what plays and what waits; hands out the text of the panel, the time
    /// until everything is over, and the time until the next sound if one waits.
    pub fn update_playback_display(
        &mut self,
        playing: &Vec<SoundInfo>,
        queue: &Vec<(String, Option<u32>)>,
    ) -> (r: (String, String, Option<String>))
        requires
            playing_secs(playing@) + queue_secs(queue@) <= u32::MAX,
        ensures
            *final(self) == old(self).displaying(playing@),
            r.0@ == panel_text(playing@, queue@),
            r.1@ == total_label(playing@, queue@),
            text_view(r.2) == next_label(playing@, queue@),
    {
        self.progress_fraction = if playing.len() > 0 {
            playing[0].fraction
        } else {
            from_milli(0)
        };
        self.is_playing = playing.len() > 0;
        let markup: String = format_playback_markup(playing, queue);
        let (total, until): (String, Option<String>) = time_labels(playing, queue);
        (markup, total, until)
    }
}

/// The icon of the button that starts and pauses.
pub fn play_pause_icon(playing: bool) -> (r: &'static str)
    ensures
        r@ == (if playing {
            "media-playback-pause-symbolic"@
        } else {
            "media-playback-start-symbolic"@
        }),
{
    if playing {
        "media-playback-pause-symbolic"
    } else {
        "media-playback-start-symbolic"
    }
}

/// The icon of the button that previews the selected sound.
pub fn preview_icon(active: bool) -> (r: &'static str)
    ensures
        r@ == (if active {
            "media-playback-stop-symbolic"@
        } else {
            "audio-headphones-symbolic"@
        }),
{
    if active {
        "media-playback-stop-symbolic"
    } else {
        "audio-headphones-symbolic"
    }
}

// ── Laws ─────────────────────────────────────────────────────────────────────

/// A tile that was dropped on another one stands right in front of it afterwards.
pub proof fn dropped_tile_is_in_front(
    sounds: Seq<EntryView>,
    src: Seq<char>,
    dest: Seq<char>,
    from: int,
    to: int,
)
    requires
        drop_positions(sounds, src, dest) == Some((from, to)),
    ensures
        moved_before(sounds, src, dest).len() == sounds.len(),
        0 <= to < sounds.len() - 1,
        equal_paths(moved_before(sounds, src, dest)[to].path, src),
        equal_paths(moved_before(sounds, src, dest)[to + 1].path, dest),
{
    first_index_holds(sounds, is_at(src));
    first_index_holds(sounds.remove(from), is_at(dest));
}

/// Reordering loses nothing and adds nothing: every tile is still there, with another
/// number at most.
pub proof fn reordering_keeps_every_sound(
    sounds: Seq<EntryView>,
    src: Seq<char>,
    dest: Seq<char>,
    i: int,
) -> (k: int)
    requires
        0 <= i < sounds.len(),
    ensures
        0 <= k < moved_before(sounds, src, dest).len(),
        moved_before(sounds, src, dest).len() == sounds.len(),
        moved_before(sounds, src, dest)[k] == (EntryView {
            number: moved_before(sounds, src, dest)[k].number,
            ..sounds[i]
        }),
{
    first_index_holds(sounds, is_at(src));
    match drop_positions(sounds, src, dest) {
        Some((from, to)) => {
            first_index_holds(sounds.remove(from), is_at(dest));
            let after = moved_before(sounds, src, dest);
            let j = if i == from {
                to
            } else {
                let j = if i < from {
                    i
                } else {
                    i - 1
                };
                assert(sounds.remove(from)[j] == sounds[i]);
                if j < to {
                    j
                } else {
                    j + 1
                }
            };
            assert(sounds.remove(from).insert(to, sounds[from])[j] == sounds[i]);
            j
        },
        None => i,
    }
}

/// After any reordering or removal the tiles are numbered from 1 on without a gap, so
/// that a tile number always means the sound at that place.
pub proof fn tile_numbers_are_places(sounds: Seq<EntryView>, i: int)
    requires
        0 <= i < sounds.len() < u32::MAX,
    ensures
        renumbered(sounds)[i].number == i + 1,
        renumbered(sounds)[i].path == sounds[i].path,
        renumbered(sounds)[i].name == sounds[i].name,
{
}

/// A marked start holds for one play: once consumed it is gone. Playing a sound that
/// has none leaves the one of another alone.
pub proof fn marked_start_holds_once(
    page: ResonateSoundboardPage,
    path: Seq<char>,
    other: Seq<char>,
)
    ensures
        page.consumed(path).pending(path) is None,
        page.pending(path) is None ==> page.consumed(path).pending(other) == page.pending(other),
{
}

// ── The oscilloscope ─────────────────────────────────────────────────────────

/// So many samples are needed for a trace.
pub const TRACE_MIN: usize = 64;

/// The first sample of column `px` of `width`, in a trace of `len` samples.
pub open spec fn column_start(px: int, width: int, len: int) -> int {
    px * len / width
}

/// The end of the samples of column `px`: those up to the next column, and one at least.
pub open spec fn column_end(px: int, width: int, len: int) -> int {
    let next = column_start(px + 1, width, len);
    let least = column_start(px, width, len) + 1;
    if next < least {
        least
    } else {
        next
    }
}

/// The lowest of the samples, but 0 at most.
pub open spec fn lowest(samples: Seq<Scalar>) -> Scalar
    decreases samples.len(),
{
    if samples.len() == 0 {
        Scalar { bits: 0 }
    } else {
        lowest(samples.drop_last()).smaller(samples.last())
    }
}

/// The highest of the samples, but 0 at least.
pub open spec fn highest(samples: Seq<Scalar>) -> Scalar
    decreases samples.len(),
{
    if samples.len() == 0 {
        Scalar { bits: 0 }
    } else {
        highest(samples.drop_last()).larger(samples.last())
    }
}

proof fn column_bounds(px: int, width: int, len: int)
    requires
        0 <= px < width,
        0 < len,
    ensures
        0 <= column_start(px, width, len) < len,
        column_start(px, width, len) <= column_start(px + 1, width, len) <= len,
        column_end(px, width, len) <= len,
        column_start(width, width, len) == len,
        column_start(0, width, len) == 0,
{
    let a = px * len;
    let b = (px + 1) * len;
    assert(0 <= a && a <= b && a < len * width && b <= len * width && 0 * len == 0 && width * len
        == len * width) by (nonlinear_arith)
        requires
            0 <= px < width,
            0 < len,
            a == px * len,
            b == (px + 1) * len,
    ;
    lemma_div_is_ordered(a, b, width);
    lemma_div_is_ordered(b, len * width, width);
    lemma_div_pos_is_pos(a, width);
    lemma_div_multiples_vanish(len, width);
    lemma_div_basics(width);
    assert(width * len / width == len);
    lemma_multiply_divide_lt(a, width, len);
}

/// The columns cover the trace: the first begins at its start, the last ends at its
/// end, and each goes at least as far as the start of the next.
pub proof fn columns_cover_the_trace(px: int, width: int, len: int)
    requires
        0 <= px < width,
        0 < len,
    ensures
        column_start(0, width, len) == 0,
        column_end(width - 1, width, len) == len,
        column_start(px + 1, width, len) <= column_end(px, width, len) <= len,
        column_start(px, width, len) < column_end(px, width, len),
{
    column_bounds(px, width, len);
    column_bounds(width - 1, width, len);
}

/// From where to where a column of the trace reaches.
pub open spec fn column_of(samples: Seq<Scalar>, px: int, width: int) -> (Scalar, Scalar) {
    let len = samples.len() as int;
    let part = samples.subrange(column_start(px, width, len), column_end(px, width, len));
    (lowest(part), highest(part))
}

/// The lowest and the highest sample of a column of the trace.
pub fn column(samples: &Vec<Scalar>, px: u32, width: u32) -> (r: (Scalar, Scalar))
    requires
        px < width,
        samples@.len() > 0,
    ensures
        r == column_of(samples@, px as int, width as int),
{
    let len: usize = samples.len();
    proof {
        column_bounds(px as int, width as int, len as int);
        assert(px * len <= 0xffff_ffff * 0xffff_ffff_ffff_ffff && (px + 1) * len <= 0x1_0000_0000
            * 0xffff_ffff_ffff_ffff) by (nonlinear_arith)
            requires
                0 <= px <= 0xffff_ffff,
                0 <= len <= 0xffff_ffff_ffff_ffff,
        ;
    }
    let from: usize = (px as u128 * len as u128 / width as u128) as usize;
    let next: usize = ((px as u128 + 1) * len as u128 / width as u128) as usize;
    let to: usize = if next < from + 1 {
        from + 1
    } else {
        next
    };
    let mut lo: Scalar = Scalar::zero();
    let mut hi: Scalar = Scalar::zero();
    let mut i: usize = from;
    while i < to
        invariant
            from <= i <= to <= samples@.len(),
            lo == lowest(samples@.subrange(from as int, i as int)),
            hi == highest(samples@.subrange(from as int, i as int)),
        decreases to - i,
    {
        assert(samples@.subrange(from as int, i + 1).drop_last() =~= samples@.subrange(
            from as int,
            i as int,
        ));
        lo = lo.min_with(samples[i]);
        hi = hi.max_with(samples[i]);
        i = i + 1;
    }
    (lo, hi)
}

// ── What the tiles promise ───────────────────────────────────────────────────

/// A search shows what has the text in its name and hides the rest, changes nothing else,
/// and is undone by an empty one.
pub proof fn a_search_only_hides_tiles(tiles: Seq<EntryView>, query: Seq<char>, i: int)
    requires
        0 <= i < tiles.len(),
        lowercase(query).len() > 0,
    ensures
        searched(tiles, query).len() == tiles.len(),
        searched(tiles, query)[i].shown <==> has_part(
            lowercase(tiles[i].name),
            lowercase(query),
        ),
        searched(tiles, query)[i] == (EntryView {
            shown: searched(tiles, query)[i].shown,
            ..tiles[i]
        }),
        lowercase(tiles[i].name) == lowercase(query) ==> searched(tiles, query)[i].shown,
{
    if lowercase(tiles[i].name) == lowercase(query) {
        let q = lowercase(query);
        assert(q.subrange(0, q.len() as int) =~= q);
        assert(occurs_at(q, q, 0));
    }
}

/// An empty search shows every tile.
pub proof fn an_empty_search_shows_everything(tiles: Seq<EntryView>, query: Seq<char>, i: int)
    requires
        0 <= i < tiles.len(),
        lowercase(query).len() == 0,
    ensures
        searched(tiles, query)[i].shown,
        searched(tiles, query)[i] == (EntryView { shown: true, ..tiles[i] }),
{
}

/// One sound is selected: the tiles at its path are marked and no other is. Another
/// selection drops the start that was marked for one play; the same one again keeps it.
pub proof fn a_selection_marks_one_sound(
    before: ResonateSoundboardPage,
    after: ResonateSoundboardPage,
    path: Seq<char>,
    duration: Option<Scalar>,
    changed: bool,
    i: int,
)
    requires
        is_selection(before, after, path, duration, changed),
    ensures
        after.is_selected(path),
        changed ==> after.duration == duration && after.one_shot is None,
        changed && 0 <= i < before.tiles().len() ==> after.tiles()[i] == (EntryView {
            marked: equal_paths(before.tiles()[i].path, path),
            ..before.tiles()[i]
        }),
        before.is_selected(path) ==> after == before,
        after.tiles().len() == before.tiles().len(),
        after.is_playing == before.is_playing,
{
}

/// A tile that is taken away is gone and the others close up behind it in their order. Only
/// if it was the selected one, nothing is selected any more.
pub proof fn a_removed_tile_is_gone(
    before: ResonateSoundboardPage,
    after: ResonateSoundboardPage,
    path: Seq<char>,
    entry: Option<SoundEntry>,
    i: int,
    k: int,
)
    requires
        is_removal(before, after, path, entry),
        0 <= i < before.tiles().len() < u32::MAX,
        equal_paths(before.tiles()[i].path, path),
        forall|j: int|
            0 <= j < i ==> !equal_paths((#[trigger] before.tiles()[j]).path, path),
    ensures
        entry matches Some(entry) && entry@ == before.tiles()[i],
        after.tiles().len() == before.tiles().len() - 1,
        0 <= k < i ==> after.tiles()[k] == (EntryView {
            number: (k + 1) as u32,
            ..before.tiles()[k]
        }),
        i <= k < after.tiles().len() ==> after.tiles()[k] == (EntryView {
            number: (k + 1) as u32,
            ..before.tiles()[k + 1]
        }),
        before.is_selected(path) ==> after.selected is None && after.one_shot is None,
        !before.is_selected(path) ==> after.selected == before.selected && after.one_shot
            == before.one_shot,
{
    found_first(before.tiles(), is_at(path), i);
}

/// What is not there is not taken away.
pub proof fn removing_nothing_changes_nothing(
    before: ResonateSoundboardPage,
    after: ResonateSoundboardPage,
    path: Seq<char>,
    entry: Option<SoundEntry>,
)
    requires
        is_removal(before, after, path, entry),
        forall|j: int|
            0 <= j < before.tiles().len() ==> !equal_paths(
                (#[trigger] before.tiles()[j]).path,
                path,
            ),
    ensures
        entry is None,
        after == before,
{
    found_none(before.tiles(), is_at(path));
}

/// A rename and a volume reach the tile of the file and no other.
pub proof fn one_tile_is_changed(
    page: ResonateSoundboardPage,
    path: Seq<char>,
    new_name: Seq<char>,
    new_path: Seq<char>,
    volume: Scalar,
    i: int,
    k: int,
)
    requires
        0 <= i < page.tiles().len(),
        equal_paths(page.tiles()[i].path, path),
        forall|j: int| 0 <= j < i ==> !equal_paths((#[trigger] page.tiles()[j]).path, path),
        0 <= k < page.tiles().len(),
    ensures
        page.with_name(path, new_name, new_path)[k] == (if k == i {
            EntryView { name: new_name, path: new_path, ..page.tiles()[i] }
        } else {
            page.tiles()[k]
        }),
        page.with_volume(path, volume)[k] == (if k == i {
            EntryView { volume, ..page.tiles()[i] }
        } else {
            page.tiles()[k]
        }),
        page.is_selected(path) ==> page.selected_after_rename(path, new_path) == Some(new_path),
        !page.is_selected(path) ==> page.selected_after_rename(path, new_path) == text_view(
            page.selected,
        ),
{
    found_first(page.tiles(), is_at(path), i);
}

/// The bar seeks while something plays, once it is let go, and marks a start otherwise. The
/// start that was marked waits for the sound that is selected.
pub proof fn the_bar_seeks_or_marks(
    before: ResonateSoundboardPage,
    after: ResonateSoundboardPage,
    fraction: Fraction,
    done: bool,
    action: ScrubAction,
    path: Seq<char>,
)
    requires
        is_scrub(before, after, fraction, done, action),
        before.is_selected(path),
    ensures
        before.is_playing ==> {
            &&& after.one_shot == before.one_shot
            &&& done ==> action == ScrubAction::Seek(fraction.pinned()) && after.drag_frac is None
            &&& !done ==> action is Drag && after.drag_frac == Some(fraction.pinned())
        },
        !before.is_playing && before.duration is Some && milli(0).lt(before.duration->0) ==> {
            &&& after.pending(path) == Some(
                fraction.pinned().narrowed().product(before.duration->0),
            )
            &&& done ==> action is Marked
            &&& after.drag_frac == before.drag_frac
        },
        !before.is_playing && before.duration is None ==> after == before,
        after.selected == before.selected,
{
    milli_grows(0, 0);
}

/// The tile with a number is the one that the number finds.
pub proof fn a_number_finds_its_tile(page: ResonateSoundboardPage, i: int)
    requires
        page.wf(),
        0 <= i < page.tiles().len(),
    ensures
        page.tiles()[i].number == i + 1,
        sound_at(page.tiles(), page.tiles()[i].number - 1) == Some(
            (page.tiles()[i].path, page.tiles()[i].volume),
        ),
        sound_at(page.tiles(), page.tiles().len() as int) is None,
        order_of(page.tiles())[i] == sound_key_of(page.tiles()[i].path),
        order_of(page.tiles()).len() == page.tiles().len(),
{
}

/// The lowest and the highest of samples enclose every one of them, and 0.
pub proof fn columns_enclose_their_samples(samples: Seq<Scalar>, i: int)
    requires
        0 <= i < samples.len(),
        forall|k: int| 0 <= k < samples.len() ==> !(#[trigger] samples[k]).is_nan(),
    ensures
        lowest(samples).le(samples[i]),
        samples[i].le(highest(samples)),
        lowest(samples).le(Scalar { bits: 0 }),
        (Scalar { bits: 0 }).le(highest(samples)),
        lowest(samples) == (Scalar { bits: 0 }) || samples.contains(lowest(samples)),
        highest(samples) == (Scalar { bits: 0 }) || samples.contains(highest(samples)),
    decreases samples.len(),
{
    let rest = samples.drop_last();
    let last = samples.len() - 1;
    assert(samples[last] == samples.last());
    if rest.len() > 0 {
        let k = if i < last {
            i
        } else {
            0
        };
        assert forall|k: int| 0 <= k < rest.len() implies !(#[trigger] rest[k]).is_nan() by {
            assert(rest[k] == samples[k]);
        }
        columns_enclose_their_samples(rest, k);
        if rest.contains(lowest(rest)) {
            let j = rest.index_of(lowest(rest));
            assert(samples[j] == lowest(rest));
        }
        if rest.contains(highest(rest)) {
            let j = rest.index_of(highest(rest));
            assert(samples[j] == highest(rest));
        }
    } else {
        assert(lowest(rest) == (Scalar { bits: 0 }) && highest(rest) == (Scalar { bits: 0 }));
    }
}

/// A place on the bar: nothing at the beginning of the sound and before it, everything at
/// its end and behind it.
pub proof fn places_on_the_bar(secs: Scalar, duration: Scalar)
    requires
        secs.is_finite(),
        duration.is_finite(),
        milli(0).lt(duration),
    ensures
        secs.le(milli(0)) ==> fraction_of(secs, duration).magnitude() == 0,
        duration.le(secs) ==> fraction_of(secs, duration) == milli(1000),
{
    milli_zero();
    milli_one();
    milli_grows(0, 1000);
    if secs.le(milli(0)) {
        share_of_nothing_or_less(secs, duration);
    }
    if duration.le(secs) {
        share_of_all_or_more(secs, duration);
    }
}

/// A sound is called like its file, without the folder and the extension.
pub proof fn sounds_are_called_like_their_files(dir: Seq<char>, name: Seq<char>, ext: Seq<char>)
    requires
        plain_name(name),
        forall|i: int| 0 <= i < ext.len() ==> ext[i] != '/' && ext[i] != '.',
    ensures
        title_of(joined(dir, name.push('.') + ext)) == name,
{
    let file = name.push('.') + ext;
    assert(file.len() > name.len());
    assert(plain_name(file)) by {
        if file == seq!['.', '.'] {
            assert(file[0] == name[0]);
            assert(name =~= seq!['.']);
        }
        assert(file != seq!['.']);
        assert forall|i: int| 0 <= i < file.len() implies file[i] != '/' by {
            if i < name.len() {
                assert(file[i] == name[i]);
            } else if i > name.len() {
                assert(file[i] == ext[i - name.len() - 1]);
            }
        }
    }
    name_in_a_folder(dir, file);
    the_last_dot_is_here(name, ext);
    assert(file.take(name.len() as int) =~= name);
}

proof fn the_last_dot_is_here(name: Seq<char>, ext: Seq<char>)
    requires
        forall|i: int| 0 <= i < ext.len() ==> ext[i] != '/' && ext[i] != '.',
    ensures
        last_dot(name.push('.') + ext) == name.len(),
    decreases ext.len(),
{
    let file = name.push('.') + ext;
    if ext.len() == 0 {
        assert(file =~= name.push('.'));
    } else {
        the_last_dot_is_here(name, ext.drop_last());
        assert(file.drop_last() =~= name.push('.') + ext.drop_last());
        assert(file.last() == ext.last());
    }
}

/// A length that becomes known is that of the selected sound; one of another sound is
/// not shown.
pub proof fn a_length_belongs_to_its_sound(
    page: ResonateSoundboardPage,
    path: Seq<char>,
    duration: Scalar,
)
    ensures
        page.is_selected(path) ==> page.with_wave(path, duration).duration == Some(duration),
        !page.is_selected(path) ==> page.with_wave(path, duration) == page,
        page.with_wave(path, duration).sounds == page.sounds,
        page.with_wave(path, duration).selected == page.selected,
{
}

/// A new tile comes last, is called like its file, can be seen, is not marked and has the
/// next number; the tiles before it and the selection stay as they are.
pub proof fn a_new_tile_comes_last(
    before: ResonateSoundboardPage,
    after: ResonateSoundboardPage,
    path: Seq<char>,
    volume: Scalar,
    i: int,
)
    requires
        is_added(before, after, path, volume),
        before.sounds@.len() + 1 < u32::MAX,
    ensures
        after.tiles().len() == before.tiles().len() + 1,
        0 <= i < before.tiles().len() ==> after.tiles()[i] == before.tiles()[i],
        after.tiles().last().path == path,
        after.tiles().last().name == title_of(path),
        after.tiles().last().volume == volume,
        after.tiles().last().number == after.tiles().len(),
        after.tiles().last().shown,
        !after.tiles().last().marked,
        after.selected == before.selected,
        after.one_shot == before.one_shot,
{
}

/// The bar follows the hand while it is dragged, and what is played otherwise; at nothing
/// it is empty.
pub proof fn the_bar_follows_the_hand(page: ResonateSoundboardPage, played: Scalar)
    ensures
        page.drag_frac is Some && page.drag_frac->0.above(0) ==> page.filled() == Some(
            Fill::Dragged(page.drag_frac->0.pinned()),
        ),
        page.drag_frac is Some ==> (ResonateSoundboardPage { progress_fraction: played, ..page }).filled()
            == page.filled(),
        page.drag_frac is None && milli(0).lt(page.progress_fraction) && page.progress_fraction.le(
            milli(1000),
        ) ==> page.filled() == Some(Fill::Played(page.progress_fraction)),
        page.drag_frac is None && milli(1000).lt(page.progress_fraction) ==> page.filled() == Some(
            Fill::Played(milli(1000)),
        ),
        page.drag_frac is None && page.progress_fraction.le(milli(0)) ==> page.filled() is None,
{
    milli_grows(0, 1000);
}

/// The start marker is seen while nothing plays, the playhead while a preview runs, and
/// neither before the length of the sound is known.
pub proof fn marks_need_a_length(page: ResonateSoundboardPage)
    ensures
        page.is_playing ==> page.marked_place() is None,
        page.one_shot is None ==> page.marked_place() is None,
        page.preview_pos is None ==> page.previewed_place() is None,
        page.duration is None ==> page.marked_place() is None && page.previewed_place() is None,
        page.duration is Some && milli(0).lt(page.duration->0) && !page.is_playing && page.one_shot is Some
            ==> page.marked_place() == Some(fraction_of(page.one_shot->0, page.duration->0)),
        page.duration is Some && milli(0).lt(page.duration->0) && page.preview_pos is Some
            ==> page.previewed_place() == Some(fraction_of(page.preview_pos->0, page.duration->0)),
{
}

/// The bar shows the first of the sounds that play, and nothing once they are over.
pub proof fn the_display_shows_the_first_sound(
    before: ResonateSoundboardPage,
    after: ResonateSoundboardPage,
    playing: Seq<SoundInfo>,
)
    requires
        after == before.displaying(playing),
    ensures
        after.is_playing <==> playing.len() > 0,
        playing.len() > 0 ==> after.progress_fraction == playing[0].fraction,
        playing.len() == 0 ==> after.progress_fraction.magnitude() == 0,
        after.selected == before.selected,
        after.one_shot == before.one_shot,
        after.sounds == before.sounds,
{
    milli_zero();
}

/// The tiles of a page are numbered from 1 on without a gap.
pub proof fn tiles_are_numbered_from_one(page: ResonateSoundboardPage, i: int)
    requires
        page.wf(),
        0 <= i < page.tiles().len(),
    ensures
        page.tiles()[i].number == i + 1,
{
    assert(page.sounds@[i].number == i + 1);
}

/// A column of the trace reaches from the lowest to the highest of its samples.
pub proof fn a_column_encloses_its_samples(samples: Seq<Scalar>, px: int, width: int, i: int)
    requires
        0 <= px < width,
        0 < samples.len(),
        column_start(px, width, samples.len() as int) <= i < column_end(
            px,
            width,
            samples.len() as int,
        ),
        forall|k: int| 0 <= k < samples.len() ==> !(#[trigger] samples[k]).is_nan(),
    ensures
        column_of(samples, px, width).0.le(samples[i]),
        samples[i].le(column_of(samples, px, width).1),
{
    let len = samples.len() as int;
    column_bounds(px, width, len);
    let from = column_start(px, width, len);
    let part = samples.subrange(from, column_end(px, width, len));
    assert forall|k: int| 0 <= k < part.len() implies !(#[trigger] part[k]).is_nan() by {
        assert(part[k] == samples[from + k]);
    }
    assert(part[i - from] == samples[i]);
    columns_enclose_their_samples(part, i - from);
}

/// The playhead of a preview is drawn anew exactly where it has moved.
pub proof fn the_playhead_is_where_the_preview_is(
    before: ResonateSoundboardPage,
    after: ResonateSoundboardPage,
    pos: Option<Scalar>,
    changed: bool,
)
    requires
        is_playhead_moved(before, after, pos, changed),
    ensures
        pos is None ==> after.preview_pos is None,
        pos is Some ==> after.preview_pos is Some,
        pos is Some && !pos->0.is_nan() ==> after.preview_pos->0.place() == pos->0.place(),
        !changed ==> after == before,
        after.one_shot == before.one_shot,
        after.selected == before.selected,
{
}

} // verus!
