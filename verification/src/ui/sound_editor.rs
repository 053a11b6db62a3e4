//! The sound editor: the two markers on the waveform of a sound, its preview, its fades
//! and its volume. What is changed is saved at once.
//!
//! The start that holds for one play only is marked on the soundboard page, not here.

use vstd::prelude::*;
use vstd::arithmetic::power2::{lemma2_to64, lemma2_to64_rest, lemma_pow2_strictly_increases, pow2};

use crate::arithmetic::milli_one;
use crate::audio::engine::PlayParams;
use crate::audio::wave::WAVE_BUCKETS;
use crate::config::{SoundSettings, StartMode};
use crate::double::{
    double_of, down, has_scale, nearest_double, scale_is_unique, up, whole_double, wide_exponent,
    wide_significand, Double, Fraction, FULL,
};
use crate::ordered::{
    beyond_the_middle_the_end_is_nearer, difference_is_rounded_distance,
    pinned_fractions_are_at_most_one, product_by_one, product_by_zero, products_commute,
    products_keep_order, rounded_distances_tell, rounding_is_exact, rounding_keeps_order,
};
use crate::rounding::{
    distance, from_milli, middle, milli, milli_is_finite, milli_zero, rounding_is_unique,
    rounds_to,
};
use crate::scalar::{order_is_numeric, units, Scalar, INFINITE};

verus! {

/// How the editor plays a sound: from the marker, even when it is switched off, because
/// that is what is being tried out.
pub open spec fn preview_of(s: SoundSettings) -> PlayParams {
    PlayParams {
        volume: s.volume,
        start_secs: s.start_secs,
        end_secs: s.end_secs,
        fade_in_ms: s.fade_in_ms,
        fade_out_ms: s.fade_out_ms,
    }
}

/// How the editor plays a sound.
pub fn preview_params(s: &SoundSettings) -> (r: PlayParams)
    ensures
        r == preview_of(*s),
{
    PlayParams {
        volume: s.volume,
        start_secs: s.start_secs,
        end_secs: s.end_secs,
        fade_in_ms: s.fade_in_ms,
        fade_out_ms: s.fade_out_ms,
    }
}

/// An open editor.
#[derive(Clone, Copy, Debug, PartialEq, Eq, Structural)]
pub struct SoundEditor {
    pub settings: SoundSettings,
    /// Length of the sound, once it is decoded.
    pub duration: Option<Scalar>,
    pub playhead: Option<Scalar>,
    pub previewing: bool,
    /// The drag moves the end marker.
    pub dragging_end: bool,
}

/// What is to be done when a marker is let go.
#[derive(Clone, Copy, Debug, PartialEq, Eq, Structural)]
pub struct Commit {
    /// Switch the start marker on.
    pub arm: bool,
    /// Save these settings.
    pub save: SoundSettings,
    /// Start the running preview anew, like this.
    pub preview: Option<PlayParams>,
}

/// What changed with the position of the preview.
#[derive(Clone, Copy, Debug, PartialEq, Eq, Structural)]
pub struct Polled {
    /// The preview has come to its end.
    pub ended: bool,
    /// The playhead has moved.
    pub redraw: bool,
}

/// Where a sound ends: at its end marker, or else at its end.
pub open spec fn end_of(s: SoundSettings, duration: Scalar) -> Scalar {
    if milli(0).lt(s.end_secs) {
        s.end_secs
    } else {
        duration
    }
}

/// The end marker is nearer to the given time than the start marker.
pub open spec fn nearer_to_end(s: SoundSettings, duration: Scalar, secs: Scalar) -> bool {
    secs.difference(end_of(s, duration)).absolute().lt(
        secs.difference(s.start_secs).absolute(),
    )
}

/// The pattern of 0.995: from there on the end marker snaps to the end of the sound.
pub const SNAP: u64 = 0x3fef_d70a_3d70_a3d7;

/// The settings after a marker was dragged to a fraction of the sound. The end marker
/// snaps to the end of the sound, which means that nothing is trimmed; otherwise the
/// markers stay a twentieth of a second apart.
pub open spec fn dragged(
    s: SoundSettings,
    duration: Scalar,
    fraction: Fraction,
    moves_end: bool,
) -> SoundSettings {
    let secs = fraction.narrowed().product(duration);
    if moves_end {
        SoundSettings {
            end_secs: if fraction.above(SNAP) {
                milli(0)
            } else {
                secs.larger(s.start_secs.sum(milli(50)))
            },
            ..s
        }
    } else {
        SoundSettings {
            start_secs: if milli(0).lt(s.end_secs) {
                secs.smaller(s.end_secs.difference(milli(50)))
            } else {
                secs
            },
            ..s
        }
    }
}

/// The two positions are the same.
pub open spec fn same_place(a: Option<Scalar>, b: Option<Scalar>) -> bool {
    match (a, b) {
        (Some(a), Some(b)) => a.le(b) && b.le(a),
        (None, None) => true,
        _ => false,
    }
}

/// `after` is the editor `before`, once the marker was let go.
pub open spec fn is_commit(before: SoundEditor, after: SoundEditor, r: Commit) -> bool {
    &&& r.arm == (!before.dragging_end && before.settings.start_mode == StartMode::Off)
    &&& after == before.let_go()
    &&& r.save == after.settings
    &&& r.preview == (if before.previewing {
        Some(preview_of(after.settings))
    } else {
        None
    })
}

/// `after` is the editor `before`, once it was told the position of the preview.
pub open spec fn is_polled(
    before: SoundEditor,
    after: SoundEditor,
    pos: Option<Scalar>,
    r: Polled,
) -> bool {
    &&& r.ended == (pos is None && before.previewing)
    &&& r.redraw == !same_place(before.playhead, pos)
    &&& after == (SoundEditor {
        previewing: before.previewing && pos is Some,
        playhead: if r.redraw {
            pos
        } else {
            before.playhead
        },
        ..before
    })
}

/// The settings with the start marker switched.
pub open spec fn with_start(s: SoundSettings, active: bool) -> SoundSettings {
    SoundSettings {
        start_mode: if active {
            StartMode::Every
        } else {
            StartMode::Off
        },
        ..s
    }
}

impl SoundEditor {
    pub open spec fn length(&self) -> Scalar {
        match self.duration {
            Some(d) => d,
            None => milli(0),
        }
    }

    /// Opens the editor on a sound.
    pub fn open(settings: SoundSettings) -> (r: Self)
        ensures
            r == (SoundEditor {
                settings,
                duration: None,
                playhead: None,
                previewing: false,
                dragging_end: false,
            }),
    {
        SoundEditor {
            settings,
            duration: None,
            playhead: None,
            previewing: false,
            dragging_end: false,
        }
    }

    /// Whether plays begin at the start marker.
    pub fn start_active(&self) -> (r: bool)
        ensures
            r == (self.settings.start_mode != StartMode::Off),
    {
        match self.settings.start_mode {
            StartMode::Off => false,
            StartMode::Every | StartMode::Once => true,
        }
    }

    /// The sound is decoded.
    pub fn decoded(&mut self, duration: Scalar)
        ensures
            *final(self) == (SoundEditor { duration: Some(duration), ..*old(self) }),
    {
        self.duration = Some(duration);
    }

    fn known_length(&self) -> (r: Scalar)
        ensures
            r == self.length(),
    {
        match self.duration {
            Some(d) => d,
            None => from_milli(0),
        }
    }

    /// The times on the label.
    pub open spec fn labelled(&self) -> Option<(Scalar, Scalar, Scalar)> {
        if self.length().le(milli(0)) {
            None
        } else {
            Some(
                (self.settings.start_secs, end_of(self.settings, self.length()), self.length()),
            )
        }
    }

    /// The times on the label: start, end and length; none before the sound is decoded.
    pub fn times(&self) -> (r: Option<(Scalar, Scalar, Scalar)>)
        ensures
            r == self.labelled(),
    {
        let length: Scalar = self.known_length();
        if length.at_most(from_milli(0)) {
            return None;
        }
        let end: Scalar = if from_milli(0).below(self.settings.end_secs) {
            self.settings.end_secs
        } else {
            length
        };
        Some((self.settings.start_secs, end, length))
    }

    // ── Markers ──────────────────────────────────────────────────────────────

    /// The time on the waveform at a fraction of its width.
    pub open spec fn touched(self, fraction: Fraction) -> Scalar {
        fraction.pinned().narrowed().product(self.length())
    }

    /// The editor once the waveform was touched at a fraction of its width.
    pub open spec fn after_drag(self, fraction: Fraction, begin: bool) -> SoundEditor {
        let moves_end = if begin {
            nearer_to_end(self.settings, self.length(), self.touched(fraction))
        } else {
            self.dragging_end
        };
        if self.length().le(milli(0)) {
            self
        } else {
            SoundEditor {
                settings: dragged(self.settings, self.length(), fraction.pinned(), moves_end),
                dragging_end: moves_end,
                ..self
            }
        }
    }

    /// The waveform is touched at a fraction of its width. A press takes hold of the
    /// nearer marker, and the drag moves it. Tells whether anything moved.
    pub fn drag(&mut self, fraction: Fraction, begin: bool) -> (moved: bool)
        ensures
            moved == !old(self).length().le(milli(0)),
            *final(self) == old(self).after_drag(fraction, begin),
    {
        let length: Scalar = self.known_length();
        if length.at_most(from_milli(0)) {
            return false;
        }
        let at: Fraction = fraction.pin();
        let secs: Scalar = at.narrow().times(length);
        let s: SoundSettings = self.settings;
        let trimmed: bool = from_milli(0).below(s.end_secs);
        if begin {
            let end: Scalar = if trimmed {
                s.end_secs
            } else {
                length
            };
            self.dragging_end = secs.minus(end).abs().below(secs.minus(s.start_secs).abs());
        }
        if self.dragging_end {
            self.settings.end_secs = if at.is_above(SNAP) {
                from_milli(0)
            } else {
                secs.max_with(s.start_secs.plus(from_milli(50)))
            };
        } else {
            self.settings.start_secs = if trimmed {
                secs.min_with(s.end_secs.minus(from_milli(50)))
            } else {
                secs
            };
        }
        true
    }

    /// The editor once the marker is let go.
    pub open spec fn let_go(self) -> SoundEditor {
        if !self.dragging_end && self.settings.start_mode == StartMode::Off {
            SoundEditor {
                settings: SoundSettings { start_mode: StartMode::Every, ..self.settings },
                ..self
            }
        } else {
            self
        }
    }

    /// The marker is let go. Moving the start marker while it is switched off switches it
    /// on: a marker that does nothing would be confusing. A running preview starts anew.
    pub fn commit(&mut self) -> (r: Commit)
        ensures
            is_commit(*old(self), *final(self), r),
    {
        let arm: bool = !self.dragging_end && !self.start_active();
        if arm {
            self.settings.start_mode = StartMode::Every;
        }
        let preview: Option<PlayParams> = if self.previewing {
            Some(preview_params(&self.settings))
        } else {
            None
        };
        Commit { arm, save: self.settings, preview }
    }

    // ── Preview ──────────────────────────────────────────────────────────────

    /// Starts or stops the preview; tells how to play where it starts.
    pub fn toggle_preview(&mut self) -> (r: Option<PlayParams>)
        ensures
            *final(self) == (SoundEditor { previewing: !old(self).previewing, ..*old(self) }),
            r == (if old(self).previewing {
                None
            } else {
                Some(preview_of(old(self).settings))
            }),
    {
        if self.previewing {
            self.previewing = false;
            None
        } else {
            self.previewing = true;
            Some(preview_params(&self.settings))
        }
    }

    /// Takes in the position of the preview; there is none when it has ended.
    pub fn poll(&mut self, pos: Option<Scalar>) -> (r: Polled)
        ensures
            is_polled(*old(self), *final(self), pos, r),
    {
        let ended: bool = pos.is_none() && self.previewing;
        if ended {
            self.previewing = false;
        }
        let same: bool = match self.playhead {
            Some(a) => match pos {
                Some(b) => a.at_most(b) && b.at_most(a),
                None => false,
            },
            None => pos.is_none(),
        };
        if !same {
            self.playhead = pos;
        }
        Polled { ended, redraw: !same }
    }

    // ── Rows ─────────────────────────────────────────────────────────────────

    /// Switches the start marker; hands out the settings to save.
    pub fn set_start_active(&mut self, active: bool) -> (r: SoundSettings)
        ensures
            r == with_start(old(self).settings, active),
            *final(self) == (SoundEditor { settings: r, ..*old(self) }),
    {
        self.settings.start_mode = if active {
            StartMode::Every
        } else {
            StartMode::Off
        };
        self.settings
    }

    pub fn set_fade_in(&mut self, ms: Scalar) -> (r: SoundSettings)
        ensures
            r == (SoundSettings { fade_in_ms: ms, ..old(self).settings }),
            *final(self) == (SoundEditor { settings: r, ..*old(self) }),
    {
        self.settings.fade_in_ms = ms;
        self.settings
    }

    pub fn set_fade_out(&mut self, ms: Scalar) -> (r: SoundSettings)
        ensures
            r == (SoundSettings { fade_out_ms: ms, ..old(self).settings }),
            *final(self) == (SoundEditor { settings: r, ..*old(self) }),
    {
        self.settings.fade_out_ms = ms;
        self.settings
    }

    pub fn set_volume(&mut self, volume: Scalar) -> (r: SoundSettings)
        ensures
            r == (SoundSettings { volume, ..old(self).settings }),
            *final(self) == (SoundEditor { settings: r, ..*old(self) }),
    {
        self.settings.volume = volume;
        self.settings
    }

    // ── Drawing ──────────────────────────────────────────────────────────────

    /// Where the two markers are drawn.
    pub open spec fn drawn(&self) -> (Option<Double>, Option<Double>) {
        (
            place_of(self.settings.start_secs, self.length().larger(milli(1))),
            if milli(0).lt(self.settings.end_secs) {
                place_of(self.settings.end_secs, self.length().larger(milli(1)))
            } else {
                Some(whole_double(1))
            },
        )
    }

    /// Where the start and the end marker are drawn, as fractions of the width. Without
    /// an end marker the end is the right edge.
    pub fn marks(&self) -> (r: (Option<Double>, Option<Double>))
        ensures
            r == self.drawn(),
    {
        let end: Option<Double> = if from_milli(0).below(self.settings.end_secs) {
            self.place(self.settings.end_secs)
        } else {
            Some(double_of(1))
        };
        (self.place(self.settings.start_secs), end)
    }

    /// Where the playhead of the preview is drawn.
    pub fn playhead_mark(&self) -> (r: Option<Double>)
        ensures
            r == (match self.playhead {
                Some(pos) => place_of(pos, self.length().larger(milli(1))),
                None => None,
            }),
    {
        match self.playhead {
            Some(pos) => self.place(pos),
            None => None,
        }
    }

    fn place(&self, secs: Scalar) -> (r: Option<Double>)
        ensures
            r == place_of(secs, self.length().larger(milli(1))),
    {
        let length: Scalar = self.known_length().max_with(from_milli(1));
        let p: u32 = secs.get_magnitude();
        let q: u32 = length.get_magnitude();
        if p > INFINITE || (p == INFINITE && q == INFINITE) {
            return None;
        }
        if secs.get_negative() || q == INFINITE {
            return Some(double_of(0));
        }
        if p == INFINITE {
            return Some(double_of(1));
        }
        proof {
            shortest_length(self.length());
        }
        let at: Double = secs.widen().over(length.widen());
        if at.ceil(2) > 1 {
            Some(double_of(1))
        } else {
            Some(at)
        }
    }
}

/// Where a time stands on a waveform of the given length, as a fraction of its width:
/// at an edge where it lies beyond it, and nowhere if it is not a number.
pub open spec fn place_of(secs: Scalar, length: Scalar) -> Option<Double> {
    if secs.is_nan() || (secs.is_infinite() && length.is_infinite()) {
        None
    } else if secs.negative() || length.is_infinite() {
        Some(whole_double(0))
    } else if secs.is_infinite() {
        Some(whole_double(1))
    } else {
        let at = secs.widened().ratio(length.widened());
        if at.rounded_up() > 1 {
            Some(whole_double(1))
        } else {
            Some(at)
        }
    }
}

/// No sound is taken to be shorter than a millisecond.
proof fn shortest_length(length: Scalar)
    ensures
        !length.larger(milli(1)).is_nan(),
        !length.larger(milli(1)).negative(),
        length.larger(milli(1)).magnitude() > 0,
{
    milli_is_finite(1);
    let p = milli(1).magnitude();
    lemma2_to64();
    lemma_pow2_strictly_increases(64, 149);
    assert(units(0) == 0 && units(1) == 1);
    assert(distance(1, 0) == 1);
    let n = distance(1, 0) * pow2(149);
    assert(n == pow2(149)) by (nonlinear_arith)
        requires
            n == distance(1, 0) * pow2(149),
            distance(1, 0) == 1,
    ;
    assert(rounds_to(n, 1000, p));
    assert(middle(0) == 1);
}

/// The bucket of the waveform that is drawn in column `px` of `width`.
pub fn bucket_at(px: u32, width: u32) -> (r: usize)
    requires
        px < width,
    ensures
        r == px * WAVE_BUCKETS as int / width as int,
        r < WAVE_BUCKETS,
{
    assert(px * 1024 / (width as int) < 1024) by (nonlinear_arith)
        requires
            0 <= px < width,
    ;
    let at: u64 = px as u64 * WAVE_BUCKETS as u64 / width as u64;
    at as usize
}

// ── Laws ─────────────────────────────────────────────────────────────────────

/// A drag moves one marker and nothing else.
pub proof fn a_drag_moves_one_marker(
    s: SoundSettings,
    duration: Scalar,
    fraction: Fraction,
    moves_end: bool,
)
    ensures
        ({
            let after = dragged(s, duration, fraction, moves_end);
            &&& moves_end ==> after == (SoundSettings { end_secs: after.end_secs, ..s })
            &&& !moves_end ==> after == (SoundSettings { start_secs: after.start_secs, ..s })
        }),
{
}

/// The markers do not cross: a dragged end marker stays behind the start by the gap,
/// unless it snaps to the end of the sound, and a dragged start marker stays in front of
/// the end marker by the gap.
pub proof fn markers_do_not_cross(
    s: SoundSettings,
    duration: Scalar,
    fraction: Fraction,
    moves_end: bool,
)
    requires
        !fraction.narrowed().product(duration).is_nan(),
        !s.start_secs.sum(milli(50)).is_nan(),
        !s.end_secs.difference(milli(50)).is_nan(),
    ensures
        ({
            let after = dragged(s, duration, fraction, moves_end);
            &&& moves_end && !fraction.above(SNAP) ==> s.start_secs.sum(milli(50)).le(
                after.end_secs,
            )
            &&& moves_end && fraction.above(SNAP) ==> after.end_secs == milli(0)
            &&& !moves_end && milli(0).lt(s.end_secs) ==> after.start_secs.le(
                s.end_secs.difference(milli(50)),
            )
        }),
{
}

/// The end marker snaps at the double that is nearest to 0.995.
pub proof fn snap_is_where_it_says()
    ensures
        nearest_double(995, 1000, 0) == (Double {
            m: wide_significand(SNAP as nat) as u64,
            x: wide_exponent(SNAP as nat) as i32,
        }),
{
    lemma2_to64();
    lemma2_to64_rest();
    let (u, d) = (up(-53), down(-53));
    assert(u == 1 && d == 0x20_0000_0000_0000);
    assert(FULL * (1000 * u) <= 995 * d < 2 * FULL * (1000 * u)) by (nonlinear_arith)
        requires
            u == 1,
            d == 0x20_0000_0000_0000,
    ;
    assert(has_scale(995, 1000, -53));
    let x = choose|x: int| has_scale(995, 1000, x);
    scale_is_unique(995, 1000, -53, x);
}

/// Letting go of the start marker always leaves it switched on.
pub proof fn a_moved_start_marker_is_on(editor: SoundEditor)
    requires
        !editor.dragging_end,
    ensures
        editor.let_go().settings.start_mode != StartMode::Off,
        editor.let_go().settings.start_secs == editor.settings.start_secs,
{
}

/// An editor on a decoded sound of some length, pressed at a place on the waveform.
pub open spec fn is_press(editor: SoundEditor, fraction: Fraction) -> bool {
    &&& milli(0).lt(editor.length())
    &&& editor.length().is_finite()
    &&& editor.settings.start_secs.is_finite()
    &&& editor.settings.end_secs.is_finite()
    &&& !fraction.is_nan()
}

/// Whoever takes hold of the end marker has pressed nearer to it than to the start marker,
/// by the exact distances. The end marker of a sound that is not trimmed stands at the end
/// of the sound.
pub proof fn a_press_takes_the_nearer_marker(editor: SoundEditor, fraction: Fraction)
    requires
        is_press(editor, fraction),
        editor.after_drag(fraction, true).dragging_end,
    ensures
        ({
            let at = editor.touched(fraction).value();
            let end = if milli(0).lt(editor.settings.end_secs) {
                editor.settings.end_secs.value()
            } else {
                editor.length().value()
            };
            distance(at, end) < distance(at, editor.settings.start_secs.value())
        }),
{
    touched_is_on_the_waveform(editor, fraction);
    let end = end_of(editor.settings, editor.length());
    rounded_distances_tell(editor.touched(fraction), end, editor.settings.start_secs);
}

/// Of a sound that is not trimmed at all, a press beyond the middle takes hold of the end
/// marker and moves it there, and a press before it takes hold of the start marker. The
/// other marker is left alone.
pub proof fn the_end_of_an_untrimmed_sound_can_be_trimmed(editor: SoundEditor, fraction: Fraction)
    requires
        is_press(editor, fraction),
        editor.settings.start_secs.magnitude() == 0,
        editor.settings.end_secs.magnitude() == 0,
    ensures
        ({
            let (s, after) = (editor.settings, editor.after_drag(fraction, true));
            let beyond = editor.length().value() < 2 * editor.touched(fraction).value();
            &&& after.dragging_end == beyond
            &&& beyond ==> after.settings == (SoundSettings {
                end_secs: after.settings.end_secs,
                ..s
            })
            &&& !beyond ==> after.settings == (SoundSettings {
                start_secs: editor.touched(fraction),
                ..s
            })
            &&& beyond && !fraction.pinned().above(SNAP) && s.start_secs.sum(milli(50)).le(
                editor.touched(fraction),
            ) ==> equal_places(after.settings.end_secs, editor.touched(fraction))
        }),
{
    touched_is_on_the_waveform(editor, fraction);
    milli_zero();
    assert(units(0) == 0);
    let (at, length, begin) = (editor.touched(fraction), editor.length(), editor.settings.start_secs);
    order_is_numeric(at, length);
    if length.value() < 2 * at.value() {
        order_is_numeric(at, milli(0));
        if at.negative() {
            assert(at.value() <= 0);
        }
        beyond_the_middle_the_end_is_nearer(at, length, begin);
    } else if editor.after_drag(fraction, true).dragging_end {
        a_press_takes_the_nearer_marker(editor, fraction);
        assert(distance(at.value(), begin.value()) == at.value());
    }
}

/// The two numbers stand at the same place.
pub open spec fn equal_places(a: Scalar, b: Scalar) -> bool {
    a.le(b) && b.le(a)
}

/// A press on a marker takes hold of that marker, wherever the other one stands.
pub proof fn a_press_on_a_marker_takes_it(editor: SoundEditor, fraction: Fraction)
    requires
        is_press(editor, fraction),
        milli(0).lt(editor.settings.end_secs),
        editor.settings.start_secs.value() != editor.settings.end_secs.value(),
    ensures
        editor.touched(fraction).value() == editor.settings.end_secs.value()
            ==> editor.after_drag(fraction, true).dragging_end,
        editor.touched(fraction).value() == editor.settings.start_secs.value()
            ==> !editor.after_drag(fraction, true).dragging_end,
{
    touched_is_on_the_waveform(editor, fraction);
    let (at, s) = (editor.touched(fraction), editor.settings);
    difference_is_rounded_distance(at, s.end_secs);
    difference_is_rounded_distance(at, s.start_secs);
    assert(units(0) == 0 && units(1) == 1);
    rounding_is_exact(0, 1);
    rounding_is_exact(1, 1);
    if at.value() == s.end_secs.value() {
        let d = distance(at.value(), s.start_secs.value());
        rounding_is_unique(0, 1, 0, at.difference(s.end_secs).absolute().magnitude());
        rounding_keeps_order(1, 1, d, 1, 1, at.difference(s.start_secs).absolute().magnitude());
    } else if at.value() == s.start_secs.value() {
        rounding_is_unique(0, 1, 0, at.difference(s.start_secs).absolute().magnitude());
    }
}

/// While a drag goes on it moves the marker that the press took hold of, and that marker
/// goes where the waveform is touched, as far as the other one lets it.
pub proof fn a_drag_holds_on_to_its_marker(editor: SoundEditor, fraction: Fraction)
    requires
        is_press(editor, fraction),
    ensures
        ({
            let (s, at) = (editor.settings, editor.touched(fraction));
            let after = editor.after_drag(fraction, false);
            &&& after.dragging_end == editor.dragging_end
            &&& editor.dragging_end ==> after.settings.start_secs == s.start_secs
            &&& !editor.dragging_end ==> after.settings.end_secs == s.end_secs
            &&& editor.dragging_end && !fraction.pinned().above(SNAP) && s.start_secs.sum(
                milli(50),
            ).le(at) ==> equal_places(after.settings.end_secs, at)
            &&& !editor.dragging_end && (milli(0).lt(s.end_secs) ==> at.le(
                s.end_secs.difference(milli(50)),
            )) ==> equal_places(after.settings.start_secs, at)
            &&& editor.dragging_end && fraction.pinned().above(SNAP)
                ==> after.settings.end_secs.magnitude() == 0
        }),
{
    touched_is_on_the_waveform(editor, fraction);
    milli_zero();
}

/// A touch is somewhere from the beginning of the waveform to its end.
proof fn touched_is_on_the_waveform(editor: SoundEditor, fraction: Fraction)
    requires
        is_press(editor, fraction),
    ensures
        editor.touched(fraction).is_finite(),
        editor.touched(fraction).le(editor.length()),
        editor.touched(fraction).value() <= editor.length().value(),
        0 <= editor.touched(fraction).value(),
{
    milli_zero();
    milli_one();
    let (part, length) = (fraction.pinned().narrowed(), editor.length());
    pinned_fractions_are_at_most_one(fraction);
    products_commute(part, length);
    product_by_one(length);
    assert(units(0) == 0);
    if part.negative() {
        product_by_zero(length, part);
    } else {
        products_keep_order(length, part, milli(1000));
    }
    order_is_numeric(editor.touched(fraction), length);
}

/// The editor plays a sound from its marker to its end marker, with its own volume and
/// fades, whether or not the marker is on.
pub proof fn the_editor_plays_what_it_shows(s: SoundSettings, mode: StartMode)
    ensures
        preview_of(s).volume == s.volume,
        preview_of(s).start_secs == s.start_secs,
        preview_of(s).end_secs == s.end_secs,
        preview_of(s).fade_in_ms == s.fade_in_ms,
        preview_of(s).fade_out_ms == s.fade_out_ms,
        preview_of((SoundSettings { start_mode: mode, ..s })) == preview_of(s),
{
}

/// A marker that is let go is saved where it is. Letting go of the start marker switches
/// it on, and a preview that runs starts anew with what is saved.
pub proof fn letting_go_saves_the_marker(before: SoundEditor, after: SoundEditor, r: Commit)
    requires
        is_commit(before, after, r),
    ensures
        r.save == after.settings,
        r.save.start_secs == before.settings.start_secs,
        r.save.end_secs == before.settings.end_secs,
        r.save.volume == before.settings.volume,
        !before.dragging_end ==> r.save.start_mode != StartMode::Off,
        before.dragging_end ==> r.save == before.settings,
        before.settings.start_mode != StartMode::Off ==> r.save == before.settings,
        r.arm <==> r.save.start_mode != before.settings.start_mode,
        r.preview is Some <==> before.previewing,
        r.preview is Some ==> r.preview->0.start_secs == r.save.start_secs
            && r.preview->0.end_secs == r.save.end_secs && r.preview->0.fade_in_ms
            == r.save.fade_in_ms && r.preview->0.fade_out_ms == r.save.fade_out_ms,
{
}

/// A preview ends when there is no position any more, and only one that ran ends; the
/// playhead goes where the position is.
pub proof fn a_preview_ends_without_a_position(
    before: SoundEditor,
    after: SoundEditor,
    pos: Option<Scalar>,
    r: Polled,
)
    requires
        is_polled(before, after, pos, r),
    ensures
        pos is None ==> !after.previewing && after.playhead is None && (r.ended <==> before.previewing),
        pos is Some ==> !r.ended && after.previewing == before.previewing && after.playhead is Some,
        pos is Some && !pos->0.is_nan() ==> after.playhead->0.place() == pos->0.place(),
        !r.redraw ==> after.playhead == before.playhead,
        after.settings == before.settings,
{
}

/// Switching the start marker keeps the place of it; so it is where it was when it is
/// switched on again.
pub proof fn a_switched_marker_stays_in_place(s: SoundSettings)
    ensures
        with_start(s, true).start_mode == StartMode::Every,
        with_start(s, false).start_mode == StartMode::Off,
        with_start(with_start(s, false), true) == with_start(s, true),
        with_start(s, false).start_secs == s.start_secs,
        with_start(s, true).start_secs == s.start_secs,
        with_start(s, true).end_secs == s.end_secs,
        with_start(s, true).volume == s.volume,
{
}

/// The label shows the start, the end of what is heard and the length, once it is known.
pub proof fn the_label_shows_the_markers(editor: SoundEditor)
    ensures
        editor.duration is None ==> editor.labelled() is None,
        editor.labelled() is Some ==> {
            let (start, end, length) = editor.labelled()->0;
            &&& start == editor.settings.start_secs
            &&& milli(0).lt(editor.settings.end_secs) ==> end == editor.settings.end_secs
            &&& editor.settings.end_secs.le(milli(0)) ==> end == length
            &&& editor.duration == Some(length)
            &&& !length.le(milli(0))
        },
        editor.duration is Some && milli(0).lt(editor.duration->0) ==> editor.labelled() is Some,
{
    milli_zero();
}

/// A marker in front of the sound is drawn at its left edge, one behind it at its right
/// edge, and one that is nowhere is not drawn.
pub proof fn markers_are_drawn_on_the_wave(secs: Scalar, length: Scalar)
    requires
        !length.is_nan(),
    ensures
        place_of(secs, length) is None <==> secs.is_nan() || (secs.is_infinite()
            && length.is_infinite()),
        secs.negative() && secs.is_finite() ==> place_of(secs, length) == Some(whole_double(0)),
        !secs.negative() && secs.is_infinite() && length.is_finite() ==> place_of(secs, length)
            == Some(whole_double(1)),
        secs.is_finite() && length.is_infinite() ==> place_of(secs, length) == Some(whole_double(0)),
        place_of(secs, length) is Some && secs.is_finite() && length.is_finite()
            && !secs.negative() ==> {
            let at = secs.widened().ratio(length.widened());
            place_of(secs, length)->0 == at || place_of(secs, length)->0 == whole_double(1)
        },
{
}

/// Without an end marker the end is drawn at the right edge; the start is drawn at its
/// marker, whether or not it is on.
pub proof fn the_end_is_drawn_at_the_edge(editor: SoundEditor, mode: StartMode)
    ensures
        editor.settings.end_secs.le(milli(0)) ==> editor.drawn().1 == Some(whole_double(1)),
        milli(0).lt(editor.settings.end_secs) && milli(1).le(editor.length()) ==> editor.drawn().1
            == place_of(editor.settings.end_secs, editor.length()),
        milli(1).le(editor.length()) ==> editor.drawn().0 == place_of(
            editor.settings.start_secs,
            editor.length(),
        ),
        (SoundEditor {
            settings: SoundSettings { start_mode: mode, ..editor.settings },
            ..editor
        }).drawn() == editor.drawn(),
{
    milli_zero();
}

} // verus!
