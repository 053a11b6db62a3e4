//! Global shortcuts.
//!
//! Digits on the number pad, held with Ctrl and Alt, type the number of a tile: 5
//! and then 6 play tile 56 once no further digit comes. Enter on the number pad
//! stops everything.

use vstd::prelude::*;

use crate::number::{all_digits, decimal, digit, digits_value, is_digit, parse_number, push_decimal, spelled_number, unsigned};
use crate::text::{concat, concat_all, contains, has_part, has_prefix, owned, replace_char, replaced, same_text, strip_prefix, views};
use crate::tray::APP_ID;

verus! {

/// What a shortcut means.
#[derive(Clone, Copy, Debug, PartialEq, Eq, Structural)]
pub enum HotkeyEvent {
    /// A digit from 0 to 9; digits add up to the number of a tile.
    Digit(u8),
    /// Stop all playback.
    StopAll,
}

/// The event that an activated shortcut stands for, if it is one of ours.
pub open spec fn event_of(id: Seq<char>) -> Option<HotkeyEvent> {
    if id == "stop-all"@ {
        Some(HotkeyEvent::StopAll)
    } else if has_prefix(id, "digit-"@) {
        match spelled_number(id.skip("digit-"@.len() as int), 255) {
            Some(d) => if d <= 9 {
                Some(HotkeyEvent::Digit(d as u8))
            } else {
                None
            },
            None => None,
        }
    } else {
        None
    }
}

/// Reads the identifier of an activated shortcut.
pub fn activation(id: &str) -> (r: Option<HotkeyEvent>)
    ensures
        r == event_of(id@),
{
    if same_text(id, "stop-all") {
        return Some(HotkeyEvent::StopAll);
    }
    match strip_prefix(id, "digit-") {
        Some(rest) => match parse_number(rest.as_str(), 255) {
            Some(d) => {
                if d <= 9 {
                    Some(HotkeyEvent::Digit(d as u8))
                } else {
                    None
                }
            },
            None => None,
        },
        None => None,
    }
}

// ── Shortcuts ────────────────────────────────────────────────────────────────

/// A shortcut as it is registered with the desktop.
pub struct Shortcut {
    pub id: String,
    pub description: String,
    pub preferred_trigger: String,
}

pub struct ShortcutView {
    pub id: Seq<char>,
    pub description: Seq<char>,
    pub preferred_trigger: Seq<char>,
}

impl View for Shortcut {
    type V = ShortcutView;

    open spec fn view(&self) -> ShortcutView {
        ShortcutView {
            id: self.id@,
            description: self.description@,
            preferred_trigger: self.preferred_trigger@,
        }
    }
}

/// The shortcut for a digit.
pub open spec fn digit_shortcut(d: nat) -> ShortcutView {
    ShortcutView {
        id: "digit-"@ + decimal(d),
        description: concat(seq!["Type digit "@, decimal(d), " of a tile number"@]),
        preferred_trigger: "CTRL+ALT+KP_"@ + decimal(d),
    }
}

/// The shortcut that stops everything.
pub open spec fn stop_shortcut() -> ShortcutView {
    ShortcutView {
        id: "stop-all"@,
        description: "Stop all playing sounds"@,
        preferred_trigger: "CTRL+ALT+KP_Enter"@,
    }
}

/// The shortcuts to register: one for each digit, then the one that stops.
pub fn shortcuts() -> (r: Vec<Shortcut>)
    ensures
        r@.len() == 11,
        forall|d: int| 0 <= d < 10 ==> (#[trigger] r@[d])@ == digit_shortcut(d as nat),
        r@[10]@ == stop_shortcut(),
{
    let mut r: Vec<Shortcut> = Vec::new();
    let mut d: u64 = 0;
    while d < 10
        invariant
            d <= 10,
            r@.len() == d,
            forall|k: int| 0 <= k < d ==> (#[trigger] r@[k])@ == digit_shortcut(k as nat),
        decreases 10 - d,
    {
        let mut number = String::new();
        push_decimal(&mut number, d);
        assert(number@ =~= decimal(d as nat));
        let mut id: String = owned("digit-");
        id.append(number.as_str());
        let mut preferred_trigger: String = owned("CTRL+ALT+KP_");
        preferred_trigger.append(number.as_str());
        let parts: Vec<&str> = vec!["Type digit ", number.as_str(), " of a tile number"];
        assert(views(parts@) =~= seq!["Type digit "@, number@, " of a tile number"@]);
        let description: String = concat_all(&parts);
        r.push(Shortcut { id, description, preferred_trigger });
        d = d + 1;
    }
    r.push(
        Shortcut {
            id: owned("stop-all"),
            description: owned("Stop all playing sounds"),
            preferred_trigger: owned("CTRL+ALT+KP_Enter"),
        },
    );
    r
}

/// The shortcuts come back as the events that they were registered for.
pub proof fn shortcuts_are_understood(d: nat)
    requires
        d <= 9,
    ensures
        event_of(digit_shortcut(d).id) == Some(HotkeyEvent::Digit(d as u8)),
        event_of(stop_shortcut().id) == Some(HotkeyEvent::StopAll),
{
    reveal_strlit("stop-all");
    reveal_strlit("digit-");
    let id = digit_shortcut(d).id;
    assert(id[0] == 'd');
    assert("stop-all"@[0] == 's');
    assert(id.take(6) =~= "digit-"@);
    assert(id.skip(6) =~= decimal(d));
    crate::number::reading_back_a_number(d, 255);
}

// ── Talking to the desktop ───────────────────────────────────────────────────

/// The name of a bus connection without its leading colons.
pub open spec fn without_colons(name: Seq<char>) -> Seq<char>
    decreases name.len(),
{
    if name.len() > 0 && name[0] == ':' {
        without_colons(name.skip(1))
    } else {
        name
    }
}

/// How a bus connection is called inside object paths.
pub fn sender_token(unique_name: &str) -> (r: String)
    ensures
        r@ == replaced(without_colons(unique_name@), '.', "_"@),
{
    let a: Vec<char> = crate::text::chars_of(unique_name);
    let mut i: usize = 0;
    assert(unique_name@.skip(0) =~= unique_name@);
    while i < a.len() && a[i] == ':'
        invariant
            i <= a@.len(),
            a@ == unique_name@,
            without_colons(unique_name@) == without_colons(unique_name@.skip(i as int)),
        decreases a@.len() - i,
    {
        assert(unique_name@.skip(i as int).skip(1) =~= unique_name@.skip(i + 1));
        i = i + 1;
    }
    let rest: String = crate::text::text_of(&a, i, a.len());
    assert(rest@ =~= unique_name@.skip(i as int));
    replace_char(rest.as_str(), '.', "_")
}

pub const REQUEST_ROOT: &'static str = "/org/freedesktop/portal/desktop/request/";

/// The object path at which the desktop answers the request `token`.
pub fn request_path(sender_token: &str, token: &str) -> (r: String)
    ensures
        r@ == concat(seq![REQUEST_ROOT@, sender_token@, "/"@, token@]),
{
    let parts: Vec<&str> = vec![REQUEST_ROOT, sender_token, "/", token];
    assert(views(parts@) =~= seq![REQUEST_ROOT@, sender_token@, "/"@, token@]);
    concat_all(&parts)
}

/// What became of a request to the desktop.
#[derive(Clone, Copy, Debug, PartialEq, Eq, Structural)]
pub enum Outcome {
    Granted,
    /// Cancelled or denied, with the code that the desktop gave.
    Denied(u32),
    TimedOut,
}

/// What came of waiting for an answer, if the wait is over.
pub open spec fn outcome_of(code: Option<u32>, past_deadline: bool) -> Option<Outcome> {
    match code {
        Some(code) => if code == 0 {
            Some(Outcome::Granted)
        } else {
            Some(Outcome::Denied(code))
        },
        None => if past_deadline {
            Some(Outcome::TimedOut)
        } else {
            None
        },
    }
}

/// Whether to go on waiting for an answer, and what came of it otherwise. `code` is
/// the answer if one has come; an answer counts even after the deadline.
pub fn response(code: Option<u32>, past_deadline: bool) -> (r: Option<Outcome>)
    ensures
        r == outcome_of(code, past_deadline),
{
    match code {
        Some(code) => {
            if code == 0 {
                Some(Outcome::Granted)
            } else {
                Some(Outcome::Denied(code))
            }
        },
        None => {
            if past_deadline {
                Some(Outcome::TimedOut)
            } else {
                None
            }
        },
    }
}

/// How often to look whether the process has arrived in its scope.
pub const SCOPE_LOOKS: u32 = 40;

/// What comes of a look at the scope of the process.
#[derive(Clone, Copy, Debug, PartialEq, Eq, Structural)]
pub enum ScopeWait {
    Arrived,
    /// Wait a little and look again.
    LookAgain,
    GiveUp,
}

/// What comes of look number `look`.
pub open spec fn after_look(look: u32, in_scope: bool) -> ScopeWait {
    if in_scope {
        ScopeWait::Arrived
    } else if look < SCOPE_LOOKS {
        ScopeWait::LookAgain
    } else {
        ScopeWait::GiveUp
    }
}

/// What comes of look number `look`, counted from 1. The move takes its time, and without
/// it the desktop still sees the old scope.
pub fn scope_wait(look: u32, in_scope: bool) -> (r: ScopeWait)
    ensures
        r == after_look(look, in_scope),
{
    if in_scope {
        ScopeWait::Arrived
    } else if look < SCOPE_LOOKS {
        ScopeWait::LookAgain
    } else {
        ScopeWait::GiveUp
    }
}

/// Whether the process is already in a scope that names the application, as the
/// desktop asks for.
pub fn in_app_scope(cgroup: &str) -> (r: bool)
    ensures
        r == has_part(cgroup@, APP_ID@),
{
    contains(cgroup, APP_ID)
}

/// The name of a scope for process `pid`.
pub fn scope_name(pid: u32) -> (r: String)
    ensures
        r@ == concat(seq!["app-gnome-"@, APP_ID@, "-"@, decimal(pid as nat), ".scope"@]),
{
    let mut number = String::new();
    push_decimal(&mut number, pid as u64);
    assert(number@ =~= decimal(pid as nat));
    let parts: Vec<&str> = vec!["app-gnome-", APP_ID, "-", number.as_str(), ".scope"];
    assert(views(parts@) =~= seq!["app-gnome-"@, APP_ID@, "-"@, number@, ".scope"@]);
    concat_all(&parts)
}

/// A process in a scope of that name is recognised.
pub proof fn scope_is_recognised(pid: nat)
    ensures
        has_part(
            concat(seq!["app-gnome-"@, APP_ID@, "-"@, decimal(pid), ".scope"@]),
            APP_ID@,
        ),
{
    let parts = seq!["app-gnome-"@, APP_ID@, "-"@, decimal(pid), ".scope"@];
    let lead = "app-gnome-"@;
    let rest = "-"@ + decimal(pid) + ".scope"@;
    reveal_with_fuel(concat, 6);
    assert(parts.drop_last() =~= seq!["app-gnome-"@, APP_ID@, "-"@, decimal(pid)]);
    assert(parts.drop_last().drop_last() =~= seq!["app-gnome-"@, APP_ID@, "-"@]);
    assert(parts.drop_last().drop_last().drop_last() =~= seq!["app-gnome-"@, APP_ID@]);
    assert(parts.drop_last().drop_last().drop_last().drop_last() =~= seq!["app-gnome-"@]);
    assert(concat(parts) =~= lead + APP_ID@ + rest);
    assert(concat(parts).subrange(lead.len() as int, (lead.len() + APP_ID@.len()) as int) =~= APP_ID@);
    assert(crate::text::occurs_at(concat(parts), APP_ID@, lead.len() as int));
}

// ── Typing a tile number ─────────────────────────────────────────────────────

/// What to do after an event.
#[derive(Clone, Copy, Debug, PartialEq, Eq, Structural)]
pub enum HotkeyAction {
    /// Start the short wait for a further digit anew.
    RestartTimer,
    /// Give up the wait, if there is one, and stop all playback.
    StopAll,
}

/// The digits typed so far.
pub struct TileNumber {
    digits: String,
}

impl View for TileNumber {
    type V = Seq<char>;

    closed spec fn view(&self) -> Seq<char> {
        self.digits@
    }
}

/// The tile, counted from 0, that the typed digits mean. Tiles are numbered from 1.
pub open spec fn typed_tile(digits: Seq<char>) -> Option<nat> {
    match spelled_number(digits, usize::MAX as nat) {
        Some(n) => if n >= 1 {
            Some((n - 1) as nat)
        } else {
            None
        },
        None => None,
    }
}

fn digit_char(d: u8) -> (r: char)
    requires
        d <= 9,
    ensures
        r == digit(d as int),
{
    (48 + d) as char
}

/// The digits after one more was typed.
pub open spec fn after_digit(digits: Seq<char>, d: nat) -> Seq<char> {
    digits.push(digit(d as int))
}

/// What is left of the digits once no further one came, and the tile to play.
pub open spec fn is_committed(before: Seq<char>, after: Seq<char>, r: Option<usize>) -> bool {
    &&& after == Seq::<char>::empty()
    &&& (match r {
        Some(i) => Some(i as nat),
        None => None,
    }) == typed_tile(before)
}

/// What an event makes of the digits, and what it asks for.
pub open spec fn is_typed(
    before: Seq<char>,
    event: HotkeyEvent,
    after: Seq<char>,
    r: HotkeyAction,
) -> bool {
    match event {
        HotkeyEvent::Digit(d) => after == after_digit(before, d as nat) && r
            == HotkeyAction::RestartTimer,
        HotkeyEvent::StopAll => after == Seq::<char>::empty() && r == HotkeyAction::StopAll,
    }
}

impl TileNumber {
    pub fn new() -> (r: Self)
        ensures
            r@ == Seq::<char>::empty(),
    {
        TileNumber { digits: String::new() }
    }

    /// Takes an event in.
    pub fn event(&mut self, event: HotkeyEvent) -> (r: HotkeyAction)
        requires
            event matches HotkeyEvent::Digit(d) ==> d <= 9,
        ensures
            is_typed(old(self)@, event, final(self)@, r),
    {
        match event {
            HotkeyEvent::Digit(d) => {
                self.digits.push(digit_char(d));
                HotkeyAction::RestartTimer
            },
            HotkeyEvent::StopAll => {
                self.digits = String::new();
                HotkeyAction::StopAll
            },
        }
    }

    /// No further digit came: the tile to play, counted from 0. The next number
    /// begins anew.
    pub fn commit(&mut self) -> (r: Option<usize>)
        ensures
            is_committed(old(self)@, final(self)@, r),
    {
        let mut digits = String::new();
        std::mem::swap(&mut digits, &mut self.digits);
        match parse_number(digits.as_str(), usize::MAX as u64) {
            Some(n) => {
                if n >= 1 {
                    Some((n - 1) as usize)
                } else {
                    None
                }
            },
            None => None,
        }
    }
}

/// The digits of a tile number, typed one after the other, mean that tile.
pub proof fn typing_a_tile_number(n: nat)
    requires
        1 <= n <= usize::MAX,
    ensures
        typed_tile(decimal(n)) == Some((n - 1) as nat),
{
    crate::number::reading_back_a_number(n, usize::MAX as nat);
}

/// Digits are typed as they are read: a further digit makes ten times as much and that
/// digit more, as long as it can be counted.
pub proof fn digits_add_up_to_a_tile_number(digits: Seq<char>, n: nat, d: nat)
    requires
        typed_tile(digits) == Some((n - 1) as nat),
        n >= 1,
        d <= 9,
        10 * n + d <= usize::MAX,
    ensures
        typed_tile(after_digit(digits, d)) == Some((10 * n + d - 1) as nat),
        after_digit(digits, d).len() == digits.len() + 1,
{
    let (body, c) = (unsigned(digits), digit(d as int));
    assert(is_digit(c) && c as int - 48 == d);
    let more = digits.push(c);
    assert(unsigned(more) =~= body.push(c));
    assert(body.push(c).drop_last() =~= body);
    assert(all_digits(body.push(c)));
}

/// One digit is the number of one of the first tiles, and 0 alone is none.
pub proof fn one_digit_is_a_tile_number(d: nat)
    requires
        d <= 9,
    ensures
        typed_tile(after_digit(Seq::empty(), d)) == (if d == 0 {
            None
        } else {
            Some((d - 1) as nat)
        }),
        typed_tile(Seq::empty()) is None,
{
    let c = digit(d as int);
    assert(is_digit(c) && c as int - 48 == d);
    let one = Seq::<char>::empty().push(c);
    assert(unsigned(one) =~= one);
    assert(one.drop_last() =~= Seq::empty());
    assert(digits_value(Seq::empty()) == 0);
    assert(all_digits(one));
}

/// An answer of the desktop counts whenever it comes; without one, the wait ends at the
/// deadline and not before.
pub proof fn an_answer_counts_whenever_it_comes(code: u32, past_deadline: bool)
    ensures
        outcome_of(Some(code), past_deadline) == outcome_of(Some(code), !past_deadline),
        outcome_of(Some(code), past_deadline) == Some(Outcome::Granted) <==> code == 0,
        code != 0 ==> outcome_of(Some(code), past_deadline) == Some(Outcome::Denied(code)),
        outcome_of(None, true) == Some(Outcome::TimedOut),
        outcome_of(None, false) is None,
{
}

/// A look that finds the process in its scope ends the wait, however late; otherwise there
/// are 40 looks.
pub proof fn arriving_ends_the_wait(look: u32)
    ensures
        after_look(look, true) == ScopeWait::Arrived,
        look < 40 ==> after_look(look, false) == ScopeWait::LookAgain,
        look >= 40 ==> after_look(look, false) == ScopeWait::GiveUp,
{
}

/// The colons in front of the name of a connection are dropped, and nothing else is.
pub proof fn leading_colons_are_dropped(name: Seq<char>)
    ensures
        without_colons(seq![':'] + name) == without_colons(name),
        without_colons(name).len() > 0 ==> without_colons(name)[0] != ':',
        name.len() > 0 && name[0] != ':' ==> without_colons(name) == name,
        name.skip(name.len() - without_colons(name).len()) == without_colons(name),
        without_colons(name).len() <= name.len(),
    decreases name.len(),
{
    assert((seq![':'] + name).skip(1) =~= name);
    if name.len() > 0 && name[0] == ':' {
        let rest = name.skip(1);
        leading_colons_are_dropped(rest);
        let left = without_colons(rest);
        assert(name.skip(name.len() - left.len()) =~= rest.skip(rest.len() - left.len()));
    } else {
        assert(name.skip(0) =~= name);
    }
}

/// A digit waits for further ones; stopping everything forgets what was typed.
pub proof fn stopping_forgets_the_digits(
    before: Seq<char>,
    event: HotkeyEvent,
    after: Seq<char>,
    r: HotkeyAction,
)
    requires
        is_typed(before, event, after, r),
    ensures
        event is StopAll ==> r == HotkeyAction::StopAll && after.len() == 0,
        event is Digit ==> r == HotkeyAction::RestartTimer && after.len() == before.len() + 1
            && after.drop_last() == before,
{
    if event is Digit {
        assert(after.drop_last() =~= before);
    }
}

/// Only single digits are digits, and a shortcut that is not known means nothing.
pub proof fn only_single_digits_are_typed(id: Seq<char>, n: nat)
    ensures
        event_of(id) matches Some(HotkeyEvent::Digit(d)) ==> d <= 9,
        9 < n ==> event_of("digit-"@ + decimal(n)) is None,
        !has_prefix(id, "digit-"@) && id != "stop-all"@ ==> event_of(id) is None,
        event_of(id) == Some(HotkeyEvent::StopAll) <==> id == "stop-all"@,
{
    reveal_strlit("stop-all");
    reveal_strlit("digit-");
    let long = "digit-"@ + decimal(n);
    assert(long[0] == 'd' && "stop-all"@[0] == 's');
    assert(long.take(6) =~= "digit-"@);
    assert(long.skip(6) =~= decimal(n));
    crate::number::decimal_stands_for_its_number(n);
    assert(is_digit(decimal(n)[0]));
    assert(unsigned(decimal(n)) == decimal(n));
}

/// Once no further digit comes, the tile that was typed is played, and the next number
/// begins anew.
pub proof fn a_number_is_played_once(before: Seq<char>, after: Seq<char>, r: Option<usize>)
    requires
        is_committed(before, after, r),
    ensures
        after.len() == 0,
        typed_tile(after) is None,
        r is Some <==> typed_tile(before) is Some,
        r is Some ==> r->0 as nat == typed_tile(before)->0,
{
}

} // verus!
