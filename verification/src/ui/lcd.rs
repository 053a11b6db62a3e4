//! The panel above the tiles: what plays, what comes next, and how long it takes.

use vstd::prelude::*;

use crate::audio::engine::SoundInfo;
use crate::number::{decimal, padded, push_decimal, push_padded};
use crate::text::{
    chars_of, concat, concat_all, has_part, occurs_at, owned, parts_are_in_the_text, text_of,
    texts_view, views,
};

verus! {

// ── Texts ────────────────────────────────────────────────────────────────────

/// Minutes and seconds, two digits each.
pub open spec fn clock(secs: nat) -> Seq<char> {
    padded(secs / 60, 2) + ":"@ + padded(secs % 60, 2)
}

/// Minutes and seconds, two digits each.
pub fn fmt_time(secs: u32) -> (r: String)
    ensures
        r@ == clock(secs as nat),
{
    let mut r = String::new();
    push_padded(&mut r, (secs / 60) as u64, 2);
    assert(r@ =~= padded((secs / 60) as nat, 2));
    r.append(":");
    push_padded(&mut r, (secs % 60) as u64, 2);
    r
}

/// A character in markup: the three that mean something there are spelled out.
pub open spec fn escaped_char(c: char) -> Seq<char> {
    if c == '&' {
        "&amp;"@
    } else if c == '<' {
        "&lt;"@
    } else if c == '>' {
        "&gt;"@
    } else {
        seq![c]
    }
}

/// A text in markup.
pub open spec fn escaped(s: Seq<char>) -> Seq<char>
    decreases s.len(),
{
    if s.len() == 0 {
        Seq::empty()
    } else {
        escaped(s.drop_last()) + escaped_char(s.last())
    }
}

/// A text in markup.
pub fn escape_markup(s: &str) -> (r: String)
    ensures
        r@ == escaped(s@),
{
    let a: Vec<char> = chars_of(s);
    let mut r = String::new();
    let mut i: usize = 0;
    assert(s@.take(0) =~= Seq::empty());
    while i < a.len()
        invariant
            i <= a@.len(),
            a@ == s@,
            r@ == escaped(s@.take(i as int)),
        decreases a@.len() - i,
    {
        assert(s@.take(i + 1).drop_last() =~= s@.take(i as int));
        let c: char = a[i];
        if c == '&' {
            r.append("&amp;");
        } else if c == '<' {
            r.append("&lt;");
        } else if c == '>' {
            r.append("&gt;");
        } else {
            r.push(c);
            assert(r@ =~= escaped(s@.take(i as int)) + seq![c]);
        }
        i = i + 1;
    }
    assert(s@.take(s@.len() as int) =~= s@);
    r
}

/// Names cannot break the markup: no tag begins or ends in an escaped text.
pub proof fn escaped_text_has_no_tags(s: Seq<char>)
    ensures
        !escaped(s).contains('<'),
        !escaped(s).contains('>'),
    decreases s.len(),
{
    reveal_strlit("&amp;");
    reveal_strlit("&lt;");
    reveal_strlit("&gt;");
    if s.len() > 0 {
        escaped_text_has_no_tags(s.drop_last());
        let before = escaped(s.drop_last());
        let last = escaped_char(s.last());
        assert forall|i: int| 0 <= i < escaped(s).len() implies escaped(s)[i] != '<' && escaped(
            s,
        )[i] != '>' by {
            if i < before.len() {
                assert(escaped(s)[i] == before[i]);
                assert(before.contains(before[i]));
            } else {
                assert(escaped(s)[i] == last[i - before.len()]);
            }
        }
    }
}

/// A text of `max` characters at most; one that is cut ends in an ellipsis.
pub open spec fn truncated(s: Seq<char>, max: nat) -> Seq<char> {
    if s.len() > max {
        s.take(if max > 0 {
            max - 1
        } else {
            0
        }) + "…"@
    } else {
        s
    }
}

/// A text of `max` characters at most.
pub fn truncate(s: &str, max: usize) -> (r: String)
    ensures
        r@ == truncated(s@, max as nat),
{
    let a: Vec<char> = chars_of(s);
    if a.len() > max {
        let keep: usize = if max > 0 {
            max - 1
        } else {
            0
        };
        let mut r: String = text_of(&a, 0, keep);
        r.append("…");
        r
    } else {
        owned(s)
    }
}

/// A truncated text fits, and a text that fits is left alone.
pub proof fn truncated_text_fits(s: Seq<char>, max: nat)
    requires
        max > 0,
    ensures
        truncated(s, max).len() <= max,
        s.len() <= max ==> truncated(s, max) == s,
{
    reveal_strlit("…");
}

fn push_times(out: &mut String, c: char, n: usize)
    ensures
        final(out)@ == old(out)@ + Seq::new(n as nat, |i: int| c),
{
    let mut i: usize = 0;
    assert(out@ =~= old(out)@ + Seq::new(0, |i: int| c));
    while i < n
        invariant
            i <= n,
            out@ == old(out)@ + Seq::new(i as nat, |i: int| c),
        decreases n - i,
    {
        out.push(c);
        assert(out@ =~= old(out)@ + Seq::new((i + 1) as nat, |i: int| c));
        i = i + 1;
    }
}

// ── What plays and what comes next ───────────────────────────────────────────

/// Characters of a name, of a time, and between the two.
pub const NAME_MAX: usize = 30;

pub const TIME_W: usize = 6;

pub const PAD: usize = 2;

/// Number of waiting sounds that are listed.
pub const LISTED: usize = 5;

/// The time that is left, or dashes where it is unknown or over.
pub open spec fn remaining_text(secs: Option<u32>) -> Seq<char> {
    match secs {
        Some(s) => if s == 0 {
            " —:——"@
        } else {
            "-"@ + decimal((s / 60) as nat) + ":"@ + padded((s % 60) as nat, 2)
        },
        None => " —:——"@,
    }
}

fn remaining_label(secs: Option<u32>) -> (r: String)
    ensures
        r@ == remaining_text(secs),
{
    match secs {
        Some(s) => {
            if s == 0 {
                owned(" —:——")
            } else {
                let mut r: String = owned("-");
                push_decimal(&mut r, (s / 60) as u64);
                r.append(":");
                push_padded(&mut r, (s % 60) as u64, 2);
                r
            }
        },
        None => owned(" —:——"),
    }
}

/// The spaces that bring the time into its column.
pub open spec fn spaces_after(name: Seq<char>) -> Seq<char> {
    Seq::new(
        (NAME_MAX + PAD - if name.len() < NAME_MAX {
            name.len() as int
        } else {
            NAME_MAX as int
        }) as nat,
        |i: int| ' ',
    )
}

/// The line of a sound that is playing.
pub open spec fn playing_line(name: Seq<char>, remaining: Option<u32>) -> Seq<char> {
    concat(
        seq![
            "<span foreground='#57e389'>♪ "@,
            escaped(truncated(name, NAME_MAX as nat)),
            spaces_after(name),
            "<span font_family='monospace'>"@,
            remaining_text(remaining),
            "</span></span>"@,
        ],
    )
}

fn line_of_playing(name: &str, remaining: Option<u32>) -> (r: String)
    ensures
        r@ == playing_line(name@, remaining),
{
    let short: String = truncate(name, NAME_MAX);
    let text: String = escape_markup(short.as_str());
    let n: usize = name.unicode_len();
    let mut spaces = String::new();
    let width: usize = NAME_MAX + PAD - if n < NAME_MAX {
        n
    } else {
        NAME_MAX
    };
    push_times(&mut spaces, ' ', width);
    assert(spaces@ =~= spaces_after(name@));
    let time: String = remaining_label(remaining);
    let parts: Vec<&str> = vec![
        "<span foreground='#57e389'>♪ ",
        text.as_str(),
        spaces.as_str(),
        "<span font_family='monospace'>",
        time.as_str(),
        "</span></span>",
    ];
    assert(views(parts@) =~= seq![
        "<span foreground='#57e389'>♪ "@,
        text@,
        spaces@,
        "<span font_family='monospace'>"@,
        time@,
        "</span></span>"@,
    ]);
    concat_all(&parts)
}

/// The line between what plays and what waits.
pub open spec fn separator() -> Seq<char> {
    concat(
        seq![
            "<span foreground='#2e2e2e'>"@,
            Seq::new((NAME_MAX + TIME_W + PAD + 2) as nat, |i: int| '─'),
            "</span>"@,
        ],
    )
}

fn separator_line() -> (r: String)
    ensures
        r@ == separator(),
{
    let mut rule = String::new();
    push_times(&mut rule, '─', NAME_MAX + TIME_W + PAD + 2);
    assert(rule@ =~= Seq::new((NAME_MAX + TIME_W + PAD + 2) as nat, |i: int| '─'));
    let parts: Vec<&str> = vec!["<span foreground='#2e2e2e'>", rule.as_str(), "</span>"];
    assert(views(parts@) =~= seq!["<span foreground='#2e2e2e'>"@, rule@, "</span>"@]);
    concat_all(&parts)
}

/// The line of a sound that waits.
pub open spec fn queued_line(name: Seq<char>) -> Seq<char> {
    concat(
        seq![
            "<span foreground='#666666'>⏭ "@,
            escaped(truncated(name, (NAME_MAX + TIME_W + PAD) as nat)),
            "</span>"@,
        ],
    )
}

fn line_of_queued(name: &str) -> (r: String)
    ensures
        r@ == queued_line(name@),
{
    let short: String = truncate(name, NAME_MAX + TIME_W + PAD);
    let text: String = escape_markup(short.as_str());
    let parts: Vec<&str> = vec!["<span foreground='#666666'>⏭ ", text.as_str(), "</span>"];
    assert(views(parts@) =~= seq!["<span foreground='#666666'>⏭ "@, text@, "</span>"@]);
    concat_all(&parts)
}

/// The line that tells how many more wait.
pub open spec fn more_line(n: nat) -> Seq<char> {
    concat(seq!["<span foreground='#555555'>  +"@, decimal(n), " more…</span>"@])
}

fn line_of_more(n: usize) -> (r: String)
    ensures
        r@ == more_line(n as nat),
{
    let mut count = String::new();
    push_decimal(&mut count, n as u64);
    assert(count@ =~= decimal(n as nat));
    let parts: Vec<&str> = vec!["<span foreground='#555555'>  +", count.as_str(), " more…</span>"];
    assert(views(parts@) =~= seq!["<span foreground='#555555'>  +"@, count@, " more…</span>"@]);
    concat_all(&parts)
}

/// The lines of what plays.
pub open spec fn playing_lines(playing: Seq<SoundInfo>) -> Seq<Seq<char>> {
    Seq::new(playing.len(), |i: int| playing_line(playing[i].name@, playing[i].remaining_secs))
}

/// The lines of the first five that wait.
pub open spec fn listed_lines(queue: Seq<(String, Option<u32>)>) -> Seq<Seq<char>> {
    Seq::new(
        if queue.len() < LISTED {
            queue.len()
        } else {
            LISTED as nat
        },
        |i: int| queued_line(queue[i].0@),
    )
}

/// The lines of what waits: a separator, the first five, and how many more there are.
pub open spec fn queue_lines(queue: Seq<(String, Option<u32>)>) -> Seq<Seq<char>> {
    if queue.len() == 0 {
        Seq::empty()
    } else if queue.len() <= LISTED {
        seq![separator()] + listed_lines(queue)
    } else {
        (seq![separator()] + listed_lines(queue)).push(more_line((queue.len() - LISTED) as nat))
    }
}

/// The lines, one below the other.
pub open spec fn join_lines(lines: Seq<Seq<char>>) -> Seq<char>
    decreases lines.len(),
{
    if lines.len() == 0 {
        Seq::empty()
    } else if lines.len() == 1 {
        lines[0]
    } else {
        join_lines(lines.drop_last()) + "\n"@ + lines.last()
    }
}

fn joined_text(lines: &Vec<String>) -> (r: String)
    ensures
        r@ == join_lines(texts_view(lines@)),
{
    let mut r = String::new();
    let ghost all = texts_view(lines@);
    let mut i: usize = 0;
    assert(all.take(0) =~= Seq::empty());
    while i < lines.len()
        invariant
            i <= lines@.len(),
            all == texts_view(lines@),
            r@ == join_lines(all.take(i as int)),
        decreases lines@.len() - i,
    {
        assert(all.take(i + 1).drop_last() =~= all.take(i as int));
        if i > 0 {
            r.append("\n");
        }
        r.append(lines[i].as_str());
        if i == 0 {
            assert(r@ =~= all[0]);
        }
        i = i + 1;
    }
    assert(all.take(all.len() as int) =~= all);
    r
}

/// The text of the panel.
pub open spec fn panel_text(
    playing: Seq<SoundInfo>,
    queue: Seq<(String, Option<u32>)>,
) -> Seq<char> {
    if playing.len() == 0 && queue.len() == 0 {
        "<span foreground='#555555'>Nothing playing</span>"@
    } else {
        join_lines(playing_lines(playing) + queue_lines(queue))
    }
}

/// The text of the panel, in markup.
pub fn format_playback_markup(
    playing: &Vec<SoundInfo>,
    queue: &Vec<(String, Option<u32>)>,
) -> (r: String)
    ensures
        r@ == panel_text(playing@, queue@),
{
    if playing.len() == 0 && queue.len() == 0 {
        return owned("<span foreground='#555555'>Nothing playing</span>");
    }
    let mut lines: Vec<String> = Vec::new();
    let mut i: usize = 0;
    let ghost first = playing_lines(playing@);
    while i < playing.len()
        invariant
            i <= playing@.len(),
            first == playing_lines(playing@),
            texts_view(lines@) == first.take(i as int),
        decreases playing@.len() - i,
    {
        let ghost before = lines@;
        lines.push(line_of_playing(playing[i].name.as_str(), playing[i].remaining_secs));
        assert(texts_view(lines@) =~= texts_view(before).push(first[i as int]));
        assert(first.take(i + 1) =~= first.take(i as int).push(first[i as int]));
        i = i + 1;
    }
    assert(first.take(first.len() as int) =~= first);
    assert(first + Seq::<Seq<char>>::empty() =~= first);
    if queue.len() > 0 {
        let ghost before = lines@;
        lines.push(separator_line());
        let ghost second = listed_lines(queue@);
        let ghost base = first + seq![separator()];
        assert(texts_view(lines@) =~= texts_view(before).push(separator()));
        assert(texts_view(lines@) =~= base + second.take(0));
        let listed: usize = if queue.len() < LISTED {
            queue.len()
        } else {
            LISTED
        };
        let mut k: usize = 0;
        while k < listed
            invariant
                k <= listed,
                listed == second.len(),
                listed <= queue@.len(),
                second == listed_lines(queue@),
                texts_view(lines@) == base + second.take(k as int),
            decreases listed - k,
        {
            let ghost so_far = lines@;
            lines.push(line_of_queued(queue[k].0.as_str()));
            assert(texts_view(lines@) =~= texts_view(so_far).push(second[k as int]));
            assert(base + second.take(k + 1) =~= (base + second.take(k as int)).push(
                second[k as int],
            ));
            k = k + 1;
        }
        assert(second.take(listed as int) =~= second);
        assert(base + second =~= first + (seq![separator()] + second));
        if queue.len() > LISTED {
            let ghost so_far = lines@;
            let more: String = line_of_more(queue.len() - LISTED);
            lines.push(more);
            assert(texts_view(lines@) =~= texts_view(so_far).push(more@));
            assert(first + queue_lines(queue@) =~= (first + (seq![separator()] + second)).push(
                more@,
            ));
        }
    }
    assert(texts_view(lines@) == first + queue_lines(queue@));
    joined_text(&lines)
}

/// At most five of the waiting sounds are listed, however many there are.
pub proof fn long_queues_are_cut(queue: Seq<(String, Option<u32>)>)
    ensures
        queue_lines(queue).len() <= 2 + LISTED,
        queue.len() > LISTED ==> queue_lines(queue).last() == more_line(
            (queue.len() - LISTED) as nat,
        ),
{
}

// ── Times ────────────────────────────────────────────────────────────────────

pub open spec fn known(secs: Option<u32>) -> nat {
    match secs {
        Some(s) => s as nat,
        None => 0,
    }
}

/// Seconds until everything that plays is over, as far as they are known.
pub open spec fn playing_secs(playing: Seq<SoundInfo>) -> nat
    decreases playing.len(),
{
    if playing.len() == 0 {
        0
    } else {
        playing_secs(playing.drop_last()) + known(playing.last().remaining_secs)
    }
}

/// Seconds that everything that waits takes, as far as they are known.
pub open spec fn queue_secs(queue: Seq<(String, Option<u32>)>) -> nat
    decreases queue.len(),
{
    if queue.len() == 0 {
        0
    } else {
        queue_secs(queue.drop_last()) + known(queue.last().1)
    }
}

proof fn playing_secs_grow(playing: Seq<SoundInfo>, i: int)
    requires
        0 <= i <= playing.len(),
    ensures
        playing_secs(playing.take(i)) <= playing_secs(playing),
    decreases playing.len() - i,
{
    if i < playing.len() {
        assert(playing.take(i + 1).drop_last() =~= playing.take(i));
        playing_secs_grow(playing, i + 1);
    } else {
        assert(playing.take(i) =~= playing);
    }
}

proof fn queue_secs_grow(queue: Seq<(String, Option<u32>)>, i: int)
    requires
        0 <= i <= queue.len(),
    ensures
        queue_secs(queue.take(i)) <= queue_secs(queue),
    decreases queue.len() - i,
{
    if i < queue.len() {
        assert(queue.take(i + 1).drop_last() =~= queue.take(i));
        queue_secs_grow(queue, i + 1);
    } else {
        assert(queue.take(i) =~= queue);
    }
}

fn known_secs(secs: Option<u32>) -> (r: u32)
    ensures
        r == known(secs),
{
    match secs {
        Some(s) => s,
        None => 0,
    }
}

/// The time until everything is over.
pub open spec fn total_label(playing: Seq<SoundInfo>, queue: Seq<(String, Option<u32>)>) -> Seq<char> {
    if playing.len() == 0 && queue.len() == 0 {
        "—:——"@
    } else {
        clock(playing_secs(playing) + queue_secs(queue))
    }
}

/// The time until the next sound, if one waits.
pub open spec fn next_label(playing: Seq<SoundInfo>, queue: Seq<(String, Option<u32>)>) -> Option<
    Seq<char>,
> {
    if queue.len() > 0 {
        Some(clock(playing_secs(playing)))
    } else {
        None
    }
}

/// The two times on the panel: until everything is over, and, if something waits, until
/// the next sound.
pub fn time_labels(playing: &Vec<SoundInfo>, queue: &Vec<(String, Option<u32>)>) -> (r: (
    String,
    Option<String>,
))
    requires
        playing_secs(playing@) + queue_secs(queue@) <= u32::MAX,
    ensures
        r.0@ == total_label(playing@, queue@),
        (match r.1 {
            Some(text) => Some(text@),
            None => None,
        }) == next_label(playing@, queue@),
{
    let mut until_next: u32 = 0;
    let mut i: usize = 0;
    assert(playing@.take(0) =~= Seq::empty());
    while i < playing.len()
        invariant
            i <= playing@.len(),
            playing_secs(playing@) <= u32::MAX,
            until_next == playing_secs(playing@.take(i as int)),
        decreases playing@.len() - i,
    {
        proof {
            playing_secs_grow(playing@, i + 1);
            assert(playing@.take(i + 1).drop_last() =~= playing@.take(i as int));
        }
        until_next = until_next + known_secs(playing[i].remaining_secs);
        i = i + 1;
    }
    assert(playing@.take(playing@.len() as int) =~= playing@);
    let mut waiting: u32 = 0;
    let mut k: usize = 0;
    assert(queue@.take(0) =~= Seq::empty());
    while k < queue.len()
        invariant
            k <= queue@.len(),
            queue_secs(queue@) <= u32::MAX,
            waiting == queue_secs(queue@.take(k as int)),
        decreases queue@.len() - k,
    {
        proof {
            queue_secs_grow(queue@, k + 1);
            assert(queue@.take(k + 1).drop_last() =~= queue@.take(k as int));
        }
        waiting = waiting + known_secs(queue[k].1);
        k = k + 1;
    }
    assert(queue@.take(queue@.len() as int) =~= queue@);
    let total: String = if playing.len() == 0 && queue.len() == 0 {
        owned("—:——")
    } else {
        fmt_time(until_next + waiting)
    };
    let until: Option<String> = if queue.len() > 0 {
        Some(fmt_time(until_next))
    } else {
        None
    };
    (total, until)
}

/// Minutes and seconds make up the time that is shown.
pub proof fn the_clock_shows_minutes_and_seconds(secs: nat)
    ensures
        clock(secs) == padded(secs / 60, 2) + ":"@ + padded(secs % 60, 2),
        secs / 60 * 60 + secs % 60 == secs,
        secs % 60 < 60,
{
}

/// What plays and what waits adds up, sound by sound; a length that is not known counts
/// for nothing.
pub proof fn times_add_up(
    playing: Seq<SoundInfo>,
    sound: SoundInfo,
    queue: Seq<(String, Option<u32>)>,
    entry: (String, Option<u32>),
)
    ensures
        playing_secs(playing.push(sound)) == playing_secs(playing) + (match sound.remaining_secs {
            Some(s) => s as nat,
            None => 0,
        }),
        queue_secs(queue.push(entry)) == queue_secs(queue) + (match entry.1 {
            Some(s) => s as nat,
            None => 0,
        }),
        playing_secs(Seq::empty()) == 0,
        queue_secs(Seq::empty()) == 0,
{
    assert(playing.push(sound).drop_last() =~= playing);
    assert(queue.push(entry).drop_last() =~= queue);
}

/// A text that is too long keeps its beginning and ends in dots.
pub proof fn a_cut_text_keeps_its_beginning(s: Seq<char>, max: nat, i: int)
    requires
        0 < max < s.len(),
        0 <= i < max - 1,
    ensures
        truncated(s, max)[i] == s[i],
        truncated(s, max).skip(max - 1) == "…"@,
{
    assert(truncated(s, max).skip(max - 1) =~= "…"@);
}

proof fn a_line_is_in_the_text(lines: Seq<Seq<char>>, i: int)
    requires
        0 <= i < lines.len(),
    ensures
        has_part(join_lines(lines), lines[i]),
    decreases lines.len(),
{
    let all = join_lines(lines);
    if lines.len() == 1 {
        assert(all.subrange(0, all.len() as int) =~= lines[0]);
        assert(occurs_at(all, lines[0], 0));
    } else {
        let (rest, last) = (lines.drop_last(), lines.last());
        let before = join_lines(rest);
        if i < rest.len() {
            a_line_is_in_the_text(rest, i);
            let at = choose|at: int| occurs_at(before, lines[i], at);
            assert(all.subrange(at, at + lines[i].len()) =~= before.subrange(
                at,
                at + lines[i].len(),
            ));
            assert(occurs_at(all, lines[i], at));
        } else {
            let at = (before + "\n"@).len() as int;
            assert(all.subrange(at, at + last.len()) =~= last);
            assert(occurs_at(all, last, at));
        }
    }
}

/// The panel shows every sound that plays with its time, and the first that wait.
pub proof fn the_panel_shows_what_plays_and_waits(
    playing: Seq<SoundInfo>,
    queue: Seq<(String, Option<u32>)>,
    i: int,
)
    ensures
        0 <= i < playing.len() ==> has_part(
            panel_text(playing, queue),
            playing_line(playing[i].name@, playing[i].remaining_secs),
        ),
        0 <= i < queue.len() && i < LISTED ==> has_part(
            panel_text(playing, queue),
            queued_line(queue[i].0@),
        ),
{
    let lines = playing_lines(playing) + queue_lines(queue);
    if 0 <= i < playing.len() {
        assert(lines[i] == playing_line(playing[i].name@, playing[i].remaining_secs));
        a_line_is_in_the_text(lines, i);
    }
    if 0 <= i < queue.len() && i < LISTED {
        let k = playing.len() + 1 + i;
        assert(lines[k] == queued_line(queue[i].0@));
        a_line_is_in_the_text(lines, k);
    }
}

/// The panel shows how long it is until everything is over, and until the next sound where
/// one waits: the two differ by what waits.
pub proof fn the_times_are_until_the_end_and_the_next(
    playing: Seq<SoundInfo>,
    queue: Seq<(String, Option<u32>)>,
)
    ensures
        playing.len() > 0 || queue.len() > 0 ==> total_label(playing, queue) == clock(
            playing_secs(playing) + queue_secs(queue),
        ),
        playing.len() == 0 && queue.len() == 0 ==> total_label(playing, queue) == "—:——"@,
        queue.len() == 0 ==> next_label(playing, queue) is None,
        queue.len() > 0 ==> next_label(playing, queue) == Some(clock(playing_secs(playing))),
        queue.len() > 0 && queue_secs(queue) == 0 ==> next_label(playing, queue) == Some(
            total_label(playing, queue),
        ),
{
}

/// Texts are escaped piece by piece, and plain text stays as it is.
pub proof fn texts_are_escaped_piece_by_piece(a: Seq<char>, b: Seq<char>)
    ensures
        escaped(a + b) == escaped(a) + escaped(b),
        !a.contains('&') && !a.contains('<') && !a.contains('>') ==> escaped(a) == a,
        escaped(seq!['&']) == "&amp;"@,
        escaped(seq!['<']) == "&lt;"@,
        escaped(seq!['>']) == "&gt;"@,
    decreases a.len() + b.len(),
{
    if b.len() == 0 {
        assert(a + b =~= a);
        if a.len() > 0 {
            let front = a.drop_last();
            texts_are_escaped_piece_by_piece(front, b);
            if !a.contains('&') && !a.contains('<') && !a.contains('>') {
                assert(a.contains(a[a.len() - 1]));
                assert forall|i: int| 0 <= i < front.len() implies front[i] != '&' && front[i] != '<'
                    && front[i] != '>' by {
                    assert(a.contains(a[i]));
                }
                assert(a =~= front + seq![a.last()]);
            }
        }
        assert(escaped(a) + Seq::<char>::empty() =~= escaped(a));
    } else {
        let front = b.drop_last();
        texts_are_escaped_piece_by_piece(a, front);
        assert((a + b).drop_last() =~= a + front);
        assert((escaped(a) + escaped(front)) + escaped_char(b.last()) =~= escaped(a) + (escaped(
            front,
        ) + escaped_char(b.last())));
    }
    assert(seq!['&'].drop_last() =~= Seq::<char>::empty());
    assert(seq!['<'].drop_last() =~= Seq::<char>::empty());
    assert(seq!['>'].drop_last() =~= Seq::<char>::empty());
    assert(Seq::<char>::empty() + "&amp;"@ =~= "&amp;"@);
    assert(Seq::<char>::empty() + "&lt;"@ =~= "&lt;"@);
    assert(Seq::<char>::empty() + "&gt;"@ =~= "&gt;"@);
}

/// A line of the panel shows the name of its sound, and of one that plays the time that is
/// left, as far as it is known.
pub proof fn lines_show_names_and_times(name: Seq<char>, secs: u32)
    requires
        name.len() <= NAME_MAX,
    ensures
        has_part(playing_line(name, Some(secs)), escaped(name)),
        has_part(playing_line(name, None), escaped(name)),
        has_part(queued_line(name), escaped(name)),
        secs > 0 ==> has_part(
            playing_line(name, Some(secs)),
            "-"@ + decimal((secs / 60) as nat) + ":"@ + padded((secs % 60) as nat, 2),
        ),
        secs == 0 ==> playing_line(name, Some(secs)) == playing_line(name, None),
{
    let parts = |remaining: Option<u32>|
        seq![
            "<span foreground='#57e389'>♪ "@,
            escaped(truncated(name, NAME_MAX as nat)),
            spaces_after(name),
            "<span font_family='monospace'>"@,
            remaining_text(remaining),
            "</span></span>"@,
        ];
    parts_are_in_the_text(parts(Some(secs)), 1);
    parts_are_in_the_text(parts(Some(secs)), 4);
    parts_are_in_the_text(parts(None), 1);
    parts_are_in_the_text(
        seq![
            "<span foreground='#666666'>⏭ "@,
            escaped(truncated(name, (NAME_MAX + TIME_W + PAD) as nat)),
            "</span>"@,
        ],
        1,
    );
}

} // verus!
