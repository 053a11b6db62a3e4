//! Text as sequences of characters: comparison, search, decimal numbers and
//! the few string operations that the rest of the crate is built on.

use vstd::prelude::*;
use vstd::std_specs::iter::IteratorSpec;

verus! {

// ── Standard library functions ───────────────────────────────────────────────

/// `String::push` appends one character at the end.
pub assume_specification[ String::push ](s: &mut String, c: char)
    ensures
        final(s)@ == old(s)@.push(c),
;

/// What `str::to_lowercase` makes of a text: its Unicode lowercase equivalent.
pub uninterp spec fn lowercase(s: Seq<char>) -> Seq<char>;

/// `str::to_lowercase` returns the Unicode lowercase equivalent of the text,
/// which depends on the text alone.
#[verifier::external_body]
pub(crate) fn to_lowercase(s: &str) -> (r: String)
    ensures
        r@ == lowercase(s@),
{
    s.to_lowercase()
}

// ── Characters of a text ─────────────────────────────────────────────────────

/// Whether a character has the Unicode property `White_Space`.
pub open spec fn white_space(c: char) -> bool {
    let n = c as int;
    9 <= n <= 13 || n == 0x20 || n == 0x85 || n == 0xa0 || n == 0x1680 || 0x2000 <= n <= 0x200a
        || n == 0x2028 || n == 0x2029 || n == 0x202f || n == 0x205f || n == 0x3000
}

/// Whether a character has the Unicode property `White_Space`.
pub fn is_white_space(c: char) -> (r: bool)
    ensures
        r == white_space(c),
{
    let n: u32 = c as u32;
    (9 <= n && n <= 13) || n == 0x20 || n == 0x85 || n == 0xa0 || n == 0x1680 || (0x2000 <= n && n
        <= 0x200a) || n == 0x2028 || n == 0x2029 || n == 0x202f || n == 0x205f || n == 0x3000
}

/// The characters of `s`, in order.
pub fn chars_of(s: &str) -> (r: Vec<char>)
    ensures
        r@ == s@,
{
    let mut out: Vec<char> = Vec::new();
    let n: usize = s.unicode_len();
    let mut it = s.chars();
    let mut i: usize = 0;
    while i < n
        invariant
            i <= n,
            n == s@.len(),
            it.remaining() == s@.skip(i as int),
            it.obeys_prophetic_iter_laws(),
            out@ == s@.take(i as int),
        decreases n - i,
    {
        match it.next() {
            Some(c) => {
                out.push(c);
            },
            None => {},
        }
        i = i + 1;
    }
    out
}

/// The text made of `chars[from..to]`.
pub fn text_of(chars: &Vec<char>, from: usize, to: usize) -> (r: String)
    requires
        from <= to <= chars@.len(),
    ensures
        r@ == chars@.subrange(from as int, to as int),
{
    let mut out = String::new();
    let mut i: usize = from;
    while i < to
        invariant
            from <= i <= to,
            to <= chars@.len(),
            out@ == chars@.subrange(from as int, i as int),
        decreases to - i,
    {
        out.push(chars[i]);
        i = i + 1;
    }
    out
}

/// A new text holding the characters of `s`.
pub fn owned(s: &str) -> (r: String)
    ensures
        r@ == s@,
{
    let mut out = String::new();
    out.append(s);
    assert(Seq::<char>::empty() + s@ =~= s@);
    out
}

/// True if `s` and `t` hold the same characters.
pub fn same_text(s: &str, t: &str) -> (r: bool)
    ensures
        r == (s@ == t@),
{
    let a: Vec<char> = chars_of(s);
    let b: Vec<char> = chars_of(t);
    same_chars(&a, &b)
}

pub(crate) fn same_chars(a: &Vec<char>, b: &Vec<char>) -> (r: bool)
    ensures
        r == (a@ == b@),
{
    if a.len() != b.len() {
        return false;
    }
    let mut i: usize = 0;
    while i < a.len()
        invariant
            i <= a@.len(),
            a@.len() == b@.len(),
            forall|k: int| 0 <= k < i ==> a@[k] == b@[k],
        decreases a@.len() - i,
    {
        if a[i] != b[i] {
            return false;
        }
        i = i + 1;
    }
    assert(a@ =~= b@);
    true
}

/// Position of the first of `texts` that holds the characters of `wanted`.
pub fn position_of(texts: &Vec<String>, wanted: &str) -> (r: Option<usize>)
    ensures
        match r {
            Some(i) => i < texts@.len() && texts@[i as int]@ == wanted@ && forall|k: int|
                0 <= k < i ==> (#[trigger] texts@[k])@ != wanted@,
            None => forall|k: int| 0 <= k < texts@.len() ==> (#[trigger] texts@[k])@ != wanted@,
        },
{
    let mut i: usize = 0;
    while i < texts.len()
        invariant
            i <= texts@.len(),
            forall|k: int| 0 <= k < i ==> (#[trigger] texts@[k])@ != wanted@,
        decreases texts@.len() - i,
    {
        if same_text(texts[i].as_str(), wanted) {
            return Some(i);
        }
        i = i + 1;
    }
    None
}

// ── Prefixes and substrings ──────────────────────────────────────────────────

/// `s` begins with `prefix`.
pub open spec fn has_prefix(s: Seq<char>, prefix: Seq<char>) -> bool {
    prefix.len() <= s.len() && s.take(prefix.len() as int) == prefix
}

/// `part` stands in `s` from position `at` on.
pub open spec fn occurs_at(s: Seq<char>, part: Seq<char>, at: int) -> bool {
    0 <= at && at + part.len() <= s.len() && s.subrange(at, at + part.len()) == part
}

/// `part` stands somewhere in `s`.
pub open spec fn has_part(s: Seq<char>, part: Seq<char>) -> bool {
    exists|at: int| occurs_at(s, part, at)
}

fn occurs_from(s: &Vec<char>, part: &Vec<char>, at: usize) -> (r: bool)
    requires
        at + part@.len() <= s@.len(),
    ensures
        r == occurs_at(s@, part@, at as int),
{
    let mut i: usize = 0;
    while i < part.len()
        invariant
            i <= part@.len(),
            at + part.len() <= s.len(),
            forall|k: int| 0 <= k < i ==> s@[at + k] == part@[k],
        decreases part@.len() - i,
    {
        if s[at + i] != part[i] {
            assert(s@.subrange(at as int, at + part@.len())[i as int] != part@[i as int]);
            return false;
        }
        i = i + 1;
    }
    assert(s@.subrange(at as int, at + part@.len()) =~= part@);
    true
}

/// Whether `s` begins with `prefix`.
pub fn starts_with(s: &str, prefix: &str) -> (r: bool)
    ensures
        r == has_prefix(s@, prefix@),
{
    let a: Vec<char> = chars_of(s);
    let p: Vec<char> = chars_of(prefix);
    if p.len() > a.len() {
        return false;
    }
    assert(s@.take(prefix@.len() as int) =~= s@.subrange(0, prefix@.len() as int));
    occurs_from(&a, &p, 0)
}

/// What follows `prefix` in `s`, if `s` begins with it.
pub fn strip_prefix(s: &str, prefix: &str) -> (r: Option<String>)
    ensures
        match r {
            Some(rest) => has_prefix(s@, prefix@) && rest@ == s@.skip(prefix@.len() as int),
            None => !has_prefix(s@, prefix@),
        },
{
    if starts_with(s, prefix) {
        let a: Vec<char> = chars_of(s);
        let n: usize = prefix.unicode_len();
        let rest = text_of(&a, n, a.len());
        assert(rest@ =~= s@.skip(prefix@.len() as int));
        Some(rest)
    } else {
        None
    }
}

/// Whether `part` stands somewhere in `s`.
pub fn contains(s: &str, part: &str) -> (r: bool)
    ensures
        r == has_part(s@, part@),
{
    let a: Vec<char> = chars_of(s);
    let p: Vec<char> = chars_of(part);
    if p.len() > a.len() {
        return false;
    }
    let last: usize = a.len() - p.len();
    let mut at: usize = 0;
    while at <= last
        invariant
            at <= last + 1,
            last + p@.len() == a@.len(),
            a@ == s@,
            p@ == part@,
            forall|k: int| 0 <= k < at ==> !occurs_at(s@, part@, k),
        decreases last + 1 - at,
    {
        if occurs_from(&a, &p, at) {
            return true;
        }
        if at == last {
            assert(forall|k: int| !occurs_at(s@, part@, k));
            return false;
        }
        at = at + 1;
    }
    false
}

// ── Order ────────────────────────────────────────────────────────────────────

/// `a` and `b` agree before position `k`, and there `a` ends or has the smaller
/// character.
pub open spec fn lex_splits(a: Seq<char>, b: Seq<char>, k: int) -> bool {
    &&& 0 <= k <= a.len()
    &&& k < b.len()
    &&& forall|i: int| 0 <= i < k ==> a[i] == b[i]
    &&& k == a.len() || (a[k] as int) < (b[k] as int)
}

/// `a` comes strictly before `b` in the order of their code points.
pub open spec fn lex_lt(a: Seq<char>, b: Seq<char>) -> bool {
    exists|k: int| lex_splits(a, b, k)
}

/// Of two texts exactly one comes first, unless they are equal.
pub proof fn lex_is_total(a: Seq<char>, b: Seq<char>)
    ensures
        lex_lt(a, b) || lex_lt(b, a) || a == b,
        !(lex_lt(a, b) && lex_lt(b, a)),
        lex_lt(a, b) ==> a != b,
{
    if lex_lt(a, b) {
        let k = choose|k: int| lex_splits(a, b, k);
        assert(a != b);
        if lex_lt(b, a) {
            let m = choose|m: int| lex_splits(b, a, m);
            if k < m {
                assert(b[k] == a[k]);
            } else if m < k {
                assert(a[m] == b[m]);
            }
        }
    } else if !lex_lt(b, a) {
        let n = if a.len() <= b.len() { a.len() } else { b.len() };
        lex_common(a, b, n);
        if a.len() < b.len() {
            assert(lex_splits(a, b, a.len() as int));
        } else if b.len() < a.len() {
            assert(lex_splits(b, a, b.len() as int));
        } else {
            assert(a =~= b);
        }
    }
}

proof fn lex_common(a: Seq<char>, b: Seq<char>, n: nat)
    requires
        !lex_lt(a, b),
        !lex_lt(b, a),
        n <= a.len(),
        n <= b.len(),
    ensures
        forall|i: int| 0 <= i < n ==> a[i] == b[i],
    decreases n,
{
    if n > 0 {
        lex_common(a, b, (n - 1) as nat);
        let k = n - 1;
        if (a[k] as int) < (b[k] as int) {
            assert(lex_splits(a, b, k));
        } else if (b[k] as int) < (a[k] as int) {
            assert(lex_splits(b, a, k));
        }
    }
}

/// The order is transitive.
pub proof fn lex_is_transitive(a: Seq<char>, b: Seq<char>, c: Seq<char>)
    requires
        lex_lt(a, b),
        lex_lt(b, c),
    ensures
        lex_lt(a, c),
{
    let k = choose|k: int| lex_splits(a, b, k);
    let m = choose|m: int| lex_splits(b, c, m);
    let n = if k <= m { k } else { m };
    assert(lex_splits(a, c, n));
}

/// The code point of `c`.
fn code_point(c: char) -> (r: u32)
    ensures
        r == c as int,
{
    c as u32
}

/// Whether `a` comes strictly before `b`.
pub(crate) fn chars_before(a: &Vec<char>, b: &Vec<char>) -> (r: bool)
    ensures
        r == lex_lt(a@, b@),
{
    let mut i: usize = 0;
    while i < a.len() && i < b.len()
        invariant
            i <= a@.len(),
            i <= b@.len(),
            forall|k: int| 0 <= k < i ==> a@[k] == b@[k],
        decreases a@.len() - i,
    {
        let x: u32 = code_point(a[i]);
        let y: u32 = code_point(b[i]);
        if x < y {
            assert(lex_splits(a@, b@, i as int));
            return true;
        }
        if y < x {
            proof {
                assert(lex_splits(b@, a@, i as int));
                lex_is_total(a@, b@);
            }
            return false;
        }
        i = i + 1;
    }
    if i < b.len() {
        assert(lex_splits(a@, b@, i as int));
        true
    } else {
        assert forall|k: int| !lex_splits(a@, b@, k) by {}
        false
    }
}

/// Whether `a` comes strictly before `b`.
pub fn text_before(a: &str, b: &str) -> (r: bool)
    ensures
        r == lex_lt(a@, b@),
{
    let x: Vec<char> = chars_of(a);
    let y: Vec<char> = chars_of(b);
    chars_before(&x, &y)
}

// ── Replacing, trimming, letter case ─────────────────────────────────────────

/// `s` with every `c` replaced by the text `with`.
pub open spec fn replaced(s: Seq<char>, c: char, with: Seq<char>) -> Seq<char>
    decreases s.len(),
{
    if s.len() == 0 {
        Seq::empty()
    } else if s.last() == c {
        replaced(s.drop_last(), c, with) + with
    } else {
        replaced(s.drop_last(), c, with).push(s.last())
    }
}

/// `s` with every `c` replaced by `with`.
pub fn replace_char(s: &str, c: char, with: &str) -> (r: String)
    ensures
        r@ == replaced(s@, c, with@),
{
    let a: Vec<char> = chars_of(s);
    let mut out = String::new();
    let mut i: usize = 0;
    assert(s@.take(0) =~= Seq::empty());
    while i < a.len()
        invariant
            i <= a@.len(),
            a@ == s@,
            out@ == replaced(s@.take(i as int), c, with@),
        decreases a@.len() - i,
    {
        assert(s@.take(i + 1).drop_last() =~= s@.take(i as int));
        if a[i] == c {
            out.append(with);
        } else {
            out.push(a[i]);
        }
        i = i + 1;
    }
    assert(s@.take(s@.len() as int) =~= s@);
    out
}

/// `s` without the white space that it begins with.
pub open spec fn trimmed_start(s: Seq<char>) -> Seq<char>
    decreases s.len(),
{
    if s.len() > 0 && white_space(s[0]) {
        trimmed_start(s.skip(1))
    } else {
        s
    }
}

/// `s` without the white space that it ends with.
pub open spec fn trimmed_end(s: Seq<char>) -> Seq<char>
    decreases s.len(),
{
    if s.len() > 0 && white_space(s.last()) {
        trimmed_end(s.drop_last())
    } else {
        s
    }
}

/// `s` without the white space around it.
pub open spec fn trimmed(s: Seq<char>) -> Seq<char> {
    trimmed_end(trimmed_start(s))
}

/// `s` without the white space around it.
pub fn trim(s: &str) -> (r: String)
    ensures
        r@ == trimmed(s@),
{
    let a: Vec<char> = chars_of(s);
    let mut from: usize = 0;
    assert(s@.skip(0) =~= s@);
    while from < a.len() && is_white_space(a[from])
        invariant
            from <= a@.len(),
            a@ == s@,
            trimmed_start(s@) == trimmed_start(s@.skip(from as int)),
        decreases a@.len() - from,
    {
        assert(s@.skip(from as int).skip(1) =~= s@.skip(from + 1));
        from = from + 1;
    }
    let mut to: usize = a.len();
    assert(trimmed_start(s@) =~= s@.subrange(from as int, to as int));
    while to > from && is_white_space(a[to - 1])
        invariant
            from <= to <= a@.len(),
            a@ == s@,
            trimmed(s@) == trimmed_end(s@.subrange(from as int, to as int)),
        decreases to - from,
    {
        assert(s@.subrange(from as int, to as int).drop_last() =~= s@.subrange(
            from as int,
            to - 1,
        ));
        to = to - 1;
    }
    text_of(&a, from, to)
}

/// The small letter for a capital of the ASCII alphabet; any other character
/// itself.
pub open spec fn ascii_small(c: char) -> char {
    if 'A' <= c && c <= 'Z' {
        ((c as u32 + 32) as u32) as char
    } else {
        c
    }
}

/// `s` and `t` differ in the case of ASCII letters at most.
pub open spec fn same_ignoring_case(s: Seq<char>, t: Seq<char>) -> bool {
    s.len() == t.len() && forall|i: int|
        0 <= i < s.len() ==> ascii_small(#[trigger] s[i]) == ascii_small(t[i])
}

fn small_letter(c: char) -> (r: u32)
    ensures
        r == ascii_small(c) as u32,
{
    if 'A' <= c && c <= 'Z' {
        c as u32 + 32
    } else {
        c as u32
    }
}

/// Whether `s` and `t` differ in the case of ASCII letters at most.
pub fn equal_ignoring_case(s: &str, t: &str) -> (r: bool)
    ensures
        r == same_ignoring_case(s@, t@),
{
    let a: Vec<char> = chars_of(s);
    let b: Vec<char> = chars_of(t);
    if a.len() != b.len() {
        return false;
    }
    let mut i: usize = 0;
    while i < a.len()
        invariant
            i <= a@.len(),
            a@.len() == b@.len(),
            a@ == s@,
            b@ == t@,
            forall|k: int| 0 <= k < i ==> ascii_small(#[trigger] a@[k]) == ascii_small(b@[k]),
        decreases a@.len() - i,
    {
        if small_letter(a[i]) != small_letter(b[i]) {
            return false;
        }
        i = i + 1;
    }
    true
}

// ── Putting texts together ───────────────────────────────────────────────────

/// The texts one after the other.
pub open spec fn concat(parts: Seq<Seq<char>>) -> Seq<char>
    decreases parts.len(),
{
    if parts.len() == 0 {
        Seq::empty()
    } else {
        concat(parts.drop_last()) + parts.last()
    }
}

/// The characters of each text.
pub open spec fn views(parts: Seq<&str>) -> Seq<Seq<char>> {
    Seq::new(parts.len(), |i: int| parts[i]@)
}

/// The texts one after the other.
pub fn concat_all(parts: &Vec<&str>) -> (r: String)
    ensures
        r@ == concat(views(parts@)),
{
    let mut r = String::new();
    let mut i: usize = 0;
    let ghost all = views(parts@);
    assert(all.take(0) =~= Seq::empty());
    while i < parts.len()
        invariant
            i <= parts@.len(),
            all == views(parts@),
            r@ == concat(all.take(i as int)),
        decreases parts@.len() - i,
    {
        assert(all.take(i + 1).drop_last() =~= all.take(i as int));
        r.append(parts[i]);
        i = i + 1;
    }
    assert(all.take(all.len() as int) =~= all);
    r
}

/// The characters of each text.
pub open spec fn texts_view(texts: Seq<String>) -> Seq<Seq<char>> {
    Seq::new(texts.len(), |i: int| texts[i]@)
}

// ── Laws ─────────────────────────────────────────────────────────────────────

/// Every text that was put together with others stands in the whole.
pub proof fn parts_are_in_the_text(parts: Seq<Seq<char>>, i: int)
    requires
        0 <= i < parts.len(),
    ensures
        has_part(concat(parts), parts[i]),
    decreases parts.len(),
{
    let all = concat(parts);
    let (before, last) = (concat(parts.drop_last()), parts.last());
    if i < parts.len() - 1 {
        parts_are_in_the_text(parts.drop_last(), i);
        let at = choose|at: int| occurs_at(before, parts[i], at);
        assert(all.subrange(at, at + parts[i].len()) =~= before.subrange(
            at,
            at + parts[i].len(),
        ));
        assert(occurs_at(all, parts[i], at));
    } else {
        let at = before.len() as int;
        assert(all.subrange(at, at + last.len()) =~= last);
        assert(occurs_at(all, last, at));
    }
}

/// A text comes before every longer one that begins with it; where two texts differ, the
/// first different character decides.
pub proof fn the_first_difference_decides(
    lead: Seq<char>,
    a: char,
    b: char,
    rest: Seq<char>,
    more: Seq<char>,
)
    ensures
        lex_lt(lead, lead.push(a) + rest),
        (a as int) < (b as int) ==> lex_lt(lead.push(a) + rest, lead.push(b) + more),
        a == b ==> lex_lt(rest, more) == lex_lt(lead.push(a) + rest, lead.push(b) + more),
{
    let (s, t) = (lead.push(a) + rest, lead.push(b) + more);
    let n = lead.len() as int;
    assert forall|i: int| 0 <= i < n implies s[i] == lead[i] && t[i] == lead[i] by {}
    assert(lex_splits(lead, s, n));
    if (a as int) < (b as int) {
        assert(lex_splits(s, t, n));
    }
    if a == b {
        if lex_lt(rest, more) {
            let k = choose|k: int| lex_splits(rest, more, k);
            assert forall|i: int| 0 <= i < n + 1 + k implies s[i] == t[i] by {
                if i > n {
                    assert(s[i] == rest[i - n - 1] && t[i] == more[i - n - 1]);
                }
            }
            assert(lex_splits(s, t, n + 1 + k));
        }
        if lex_lt(s, t) {
            let k = choose|k: int| lex_splits(s, t, k);
            assert(k > n) by {
                if k <= n {
                    assert(s[k] == t[k]);
                }
            }
            assert forall|i: int| 0 <= i < k - n - 1 implies rest[i] == more[i] by {
                assert(s[n + 1 + i] == t[n + 1 + i]);
            }
            assert(lex_splits(rest, more, k - n - 1));
        }
    }
}

/// White space around a text is dropped, all of it, and the text itself is kept.
pub proof fn only_the_text_is_kept(before: Seq<char>, text: Seq<char>, after: Seq<char>)
    requires
        forall|i: int| 0 <= i < before.len() ==> white_space(#[trigger] before[i]),
        forall|i: int| 0 <= i < after.len() ==> white_space(#[trigger] after[i]),
        text.len() > 0,
        !white_space(text[0]),
        !white_space(text.last()),
    ensures
        trimmed(before + text + after) == text,
    decreases before.len(), after.len(),
{
    let s = before + text + after;
    if before.len() > 0 {
        assert(s[0] == before[0]);
        assert(s.skip(1) =~= before.skip(1) + text + after);
        only_the_text_is_kept(before.skip(1), text, after);
    } else {
        assert(s[0] == text[0]);
        assert(s =~= text + after);
        kept_at_the_end(text, after);
    }
}

proof fn kept_at_the_end(text: Seq<char>, after: Seq<char>)
    requires
        forall|i: int| 0 <= i < after.len() ==> white_space(#[trigger] after[i]),
        text.len() > 0,
        !white_space(text.last()),
    ensures
        trimmed_end(text + after) == text,
    decreases after.len(),
{
    let s = text + after;
    if after.len() > 0 {
        assert(s.last() == after[after.len() - 1]);
        assert(s.drop_last() =~= text + after.drop_last());
        kept_at_the_end(text, after.drop_last());
    } else {
        assert(s =~= text);
    }
}

/// Characters are replaced one by one and nothing else changes.
pub proof fn characters_are_replaced_one_by_one(a: Seq<char>, b: Seq<char>, c: char, with: Seq<char>)
    ensures
        replaced(a + b, c, with) == replaced(a, c, with) + replaced(b, c, with),
        replaced(seq![c], c, with) == with,
        !a.contains(c) ==> replaced(a, c, with) == a,
    decreases a.len() + b.len(),
{
    if b.len() == 0 {
        assert(a + b =~= a);
        if a.len() > 0 {
            let front = a.drop_last();
            characters_are_replaced_one_by_one(front, b, c, with);
            if !a.contains(c) {
                assert forall|i: int| 0 <= i < front.len() implies front[i] != c by {
                    assert(a[i] != c);
                }
                assert(a[a.len() - 1] != c);
                assert(a =~= front.push(a.last()));
            }
        }
        assert(replaced(a, c, with) + Seq::<char>::empty() =~= replaced(a, c, with));
    } else {
        let front = b.drop_last();
        characters_are_replaced_one_by_one(a, front, c, with);
        assert((a + b).drop_last() =~= a + front);
        let (x, y) = (replaced(a, c, with), replaced(front, c, with));
        if b.last() == c {
            assert((x + y) + with =~= x + (y + with));
        } else {
            assert((x + y).push(b.last()) =~= x + y.push(b.last()));
        }
    }
    assert(seq![c].drop_last() =~= Seq::<char>::empty());
    assert(replaced(Seq::<char>::empty(), c, with) =~= Seq::<char>::empty());
    assert(seq![c].last() == c);
    assert(Seq::<char>::empty() + with =~= with);
}

/// Capital and small letters are the same, and nothing else is: letters that differ tell
/// two texts apart, and so does their number.
pub proof fn letter_case_does_not_tell_texts_apart(s: Seq<char>, i: int, small: char, t: Seq<char>)
    requires
        0 <= i < s.len(),
    ensures
        'A' <= s[i] <= 'Z' && small as int == s[i] as int + 32 ==> same_ignoring_case(
            s,
            s.update(i, small),
        ) && same_ignoring_case(s.update(i, small), s),
        'a' <= s[i] <= 'z' && 'a' <= small <= 'z' && small != s[i] ==> !same_ignoring_case(
            s,
            s.update(i, small),
        ),
        same_ignoring_case(s, s),
        s.len() != t.len() ==> !same_ignoring_case(s, t),
{
    let u = s.update(i, small);
    if 'A' <= s[i] <= 'Z' && small as int == s[i] as int + 32 {
        assert(ascii_small(s[i]) == small);
        assert(ascii_small(small) == small);
        assert forall|k: int| 0 <= k < s.len() implies ascii_small(#[trigger] s[k]) == ascii_small(
            u[k],
        ) by {}
        assert forall|k: int| 0 <= k < u.len() implies ascii_small(#[trigger] u[k]) == ascii_small(
            s[k],
        ) by {}
    }
    if 'a' <= s[i] <= 'z' && 'a' <= small <= 'z' && small != s[i] {
        assert(ascii_small(s[i]) != ascii_small(u[i]));
    }
}

} // verus!
