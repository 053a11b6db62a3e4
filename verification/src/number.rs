//! Decimal numbers in text: writing them and reading them back.

use vstd::prelude::*;
use crate::text::chars_of;

verus! {

/// The character of the digit `d`.
pub open spec fn digit(d: int) -> char {
    (48 + d) as char
}

/// `n` written in decimal, without leading zeros.
pub open spec fn decimal(n: nat) -> Seq<char>
    decreases n,
{
    if n < 10 {
        seq![digit(n as int)]
    } else {
        decimal(n / 10).push(digit((n % 10) as int))
    }
}

/// `n` written in decimal with leading zeros up to `width` characters.
pub open spec fn padded(n: nat, width: nat) -> Seq<char> {
    let plain = decimal(n);
    if plain.len() >= width {
        plain
    } else {
        Seq::new((width - plain.len()) as nat, |i: int| '0') + plain
    }
}

fn digit_char(d: u8) -> (r: char)
    requires
        d < 10,
    ensures
        r == digit(d as int),
{
    (48 + d) as char
}

fn push_reversed(out: &mut String, digits: &Vec<char>)
    ensures
        final(out)@ == old(out)@ + digits@.reverse(),
{
    let n: usize = digits.len();
    let mut i: usize = 0;
    assert(digits@.reverse().take(0) =~= Seq::<char>::empty());
    assert(out@ + Seq::<char>::empty() =~= out@);
    while i < n
        invariant
            i <= n,
            n == digits@.len(),
            out@ == old(out)@ + digits@.reverse().take(i as int),
        decreases n - i,
    {
        out.push(digits[n - 1 - i]);
        proof {
            assert(digits@.reverse().take(i + 1) =~= digits@.reverse().take(i as int).push(
                digits@[n - 1 - i],
            ));
            assert(old(out)@ + digits@.reverse().take(i + 1) =~= (old(out)@
                + digits@.reverse().take(i as int)).push(digits@[n - 1 - i]));
        }
        i = i + 1;
    }
    assert(digits@.reverse().take(n as int) =~= digits@.reverse());
}

/// Appends `n` in decimal, with leading zeros up to `width` characters.
pub fn push_padded(out: &mut String, n: u64, width: usize)
    ensures
        final(out)@ == old(out)@ + padded(n as nat, width as nat),
{
    // Digits from the last to the first.
    let mut digits: Vec<char> = Vec::new();
    let mut rest: u64 = n;
    assert(digits@.reverse() =~= Seq::<char>::empty());
    assert(decimal(n as nat) + Seq::<char>::empty() =~= decimal(n as nat));
    while rest >= 10
        invariant
            decimal(n as nat) == decimal(rest as nat) + digits@.reverse(),
        decreases rest,
    {
        let d: u8 = (rest % 10) as u8;
        let ghost before = digits@;
        digits.push(digit_char(d));
        proof {
            assert(digits@.reverse() =~= seq![digit(d as int)] + before.reverse());
            assert(decimal(rest as nat) == decimal((rest / 10) as nat).push(digit(d as int)));
            assert(decimal((rest / 10) as nat).push(digit(d as int)) + before.reverse() =~= decimal(
                (rest / 10) as nat,
            ) + digits@.reverse());
        }
        rest = rest / 10;
    }
    let ghost before = digits@;
    digits.push(digit_char(rest as u8));
    proof {
        assert(digits@.reverse() =~= seq![digit(rest as int)] + before.reverse());
        assert(digits@.reverse() == decimal(n as nat));
    }
    let ghost plain = digits@;
    let plain_len: usize = digits.len();
    while digits.len() < width
        invariant
            plain.len() == plain_len,
            plain.reverse() == decimal(n as nat),
            plain_len <= digits@.len(),
            digits@.len() <= width || digits@.len() == plain_len,
            digits@ == plain + Seq::new((digits@.len() - plain_len) as nat, |i: int| '0'),
        decreases width - digits@.len(),
    {
        digits.push('0');
        proof {
            assert(digits@ =~= plain + Seq::new((digits@.len() - plain_len) as nat, |i: int| '0'));
        }
    }
    proof {
        assert(digits@.reverse() =~= padded(n as nat, width as nat));
    }
    push_reversed(out, &digits);
}

/// Appends `n` in decimal.
pub fn push_decimal(out: &mut String, n: u64)
    ensures
        final(out)@ == old(out)@ + decimal(n as nat),
{
    push_padded(out, n, 0);
}

// ── Reading ──────────────────────────────────────────────────────────────────

/// `c` is one of the ten digits.
pub open spec fn is_digit(c: char) -> bool {
    '0' <= c <= '9'
}

/// The number that a row of digits stands for.
pub open spec fn digits_value(s: Seq<char>) -> nat
    decreases s.len(),
{
    if s.len() == 0 {
        0
    } else {
        digits_value(s.drop_last()) * 10 + (s.last() as int - 48) as nat
    }
}

/// `s` holds nothing but digits.
pub open spec fn all_digits(s: Seq<char>) -> bool {
    forall|i: int| 0 <= i < s.len() ==> is_digit(#[trigger] s[i])
}

/// `s` without the plus sign that it may begin with.
pub open spec fn unsigned(s: Seq<char>) -> Seq<char> {
    if s.len() > 0 && s[0] == '+' {
        s.drop_first()
    } else {
        s
    }
}

/// The number that `s` spells: a row of digits, after a plus sign if there is
/// one, that stands for at most `max`.
pub open spec fn spelled_number(s: Seq<char>, max: nat) -> Option<nat> {
    let body = unsigned(s);
    if body.len() > 0 && all_digits(body) && digits_value(body) <= max {
        Some(digits_value(body))
    } else {
        None
    }
}

proof fn value_grows(s: Seq<char>, k: int)
    requires
        0 <= k <= s.len(),
        all_digits(s),
    ensures
        digits_value(s.take(k)) <= digits_value(s),
    decreases s.len() - k,
{
    if k < s.len() {
        value_grows(s, k + 1);
        assert(s.take(k + 1).drop_last() =~= s.take(k));
    } else {
        assert(s.take(k) =~= s);
    }
}

fn digit_of(c: char) -> (r: Option<u64>)
    ensures
        match r {
            Some(d) => is_digit(c) && d == c as int - 48 && d < 10,
            None => !is_digit(c),
        },
{
    if '0' <= c && c <= '9' {
        Some((c as u32 - 48) as u64)
    } else {
        None
    }
}

/// Reads the number that `s` spells, if it is at most `max`.
pub fn parse_number(s: &str, max: u64) -> (r: Option<u64>)
    ensures
        match r {
            Some(n) => spelled_number(s@, max as nat) == Some(n as nat),
            None => spelled_number(s@, max as nat) is None,
        },
{
    let chars: Vec<char> = chars_of(s);
    let start: usize = if chars.len() > 0 && chars[0] == '+' { 1 } else { 0 };
    let ghost body = unsigned(s@);
    assert(body =~= s@.skip(start as int));
    if start == chars.len() {
        return None;
    }
    let mut value: u64 = 0;
    let mut i: usize = start;
    assert(body.take(0) =~= Seq::<char>::empty());
    while i < chars.len()
        invariant
            start <= i <= chars@.len(),
            chars@ == s@,
            start <= 1,
            body == s@.skip(start as int),
            body == unsigned(s@),
            forall|k: int| 0 <= k < i - start ==> is_digit(#[trigger] body[k]),
            value == digits_value(body.take(i - start)),
            value <= max,
        decreases chars@.len() - i,
    {
        let ghost k = i - start;
        assert(body[k] == chars@[i as int]);
        match digit_of(chars[i]) {
            None => {
                assert(!is_digit(body[k]));
                return None;
            },
            Some(d) => {
                proof {
                    assert(body.take(k + 1).drop_last() =~= body.take(k));
                    assert(digits_value(body.take(k + 1)) == value * 10 + d);
                    if all_digits(body) {
                        value_grows(body, k + 1);
                    }
                }
                if value > (u64::MAX - d) / 10 {
                    assert(value * 10 + d > u64::MAX);
                    return None;
                }
                let next: u64 = value * 10 + d;
                if next > max {
                    return None;
                }
                value = next;
            },
        }
        i = i + 1;
    }
    assert(body.take(body.len() as int) =~= body);
    Some(value)
}

// ── Round trip ───────────────────────────────────────────────────────────────

/// The decimal form of a number holds digits alone and stands for that number.
pub proof fn decimal_stands_for_its_number(n: nat)
    ensures
        decimal(n).len() > 0,
        all_digits(decimal(n)),
        digits_value(decimal(n)) == n,
    decreases n,
{
    reveal_with_fuel(digits_value, 2);
    if n < 10 {
        assert(decimal(n).drop_last() =~= Seq::<char>::empty());
    } else {
        decimal_stands_for_its_number(n / 10);
        assert(decimal(n).drop_last() =~= decimal(n / 10));
    }
}

/// Reading back a written number gives that number.
pub proof fn reading_back_a_number(n: nat, max: nat)
    requires
        n <= max,
    ensures
        spelled_number(decimal(n), max) == Some(n),
{
    decimal_stands_for_its_number(n);
    assert(is_digit(decimal(n)[0]));
}

/// Two numbers with the same decimal form are equal.
pub proof fn decimal_is_injective(m: nat, n: nat)
    requires
        decimal(m) == decimal(n),
    ensures
        m == n,
{
    decimal_stands_for_its_number(m);
    decimal_stands_for_its_number(n);
}

} // verus!
