//! The first of a sequence for which something holds.

use vstd::prelude::*;

verus! {

/// Position of the first element for which `p` holds.
pub open spec fn first_index<T>(s: Seq<T>, p: spec_fn(T) -> bool) -> Option<int>
    decreases s.len(),
{
    if s.len() == 0 {
        None
    } else if p(s[0]) {
        Some(0)
    } else {
        match first_index(s.skip(1), p) {
            Some(i) => Some(i + 1),
            None => None,
        }
    }
}

/// The element that `p` holds for after none before it is the first.
pub proof fn found_first<T>(s: Seq<T>, p: spec_fn(T) -> bool, i: int)
    requires
        0 <= i < s.len(),
        p(s[i]),
        forall|k: int| 0 <= k < i ==> !p(#[trigger] s[k]),
    ensures
        first_index(s, p) == Some(i),
    decreases s.len(),
{
    if i > 0 {
        assert(!p(s[0]));
        assert forall|k: int| 0 <= k < i - 1 implies !p(#[trigger] s.skip(1)[k]) by {
            assert(s.skip(1)[k] == s[k + 1]);
        }
        found_first(s.skip(1), p, i - 1);
    }
}

/// Nothing is found where `p` holds for no element.
pub proof fn found_none<T>(s: Seq<T>, p: spec_fn(T) -> bool)
    requires
        forall|k: int| 0 <= k < s.len() ==> !p(#[trigger] s[k]),
    ensures
        first_index(s, p) is None,
    decreases s.len(),
{
    if s.len() > 0 {
        assert(!p(s[0]));
        assert forall|k: int| 0 <= k < s.len() - 1 implies !p(#[trigger] s.skip(1)[k]) by {
            assert(s.skip(1)[k] == s[k + 1]);
        }
        found_none(s.skip(1), p);
    }
}

/// What is found is in the sequence, has the property, and is the first that has;
/// nothing is found only where no element has it.
pub proof fn first_index_holds<T>(s: Seq<T>, p: spec_fn(T) -> bool)
    ensures
        match first_index(s, p) {
            Some(i) => 0 <= i < s.len() && p(s[i]) && forall|k: int|
                0 <= k < i ==> !p(#[trigger] s[k]),
            None => forall|k: int| 0 <= k < s.len() ==> !p(#[trigger] s[k]),
        },
    decreases s.len(),
{
    if s.len() > 0 && !p(s[0]) {
        first_index_holds(s.skip(1), p);
        assert forall|k: int| 0 < k < s.len() implies #[trigger] s[k] == s.skip(1)[k - 1] by {}
    }
}

/// Where the elements that a filter keeps come from: positions in ascending order,
/// among which every element with the property is found.
pub proof fn filter_positions<T>(s: Seq<T>, p: spec_fn(T) -> bool) -> (at: Seq<int>)
    ensures
        at.len() == s.filter(p).len(),
        forall|i: int|
            0 <= i < at.len() ==> 0 <= (#[trigger] at[i]) < s.len() && s.filter(p)[i] == s[at[i]]
                && p(s[at[i]]),
        forall|i: int, j: int| 0 <= i < j < at.len() ==> (#[trigger] at[i]) < (#[trigger] at[j]),
        forall|k: int| 0 <= k < s.len() && p(#[trigger] s[k]) ==> at.contains(k),
    decreases s.len(),
{
    reveal(Seq::filter);
    if s.len() == 0 {
        Seq::empty()
    } else {
        let rest = s.drop_last();
        let before = filter_positions(rest, p);
        if p(s.last()) {
            let at = before.push(s.len() - 1);
            assert forall|k: int| 0 <= k < s.len() && p(#[trigger] s[k]) implies at.contains(k) by {
                if k < rest.len() {
                    assert(rest[k] == s[k]);
                    let i = choose|i: int| 0 <= i < before.len() && before[i] == k;
                    assert(at[i] == k);
                } else {
                    assert(at[before.len() as int] == k);
                }
            }
            at
        } else {
            assert forall|k: int| 0 <= k < s.len() && p(#[trigger] s[k]) implies before.contains(
                k,
            ) by {
                assert(rest[k] == s[k]);
            }
            before
        }
    }
}

} // verus!
