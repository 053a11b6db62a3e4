//! Stable sorting by a rank and a text, as an order of positions.

use vstd::prelude::*;
use crate::text::{chars_before, chars_of};
#[allow(unused_imports)]
use crate::text::{lex_is_total, lex_is_transitive, lex_lt};

verus! {

/// What one item is sorted by: first its rank, then its text.
pub struct SortKey {
    pub rank: usize,
    pub chars: Vec<char>,
}

impl View for SortKey {
    type V = (nat, Seq<char>);

    open spec fn view(&self) -> (nat, Seq<char>) {
        (self.rank as nat, self.chars@)
    }
}

impl SortKey {
    /// The key of rank `rank` with the text `text`.
    pub fn new(rank: usize, text: &str) -> (r: SortKey)
        ensures
            r@ == (rank as nat, text@),
    {
        SortKey { rank, chars: chars_of(text) }
    }
}

/// The views of a list of keys.
pub open spec fn keys_view(keys: Seq<SortKey>) -> Seq<(nat, Seq<char>)> {
    Seq::new(keys.len(), |i: int| keys[i]@)
}

/// `a` is the smaller key.
pub open spec fn key_lt(a: (nat, Seq<char>), b: (nat, Seq<char>)) -> bool {
    a.0 < b.0 || (a.0 == b.0 && lex_lt(a.1, b.1))
}

/// Item `i` sorts before item `j`: it has the smaller key, or the same key and
/// stood first.
pub open spec fn sorts_before(keys: Seq<(nat, Seq<char>)>, i: int, j: int) -> bool {
    key_lt(keys[i], keys[j]) || (keys[i] == keys[j] && i < j)
}

/// `order` lists the positions of all keys in sorted order.
pub open spec fn is_sorted_order(order: Seq<usize>, keys: Seq<(nat, Seq<char>)>) -> bool {
    &&& order.len() == keys.len()
    &&& forall|a: int| 0 <= a < order.len() ==> (#[trigger] order[a]) < keys.len()
    &&& forall|a: int, b: int|
        0 <= a < b < order.len() ==> sorts_before(
            keys,
            (#[trigger] order[a]) as int,
            (#[trigger] order[b]) as int,
        )
}

proof fn key_lt_laws(a: (nat, Seq<char>), b: (nat, Seq<char>), c: (nat, Seq<char>))
    ensures
        key_lt(a, b) || key_lt(b, a) || a == b,
        !(key_lt(a, b) && key_lt(b, a)),
        !key_lt(a, a),
        key_lt(a, b) && key_lt(b, c) ==> key_lt(a, c),
{
    lex_is_total(a.1, b.1);
    lex_is_total(a.1, a.1);
    if lex_lt(a.1, b.1) && lex_lt(b.1, c.1) {
        lex_is_transitive(a.1, b.1, c.1);
    }
}

/// Sorting before is a strict total order on positions.
pub proof fn sorting_is_total(keys: Seq<(nat, Seq<char>)>, i: int, j: int, k: int)
    ensures
        sorts_before(keys, i, j) || sorts_before(keys, j, i) || i == j,
        !(sorts_before(keys, i, j) && sorts_before(keys, j, i)),
        !sorts_before(keys, i, i),
        sorts_before(keys, i, j) && sorts_before(keys, j, k) ==> sorts_before(keys, i, k),
{
    key_lt_laws(keys[i], keys[j], keys[k]);
    key_lt_laws(keys[j], keys[k], keys[i]);
    key_lt_laws(keys[i], keys[k], keys[j]);
}

/// A sorted order names every position exactly once.
pub proof fn sorted_order_is_a_permutation(order: Seq<usize>, keys: Seq<(nat, Seq<char>)>)
    requires
        is_sorted_order(order, keys),
        keys.len() <= usize::MAX,
    ensures
        order.no_duplicates(),
        forall|i: usize| i < keys.len() ==> order.contains(i),
{
    assert forall|a: int, b: int| 0 <= a < order.len() && 0 <= b < order.len() && a != b implies
        order[a] != order[b] by {
        sorting_is_total(keys, order[a] as int, order[b] as int, 0);
    }
    let range = Set::<usize>::new(|i: usize| i < keys.len());
    indices_below(keys.len());
    order.unique_seq_to_set();
    assert(order.to_set().subset_of(range));
    vstd::set_lib::lemma_subset_equality(order.to_set(), range);
    assert forall|i: usize| i < keys.len() implies order.contains(i) by {
        assert(range.contains(i));
        assert(order.to_set().contains(i));
    }
}

/// There is one sorted order.
pub proof fn sorted_order_is_unique(
    a: Seq<usize>,
    b: Seq<usize>,
    keys: Seq<(nat, Seq<char>)>,
)
    requires
        is_sorted_order(a, keys),
        is_sorted_order(b, keys),
        keys.len() <= usize::MAX,
    ensures
        a == b,
{
    sorted_order_is_a_permutation(a, keys);
    sorted_order_is_a_permutation(b, keys);
    assert forall|i: int| 0 <= i < a.len() implies a[i] == b[i] by {
        orders_agree(a, b, keys, i);
    }
    assert(a =~= b);
}

proof fn orders_agree(a: Seq<usize>, b: Seq<usize>, keys: Seq<(nat, Seq<char>)>, i: int)
    requires
        is_sorted_order(a, keys),
        is_sorted_order(b, keys),
        a.no_duplicates(),
        b.no_duplicates(),
        forall|k: usize| k < keys.len() ==> a.contains(k),
        forall|k: usize| k < keys.len() ==> b.contains(k),
        0 <= i < a.len(),
    ensures
        a[i] == b[i],
    decreases i,
{
    assert forall|k: int| 0 <= k < i implies a[k] == b[k] by {
        orders_agree(a, b, keys, k);
    }
    if a[i] != b[i] {
        assert(b.contains(a[i]));
        assert(a.contains(b[i]));
        let j = choose|j: int| 0 <= j < b.len() && b[j] == a[i];
        let k = choose|k: int| 0 <= k < a.len() && a[k] == b[i];
        if j < i {
            assert(a[j] == b[j]);
        }
        if k < i {
            assert(a[k] == b[k]);
        }
        assert(sorts_before(keys, a[i] as int, a[k] as int));
        assert(sorts_before(keys, b[i] as int, b[j] as int));
        sorting_is_total(keys, a[i] as int, b[i] as int, 0);
    }
}

proof fn indices_below(n: nat)
    requires
        n <= usize::MAX,
    ensures
        Set::<usize>::new(|i: usize| i < n).finite(),
        Set::<usize>::new(|i: usize| i < n).len() == n,
    decreases n,
{
    let s = Set::<usize>::new(|i: usize| i < n);
    if n == 0 {
        assert(s =~= Set::<usize>::empty());
    } else {
        let m = (n - 1) as nat;
        indices_below(m);
        assert(s =~= Set::<usize>::new(|i: usize| i < m).insert(m as usize));
    }
}

fn key_before(a: &SortKey, b: &SortKey) -> (r: bool)
    ensures
        r == key_lt(a@, b@),
{
    a.rank < b.rank || (a.rank == b.rank && chars_before(&a.chars, &b.chars))
}

/// Sorts stably: the positions of `keys` from the smallest key to the largest.
pub fn sort_order(keys: &Vec<SortKey>) -> (order: Vec<usize>)
    ensures
        is_sorted_order(order@, keys_view(keys@)),
{
    let ghost kv = keys_view(keys@);
    let mut order: Vec<usize> = Vec::new();
    let mut i: usize = 0;
    while i < keys.len()
        invariant
            i <= keys@.len(),
            kv == keys_view(keys@),
            order@.len() == i,
            forall|a: int| 0 <= a < i ==> (#[trigger] order@[a]) < i,
            forall|a: int, b: int|
                0 <= a < b < i ==> sorts_before(
                    kv,
                    (#[trigger] order@[a]) as int,
                    (#[trigger] order@[b]) as int,
                ),
        decreases keys@.len() - i,
    {
        let mut p: usize = 0;
        while p < i && !key_before(&keys[i], &keys[order[p]])
            invariant
                p <= i < keys@.len(),
                kv == keys_view(keys@),
                order@.len() == i,
                forall|a: int| 0 <= a < i ==> (#[trigger] order@[a]) < i,
                forall|a: int|
                    0 <= a < p ==> sorts_before(kv, (#[trigger] order@[a]) as int, i as int),
            decreases i - p,
        {
            proof {
                key_lt_laws(kv[i as int], kv[order@[p as int] as int], kv[0]);
            }
            p = p + 1;
        }
        let ghost before = order@;
        order.insert(p, i);
        proof {
            assert forall|a: int, b: int| 0 <= a < b < i + 1 implies sorts_before(
                kv,
                (#[trigger] order@[a]) as int,
                (#[trigger] order@[b]) as int,
            ) by {
                if b == p {
                    assert(order@[a] == before[a]);
                } else if a == p {
                    assert(order@[b] == before[b - 1]);
                    assert(sorts_before(kv, i as int, before[p as int] as int));
                    if b - 1 > p {
                        assert(sorts_before(kv, before[p as int] as int, before[b - 1] as int));
                        sorting_is_total(
                            kv,
                            i as int,
                            before[p as int] as int,
                            before[b - 1] as int,
                        );
                    }
                } else {
                    let a0 = if a < p { a } else { a - 1 };
                    let b0 = if b < p { b } else { b - 1 };
                    assert(order@[a] == before[a0]);
                    assert(order@[b] == before[b0]);
                }
            }
        }
        i = i + 1;
    }
    order
}

/// In a sorted order the smaller number comes first, then the text that is in front; what
/// is equal keeps the order that it had.
pub proof fn equals_keep_their_order(
    order: Seq<usize>,
    keys: Seq<(nat, Seq<char>)>,
    a: int,
    b: int,
)
    requires
        is_sorted_order(order, keys),
        0 <= a < b < order.len(),
    ensures
        keys[order[a] as int].0 <= keys[order[b] as int].0,
        keys[order[a] as int].0 == keys[order[b] as int].0 ==> keys[order[a] as int].1
            == keys[order[b] as int].1 || lex_lt(
            keys[order[a] as int].1,
            keys[order[b] as int].1,
        ),
        keys[order[a] as int] == keys[order[b] as int] ==> order[a] < order[b],
{
    let (x, y) = (order[a] as int, order[b] as int);
    assert(sorts_before(keys, x, y));
    lex_is_total(keys[x].1, keys[y].1);
}

} // verus!
