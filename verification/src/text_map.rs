//! Values under texts: a map whose keys are distinct texts.

use vstd::prelude::*;

use crate::text::same_text;

verus! {

/// A map from texts to values. The entries keep the order in which their keys
/// came; no key occurs twice.
pub struct TextMap<V> {
    names: Vec<String>,
    values: Vec<V>,
}

spec fn paired<V>(names: Seq<String>, values: Seq<V>) -> Seq<(String, V)> {
    Seq::new(names.len(), |i: int| (names[i], values[i]))
}

spec fn distinct_keys<V>(entries: Seq<(String, V)>) -> bool {
    forall|i: int, j: int|
        0 <= i < j < entries.len() ==> (#[trigger] entries[i]).0@ != (#[trigger] entries[j]).0@
}

spec fn key_of<V>(entries: Seq<(String, V)>, i: int) -> Seq<char> {
    entries[i].0@
}

spec fn position<V>(entries: Seq<(String, V)>, key: Seq<char>) -> int {
    choose|i: int| 0 <= i < entries.len() && #[trigger] key_of(entries, i) == key
}

spec fn has_key<V>(entries: Seq<(String, V)>, key: Seq<char>) -> bool {
    exists|i: int| 0 <= i < entries.len() && #[trigger] key_of(entries, i) == key
}

spec fn entries_map<V>(entries: Seq<(String, V)>) -> Map<Seq<char>, V> {
    Map::new(
        |key: Seq<char>| has_key(entries, key),
        |key: Seq<char>| entries[position(entries, key)].1,
    )
}

proof fn lookup<V>(entries: Seq<(String, V)>, i: int)
    requires
        distinct_keys(entries),
        0 <= i < entries.len(),
    ensures
        entries_map(entries).dom().contains(entries[i].0@),
        entries_map(entries)[entries[i].0@] == entries[i].1,
{
    let key = key_of(entries, i);
    assert(has_key(entries, key));
    let p = position(entries, key);
    assert(key_of(entries, p) == key);
    if p < i {
        assert(entries[p].0@ != entries[i].0@);
    } else if i < p {
        assert(entries[i].0@ != entries[p].0@);
    }
}

proof fn lookup_all<V>(entries: Seq<(String, V)>)
    requires
        distinct_keys(entries),
    ensures
        forall|i: int|
            0 <= i < entries.len() ==> entries_map(entries).dom().contains(
                #[trigger] key_of(entries, i),
            ) && entries_map(entries)[key_of(entries, i)] == entries[i].1,
{
    assert forall|i: int| 0 <= i < entries.len() implies entries_map(entries).dom().contains(
        #[trigger] key_of(entries, i),
    ) && entries_map(entries)[key_of(entries, i)] == entries[i].1 by {
        lookup(entries, i);
    }
}

proof fn update_value<V>(entries: Seq<(String, V)>, i: int, next: Seq<(String, V)>)
    requires
        distinct_keys(entries),
        0 <= i < entries.len(),
        next.len() == entries.len(),
        next[i].0@ == entries[i].0@,
        forall|k: int| 0 <= k < entries.len() && k != i ==> next[k] == entries[k],
    ensures
        distinct_keys(next),
        entries_map(next) == entries_map(entries).insert(entries[i].0@, next[i].1),
{
    assert forall|a: int, b: int| 0 <= a < b < next.len() implies (#[trigger] next[a]).0@ != (
    #[trigger] next[b]).0@ by {
        assert(entries[a].0@ != entries[b].0@);
    }
    lookup_all(entries);
    lookup_all(next);
    assert forall|key: Seq<char>| has_key(next, key) == has_key(entries, key) by {
        if has_key(next, key) {
            let p = position(next, key);
            assert(key_of(next, p) == key);
            assert(key_of(entries, p) == key);
        }
        if has_key(entries, key) {
            let p = position(entries, key);
            assert(key_of(entries, p) == key);
            assert(key_of(next, p) == key);
        }
    }
    lookup(entries, i);
    lookup(next, i);
    assert(entries_map(next) =~= entries_map(entries).insert(entries[i].0@, next[i].1)) by {
        assert forall|key: Seq<char>| has_key(next, key) && key != entries[i].0@ implies (
        #[trigger] entries_map(next)[key]) == entries_map(entries)[key] by {
            let p = position(next, key);
            assert(key_of(next, p) == key);
            assert(key_of(entries, p) == key);
        }
    }
}

proof fn push_entry<V>(entries: Seq<(String, V)>, key: String, value: V)
    requires
        distinct_keys(entries),
        !entries_map(entries).dom().contains(key@),
    ensures
        distinct_keys(entries.push((key, value))),
        entries_map(entries.push((key, value))) == entries_map(entries).insert(key@, value),
{
    let next = entries.push((key, value));
    assert forall|a: int, b: int| 0 <= a < b < next.len() implies (#[trigger] next[a]).0@ != (
    #[trigger] next[b]).0@ by {
        if b == entries.len() {
            assert(key_of(entries, a) == entries[a].0@);
            assert(has_key(entries, entries[a].0@));
        } else {
            assert(entries[a].0@ != entries[b].0@);
        }
    }
    lookup_all(entries);
    lookup_all(next);
    lookup(next, entries.len() as int);
    assert forall|k: Seq<char>| has_key(next, k) == (has_key(entries, k) || k == key@) by {
        if has_key(next, k) {
            let p = position(next, k);
            assert(key_of(next, p) == k);
            if p < entries.len() {
                assert(key_of(entries, p) == k);
            }
        }
        if has_key(entries, k) {
            let p = position(entries, k);
            assert(key_of(entries, p) == k);
            assert(key_of(next, p) == k);
        }
        assert(key_of(next, entries.len() as int) == key@);
    }
    assert(entries_map(next) =~= entries_map(entries).insert(key@, value)) by {
        assert forall|k: Seq<char>| has_key(entries, k) implies (#[trigger] entries_map(next)[k])
            == entries_map(entries)[k] by {
            let p = position(entries, k);
            assert(key_of(entries, p) == k);
            assert(key_of(next, p) == k);
        }
    }
}

proof fn remove_entry<V>(entries: Seq<(String, V)>, i: int)
    requires
        distinct_keys(entries),
        0 <= i < entries.len(),
    ensures
        distinct_keys(entries.remove(i)),
        entries_map(entries.remove(i)) == entries_map(entries).remove(entries[i].0@),
{
    let next = entries.remove(i);
    assert forall|a: int, b: int| 0 <= a < b < next.len() implies (#[trigger] next[a]).0@ != (
    #[trigger] next[b]).0@ by {
        let c = if a < i { a } else { a + 1 };
        let d = if b < i { b } else { b + 1 };
        assert(entries[c].0@ != entries[d].0@);
    }
    lookup_all(entries);
    lookup_all(next);
    let gone = entries[i].0@;
    assert forall|k: Seq<char>| has_key(next, k) == (has_key(entries, k) && k != gone) by {
        if has_key(next, k) {
            let p = position(next, k);
            assert(key_of(next, p) == k);
            let c = if p < i { p } else { p + 1 };
            assert(key_of(entries, c) == k);
            assert(entries[c].0@ != gone) by {
                if c < i {
                    assert(entries[c].0@ != entries[i].0@);
                } else {
                    assert(entries[i].0@ != entries[c].0@);
                }
            }
        }
        if has_key(entries, k) && k != gone {
            let p = position(entries, k);
            assert(key_of(entries, p) == k);
            let c = if p < i { p } else { p - 1 };
            assert(key_of(next, c) == k);
        }
    }
    assert(entries_map(next) =~= entries_map(entries).remove(gone)) by {
        assert forall|k: Seq<char>| has_key(next, k) implies (#[trigger] entries_map(next)[k])
            == entries_map(entries)[k] by {
            let p = position(next, k);
            assert(key_of(next, p) == k);
            let c = if p < i { p } else { p + 1 };
            assert(key_of(entries, c) == k);
        }
    }
}

proof fn size<V>(entries: Seq<(String, V)>)
    requires
        distinct_keys(entries),
    ensures
        entries_map(entries).dom().finite(),
        entries_map(entries).dom().len() == entries.len(),
    decreases entries.len(),
{
    if entries.len() == 0 {
        assert(entries_map(entries).dom() =~= Set::empty());
    } else {
        let i = entries.len() - 1;
        remove_entry(entries, i);
        size(entries.remove(i));
        lookup(entries, i);
        assert(entries_map(entries).dom() =~= entries_map(entries.remove(i)).dom().insert(
            entries[i].0@,
        ));
    }
}

impl<V> View for TextMap<V> {
    type V = Map<Seq<char>, V>;

    closed spec fn view(&self) -> Map<Seq<char>, V> {
        entries_map(self.entries())
    }
}

impl<V> TextMap<V> {
    spec fn entries(&self) -> Seq<(String, V)> {
        paired(self.names@, self.values@)
    }

    #[verifier::type_invariant]
    spec fn keys_differ(&self) -> bool {
        self.names@.len() == self.values@.len() && distinct_keys(self.entries())
    }

    /// The keys, in the order of the entries.
    pub closed spec fn keys(&self) -> Seq<Seq<char>> {
        Seq::new(self.names@.len(), |i: int| self.names@[i]@)
    }

    /// A map without entries.
    pub fn new() -> (r: Self)
        ensures
            r@ == Map::<Seq<char>, V>::empty(),
            r.keys().len() == 0,
    {
        let r = TextMap { names: Vec::new(), values: Vec::new() };
        assert(r@ =~= Map::<Seq<char>, V>::empty());
        r
    }

    /// The number of entries. Each key of the map is that of one entry.
    pub fn len(&self) -> (r: usize)
        ensures
            r == self@.dom().len(),
            r == self.keys().len(),
            self@.dom().finite(),
            self.keys().no_duplicates(),
            forall|key: Seq<char>| #[trigger]
                self@.dom().contains(key) <==> self.keys().contains(key),
    {
        proof {
            use_type_invariant(self);
            size(self.entries());
            lookup_all(self.entries());
            assert forall|key: Seq<char>| #[trigger] self@.dom().contains(key) <==> self.keys().contains(
                key,
            ) by {
                if self@.dom().contains(key) {
                    let p = position(self.entries(), key);
                    assert(key_of(self.entries(), p) == key);
                    assert(self.keys()[p] == key);
                }
                if self.keys().contains(key) {
                    let p = choose|p: int| 0 <= p < self.keys().len() && self.keys()[p] == key;
                    assert(key_of(self.entries(), p) == key);
                }
            }
            assert forall|i: int, j: int|
                0 <= i < self.keys().len() && 0 <= j < self.keys().len() && i
                    != j implies self.keys()[i] != self.keys()[j] by {
                if i < j {
                    assert(self.entries()[i].0@ != self.entries()[j].0@);
                } else {
                    assert(self.entries()[j].0@ != self.entries()[i].0@);
                }
            }
        }
        self.names.len()
    }

    /// The key of entry `i`.
    pub fn key_at(&self, i: usize) -> (r: &String)
        requires
            i < self.keys().len(),
        ensures
            r@ == self.keys()[i as int],
    {
        &self.names[i]
    }

    /// The value of entry `i`.
    pub fn value_at(&self, i: usize) -> (r: &V)
        requires
            i < self.keys().len(),
        ensures
            self@.dom().contains(self.keys()[i as int]),
            *r == self@[self.keys()[i as int]],
    {
        proof {
            use_type_invariant(self);
            lookup(self.entries(), i as int);
        }
        &self.values[i]
    }

    fn find(&self, key: &str) -> (r: Option<usize>)
        ensures
            match r {
                Some(i) => i < self.names@.len() && self.names@[i as int]@ == key@
                    && self@.dom().contains(key@) && self@[key@] == self.values@[i as int],
                None => !self@.dom().contains(key@),
            },
    {
        proof {
            use_type_invariant(self);
        }
        let mut i: usize = 0;
        while i < self.names.len()
            invariant
                i <= self.names@.len(),
                distinct_keys(self.entries()),
                forall|k: int| 0 <= k < i ==> #[trigger] key_of(self.entries(), k) != key@,
            decreases self.names@.len() - i,
        {
            if same_text(self.names[i].as_str(), key) {
                proof {
                    lookup(self.entries(), i as int);
                }
                return Some(i);
            }
            i = i + 1;
        }
        None
    }

    /// The value under `key`.
    pub fn get(&self, key: &str) -> (r: Option<&V>)
        ensures
            match r {
                Some(v) => self@.dom().contains(key@) && *v == self@[key@],
                None => !self@.dom().contains(key@),
            },
    {
        proof {
            use_type_invariant(self);
        }
        match self.find(key) {
            Some(i) => Some(&self.values[i]),
            None => None,
        }
    }

    /// The place of the value under `key`.
    pub fn get_mut(&mut self, key: &str) -> (r: Option<&mut V>)
        ensures
            match r {
                Some(v) => old(self)@.dom().contains(key@) && *v == old(self)@[key@]
                    && final(self)@ == old(self)@.insert(key@, *final(v)),
                None => !old(self)@.dom().contains(key@) && final(self)@ == old(self)@,
            },
    {
        proof {
            use_type_invariant(&*self);
        }
        match self.find(key) {
            Some(i) => {
                let ghost before = self.entries();
                proof {
                    assert forall|x: V| #[trigger]
                        distinct_keys(paired(self.names@, self.values@.update(i as int, x))) by {
                        update_value(
                            before,
                            i as int,
                            paired(self.names@, self.values@.update(i as int, x)),
                        );
                    }
                }
                let ghost names = self.names@;
                let ghost values = self.values@;
                let r = &mut self.values[i];
                proof {
                    update_value(
                        before,
                        i as int,
                        paired(names, values.update(i as int, *final(r))),
                    );
                }
                Some(r)
            },
            None => None,
        }
    }

    /// Puts `value` under `key`, in place of what stood there.
    pub fn insert(&mut self, key: String, value: V)
        ensures
            final(self)@ == old(self)@.insert(key@, value),
    {
        proof {
            use_type_invariant(&*self);
        }
        let found: Option<usize> = self.find(key.as_str());
        let mut whole: TextMap<V> = TextMap::new();
        std::mem::swap(&mut whole, self);
        let TextMap { mut names, mut values } = whole;
        let ghost before = paired(names@, values@);
        match found {
            Some(i) => {
                values.set(i, value);
                proof {
                    update_value(before, i as int, paired(names@, values@));
                }
            },
            None => {
                proof {
                    push_entry(before, key, value);
                }
                names.push(key);
                values.push(value);
                assert(paired(names@, values@) =~= before.push((key, value)));
            },
        }
        *self = TextMap { names, values };
    }

    /// Takes the entry for `key` out.
    pub fn remove(&mut self, key: &str) -> (r: Option<V>)
        ensures
            final(self)@ == old(self)@.remove(key@),
            match r {
                Some(v) => old(self)@.dom().contains(key@) && v == old(self)@[key@],
                None => !old(self)@.dom().contains(key@),
            },
    {
        proof {
            use_type_invariant(&*self);
        }
        match self.find(key) {
            Some(i) => {
                let mut whole: TextMap<V> = TextMap::new();
                std::mem::swap(&mut whole, self);
                let TextMap { mut names, mut values } = whole;
                let ghost before = paired(names@, values@);
                proof {
                    remove_entry(before, i as int);
                }
                let _name = names.remove(i);
                let value = values.remove(i);
                assert(paired(names@, values@) =~= before.remove(i as int));
                *self = TextMap { names, values };
                Some(value)
            },
            None => {
                assert(old(self)@.remove(key@) =~= old(self)@);
                None
            },
        }
    }
}

impl<V: Copy> TextMap<V> {
    /// The same map once more.
    pub fn duplicate(&self) -> (r: Self)
        ensures
            r@ == self@,
            r.keys() == self.keys(),
    {
        proof {
            use_type_invariant(self);
        }
        let mut names: Vec<String> = Vec::new();
        let mut values: Vec<V> = Vec::new();
        let mut i: usize = 0;
        while i < self.names.len()
            invariant
                i <= self.names@.len(),
                self.names@.len() == self.values@.len(),
                names@ == self.names@.take(i as int),
                values@ == self.values@.take(i as int),
            decreases self.names@.len() - i,
        {
            names.push(self.names[i].clone());
            values.push(self.values[i]);
            i = i + 1;
        }
        assert(names@ =~= self.names@);
        assert(values@ =~= self.values@);
        TextMap { names, values }
    }
}

} // verus!
