//! Insertion-ordered containers keyed by strings.
//!
//! Rooms, clients and peers are all named by strings, and every table in the
//! relay is small and walked in a stable order. Both containers here keep their
//! keys in a vector in order of first insertion and promise that no key occurs
//! twice.

use vstd::prelude::*;

verus! {

/// The characters of each string of `names`, in order.
pub open spec fn texts(names: Seq<String>) -> Seq<Seq<char>> {
    names.map_values(|name: String| name@)
}

/// Removing position `i` from a sequence without duplicates leaves no
/// duplicates, and removes exactly the value that stood at `i`.
pub proof fn lemma_remove_keeps_distinct<A>(s: Seq<A>, i: int)
    requires
        s.no_duplicates(),
        0 <= i < s.len(),
    ensures
        s.remove(i).no_duplicates(),
        !s.remove(i).contains(s[i]),
        forall|a: A| a != s[i] ==> (s.remove(i).contains(a) <==> s.contains(a)),
        s.remove(i).to_set() == s.to_set().remove(s[i]),
{
    let r = s.remove(i);
    assert forall|j: int| 0 <= j < r.len() implies r[j] == s[if j < i { j } else { j + 1 }] by {}
    assert forall|a: A| a != s[i] implies (r.contains(a) <==> s.contains(a)) by {
        if s.contains(a) {
            let k = choose|k: int| 0 <= k < s.len() && s[k] == a;
            let j = if k < i { k } else { k - 1 };
            assert(r[j] == a);
        }
    }
    assert(r.to_set() =~= s.to_set().remove(s[i]));
}

/// Appending a value that is not yet present keeps a sequence free of
/// duplicates.
pub proof fn lemma_push_keeps_distinct<A>(s: Seq<A>, a: A)
    requires
        s.no_duplicates(),
        !s.contains(a),
    ensures
        s.push(a).no_duplicates(),
        s.push(a).to_set() == s.to_set().insert(a),
        s.push(a).index_of(a) == s.len(),
{
    let p = s.push(a);
    assert forall|i: int, j: int| 0 <= i < p.len() && 0 <= j < p.len() && i != j implies p[i]
        != p[j] by {
        if i < s.len() {
            assert(s.contains(p[i]));
        }
        if j < s.len() {
            assert(s.contains(p[j]));
        }
    }
    assert forall|x: A| p.to_set().contains(x) <==> s.to_set().insert(a).contains(x) by {
        if p.contains(x) {
            let k = choose|k: int| 0 <= k < p.len() && p[k] == x;
            if k < s.len() {
                assert(s[k] == x);
            }
        }
        if s.contains(x) {
            let k = choose|k: int| 0 <= k < s.len() && s[k] == x;
            assert(p[k] == x);
        }
        if x == a {
            assert(p[s.len() as int] == a);
        }
    }
    assert(p.to_set() =~= s.to_set().insert(a));
    assert(p[s.len() as int] == a);
}

/// In a sequence without duplicates a value is found at one position only.
pub proof fn lemma_index_of_distinct<A>(s: Seq<A>, i: int)
    requires
        s.no_duplicates(),
        0 <= i < s.len(),
    ensures
        s.contains(s[i]),
        s.index_of(s[i]) == i,
{
}

/// The first position of `key` among `keys`, if it occurs.
pub fn position(keys: &Vec<String>, key: &String) -> (found: Option<usize>)
    ensures
        match found {
            Some(i) => i < keys.len() && texts(keys@)[i as int] == key@ && forall|j: int|
                0 <= j < i ==> texts(keys@)[j] != key@,
            None => !texts(keys@).contains(key@),
        },
{
    let mut i: usize = 0;
    while i < keys.len()
        invariant
            i <= keys.len(),
            forall|j: int| 0 <= j < i ==> texts(keys@)[j] != key@,
        decreases keys.len() - i,
    {
        if keys[i] == *key {
            return Some(i);
        }
        i += 1;
    }
    None
}

/// An insertion-ordered set of strings.
pub struct StrSet {
    items: Vec<String>,
}

impl StrSet {
    /// The members, in order of insertion.
    pub closed spec fn seq(&self) -> Seq<Seq<char>> {
        texts(self.items@)
    }

    /// No member occurs twice.
    pub open spec fn wf(&self) -> bool {
        self.seq().no_duplicates()
    }

    /// The members as a mathematical set.
    pub open spec fn set(&self) -> Set<Seq<char>> {
        self.seq().to_set()
    }

    pub fn new() -> (s: Self)
        ensures
            s.wf(),
            s.seq() == Seq::<Seq<char>>::empty(),
    {
        let s = StrSet { items: Vec::new() };
        assert(s.seq() =~= Seq::<Seq<char>>::empty());
        s
    }

    pub fn len(&self) -> (n: usize)
        ensures
            n == self.seq().len(),
    {
        self.items.len()
    }

    pub fn is_empty(&self) -> (empty: bool)
        ensures
            empty == (self.seq().len() == 0),
    {
        self.items.len() == 0
    }

    pub fn contains(&self, item: &String) -> (present: bool)
        ensures
            present == self.seq().contains(item@),
    {
        position(&self.items, item).is_some()
    }

    /// The member at position `i`.
    pub fn get(&self, i: usize) -> (item: &String)
        requires
            i < self.seq().len(),
        ensures
            item@ == self.seq()[i as int],
    {
        &self.items[i]
    }

    /// Adds `item` at the end unless it is already a member; returns whether
    /// it was added.
    pub fn insert(&mut self, item: String) -> (added: bool)
        requires
            old(self).wf(),
        ensures
            final(self).wf(),
            added == !old(self).seq().contains(item@),
            final(self).seq() == if added {
                old(self).seq().push(item@)
            } else {
                old(self).seq()
            },
            final(self).set() == old(self).set().insert(item@),
    {
        let ghost before = self.seq();
        if position(&self.items, &item).is_some() {
            assert(before.to_set().insert(item@) =~= before.to_set());
            false
        } else {
            self.items.push(item);
            proof {
                assert(self.seq() =~= before.push(item@));
                lemma_push_keeps_distinct(before, item@);
            }
            true
        }
    }

    /// Removes `item` if it is a member; returns whether it was.
    pub fn remove(&mut self, item: &String) -> (removed: bool)
        requires
            old(self).wf(),
        ensures
            final(self).wf(),
            removed == old(self).seq().contains(item@),
            final(self).seq() == if removed {
                old(self).seq().remove(old(self).seq().index_of(item@))
            } else {
                old(self).seq()
            },
            !final(self).seq().contains(item@),
            final(self).set() == old(self).set().remove(item@),
    {
        let ghost before = self.seq();
        match position(&self.items, item) {
            Some(i) => {
                self.items.remove(i);
                proof {
                    lemma_index_of_distinct(before, i as int);
                    assert(self.seq() =~= before.remove(i as int));
                    lemma_remove_keeps_distinct(before, i as int);
                }
                true
            },
            None => {
                assert(before.to_set().remove(item@) =~= before.to_set());
                false
            },
        }
    }

    /// A copy of the members, in order.
    pub fn snapshot(&self) -> (copy: Vec<String>)
        ensures
            texts(copy@) == self.seq(),
    {
        let mut copy: Vec<String> = Vec::new();
        let mut i: usize = 0;
        while i < self.items.len()
            invariant
                i <= self.items.len(),
                copy.len() == i,
                forall|j: int| 0 <= j < i ==> copy@[j]@ == self.items@[j]@,
            decreases self.items.len() - i,
        {
            copy.push(self.items[i].clone());
            i += 1;
        }
        assert(texts(copy@) =~= self.seq());
        copy
    }
}

/// An insertion-ordered map from strings to values.
pub struct StrMap<V> {
    keys: Vec<String>,
    values: Vec<V>,
}

impl<V> View for StrMap<V> {
    type V = Map<Seq<char>, V>;

    /// The map from each key to the value stored with it.
    open spec fn view(&self) -> Map<Seq<char>, V> {
        Map::new(
            |key: Seq<char>| self.keys().contains(key),
            |key: Seq<char>| self.values()[self.keys().index_of(key)],
        )
    }
}

impl<V> StrMap<V> {
    /// The keys, in order of insertion.
    pub closed spec fn keys(&self) -> Seq<Seq<char>> {
        texts(self.keys@)
    }

    /// The values, each at the position of its key.
    pub closed spec fn values(&self) -> Seq<V> {
        self.values@
    }

    /// Every key has one value, and no key occurs twice.
    pub open spec fn wf(&self) -> bool {
        &&& self.keys().len() == self.values().len()
        &&& self.keys().no_duplicates()
    }

    /// The entry at position `i` is the map's entry for the key at `i`.
    pub proof fn lemma_entry_at(&self, i: int)
        requires
            self.wf(),
            0 <= i < self.keys().len(),
        ensures
            self@.contains_key(self.keys()[i]),
            self@[self.keys()[i]] == self.values()[i],
            self.keys().index_of(self.keys()[i]) == i,
    {
        lemma_index_of_distinct(self.keys(), i);
    }

    pub fn new() -> (m: Self)
        ensures
            m.wf(),
            m.keys() == Seq::<Seq<char>>::empty(),
            m.values() == Seq::<V>::empty(),
    {
        let m = StrMap { keys: Vec::new(), values: Vec::new() };
        assert(m.keys() =~= Seq::<Seq<char>>::empty());
        m
    }

    pub fn len(&self) -> (n: usize)
        ensures
            n == self.keys().len(),
    {
        self.keys.len()
    }

    /// The position of `key`, if the map holds it.
    pub fn find(&self, key: &String) -> (found: Option<usize>)
        requires
            self.wf(),
        ensures
            match found {
                Some(i) => self.keys().contains(key@) && i == self.keys().index_of(key@) && i
                    < self.keys().len(),
                None => !self.keys().contains(key@),
            },
    {
        let found = position(&self.keys, key);
        proof {
            if let Some(i) = found {
                lemma_index_of_distinct(self.keys(), i as int);
            }
        }
        found
    }

    pub fn contains_key(&self, key: &String) -> (present: bool)
        requires
            self.wf(),
        ensures
            present == self@.contains_key(key@),
    {
        self.find(key).is_some()
    }

    /// The key at position `i`.
    pub fn key_at(&self, i: usize) -> (key: &String)
        requires
            i < self.keys().len(),
        ensures
            key@ == self.keys()[i as int],
    {
        &self.keys[i]
    }

    /// The value at position `i`.
    pub fn value_at(&self, i: usize) -> (value: &V)
        requires
            self.wf(),
            i < self.keys().len(),
        ensures
            *value == self.values()[i as int],
    {
        &self.values[i]
    }

    /// The value at position `i`, to be changed in place.
    pub fn value_at_mut(&mut self, i: usize) -> (value: &mut V)
        requires
            old(self).wf(),
            i < old(self).keys().len(),
        ensures
            *value == old(self).values()[i as int],
            final(self).keys() == old(self).keys(),
            final(self).values() == old(self).values().update(i as int, *final(value)),
    {
        &mut self.values[i]
    }

    /// The value stored under `key`, if any.
    pub fn get(&self, key: &String) -> (value: Option<&V>)
        requires
            self.wf(),
        ensures
            match value {
                Some(v) => self@.contains_key(key@) && *v == self@[key@],
                None => !self@.contains_key(key@),
            },
    {
        match self.find(key) {
            Some(i) => Some(&self.values[i]),
            None => None,
        }
    }

    /// Stores `value` under `key`: in place of the value that the key had, or
    /// at the end if the key is new. Returns the value that was replaced.
    pub fn insert(&mut self, key: String, value: V) -> (previous: Option<V>)
        requires
            old(self).wf(),
        ensures
            final(self).wf(),
            final(self)@ == old(self)@.insert(key@, value),
            previous == if old(self)@.contains_key(key@) {
                Some(old(self)@[key@])
            } else {
                None
            },
            final(self).keys() == if old(self)@.contains_key(key@) {
                old(self).keys()
            } else {
                old(self).keys().push(key@)
            },
            final(self).values() == if old(self)@.contains_key(key@) {
                old(self).values().update(old(self).keys().index_of(key@), value)
            } else {
                old(self).values().push(value)
            },
    {
        let ghost before = *self;
        match self.find(&key) {
            Some(i) => {
                let mut held = value;
                std::mem::swap(&mut self.values[i], &mut held);
                proof {
                    lemma_update_view(before, *self, i as int, value);
                }
                Some(held)
            },
            None => {
                self.keys.push(key);
                self.values.push(value);
                proof {
                    assert(self.keys() =~= before.keys().push(key@));
                    lemma_push_keeps_distinct(before.keys(), key@);
                    lemma_push_view(before, *self, key@, value);
                }
                None
            },
        }
    }

    /// Takes `key` and its value out of the map, if it is there; the other
    /// entries keep their order.
    pub fn remove(&mut self, key: &String) -> (previous: Option<V>)
        requires
            old(self).wf(),
        ensures
            final(self).wf(),
            final(self)@ == old(self)@.remove(key@),
            previous == if old(self)@.contains_key(key@) {
                Some(old(self)@[key@])
            } else {
                None
            },
            final(self).keys() == if old(self)@.contains_key(key@) {
                old(self).keys().remove(old(self).keys().index_of(key@))
            } else {
                old(self).keys()
            },
            final(self).values() == if old(self)@.contains_key(key@) {
                old(self).values().remove(old(self).keys().index_of(key@))
            } else {
                old(self).values()
            },
    {
        let ghost before = *self;
        match self.find(key) {
            Some(i) => {
                self.keys.remove(i);
                let held = self.values.remove(i);
                proof {
                    assert(self.keys() =~= before.keys().remove(i as int));
                    lemma_remove_keeps_distinct(before.keys(), i as int);
                    lemma_remove_view(before, *self, i as int);
                }
                Some(held)
            },
            None => {
                assert(self@ =~= before@.remove(key@));
                None
            },
        }
    }
}

/// Replacing the value at position `i` stores it under the key at `i` and
/// leaves every other key as it was.
pub proof fn lemma_update_view<V>(before: StrMap<V>, after: StrMap<V>, i: int, value: V)
    requires
        before.wf(),
        0 <= i < before.keys().len(),
        after.keys() == before.keys(),
        after.values() == before.values().update(i, value),
    ensures
        after.wf(),
        after@ == before@.insert(before.keys()[i], value),
{
    let keys = before.keys();
    lemma_index_of_distinct(keys, i);
    assert forall|key: Seq<char>| keys.contains(key) implies after@[key] == before@.insert(
        keys[i],
        value,
    )[key] by {
        let k = keys.index_of(key);
        if key != keys[i] {
            assert(k != i);
        }
    }
    assert(after@ =~= before@.insert(keys[i], value));
}

/// Appending a new key with its value adds that entry and leaves every other
/// key as it was.
pub proof fn lemma_push_view<V>(before: StrMap<V>, after: StrMap<V>, key: Seq<char>, value: V)
    requires
        before.wf(),
        !before.keys().contains(key),
        after.keys() == before.keys().push(key),
        after.values() == before.values().push(value),
    ensures
        after.wf(),
        after@ == before@.insert(key, value),
{
    let keys = before.keys();
    lemma_push_keeps_distinct(keys, key);
    assert forall|k: Seq<char>| after.keys().contains(k) <==> (keys.contains(k) || k == key) by {
        if after.keys().contains(k) {
            let j = choose|j: int| 0 <= j < after.keys().len() && after.keys()[j] == k;
            if j < keys.len() {
                assert(keys[j] == k);
            }
        }
        if keys.contains(k) {
            let j = choose|j: int| 0 <= j < keys.len() && keys[j] == k;
            assert(after.keys()[j] == k);
        }
        if k == key {
            assert(after.keys()[keys.len() as int] == k);
        }
    }
    assert forall|k: Seq<char>| keys.contains(k) implies after@[k] == before@[k] by {
        let j = keys.index_of(k);
        assert(after.keys()[j] == k);
        lemma_index_of_distinct(after.keys(), j);
    }
    assert(after@ =~= before@.insert(key, value));
}

/// Taking out position `i` removes the key at `i` and leaves every other key
/// with its value.
pub proof fn lemma_remove_view<V>(before: StrMap<V>, after: StrMap<V>, i: int)
    requires
        before.wf(),
        0 <= i < before.keys().len(),
        after.keys() == before.keys().remove(i),
        after.values() == before.values().remove(i),
    ensures
        after.wf(),
        after@ == before@.remove(before.keys()[i]),
{
    let keys = before.keys();
    lemma_remove_keeps_distinct(keys, i);
    lemma_index_of_distinct(keys, i);
    assert forall|k: Seq<char>| after.keys().contains(k) implies after@[k] == before@[k] by {
        let j = after.keys().index_of(k);
        let j0 = if j < i { j } else { j + 1 };
        assert(keys[j0] == k);
        lemma_index_of_distinct(keys, j0);
    }
    assert(after@ =~= before@.remove(keys[i]));
}

} // verus!
