use vstd::prelude::*;

use crate::text::str_eq;

verus! {

/// A small map keyed by name, kept in the order in which names were first
/// inserted. No name occurs twice.
pub struct NameMap<V> {
    entries: Vec<(String, V)>,
}

impl<V> NameMap<V> {
    #[verifier::type_invariant]
    closed spec fn names_distinct(self) -> bool {
        forall|i: int, j: int|
            0 <= i < j < self.entries@.len() ==> #[trigger] self.entries@[i].0@
                != #[trigger] self.entries@[j].0@
    }

    /// The names, in insertion order.
    pub closed spec fn names(self) -> Seq<Seq<char>> {
        self.entries@.map_values(|e: (String, V)| e.0@)
    }

    /// The values, in the order of their names.
    pub closed spec fn values(self) -> Seq<V> {
        self.entries@.map_values(|e: (String, V)| e.1)
    }

    /// Creates an empty map.
    pub fn new() -> (m: Self)
        ensures
            m@ == Map::<Seq<char>, V>::empty(),
            m.names() == Seq::<Seq<char>>::empty(),
    {
        let m = NameMap { entries: Vec::new() };
        assert(m@ =~= Map::<Seq<char>, V>::empty());
        assert(m.names() =~= Seq::<Seq<char>>::empty());
        m
    }

    /// Number of names held.
    pub fn len(&self) -> (n: usize)
        ensures
            n == self.names().len(),
            self.names().no_duplicates(),
    {
        proof {
            use_type_invariant(self);
            self.lemma_view_dom();
        }
        self.entries.len()
    }

    /// The name stored at position `i`.
    pub fn name_at(&self, i: usize) -> (name: &String)
        requires
            i < self.names().len(),
        ensures
            name@ == self.names()[i as int],
    {
        &self.entries[i].0
    }

    /// The value stored at position `i`.
    pub fn value_at(&self, i: usize) -> (value: &V)
        requires
            i < self.names().len(),
        ensures
            self@.contains_key(self.names()[i as int]),
            *value == self@[self.names()[i as int]],
    {
        proof {
            use_type_invariant(self);
            self.lemma_index(i as int);
        }
        &self.entries[i].1
    }

    /// Position of `key` among the names, if it is held.
    fn find(&self, key: &str) -> (r: Option<usize>)
        ensures
            match r {
                Some(i) => i < self.names().len() && self.names()[i as int] == key@,
                None => !self.names().contains(key@),
            },
    {
        let n = self.entries.len();
        let mut i: usize = 0;
        while i < n
            invariant
                n == self.entries@.len(),
                i <= n,
                forall|j: int| 0 <= j < i ==> self.names()[j] != key@,
            decreases n - i,
        {
            if str_eq(self.entries[i].0.as_str(), key) {
                return Some(i);
            }
            i += 1;
        }
        None
    }

    /// The value stored under `key`.
    pub fn get(&self, key: &str) -> (r: Option<&V>)
        ensures
            match r {
                Some(v) => self@.contains_key(key@) && *v == self@[key@],
                None => !self@.contains_key(key@),
            },
    {
        proof {
            self.lemma_view_dom();
        }
        match self.find(key) {
            Some(i) => {
                proof {
                    use_type_invariant(self);
                    self.lemma_index(i as int);
                }
                Some(&self.entries[i].1)
            },
            None => None,
        }
    }

    /// Whether `key` is held.
    pub fn contains_key(&self, key: &str) -> (b: bool)
        ensures
            b == self@.contains_key(key@),
    {
        proof {
            self.lemma_view_dom();
        }
        self.find(key).is_some()
    }

    /// Stores `value` under `key`, replacing what was stored there. A new
    /// name goes after the names already held; a known one keeps its place.
    pub fn insert(&mut self, key: String, value: V)
        ensures
            final(self)@ == old(self)@.insert(key@, value),
            old(self).names().contains(key@) ==> final(self).names() == old(self).names(),
            !old(self).names().contains(key@) ==> final(self).names() == old(self).names().push(
                key@,
            ),
    {
        proof {
            use_type_invariant(&*self);
        }
        let ghost old_entries = self.entries@;
        let ghost k = key@;
        match self.find(key.as_str()) {
            Some(i) => {
                let mut entries = Vec::new();
                std::mem::swap(&mut entries, &mut self.entries);
                entries.set(i, (key, value));
                assert(entries@.map_values(|e: (String, V)| e.0@) =~= old(self).names());
                assert forall|a: int, b: int|
                    0 <= a < b < entries@.len() implies #[trigger] entries@[a].0@
                    != #[trigger] entries@[b].0@ by {
                    assert(entries@.map_values(|e: (String, V)| e.0@)[a] == old(self).names()[a]);
                    assert(entries@.map_values(|e: (String, V)| e.0@)[b] == old(self).names()[b]);
                    assert(old_entries[a].0@ == old(self).names()[a]);
                    assert(old_entries[b].0@ == old(self).names()[b]);
                }
                self.entries = entries;
                assert(self.names() =~= old(self).names());
            },
            None => {
                let mut entries = Vec::new();
                std::mem::swap(&mut entries, &mut self.entries);
                entries.push((key, value));
                assert forall|a: int, b: int|
                    0 <= a < b < entries@.len() implies #[trigger] entries@[a].0@
                    != #[trigger] entries@[b].0@ by {
                    if b == old_entries.len() {
                        assert(old(self).names()[a] == old_entries[a].0@);
                    }
                }
                self.entries = entries;
                assert(self.names() =~= old(self).names().push(k));
            },
        }
        proof {
            self.lemma_view_dom();
            old(self).lemma_view_dom();
            assert forall|key: Seq<char>|
                #[trigger] self@.contains_key(key) <==> old(self)@.insert(k, value).contains_key(key) by {
                if key == k {
                    if old(self).names().contains(k) {
                        let j = old(self).names().index_of(k);
                        assert(self.names()[j] == k);
                    } else {
                        assert(self.names()[old(self).names().len() as int] == k);
                    }
                }
                if key != k && self.names().contains(key) {
                    let j = self.names().index_of(key);
                    if j < old(self).names().len() {
                        assert(old(self).names()[j] == key);
                    }
                }
                if old(self).names().contains(key) {
                    let j = old(self).names().index_of(key);
                    assert(self.names()[j] == key);
                }
            }
            assert forall|key: Seq<char>| #[trigger] self@.contains_key(key) implies self@[key]
                == old(self)@.insert(k, value)[key] by {
                let j = self.names().index_of(key);
                self.lemma_index_distinct(j);
                if key != k {
                    assert(old(self).names()[j] == self.names()[j]);
                    old(self).lemma_index_distinct(j);
                    assert(old(self).entries@[j].1 == self.entries@[j].1);
                }
            }
            assert(self@ =~= old(self)@.insert(k, value));
        }
    }

    proof fn lemma_view_dom(self)
        ensures
            forall|k: Seq<char>| #[trigger] self@.dom().contains(k) <==> self.names().contains(k),
            self@.dom() == self.names().to_set(),
    {
        assert(self@.dom() =~= self.names().to_set());
    }

    proof fn lemma_index(self, i: int)
        requires
            self.names_distinct(),
            0 <= i < self.names().len(),
        ensures
            self@.contains_key(self.names()[i]),
            self@[self.names()[i]] == self.values()[i],
            self.values()[i] == self.entries@[i].1,
    {
        self.lemma_index_distinct(i);
    }

    proof fn lemma_index_distinct(self, i: int)
        requires
            forall|a: int, b: int|
                0 <= a < b < self.entries@.len() ==> #[trigger] self.entries@[a].0@
                    != #[trigger] self.entries@[b].0@,
            0 <= i < self.names().len(),
        ensures
            self@.contains_key(self.names()[i]),
            self@[self.names()[i]] == self.entries@[i].1,
    {
        let k = self.names()[i];
        assert(self.names().contains(k));
        let j = self.names().index_of(k);
        assert(self.names()[j] == k);
        if j < i {
            assert(self.entries@[j].0@ != self.entries@[i].0@);
        } else if i < j {
            assert(self.entries@[i].0@ != self.entries@[j].0@);
        }
    }
}

impl<V> View for NameMap<V> {
    type V = Map<Seq<char>, V>;

    closed spec fn view(&self) -> Map<Seq<char>, V> {
        Map::new(
            |k: Seq<char>| self.names().contains(k),
            |k: Seq<char>| self.values()[self.names().index_of(k)],
        )
    }
}

/// The names held are exactly the keys of the map.
pub broadcast proof fn lemma_names_are_keys<V>(m: NameMap<V>, k: Seq<char>)
    ensures
        #[trigger] m@.dom().contains(k) <==> m.names().contains(k),
{
    m.lemma_view_dom();
}

/// A read of a name gives back the last value written under it, and a write
/// under one name leaves every other name as it was (`after` is `before`
/// with `v` inserted under `k`, as `insert` leaves it).
pub proof fn lemma_read_after_write<V>(
    before: NameMap<V>,
    after: NameMap<V>,
    k: Seq<char>,
    v: V,
    other: Seq<char>,
)
    requires
        after@ == before@.insert(k, v),
        other != k,
    ensures
        after@.contains_key(k),
        after@[k] == v,
        after@.contains_key(other) == before@.contains_key(other),
        before@.contains_key(other) ==> after@[other] == before@[other],
        after.names().contains(k),
{
    lemma_names_are_keys(after, k);
}

} // verus!
