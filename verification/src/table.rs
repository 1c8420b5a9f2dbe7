//! A table from keys to values that holds each key once.

use vstd::prelude::*;

verus! {

/// A table from keys to values, in the order in which the keys came in.
#[derive(Debug)]
pub struct KeyTable<V> {
    entries: Vec<(String, V)>,
}

/// No key occurs twice.
spec fn distinct_keys<V>(entries: Seq<(String, V)>) -> bool {
    forall|i: int, j: int|
        0 <= i < j < entries.len() ==> (#[trigger] entries[i]).0@ != (#[trigger] entries[j]).0@
}

/// The map that a list of entries writes.
spec fn entries_map<V>(entries: Seq<(String, V)>) -> Map<Seq<char>, V>
    decreases entries.len(),
{
    if entries.len() == 0 {
        Map::empty()
    } else {
        entries_map(entries.drop_last()).insert(entries.last().0@, entries.last().1)
    }
}

impl<V> View for KeyTable<V> {
    type V = Map<Seq<char>, V>;

    closed spec fn view(&self) -> Map<Seq<char>, V> {
        entries_map(self.entries@)
    }
}

/// The keys of the map are those of the entries, each with its entry's value.
proof fn lemma_entries_map<V>(entries: Seq<(String, V)>)
    requires
        distinct_keys(entries),
    ensures
        entries_map(entries).dom().finite(),
        entries_map(entries).dom().len() == entries.len(),
        forall|i: int|
            0 <= i < entries.len() ==> entries_map(entries).dom().contains(
                (#[trigger] entries[i]).0@,
            ) && entries_map(entries)[entries[i].0@] == entries[i].1,
        forall|k: Seq<char>| #[trigger]
            entries_map(entries).dom().contains(k) ==> exists|i: int|
                0 <= i < entries.len() && (#[trigger] entries[i]).0@ == k,
    decreases entries.len(),
{
    if entries.len() > 0 {
        let rest = entries.drop_last();
        lemma_entries_map(rest);
        assert forall|i: int| 0 <= i < entries.len() implies entries_map(entries).dom().contains(
            (#[trigger] entries[i]).0@,
        ) && entries_map(entries)[entries[i].0@] == entries[i].1 by {
            if i < rest.len() {
                assert(rest[i] == entries[i]);
            }
        }
        if entries_map(rest).dom().contains(entries.last().0@) {
            let i = choose|i: int| 0 <= i < rest.len() && (#[trigger] rest[i]).0@ == entries.last().0@;
            assert(entries[i] == rest[i]);
        }
        assert forall|k: Seq<char>| #[trigger]
            entries_map(entries).dom().contains(k) implies exists|i: int|
            0 <= i < entries.len() && (#[trigger] entries[i]).0@ == k by {
            if k == entries.last().0@ {
                assert(entries[entries.len() - 1].0@ == k);
            } else {
                let i = choose|i: int| 0 <= i < rest.len() && (#[trigger] rest[i]).0@ == k;
                assert(entries[i].0@ == k);
            }
        }
    }
}

/// Two lists of distinct keys with the same entries write the same map.
proof fn lemma_entries_map_is<V>(entries: Seq<(String, V)>, m: Map<Seq<char>, V>)
    requires
        distinct_keys(entries),
        forall|i: int|
            0 <= i < entries.len() ==> m.dom().contains((#[trigger] entries[i]).0@)
                && m[entries[i].0@] == entries[i].1,
        forall|k: Seq<char>| #[trigger]
            m.dom().contains(k) ==> exists|i: int|
                0 <= i < entries.len() && (#[trigger] entries[i]).0@ == k,
    ensures
        entries_map(entries) == m,
{
    lemma_entries_map(entries);
    let e = entries_map(entries);
    assert forall|k: Seq<char>| #[trigger] e.dom().contains(k) implies m.dom().contains(k) && m[k]
        == e[k] by {
        let i = choose|i: int| 0 <= i < entries.len() && (#[trigger] entries[i]).0@ == k;
        assert(entries[i].0@ == k);
    }
    assert forall|k: Seq<char>| #[trigger] m.dom().contains(k) implies e.dom().contains(k) by {
        let i = choose|i: int| 0 <= i < entries.len() && (#[trigger] entries[i]).0@ == k;
        assert(entries[i].0@ == k);
    }
    assert(e =~= m);
}

impl<V> KeyTable<V> {
    #[verifier::type_invariant]
    spec fn wf(self) -> bool {
        distinct_keys(self.entries@)
    }

    /// The keys, in the order in which they came in.
    pub closed spec fn order(&self) -> Seq<Seq<char>> {
        self.entries@.map_values(|e: (String, V)| e.0@)
    }

    /// An empty table.
    pub fn new() -> (t: Self)
        ensures
            t@ == Map::<Seq<char>, V>::empty(),
    {
        KeyTable { entries: Vec::new() }
    }

    /// How many keys the table holds.
    pub fn len(&self) -> (n: usize)
        ensures
            n == self@.dom().len(),
            n == self.order().len(),
            self@.dom().finite(),
            self.order().no_duplicates(),
            self.order().to_set() == self@.dom(),
    {
        proof {
            use_type_invariant(&*self);
            lemma_entries_map(self.entries@);
            assert forall|k: Seq<char>| self@.dom().contains(k) implies self.order().contains(k) by {
                let i = choose|i: int|
                    0 <= i < self.entries@.len() && (#[trigger] self.entries@[i]).0@ == k;
                assert(self.order()[i] == k);
            }
            assert(self.order().to_set() =~= self@.dom());
        }
        self.entries.len()
    }

    /// The key at a position.
    pub fn key_at(&self, i: usize) -> (key: &String)
        requires
            i < self.order().len(),
        ensures
            key@ == self.order()[i as int],
            self@.dom().contains(key@),
    {
        proof {
            use_type_invariant(&*self);
            lemma_entries_map(self.entries@);
        }
        &self.entries[i].0
    }

    /// The value at a position.
    pub fn value_at(&self, i: usize) -> (value: &V)
        requires
            i < self.order().len(),
        ensures
            *value == self@[self.order()[i as int]],
    {
        proof {
            use_type_invariant(&*self);
            lemma_entries_map(self.entries@);
        }
        &self.entries[i].1
    }

    fn position(&self, key: &str) -> (r: Option<usize>)
        ensures
            match r {
                Some(i) => i < self.entries@.len() && self.entries@[i as int].0@ == key@,
                None => forall|i: int|
                    0 <= i < self.entries@.len() ==> (#[trigger] self.entries@[i]).0@ != key@,
            },
    {
        let wanted = key.to_owned();
        let mut i: usize = 0;
        while i < self.entries.len()
            invariant
                i <= self.entries.len(),
                wanted@ == key@,
                forall|j: int| 0 <= j < i ==> (#[trigger] self.entries@[j]).0@ != key@,
            decreases self.entries.len() - i,
        {
            if self.entries[i].0 == wanted {
                return Some(i);
            }
            i = i + 1;
        }
        None
    }

    /// The value of a key, where the table holds it.
    pub fn get(&self, key: &str) -> (r: Option<&V>)
        ensures
            match r {
                Some(v) => self@.dom().contains(key@) && *v == self@[key@],
                None => !self@.dom().contains(key@),
            },
    {
        proof {
            use_type_invariant(&*self);
            lemma_entries_map(self.entries@);
        }
        match self.position(key) {
            Some(i) => Some(&self.entries[i].1),
            None => None,
        }
    }

    /// Tells whether the table holds a key.
    pub fn contains_key(&self, key: &str) -> (r: bool)
        ensures
            r == self@.dom().contains(key@),
    {
        self.get(key).is_some()
    }

    /// Gives a key a value; a value that the key had before is replaced.
    pub fn insert(&mut self, key: String, value: V)
        ensures
            final(self)@ == old(self)@.insert(key@, value),
    {
        proof {
            use_type_invariant(&*self);
            lemma_entries_map(self.entries@);
        }
        let ghost m = self@;
        let found = self.position(key.as_str());
        let mut entries: Vec<(String, V)> = Vec::new();
        std::mem::swap(&mut entries, &mut self.entries);
        let ghost before = entries@;
        match found {
            Some(i) => {
                entries.set(i, (key, value));
                proof {
                    let after = entries@;
                    let n = m.insert(key@, value);
                    assert(distinct_keys(after)) by {
                        assert forall|a: int, b: int| 0 <= a < b < after.len() implies (
                        #[trigger] after[a]).0@ != (#[trigger] after[b]).0@ by {
                            assert(before[a].0@ != before[b].0@);
                        }
                    }
                    assert forall|a: int| 0 <= a < after.len() implies n.dom().contains(
                        (#[trigger] after[a]).0@,
                    ) && n[after[a].0@] == after[a].1 by {
                        assert(before[a].0@ == after[a].0@);
                        if a != i {
                            if a < i {
                                assert(before[a].0@ != before[i as int].0@);
                            } else {
                                assert(before[i as int].0@ != before[a].0@);
                            }
                        }
                    }
                    assert forall|k: Seq<char>| #[trigger]
                        n.dom().contains(k) implies exists|a: int|
                        0 <= a < after.len() && (#[trigger] after[a]).0@ == k by {
                        if k == key@ {
                            assert(after[i as int].0@ == k);
                        } else {
                            let a = choose|a: int|
                                0 <= a < before.len() && (#[trigger] before[a]).0@ == k;
                            assert(after[a].0@ == k);
                        }
                    }
                    lemma_entries_map_is(after, n);
                }
            },
            None => {
                entries.push((key, value));
                assert(entries@.drop_last() =~= before);
            },
        }
        self.entries = entries;
    }

    /// Gives every key the same value.
    pub fn fill(&mut self, value: V) where V: Copy
        ensures
            final(self)@ == old(self)@.map_values(|v: V| value),
    {
        proof {
            use_type_invariant(&*self);
            lemma_entries_map(self.entries@);
        }
        let ghost m = self@;
        let mut entries: Vec<(String, V)> = Vec::new();
        std::mem::swap(&mut entries, &mut self.entries);
        let ghost before = entries@;
        let mut i: usize = 0;
        while i < entries.len()
            invariant
                i <= entries.len(),
                entries@.len() == before.len(),
                forall|j: int| 0 <= j < before.len() ==> (#[trigger] entries@[j]).0 == before[j].0,
                forall|j: int| 0 <= j < i ==> (#[trigger] entries@[j]).1 == value,
            decreases entries.len() - i,
        {
            entries[i].1 = value;
            i = i + 1;
        }
        proof {
            let after = entries@;
            let n = m.map_values(|v: V| value);
            assert forall|a: int, b: int| 0 <= a < b < after.len() implies (#[trigger] after[a]).0@
                != (#[trigger] after[b]).0@ by {
                assert(before[a].0@ != before[b].0@);
            }
            assert forall|a: int| 0 <= a < after.len() implies n.dom().contains(
                (#[trigger] after[a]).0@,
            ) && n[after[a].0@] == after[a].1 by {
                assert(m.dom().contains(before[a].0@));
            }
            assert forall|k: Seq<char>| #[trigger] n.dom().contains(k) implies exists|a: int|
                0 <= a < after.len() && (#[trigger] after[a]).0@ == k by {
                let a = choose|a: int| 0 <= a < before.len() && (#[trigger] before[a]).0@ == k;
                assert(after[a].0@ == k);
            }
            lemma_entries_map_is(after, n);
        }
        self.entries = entries;
    }

    /// A table with the same keys and values.
    pub fn duplicate(&self) -> (t: Self) where V: Copy
        ensures
            t@ == self@,
            t.order() == self.order(),
    {
        proof {
            use_type_invariant(&*self);
        }
        let mut entries: Vec<(String, V)> = Vec::new();
        let mut i: usize = 0;
        while i < self.entries.len()
            invariant
                i <= self.entries.len(),
                entries@ =~= self.entries@.take(i as int),
            decreases self.entries.len() - i,
        {
            entries.push((self.entries[i].0.clone(), self.entries[i].1));
            i = i + 1;
        }
        assert(entries@ =~= self.entries@);
        KeyTable { entries }
    }

    /// Keeps the given keys only.
    pub fn retain(&mut self, keys: &[String])
        ensures
            final(self)@ == old(self)@.restrict(
                keys@.map_values(|k: String| k@).to_set(),
            ),
    {
        proof {
            use_type_invariant(&*self);
            lemma_entries_map(self.entries@);
        }
        let ghost wanted = keys@.map_values(|k: String| k@).to_set();
        let ghost m = self@;
        let mut entries: Vec<(String, V)> = Vec::new();
        std::mem::swap(&mut entries, &mut self.entries);
        let mut i: usize = 0;
        while i < entries.len()
            invariant
                i <= entries.len(),
                distinct_keys(entries@),
                wanted == keys@.map_values(|k: String| k@).to_set(),
                forall|j: int| 0 <= j < i ==> wanted.contains((#[trigger] entries@[j]).0@),
                forall|j: int|
                    0 <= j < entries@.len() ==> m.dom().contains((#[trigger] entries@[j]).0@)
                        && m[entries@[j].0@] == entries@[j].1,
                forall|k: Seq<char>|
                    #![trigger m.dom().contains(k)]
                    m.dom().contains(k) && wanted.contains(k) ==> exists|j: int|
                        0 <= j < entries@.len() && (#[trigger] entries@[j]).0@ == k,
            decreases entries.len() - i,
        {
            let ghost before = entries@;
            if holds(keys, &entries[i].0) {
                i = i + 1;
            } else {
                entries.remove(i);
                proof {
                    let after = entries@;
                    assert forall|a: int| 0 <= a < after.len() implies #[trigger] after[a]
                        == before[if a < i { a } else { a + 1 }] by {}
                    assert forall|k: Seq<char>|
                        #![trigger m.dom().contains(k)]
                        m.dom().contains(k) && wanted.contains(k) implies exists|j: int|
                        0 <= j < after.len() && (#[trigger] after[j]).0@ == k by {
                        let j = choose|j: int|
                            0 <= j < before.len() && (#[trigger] before[j]).0@ == k;
                        assert(j != i);
                        assert(after[if j < i { j } else { j - 1 }].0@ == k);
                    }
                }
            }
        }
        proof {
            let n = m.restrict(wanted);
            lemma_entries_map_is(entries@, n);
        }
        self.entries = entries;
    }
}

/// Tells whether a list of keys holds a key.
fn holds(keys: &[String], key: &String) -> (r: bool)
    ensures
        r == keys@.map_values(|k: String| k@).to_set().contains(key@),
{
    let ghost views = keys@.map_values(|k: String| k@);
    let mut i: usize = 0;
    while i < keys.len()
        invariant
            i <= keys.len(),
            views == keys@.map_values(|k: String| k@),
            forall|j: int| 0 <= j < i ==> #[trigger] views[j] != key@,
        decreases keys.len() - i,
    {
        assert(views[i as int] == keys@[i as int]@);
        if keys[i] == *key {
            assert(views.contains(key@));
            return true;
        }
        i = i + 1;
    }
    false
}

} // verus!
