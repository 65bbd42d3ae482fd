//! A map from texts, kept in the order in which the keys came.

use vstd::prelude::*;

verus! {

/// A map from texts to values.
#[derive(Clone, Debug)]
pub struct StringMap<V> {
    entries: Vec<(String, V)>,
}

/// The map of a list of entries.
pub open spec fn entry_map<V>(entries: Seq<(String, V)>) -> Map<Seq<char>, V>
    decreases entries.len(),
{
    if entries.len() == 0 {
        Map::empty()
    } else {
        entry_map(entries.drop_last()).insert(entries.last().0@, entries.last().1)
    }
}

/// The keys of a list of entries.
pub open spec fn entry_keys<V>(entries: Seq<(String, V)>) -> Seq<Seq<char>> {
    Seq::new(entries.len(), |i: int| entries[i].0@)
}

proof fn lemma_entry_map<V>(entries: Seq<(String, V)>)
    ensures
        forall|k: Seq<char>| #[trigger]
            entry_map(entries).dom().contains(k) <==> entry_keys(entries).contains(k),
        entry_keys(entries).no_duplicates() ==> forall|i: int|
            0 <= i < entries.len() ==> entry_map(entries)[(#[trigger] entries[i]).0@]
                == entries[i].1,
    decreases entries.len(),
{
    if entries.len() > 0 {
        let rest = entries.drop_last();
        let last = entries.last();
        lemma_entry_map(rest);
        let (ks, rs) = (entry_keys(entries), entry_keys(rest));
        assert(ks =~= rs.push(last.0@));
        assert forall|k: Seq<char>| #[trigger] entry_map(entries).dom().contains(k) <==> ks.contains(
            k,
        ) by {
            assert(entry_map(entries) == entry_map(rest).insert(last.0@, last.1));
            assert(entry_map(rest).dom().contains(k) <==> rs.contains(k));
            if rs.contains(k) {
                let i = choose|i: int| 0 <= i < rs.len() && rs[i] == k;
                assert(ks[i] == k);
            }
            assert(ks[ks.len() - 1] == last.0@);
            if ks.contains(k) && k != last.0@ {
                let i = choose|i: int| 0 <= i < ks.len() && ks[i] == k;
                assert(rs[i] == k);
            }
        }
        if ks.no_duplicates() {
            assert(rs.no_duplicates()) by {
                assert forall|i: int, j: int| 0 <= i < rs.len() && 0 <= j < rs.len() && i != j implies rs[i]
                    != rs[j] by {
                    assert(ks[i] == rs[i] && ks[j] == rs[j]);
                }
            }
            assert forall|i: int| 0 <= i < entries.len() implies entry_map(entries)[(
            #[trigger] entries[i]).0@] == entries[i].1 by {
                if i < rest.len() {
                    assert(rest[i] == entries[i]);
                    assert(ks[i] != ks[ks.len() - 1]);
                }
            }
        }
    } else {
        assert forall|k: Seq<char>| #[trigger] entry_map(entries).dom().contains(k) <==> entry_keys(
            entries,
        ).contains(k) by {}
    }
}

/// Changing one value changes the map at its key.
proof fn lemma_entry_set<V>(before: Seq<(String, V)>, i: int, v: V)
    requires
        0 <= i < before.len(),
        entry_keys(before).no_duplicates(),
    ensures
        ({
            let now = before.update(i, (before[i].0, v));
            entry_keys(now) == entry_keys(before) && entry_map(now) == entry_map(before).insert(
                before[i].0@,
                v,
            )
        }),
{
    let now = before.update(i, (before[i].0, v));
    let key = before[i].0@;
    assert(entry_keys(now) =~= entry_keys(before));
    lemma_entry_map(before);
    lemma_entry_map(now);
    let (a, b) = (entry_map(now), entry_map(before).insert(key, v));
    assert forall|k: Seq<char>| #[trigger] a.dom().contains(k) implies a[k] == b[k] by {
        assert(entry_keys(now).contains(k));
        let j = choose|j: int| 0 <= j < entry_keys(now).len() && entry_keys(now)[j] == k;
        assert(now[j].0@ == k);
        assert(a[now[j].0@] == now[j].1);
        if j != i {
            assert(before[j] == now[j]);
            assert(entry_keys(before)[j] != entry_keys(before)[i]);
            assert(entry_map(before)[before[j].0@] == before[j].1);
        }
    }
    assert(entry_keys(now)[i] == key);
    assert(a.dom().contains(key));
    assert forall|k: Seq<char>| #[trigger] a.dom().contains(k) <==> b.dom().contains(k) by {
        assert(entry_map(before).dom().contains(k) <==> entry_keys(before).contains(k));
    }
    assert(a =~= b);
}

/// A map with its values viewed.
pub open spec fn viewed<V: View>(m: Map<Seq<char>, V>) -> Map<Seq<char>, V::V> {
    Map::new(|k: Seq<char>| m.dom().contains(k), |k: Seq<char>| m[k]@)
}

pub proof fn lemma_viewed_insert<V: View>(m: Map<Seq<char>, V>, k: Seq<char>, v: V)
    ensures
        viewed(m.insert(k, v)) == viewed(m).insert(k, v@),
{
    assert(viewed(m.insert(k, v)) =~= viewed(m).insert(k, v@));
}

impl<V> View for StringMap<V> {
    type V = Map<Seq<char>, V>;

    closed spec fn view(&self) -> Map<Seq<char>, V> {
        entry_map(self.entries@)
    }
}

impl<V> StringMap<V> {
    /// The keys, in the order in which they came.
    pub closed spec fn spec_keys(&self) -> Seq<Seq<char>> {
        entry_keys(self.entries@)
    }

    /// No key occurs twice.
    pub closed spec fn wf(&self) -> bool {
        entry_keys(self.entries@).no_duplicates()
    }

    /// The keys are those of the map.
    pub proof fn lemma_keys(&self)
        ensures
            forall|k: Seq<char>| #[trigger] self@.dom().contains(k) <==> self.spec_keys().contains(k),
            self.wf() ==> self.spec_keys().no_duplicates(),
    {
        lemma_entry_map(self.entries@);
    }

    pub fn new() -> (m: StringMap<V>)
        ensures
            m@ == Map::<Seq<char>, V>::empty(),
            m.spec_keys() == Seq::<Seq<char>>::empty(),
            m.wf(),
    {
        let m = StringMap { entries: Vec::new() };
        proof {
            assert(m.spec_keys() =~= Seq::<Seq<char>>::empty());
        }
        m
    }

    pub fn len(&self) -> (n: usize)
        ensures
            n == self.spec_keys().len(),
    {
        self.entries.len()
    }

    /// The key with a position.
    pub fn key_at(&self, i: usize) -> (k: &String)
        requires
            i < self.spec_keys().len(),
        ensures
            k@ == self.spec_keys()[i as int],
            self@.dom().contains(k@),
    {
        proof {
            lemma_entry_map(self.entries@);
            assert(self.spec_keys()[i as int] == self.entries@[i as int].0@);
        }
        &self.entries[i].0
    }

    /// The value of the key with a position.
    pub fn value_at(&self, i: usize) -> (v: &V)
        requires
            self.wf(),
            i < self.spec_keys().len(),
        ensures
            self@.dom().contains(self.spec_keys()[i as int]),
            *v == self@[self.spec_keys()[i as int]],
    {
        proof {
            lemma_entry_map(self.entries@);
            assert(self.spec_keys()[i as int] == self.entries@[i as int].0@);
            assert(entry_map(self.entries@)[self.entries@[i as int].0@]
                == self.entries@[i as int].1);
        }
        &self.entries[i].1
    }

    /// The position of a key.
    fn position(&self, key: &String) -> (r: Option<usize>)
        ensures
            r is Some <==> self@.dom().contains(key@),
            r matches Some(i) ==> i < self.entries@.len() && self.entries@[i as int].0@ == key@,
    {
        let mut i: usize = 0;
        proof {
            lemma_entry_map(self.entries@);
        }
        while i < self.entries.len()
            invariant
                i <= self.entries.len(),
                forall|j: int| 0 <= j < i ==> (#[trigger] self.entries@[j]).0@ != key@,
            decreases self.entries.len() - i,
        {
            if self.entries[i].0 == *key {
                proof {
                    lemma_entry_map(self.entries@);
                    assert(entry_keys(self.entries@)[i as int] == key@);
                }
                return Some(i);
            }
            i += 1;
        }
        proof {
            lemma_entry_map(self.entries@);
            let ks = entry_keys(self.entries@);
            assert forall|j: int| 0 <= j < ks.len() implies ks[j] != key@ by {
                assert(self.entries@[j].0@ != key@);
            }
        }
        None
    }

    pub fn contains_key(&self, key: &str) -> (b: bool)
        ensures
            b == self@.dom().contains(key@),
    {
        self.position(&String::from_str(key)).is_some()
    }

    pub fn get(&self, key: &str) -> (r: Option<&V>)
        requires
            self.wf(),
        ensures
            r is Some <==> self@.dom().contains(key@),
            r matches Some(v) ==> *v == self@[key@],
    {
        match self.position(&String::from_str(key)) {
            Some(i) => {
                proof {
                    lemma_entry_map(self.entries@);
                    assert(entry_map(self.entries@)[self.entries@[i as int].0@]
                        == self.entries@[i as int].1);
                }
                Some(&self.entries[i].1)
            },
            None => None,
        }
    }

    /// The value of a key, to be changed.
    pub fn get_mut(&mut self, key: &str) -> (r: Option<&mut V>)
        requires
            old(self).wf(),
        ensures
            r is Some <==> old(self)@.dom().contains(key@),
            r matches Some(v) ==> *v == old(self)@[key@] && final(self).wf() && final(self)@
                == old(self)@.insert(key@, *final(v)) && final(self).spec_keys() == old(
                self,
            ).spec_keys(),
            r is None ==> *final(self) == *old(self),
    {
        let ghost before = self.entries@;
        match self.position(&String::from_str(key)) {
            Some(i) => {
                proof {
                    lemma_entry_map(before);
                    assert(entry_map(before)[before[i as int].0@] == before[i as int].1);
                }
                let v = &mut self.entries[i].1;
                proof {
                    lemma_entry_set(before, i as int, *final(v));
                }
                Some(v)
            },
            None => None,
        }
    }

    /// Sets the value of a key; a new key comes last.
    pub fn insert(&mut self, key: String, value: V)
        requires
            old(self).wf(),
        ensures
            final(self).wf(),
            final(self)@ == old(self)@.insert(key@, value),
            final(self).spec_keys() == if old(self)@.dom().contains(key@) {
                old(self).spec_keys()
            } else {
                old(self).spec_keys().push(key@)
            },
    {
        let ghost before = self.entries@;
        match self.position(&key) {
            Some(i) => {
                self.entries.set(i, (key, value));
                proof {
                    let now = self.entries@;
                    assert(entry_keys(now) =~= entry_keys(before));
                    lemma_entry_map(before);
                    lemma_entry_map(now);
                    let (a, b) = (entry_map(now), entry_map(before).insert(key@, value));
                    assert(a =~= b) by {
                        assert forall|k: Seq<char>| #[trigger] a.dom().contains(k) implies a[k]
                            == b[k] by {
                            assert(entry_keys(now).contains(k));
                            let j = choose|j: int|
                                0 <= j < entry_keys(now).len() && entry_keys(now)[j] == k;
                            assert(now[j].0@ == k);
                            assert(a[now[j].0@] == now[j].1);
                            if j != i {
                                assert(before[j] == now[j]);
                                assert(entry_keys(before)[j] != entry_keys(before)[i as int]);
                                assert(entry_map(before)[before[j].0@] == before[j].1);
                            }
                        }
                        assert(a.dom() =~= b.dom()) by {
                            assert(now[i as int].0@ == key@);
                            assert(entry_keys(now)[i as int] == key@);
                            assert(a.dom().contains(key@));
                            assert forall|k: Seq<char>| #[trigger] a.dom().contains(k) <==> b.dom().contains(
                                k,
                            ) by {
                                assert(entry_map(before).dom().contains(k) <==> entry_keys(
                                    before,
                                ).contains(k));
                            }
                        }
                    }
                }
            },
            None => {
                self.entries.push((key, value));
                proof {
                    let now = self.entries@;
                    assert(now.drop_last() =~= before);
                    assert(entry_keys(now) =~= entry_keys(before).push(key@));
                    lemma_entry_map(before);
                    let ks = entry_keys(now);
                    assert forall|i: int, j: int|
                        0 <= i < ks.len() && 0 <= j < ks.len() && i != j implies ks[i] != ks[j] by {
                        if i < before.len() && j < before.len() {
                            assert(entry_keys(before)[i] == ks[i] && entry_keys(before)[j]
                                == ks[j]);
                        } else if i < before.len() {
                            assert(entry_keys(before)[i] == ks[i]);
                            assert(entry_keys(before).contains(ks[i]));
                        } else {
                            assert(entry_keys(before)[j] == ks[j]);
                            assert(entry_keys(before).contains(ks[j]));
                        }
                    }
                }
            },
        }
    }
}

impl StringMap<usize> {
    /// A copy of a map of counts.
    pub fn copy_counts(&self) -> (r: StringMap<usize>)
        requires
            self.wf(),
        ensures
            r.wf(),
            r@ == self@,
            r.spec_keys() == self.spec_keys(),
    {
        let mut r: StringMap<usize> = StringMap::new();
        let mut i: usize = 0;
        proof {
            assert(self.entries@.take(0) =~= Seq::<(String, usize)>::empty());
        }
        while i < self.entries.len()
            invariant
                i <= self.entries.len(),
                self.wf(),
                r.wf(),
                r@ == entry_map(self.entries@.take(i as int)),
                r.spec_keys() == entry_keys(self.entries@.take(i as int)),
            decreases self.entries.len() - i,
        {
            let ghost before = self.entries@.take(i as int);
            let ghost now = self.entries@.take(i + 1);
            proof {
                lemma_entry_map(before);
                let ks = entry_keys(self.entries@);
                assert(!entry_keys(before).contains(self.entries@[i as int].0@)) by {
                    if entry_keys(before).contains(self.entries@[i as int].0@) {
                        let j = choose|j: int|
                            0 <= j < before.len() && entry_keys(before)[j]
                                == self.entries@[i as int].0@;
                        assert(ks[j] == ks[i as int]);
                    }
                }
                assert(now.drop_last() =~= before);
                assert(entry_keys(now) =~= entry_keys(before).push(self.entries@[i as int].0@));
            }
            r.insert(self.entries[i].0.clone(), self.entries[i].1);
            i += 1;
        }
        proof {
            assert(self.entries@.take(self.entries@.len() as int) =~= self.entries@);
        }
        r
    }

    /// Each key has a value in the other map, and it is the same.
    fn within(&self, other: &StringMap<usize>) -> (b: bool)
        requires
            self.wf(),
            other.wf(),
        ensures
            b <==> forall|k: Seq<char>| #[trigger]
                self@.dom().contains(k) ==> other@.dom().contains(k) && other@[k] == self@[k],
    {
        let ghost keys = self.spec_keys();
        proof {
            self.lemma_keys();
        }
        let mut i: usize = 0;
        while i < self.entries.len()
            invariant
                i <= self.entries.len(),
                self.wf(),
                other.wf(),
                keys == self.spec_keys(),
                keys.len() == self.entries@.len(),
                forall|j: int|
                    0 <= j < i ==> other@.dom().contains(#[trigger] keys[j]) && other@[keys[j]]
                        == self@[keys[j]],
            decreases self.entries.len() - i,
        {
            let key = self.key_at(i);
            let value: usize = *self.value_at(i);
            match other.get(key.as_str()) {
                Some(v) => {
                    if *v != value {
                        return false;
                    }
                },
                None => {
                    return false;
                },
            }
            i += 1;
        }
        proof {
            assert forall|k: Seq<char>| #[trigger] self@.dom().contains(k) implies other@.dom().contains(
                k,
            ) && other@[k] == self@[k] by {
                assert(keys.contains(k));
                let j = choose|j: int| 0 <= j < keys.len() && keys[j] == k;
                assert(keys[j] == k);
            }
        }
        true
    }

    /// Whether two maps hold the same counts.
    pub fn same_counts(&self, other: &StringMap<usize>) -> (b: bool)
        requires
            self.wf(),
            other.wf(),
        ensures
            b == (self@ == other@),
    {
        let b = self.within(other) && other.within(self);
        proof {
            if b {
                assert(self@ =~= other@);
            }
        }
        b
    }
}

} // verus!
