//! The contract metadata mapping: unique string keys to string values.

use vstd::prelude::*;

verus! {

/// The map denoted by a sequence of key/value entries: later entries win.
pub open spec fn map_of(entries: Seq<(String, String)>) -> Map<Seq<char>, Seq<char>>
    decreases entries.len(),
{
    if entries.len() == 0 {
        Map::<Seq<char>, Seq<char>>::empty()
    } else {
        map_of(entries.drop_last()).insert(entries.last().0@, entries.last().1@)
    }
}

/// Keys are pairwise distinct.
spec fn unique_keys(entries: Seq<(String, String)>) -> bool {
    forall|i: int, j: int| 0 <= i < j < entries.len() ==> entries[i].0@ != entries[j].0@
}

/// A key that occurs in no entry is not in the denoted map.
proof fn lemma_map_of_absent(entries: Seq<(String, String)>, k: Seq<char>)
    requires
        forall|j: int| 0 <= j < entries.len() ==> entries[j].0@ != k,
    ensures
        !map_of(entries).contains_key(k),
    decreases entries.len(),
{
    if entries.len() > 0 {
        let d = entries.drop_last();
        assert(forall|j: int| 0 <= j < d.len() ==> d[j] == entries[j]);
        lemma_map_of_absent(d, k);
    }
}

/// With distinct keys, the entry at index i gives the value of its key.
proof fn lemma_map_of_found(entries: Seq<(String, String)>, i: int)
    requires
        unique_keys(entries),
        0 <= i < entries.len(),
    ensures
        map_of(entries).contains_key(entries[i].0@),
        map_of(entries)[entries[i].0@] == entries[i].1@,
    decreases entries.len(),
{
    let d = entries.drop_last();
    assert(forall|j: int| 0 <= j < d.len() ==> d[j] == entries[j]);
    if i < entries.len() - 1 {
        lemma_map_of_found(d, i);
    }
}

/// With distinct keys, removing the entry at index i removes its key from the
/// denoted map and changes nothing else.
proof fn lemma_map_of_remove(entries: Seq<(String, String)>, i: int)
    requires
        unique_keys(entries),
        0 <= i < entries.len(),
    ensures
        map_of(entries.remove(i)) == map_of(entries).remove(entries[i].0@),
    decreases entries.len(),
{
    let k = entries[i].0@;
    let d = entries.drop_last();
    assert(forall|j: int| 0 <= j < d.len() ==> d[j] == entries[j]);
    if i == entries.len() - 1 {
        assert(entries.remove(i) =~= d);
        lemma_map_of_absent(d, k);
        assert(map_of(entries).remove(k) =~= map_of(d));
    } else {
        lemma_map_of_remove(d, i);
        assert(entries.remove(i).drop_last() =~= d.remove(i));
        assert(entries.remove(i).last() == entries.last());
        assert(map_of(d).remove(k).insert(entries.last().0@, entries.last().1@) =~= map_of(
            d,
        ).insert(entries.last().0@, entries.last().1@).remove(k));
    }
}

/// With distinct keys, the denoted map has exactly one key per entry.
proof fn lemma_map_of_dom_len(entries: Seq<(String, String)>)
    requires
        unique_keys(entries),
    ensures
        map_of(entries).dom().finite(),
        map_of(entries).dom().len() == entries.len(),
    decreases entries.len(),
{
    if entries.len() > 0 {
        let d = entries.drop_last();
        assert(forall|j: int| 0 <= j < d.len() ==> d[j] == entries[j]);
        lemma_map_of_dom_len(d);
        lemma_map_of_absent(d, entries.last().0@);
    }
}

/// A string-keyed metadata mapping with unique keys, kept as a vector of
/// key/value entries in insertion order. Its view is the finite map from
/// key views to value views.
pub struct MetadataRecord {
    entries: Vec<(String, String)>,
}

impl View for MetadataRecord {
    type V = Map<Seq<char>, Seq<char>>;

    closed spec fn view(&self) -> Map<Seq<char>, Seq<char>> {
        map_of(self.entries@)
    }
}

/// The index of the first entry whose key equals key, if any.
fn find_key(entries: &Vec<(String, String)>, key: &String) -> (r: Option<usize>)
    ensures
        match r {
            Some(i) => i < entries@.len() && entries@[i as int].0@ == key@,
            None => forall|j: int| 0 <= j < entries@.len() ==> entries@[j].0@ != key@,
        },
{
    let n: usize = entries.len();
    let mut i: usize = 0;
    while i < n
        invariant
            i <= n,
            n == entries@.len(),
            forall|j: int| 0 <= j < i ==> entries@[j].0@ != key@,
        decreases n - i,
    {
        if entries[i].0 == *key {
            return Some(i);
        }
        i += 1;
    }
    None
}

impl MetadataRecord {
    #[verifier::type_invariant]
    spec fn inv(self) -> bool {
        unique_keys(self.entries@)
    }

    /// An empty record.
    pub fn new() -> (r: MetadataRecord)
        ensures
            r@ == Map::<Seq<char>, Seq<char>>::empty(),
    {
        MetadataRecord { entries: Vec::new() }
    }

    /// Binds key to value, replacing any earlier binding: last write wins.
    pub fn insert(&mut self, key: String, value: String)
        ensures
            final(self)@ == old(self)@.insert(key@, value@),
    {
        proof {
            use_type_invariant(&*self);
        }
        let ghost e0 = self.entries@;
        let found = find_key(&self.entries, &key);
        let mut entries: Vec<(String, String)> = Vec::new();
        std::mem::swap(&mut entries, &mut self.entries);
        match found {
            Some(i) => {
                entries.remove(i);
                entries.push((key, value));
                proof {
                    e0.remove_ensures(i as int);
                    lemma_map_of_remove(e0, i as int);
                    assert(entries@.drop_last() =~= e0.remove(i as int));
                    assert(map_of(e0).remove(e0[i as int].0@).insert(key@, value@) =~= map_of(
                        e0,
                    ).insert(key@, value@));
                }
            },
            None => {
                entries.push((key, value));
                proof {
                    assert(entries@.drop_last() =~= e0);
                }
            },
        }
        self.entries = entries;
    }

    /// The value bound to key, if any.
    pub fn get(&self, key: &str) -> (r: Option<&String>)
        ensures
            match r {
                Some(v) => self@.contains_key(key@) && v@ == self@[key@],
                None => !self@.contains_key(key@),
            },
    {
        proof {
            use_type_invariant(&*self);
        }
        let k: String = key.to_owned();
        match find_key(&self.entries, &k) {
            Some(i) => {
                proof {
                    lemma_map_of_found(self.entries@, i as int);
                }
                Some(&self.entries[i].1)
            },
            None => {
                proof {
                    lemma_map_of_absent(self.entries@, key@);
                }
                None
            },
        }
    }

    /// How many keys are bound.
    pub fn len(&self) -> (n: usize)
        ensures
            n == self@.dom().len(),
    {
        proof {
            use_type_invariant(&*self);
            lemma_map_of_dom_len(self.entries@);
        }
        self.entries.len()
    }

    /// The entries as key/value pairs: one per key of the mapping, with the
    /// value that key is bound to, and none missing.
    pub fn entries(&self) -> (r: &Vec<(String, String)>)
        ensures
            r@.len() == self@.dom().len(),
            forall|i: int|
                0 <= i < r@.len() ==> self@.contains_key(#[trigger] r@[i].0@) && self@[r@[i].0@]
                    == r@[i].1@,
            forall|i: int, j: int| 0 <= i < j < r@.len() ==> r@[i].0@ != r@[j].0@,
            forall|k: Seq<char>|
                self@.contains_key(k) ==> exists|i: int| 0 <= i < r@.len() && r@[i].0@ == k,
    {
        proof {
            use_type_invariant(&*self);
            lemma_map_of_dom_len(self.entries@);
            assert forall|i: int| 0 <= i < self.entries@.len() implies map_of(
                self.entries@,
            ).contains_key(#[trigger] self.entries@[i].0@) && map_of(self.entries@)[self.entries@[i].0@]
                == self.entries@[i].1@ by {
                lemma_map_of_found(self.entries@, i);
            }
            assert forall|k: Seq<char>| map_of(self.entries@).contains_key(k) implies exists|i: int|
                0 <= i < self.entries@.len() && self.entries@[i].0@ == k by {
                if !(exists|i: int| 0 <= i < self.entries@.len() && self.entries@[i].0@ == k) {
                    lemma_map_of_absent(self.entries@, k);
                }
            }
        }
        &self.entries
    }
}

impl Clone for MetadataRecord {
    /// A deep copy that denotes the same mapping.
    fn clone(&self) -> (r: Self)
        ensures
            r@ == self@,
    {
        proof {
            use_type_invariant(&*self);
        }
        let n: usize = self.entries.len();
        let mut entries: Vec<(String, String)> = Vec::new();
        let mut i: usize = 0;
        while i < n
            invariant
                i <= n,
                n == self.entries@.len(),
                entries@ == self.entries@.subrange(0, i as int),
            decreases n - i,
        {
            let k = self.entries[i].0.clone();
            let v = self.entries[i].1.clone();
            entries.push((k, v));
            proof {
                assert(entries@ =~= self.entries@.subrange(0, i as int + 1));
            }
            i += 1;
        }
        proof {
            assert(entries@ =~= self.entries@);
        }
        MetadataRecord { entries }
    }
}

} // verus!
