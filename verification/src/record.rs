//! The metadata record: a flat map from string keys to string values.

use vstd::prelude::*;
use vstd::string::StringExecFns;

verus! {

/// A flat record of string keys and string values, with one value per key.
#[derive(Debug, Clone)]
pub struct MetadataRecord {
    entries: Vec<(String, String)>,
}

/// The map that results from inserting `entries` in order.
spec fn map_of(entries: Seq<(String, String)>) -> Map<Seq<char>, Seq<char>>
    decreases entries.len(),
{
    if entries.len() == 0 {
        Map::empty()
    } else {
        map_of(entries.drop_last()).insert(entries.last().0@, entries.last().1@)
    }
}

/// Whether no two of `entries` have the same key.
spec fn distinct_keys(entries: Seq<(String, String)>) -> bool {
    forall|i: int, j: int|
        0 <= i < entries.len() && 0 <= j < entries.len() && i != j ==> entries[i].0@
            != entries[j].0@
}

/// Where keys are distinct, `map_of` holds each entry's value under its key.
proof fn lemma_map_of_entry(entries: Seq<(String, String)>, i: int)
    requires
        distinct_keys(entries),
        0 <= i < entries.len(),
    ensures
        map_of(entries).contains_key(entries[i].0@),
        map_of(entries)[entries[i].0@] == entries[i].1@,
    decreases entries.len(),
{
    if i < entries.len() - 1 {
        lemma_map_of_entry(entries.drop_last(), i);
    }
}

/// Every key of `map_of` is the key of some entry.
proof fn lemma_map_of_key(entries: Seq<(String, String)>, key: Seq<char>)
    requires
        map_of(entries).contains_key(key),
    ensures
        exists|i: int| 0 <= i < entries.len() && #[trigger] entries[i].0@ == key,
    decreases entries.len(),
{
    if entries.len() > 0 {
        if entries.last().0@ == key {
            assert(entries[entries.len() - 1].0@ == key);
        } else {
            lemma_map_of_key(entries.drop_last(), key);
            let i = choose|i: int|
                0 <= i < entries.drop_last().len() && #[trigger] entries.drop_last()[i].0@ == key;
            assert(entries[i].0@ == key);
        }
    }
}

/// Where keys are distinct, `map_of` has as many keys as there are entries.
proof fn lemma_map_of_len(entries: Seq<(String, String)>)
    requires
        distinct_keys(entries),
    ensures
        map_of(entries).dom().finite(),
        map_of(entries).dom().len() == entries.len(),
    decreases entries.len(),
{
    if entries.len() > 0 {
        let rest = entries.drop_last();
        lemma_map_of_len(rest);
        if map_of(rest).contains_key(entries.last().0@) {
            lemma_map_of_key(rest, entries.last().0@);
        }
    }
}

impl View for MetadataRecord {
    type V = Map<Seq<char>, Seq<char>>;

    closed spec fn view(&self) -> Map<Seq<char>, Seq<char>> {
        map_of(self.entries@)
    }
}

impl MetadataRecord {
    /// The invariant of a record: no key is held twice.
    pub closed spec fn wf(&self) -> bool {
        distinct_keys(self.entries@)
    }

    /// A record without entries.
    pub fn new() -> (record: MetadataRecord)
        ensures
            record.wf(),
            record@ == Map::<Seq<char>, Seq<char>>::empty(),
    {
        MetadataRecord { entries: Vec::new() }
    }

    /// The position of `key` among the entries.
    fn position(&self, key: &String) -> (found: Option<usize>)
        ensures
            match found {
                Some(i) => i < self.entries.len() && self.entries[i as int].0@ == key@,
                None => !self@.contains_key(key@),
            },
    {
        let mut i: usize = 0;
        while i < self.entries.len()
            invariant
                i <= self.entries.len(),
                forall|j: int| 0 <= j < i ==> self.entries[j].0@ != key@,
            decreases self.entries.len() - i,
        {
            if self.entries[i].0 == *key {
                return Some(i);
            }
            i += 1;
        }
        proof {
            if self@.contains_key(key@) {
                lemma_map_of_key(self.entries@, key@);
            }
        }
        None
    }

    /// Sets the value of `key`, replacing the value that it had.
    pub fn insert(&mut self, key: String, value: String)
        requires
            old(self).wf(),
        ensures
            final(self).wf(),
            final(self)@ == old(self)@.insert(key@, value@),
    {
        match self.position(&key) {
            Some(i) => {
                let ghost before = self.entries@;
                self.entries[i] = (key, value);
                proof {
                    let after = self.entries@;
                    assert(distinct_keys(after));
                    assert forall|k: Seq<char>|
                        map_of(after).contains_key(k) <==> #[trigger] map_of(before).insert(
                            key@,
                            value@,
                        ).contains_key(k) by {
                        if map_of(after).contains_key(k) {
                            lemma_map_of_key(after, k);
                            let j = choose|j: int|
                                0 <= j < after.len() && #[trigger] after[j].0@ == k;
                            lemma_map_of_entry(before, j);
                        }
                        if map_of(before).contains_key(k) {
                            lemma_map_of_key(before, k);
                            let j = choose|j: int|
                                0 <= j < before.len() && #[trigger] before[j].0@ == k;
                            lemma_map_of_entry(after, j);
                        }
                        lemma_map_of_entry(after, i as int);
                    }
                    assert forall|k: Seq<char>| #[trigger]
                        map_of(after).contains_key(k) implies map_of(after)[k] == map_of(
                        before,
                    ).insert(key@, value@)[k] by {
                        lemma_map_of_key(after, k);
                        let j = choose|j: int| 0 <= j < after.len() && #[trigger] after[j].0@ == k;
                        lemma_map_of_entry(after, j);
                        lemma_map_of_entry(before, j);
                    }
                    assert(map_of(after) =~= map_of(before).insert(key@, value@));
                }
            },
            None => {
                let ghost before = self.entries@;
                self.entries.push((key, value));
                proof {
                    assert(self.entries@.drop_last() =~= before);
                    assert forall|a: int, b: int|
                        0 <= a < self.entries@.len() && 0 <= b < self.entries@.len() && a
                            != b implies self.entries@[a].0@ != self.entries@[b].0@ by {
                        if a < before.len() {
                            lemma_map_of_entry(before, a);
                        }
                        if b < before.len() {
                            lemma_map_of_entry(before, b);
                        }
                    }
                }
            },
        }
    }

    /// The value of `key`, if the record has one.
    pub fn get(&self, key: &str) -> (value: Option<&String>)
        requires
            self.wf(),
        ensures
            match value {
                Some(v) => self@.contains_key(key@) && self@[key@] == v@,
                None => !self@.contains_key(key@),
            },
    {
        let key = String::from_str(key);
        match self.position(&key) {
            Some(i) => {
                proof {
                    lemma_map_of_entry(self.entries@, i as int);
                }
                Some(&self.entries[i].1)
            },
            None => None,
        }
    }

    /// The number of keys.
    pub fn len(&self) -> (n: usize)
        requires
            self.wf(),
        ensures
            self@.dom().finite(),
            n == self@.len(),
    {
        proof {
            lemma_map_of_len(self.entries@);
        }
        self.entries.len()
    }
}

} // verus!
