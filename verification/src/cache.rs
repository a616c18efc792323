//! The local hash cache: last known content hash of each destination file.

use vstd::prelude::*;
use crate::text::same_text;

verus! {

/// Schema version written into every persisted cache.
pub const CACHE_VERSION: u32 = 1;

/// The map that a list of (path, hash) pairs stands for. Where a path occurs
/// more than once, the later pair counts.
pub open spec fn pairs_map(pairs: Seq<(Seq<char>, Seq<char>)>) -> Map<Seq<char>, Seq<char>>
    decreases pairs.len(),
{
    if pairs.len() == 0 {
        Map::empty()
    } else {
        pairs_map(pairs.drop_last()).insert(pairs.last().0, pairs.last().1)
    }
}

/// No path occurs twice in the list.
pub open spec fn distinct_keys(pairs: Seq<(Seq<char>, Seq<char>)>) -> bool {
    forall|i: int, j: int| 0 <= i < j < pairs.len() ==> pairs[i].0 != pairs[j].0
}

/// Whether some pair of the list has the path `name`.
pub open spec fn has_key(pairs: Seq<(Seq<char>, Seq<char>)>, name: Seq<char>) -> bool {
    exists|i: int| 0 <= i < pairs.len() && (#[trigger] pairs[i]).0 == name
}

/// The paths of `pairs_map` are those of the list.
pub proof fn lemma_pairs_map_key(pairs: Seq<(Seq<char>, Seq<char>)>, name: Seq<char>)
    ensures
        pairs_map(pairs).contains_key(name) <==> has_key(pairs, name),
    decreases pairs.len(),
{
    if pairs.len() > 0 {
        let front = pairs.drop_last();
        lemma_pairs_map_key(front, name);
        if has_key(pairs, name) {
            let i = choose|i: int| 0 <= i < pairs.len() && (#[trigger] pairs[i]).0 == name;
            if i < front.len() {
                assert(front[i].0 == name);
            }
        }
        if has_key(front, name) {
            let i = choose|i: int| 0 <= i < front.len() && (#[trigger] front[i]).0 == name;
            assert(pairs[i].0 == name);
        }
        if pairs.last().0 == name {
            assert(pairs[pairs.len() - 1].0 == name);
        }
    }
}

/// In a list without repeated paths every pair is an entry of `pairs_map`.
pub proof fn lemma_pairs_map_value(pairs: Seq<(Seq<char>, Seq<char>)>, i: int)
    requires
        distinct_keys(pairs),
        0 <= i < pairs.len(),
    ensures
        pairs_map(pairs).contains_key(pairs[i].0),
        pairs_map(pairs)[pairs[i].0] == pairs[i].1,
    decreases pairs.len(),
{
    let front = pairs.drop_last();
    if i < front.len() {
        assert(distinct_keys(front)) by {
            assert forall|a: int, b: int| 0 <= a < b < front.len() implies front[a].0
                != front[b].0 by {
                assert(pairs[a].0 != pairs[b].0);
            }
        }
        lemma_pairs_map_value(front, i);
        assert(front[i] == pairs[i]);
        assert(pairs[i].0 != pairs[pairs.len() - 1].0);
    }
}

/// Replacing the hash of pair `i` in a list without repeated paths stores
/// that hash under the pair's path and touches nothing else.
pub proof fn lemma_replace_pair(pairs: Seq<(Seq<char>, Seq<char>)>, i: int, hash: Seq<char>)
    requires
        distinct_keys(pairs),
        0 <= i < pairs.len(),
    ensures
        distinct_keys(pairs.update(i, (pairs[i].0, hash))),
        pairs_map(pairs.update(i, (pairs[i].0, hash))) == pairs_map(pairs).insert(
            pairs[i].0,
            hash,
        ),
{
    let name = pairs[i].0;
    let after = pairs.update(i, (name, hash));
    assert forall|a: int, b: int| 0 <= a < b < after.len() implies after[a].0 != after[b].0 by {
        assert(after[a].0 == pairs[a].0);
        assert(after[b].0 == pairs[b].0);
    }
    let want = pairs_map(pairs).insert(name, hash);
    assert forall|k: Seq<char>| pairs_map(after).contains_key(k) <==> want.contains_key(k) by {
        lemma_pairs_map_key(pairs, k);
        lemma_pairs_map_key(after, k);
        if has_key(after, k) {
            let j = choose|j: int| 0 <= j < after.len() && (#[trigger] after[j]).0 == k;
            assert(pairs[j].0 == k);
        }
        if has_key(pairs, k) {
            let j = choose|j: int| 0 <= j < pairs.len() && (#[trigger] pairs[j]).0 == k;
            assert(after[j].0 == k);
        }
        if k == name {
            assert(after[i].0 == k);
        }
    }
    assert forall|k: Seq<char>| want.contains_key(k) implies pairs_map(after)[k] == want[k] by {
        lemma_pairs_map_key(pairs, k);
        if k == name {
            lemma_pairs_map_value(after, i);
        } else {
            let j = choose|j: int| 0 <= j < pairs.len() && (#[trigger] pairs[j]).0 == k;
            assert(after[j] == pairs[j]);
            lemma_pairs_map_value(after, j);
            lemma_pairs_map_value(pairs, j);
        }
    }
    assert(pairs_map(after) =~= want);
}

/// Path-to-hash map that spares hashing files whose content is known.
pub struct HashCache {
    entries: Vec<(String, String)>,
}

impl View for HashCache {
    type V = Map<Seq<char>, Seq<char>>;

    closed spec fn view(&self) -> Map<Seq<char>, Seq<char>> {
        pairs_map(self.entries.deep_view())
    }
}

impl HashCache {
    #[verifier::type_invariant]
    spec fn unique_paths(self) -> bool {
        distinct_keys(self.entries.deep_view())
    }

    /// A cache without entries.
    pub fn new() -> (r: HashCache)
        ensures
            r@ == Map::<Seq<char>, Seq<char>>::empty(),
    {
        HashCache { entries: Vec::new() }
    }

    /// Index of the entry for `name`, if there is one.
    fn find(&self, name: &str) -> (r: Option<usize>)
        ensures
            match r {
                Some(i) => i < self.entries.len() && self.entries.deep_view()[i as int].0 == name@,
                None => !self@.contains_key(name@),
            },
    {
        let ghost pairs = self.entries.deep_view();
        let mut i: usize = 0;
        while i < self.entries.len()
            invariant
                i <= self.entries.len(),
                pairs == self.entries.deep_view(),
                forall|j: int| 0 <= j < i ==> pairs[j].0 != name@,
            decreases self.entries.len() - i,
        {
            assert(pairs[i as int].0 == self.entries[i as int].0@);
            if same_text(self.entries[i].0.as_str(), name) {
                return Some(i);
            }
            i += 1;
        }
        proof {
            lemma_pairs_map_key(pairs, name@);
        }
        None
    }

    /// The hash recorded for `name`, if any.
    pub fn get(&self, name: &str) -> (r: Option<&String>)
        ensures
            match r {
                Some(hash) => self@.contains_key(name@) && self@[name@] == hash@,
                None => !self@.contains_key(name@),
            },
    {
        match self.find(name) {
            Some(i) => {
                proof {
                    use_type_invariant(self);
                    lemma_pairs_map_value(self.entries.deep_view(), i as int);
                    assert(self.entries.deep_view()[i as int].1 == self.entries[i as int].1@);
                }
                Some(&self.entries[i].1)
            },
            None => None,
        }
    }

    /// Records `hash` for `name`, in place of what was recorded before.
    pub fn insert(&mut self, name: String, hash: String)
        ensures
            final(self)@ == old(self)@.insert(name@, hash@),
    {
        let ghost before = self.entries.deep_view();
        proof {
            use_type_invariant(&*self);
        }
        let found = self.find(name.as_str());
        let mut entries: Vec<(String, String)> = Vec::new();
        core::mem::swap(&mut self.entries, &mut entries);
        match found {
            Some(i) => {
                entries.set(i, (name, hash));
                proof {
                    lemma_replace_pair(before, i as int, hash@);
                    assert(entries.deep_view() =~= before.update(i as int, (name@, hash@)));
                }
            },
            None => {
                entries.push((name, hash));
                proof {
                    let after = entries.deep_view();
                    assert(after =~= before.push((name@, hash@)));
                    assert(after.drop_last() =~= before);
                    assert forall|a: int, b: int| 0 <= a < b < after.len() implies after[a].0
                        != after[b].0 by {
                        if b < before.len() {
                            assert(before[a].0 != before[b].0);
                        } else {
                            lemma_pairs_map_key(before, name@);
                            assert(before[a] == after[a]);
                        }
                    }
                }
            },
        }
        core::mem::swap(&mut self.entries, &mut entries);
    }

    /// The cache read back from its persisted form. A missing or unreadable
    /// file (`None`) and a file of another schema version give an empty
    /// cache, so that every file is hashed afresh.
    pub fn restore(stored: Option<StoredCache>) -> (r: HashCache)
        ensures
            r@ == restored(stored.deep_view()),
    {
        let mut cache = HashCache::new();
        if let Some(file) = stored {
            if file.version == CACHE_VERSION {
                let ghost pairs = file.hashes.deep_view();
                let mut i: usize = 0;
                while i < file.hashes.len()
                    invariant
                        i <= file.hashes.len(),
                        pairs == file.hashes.deep_view(),
                        cache@ == pairs_map(pairs.take(i as int)),
                    decreases file.hashes.len() - i,
                {
                    proof {
                        assert(pairs.take(i + 1).drop_last() =~= pairs.take(i as int));
                        assert(pairs[i as int] == (file.hashes[i as int].0@, file.hashes[i as int].1@));
                    }
                    cache.insert(file.hashes[i].0.clone(), file.hashes[i].1.clone());
                    i += 1;
                }
                assert(pairs.take(i as int) =~= pairs);
            }
        }
        cache
    }

    /// The cache to start a run with: the persisted one, or an empty one
    /// where `force` asks for every file to be hashed afresh.
    pub fn starting(force: bool, stored: Option<StoredCache>) -> (r: HashCache)
        ensures
            r@ == if force {
                Map::<Seq<char>, Seq<char>>::empty()
            } else {
                restored(stored.deep_view())
            },
    {
        if force {
            HashCache::new()
        } else {
            HashCache::restore(stored)
        }
    }

    /// The persisted form of the cache: the current schema version and one
    /// pair for each entry.
    pub fn snapshot(&self) -> (r: StoredCache)
        ensures
            is_snapshot_of(r@, self@),
    {
        let ghost pairs = self.entries.deep_view();
        let mut hashes: Vec<(String, String)> = Vec::new();
        let mut i: usize = 0;
        while i < self.entries.len()
            invariant
                i <= self.entries.len(),
                pairs == self.entries.deep_view(),
                hashes.deep_view() == pairs.take(i as int),
            decreases self.entries.len() - i,
        {
            hashes.push((self.entries[i].0.clone(), self.entries[i].1.clone()));
            proof {
                assert(pairs[i as int] == (self.entries[i as int].0@, self.entries[i as int].1@));
                assert(hashes.deep_view() =~= pairs.take(i as int).push(pairs[i as int]));
                assert(pairs.take(i + 1) =~= pairs.take(i as int).push(pairs[i as int]));
            }
            i += 1;
        }
        proof {
            use_type_invariant(self);
            assert(pairs.take(i as int) =~= pairs);
        }
        StoredCache { version: CACHE_VERSION, hashes }
    }
}

/// The hash cache as it is persisted beside the synchronised directory.
pub struct StoredCache {
    /// Schema version the file was written with.
    pub version: u32,
    /// One (path, hash) pair for each entry.
    pub hashes: Vec<(String, String)>,
}

/// A persisted cache as plain data.
pub struct StoredEntries {
    pub version: u32,
    pub hashes: Seq<(Seq<char>, Seq<char>)>,
}

impl View for StoredCache {
    type V = StoredEntries;

    open spec fn view(&self) -> StoredEntries {
        StoredEntries { version: self.version, hashes: self.hashes.deep_view() }
    }
}

impl DeepView for StoredCache {
    type V = StoredEntries;

    open spec fn deep_view(&self) -> StoredEntries {
        self@
    }
}

/// What a persisted cache is read back as.
pub open spec fn restored(stored: Option<StoredEntries>) -> Map<Seq<char>, Seq<char>> {
    match stored {
        Some(file) if file.version == CACHE_VERSION => pairs_map(file.hashes),
        _ => Map::empty(),
    }
}

/// Whether `file` is a persisted form of the cache `entries`.
pub open spec fn is_snapshot_of(file: StoredEntries, entries: Map<Seq<char>, Seq<char>>) -> bool {
    &&& file.version == CACHE_VERSION
    &&& distinct_keys(file.hashes)
    &&& pairs_map(file.hashes) == entries
}

/// Saving a cache and loading it again gives the same cache.
pub proof fn lemma_round_trip(entries: Map<Seq<char>, Seq<char>>, file: StoredEntries)
    requires
        is_snapshot_of(file, entries),
    ensures
        restored(Some(file)) == entries,
{
}

} // verus!
