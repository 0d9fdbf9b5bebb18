//! A content-addressed key/value store.
//!
//! Both caches of the pipeline (whole-document renders and highlighted
//! code fragments) are maps from a digest key to opaque bytes.  Entries
//! are immutable once written: a `put` on an existing key keeps the old
//! entry, which is sound because keys are digests of the content that
//! produced the value.  This in-memory store is the model; a disk-backed
//! directory of digest-named files implements the same interface outside
//! the library.

use vstd::prelude::*;

verus! {

struct CacheEntry {
    key: String,
    value: Vec<u8>,
}

/// An append-only map from digest keys to cached bytes.
pub struct Cache {
    entries: Vec<CacheEntry>,
}

/// The entries of a cache as key/value pairs of sequences.
spec fn entry_pairs(entries: Seq<CacheEntry>) -> Seq<(Seq<char>, Seq<u8>)> {
    entries.map_values(|e: CacheEntry| (e.key@, e.value@))
}

/// The map described by an association list, later entries winning
/// (irrelevant here: a well-formed cache has distinct keys).
spec fn pairs_map(s: Seq<(Seq<char>, Seq<u8>)>) -> Map<Seq<char>, Seq<u8>>
    decreases s.len(),
{
    if s.len() == 0 {
        Map::<Seq<char>, Seq<u8>>::empty()
    } else {
        pairs_map(s.drop_last()).insert(s.last().0, s.last().1)
    }
}

spec fn distinct_keys(s: Seq<(Seq<char>, Seq<u8>)>) -> bool {
    forall|i: int, j: int| 0 <= i < j < s.len() ==> s[i].0 != s[j].0
}

proof fn lemma_pairs_map_found(s: Seq<(Seq<char>, Seq<u8>)>, i: int)
    requires
        0 <= i < s.len(),
        distinct_keys(s),
    ensures
        pairs_map(s).contains_key(s[i].0),
        pairs_map(s)[s[i].0] == s[i].1,
    decreases s.len(),
{
    if i < s.len() - 1 {
        assert(s.drop_last()[i] == s[i]);
        lemma_pairs_map_found(s.drop_last(), i);
        assert(s.last() == s[s.len() - 1]);
        assert(s[i].0 != s[s.len() - 1].0);
    }
}

proof fn lemma_pairs_map_missing(s: Seq<(Seq<char>, Seq<u8>)>, k: Seq<char>)
    requires
        forall|i: int| 0 <= i < s.len() ==> s[i].0 != k,
    ensures
        !pairs_map(s).contains_key(k),
    decreases s.len(),
{
    if s.len() > 0 {
        lemma_pairs_map_missing(s.drop_last(), k);
    }
}

impl View for Cache {
    type V = Map<Seq<char>, Seq<u8>>;

    closed spec fn view(&self) -> Map<Seq<char>, Seq<u8>> {
        pairs_map(entry_pairs(self.entries@))
    }
}

impl Cache {
    /// The keys of the stored entries never repeat.
    pub closed spec fn wf(&self) -> bool {
        distinct_keys(entry_pairs(self.entries@))
    }

    /// Creates an empty cache.
    pub fn new() -> (c: Cache)
        ensures
            c.wf(),
            c@ == Map::<Seq<char>, Seq<u8>>::empty(),
    {
        Cache { entries: Vec::new() }
    }

    /// Looks a key up, returning the stored bytes on a hit.
    pub fn get(&self, key: &str) -> (r: Option<&Vec<u8>>)
        requires
            self.wf(),
        ensures
            match r {
                Some(v) => self@.contains_key(key@) && v@ == self@[key@],
                None => !self@.contains_key(key@),
            },
    {
        let ghost pairs = entry_pairs(self.entries@);
        let mut i: usize = 0;
        while i < self.entries.len()
            invariant
                self.wf(),
                pairs == entry_pairs(self.entries@),
                i <= self.entries@.len(),
                forall|k: int| 0 <= k < i ==> pairs[k].0 != key@,
            decreases self.entries@.len() - i,
        {
            if crate::text::str_eq(self.entries[i].key.as_str(), key) {
                proof {
                    lemma_pairs_map_found(pairs, i as int);
                }
                return Some(&self.entries[i].value);
            }
            i = i + 1;
        }
        proof {
            lemma_pairs_map_missing(pairs, key@);
        }
        None
    }

    /// Stores a value under a key.  An existing entry for the key is kept
    /// unchanged: cache entries are immutable once written.
    pub fn put(&mut self, key: String, value: Vec<u8>)
        requires
            old(self).wf(),
        ensures
            final(self).wf(),
            final(self)@ == if old(self)@.contains_key(key@) {
                old(self)@
            } else {
                old(self)@.insert(key@, value@)
            },
    {
        if self.get(key.as_str()).is_some() {
            return;
        }
        let ghost pre = entry_pairs(self.entries@);
        let ghost gk = key@;
        let ghost gv = value@;
        self.entries.push(CacheEntry { key, value });
        proof {
            let post = entry_pairs(self.entries@);
            assert(post =~= pre.push((gk, gv)));
            assert(post.drop_last() =~= pre);
            assert forall|i: int, j: int| 0 <= i < j < post.len() implies post[i].0
                != post[j].0 by {
                if j == post.len() - 1 {
                    lemma_pairs_map_found(pre, i);
                }
            }
        }
    }
}

} // verus!
