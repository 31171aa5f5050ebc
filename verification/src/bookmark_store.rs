//! The bookmark store's cache: per-character bookmark collections keyed by
//! character id. Reading and writing the backing files is the caller's; it
//! hands parsed collections in and takes them out for saving.

use vstd::prelude::*;

use crate::bookmarks::CharacterBookmarks;
use crate::numbers::dec_str;
use crate::numbers::u64_to_chars;
use crate::text::append_chars;
use crate::text::chars_to_string;
use crate::text::str_chars;

verus! {

/// Index of the cache entry for a character id, oldest first.
pub open spec fn cache_idx(cache: Seq<(u64, CharacterBookmarks)>, id: int) -> Option<int>
    decreases cache.len(),
{
    if cache.len() == 0 {
        None
    } else if cache[0].0 == id {
        Some(0)
    } else {
        match cache_idx(cache.drop_first(), id) {
            Some(i) => Some(i + 1),
            None => None,
        }
    }
}

/// The first matching index is what [`cache_idx`] names.
proof fn lemma_cache_idx_first(cache: Seq<(u64, CharacterBookmarks)>, id: int, i: int)
    requires
        0 <= i < cache.len(),
        cache[i].0 == id,
        forall|j: int| 0 <= j < i ==> (#[trigger] cache[j]).0 != id,
    ensures
        cache_idx(cache, id) == Some(i),
    decreases cache.len(),
{
    if i > 0 {
        lemma_cache_idx_first(cache.drop_first(), id, i - 1);
        assert(forall|j: int|
            0 <= j < cache.drop_first().len() ==> #[trigger] cache.drop_first()[j] == cache[j + 1]);
    }
}

/// No matching entry, no index.
proof fn lemma_cache_idx_none(cache: Seq<(u64, CharacterBookmarks)>, id: int)
    requires
        forall|j: int| 0 <= j < cache.len() ==> (#[trigger] cache[j]).0 != id,
    ensures
        cache_idx(cache, id) is None,
    decreases cache.len(),
{
    if cache.len() > 0 {
        lemma_cache_idx_none(cache.drop_first(), id);
        assert(forall|j: int|
            0 <= j < cache.drop_first().len() ==> #[trigger] cache.drop_first()[j] == cache[j + 1]);
    }
}

/// Bookmark collections for many characters, cached by character id.
pub struct BookmarkStore {
    /// Directory the backing files live in; kept for the caller's saves.
    pub data_dir: String,
    /// The cached collections, keyed by character id.
    pub cache: Vec<(u64, CharacterBookmarks)>,
}

impl BookmarkStore {
    /// The cached entries, in insertion order.
    pub open spec fn cache_seq(self) -> Seq<(u64, CharacterBookmarks)> {
        self.cache@
    }

    /// A store over the given data directory, with an empty cache.
    pub fn new(data_dir: String) -> (r: Self)
        ensures
            r.data_dir == data_dir,
            r.cache_seq().len() == 0,
    {
        BookmarkStore { data_dir, cache: Vec::new() }
    }

    /// The backing file name for one character.
    pub fn bookmark_file_name(character_id: u64) -> (r: String)
        ensures
            r@ == "bookmarks_"@ + dec_str(character_id as int) + ".json"@,
    {
        let mut out: Vec<char> = Vec::new();
        append_chars(&mut out, &str_chars("bookmarks_"));
        append_chars(&mut out, &u64_to_chars(character_id));
        append_chars(&mut out, &str_chars(".json"));
        chars_to_string(&out)
    }

    /// Put a collection the caller loaded into the cache, replacing any
    /// entry the id already has.
    pub fn insert_loaded(&mut self, character_id: u64, bookmarks: CharacterBookmarks)
        ensures
            ({
                let c0 = old(self).cache_seq();
                match cache_idx(c0, character_id as int) {
                    Some(i) => final(self).cache_seq() == c0.update(i, (character_id, bookmarks)),
                    None => final(self).cache_seq() == c0.push((character_id, bookmarks)),
                }
            }),
            final(self).data_dir == old(self).data_dir,
    {
        let n = self.cache.len();
        let mut i: usize = 0;
        while i < n
            invariant
                i <= n,
                n == self.cache@.len(),
                *self == *old(self),
                forall|j: int| 0 <= j < i ==> (#[trigger] self.cache@[j]).0 != character_id,
            decreases n - i,
        {
            if self.cache[i].0 == character_id {
                proof {
                    lemma_cache_idx_first(self.cache@, character_id as int, i as int);
                }
                let ghost c0 = self.cache@;
                self.cache.remove(i);
                self.cache.insert(i, (character_id, bookmarks));
                proof {
                    assert(self.cache@ =~= c0.update(i as int, (character_id, bookmarks)));
                }
                return ;
            }
            i += 1;
        }
        proof {
            lemma_cache_idx_none(self.cache@, character_id as int);
        }
        self.cache.push((character_id, bookmarks));
    }

    /// The cached collection for a character, read-only.
    pub fn get(&self, character_id: u64) -> (r: Option<&CharacterBookmarks>)
        ensures
            match r {
                Some(cb) => cache_idx(self.cache_seq(), character_id as int) is Some && *cb
                    == self.cache_seq()[cache_idx(self.cache_seq(), character_id as int).unwrap()].1,
                None => cache_idx(self.cache_seq(), character_id as int) is None,
            },
    {
        let n = self.cache.len();
        let mut i: usize = 0;
        while i < n
            invariant
                i <= n,
                n == self.cache@.len(),
                forall|j: int| 0 <= j < i ==> (#[trigger] self.cache@[j]).0 != character_id,
            decreases n - i,
        {
            if self.cache[i].0 == character_id {
                proof {
                    lemma_cache_idx_first(self.cache@, character_id as int, i as int);
                }
                return Some(&self.cache[i].1);
            }
            i += 1;
        }
        proof {
            lemma_cache_idx_none(self.cache@, character_id as int);
        }
        None
    }

    /// The cached collection for a character, for mutation; a character not
    /// seen before starts with a fresh, empty collection.
    pub fn get_mut(&mut self, character_id: u64, character_name: &str) -> (r:
        &mut CharacterBookmarks)
        ensures
            ({
                let c0 = old(self).cache_seq();
                match cache_idx(c0, character_id as int) {
                    Some(i) => *r == c0[i].1 && final(self).cache_seq() == c0.update(
                        i,
                        (character_id, *final(r)),
                    ),
                    None => {
                        &&& r.character_id == character_id
                        &&& r.character_name@ == character_name@
                        &&& r.runs@.len() == 0
                        &&& r.next_id() == 1
                        &&& final(self).cache_seq() == c0.push((character_id, *final(r)))
                    },
                }
            }),
            final(self).data_dir == old(self).data_dir,
    {
        let n = self.cache.len();
        let mut i: usize = 0;
        while i < n
            invariant
                i <= n,
                n == self.cache@.len(),
                *self == *old(self),
                forall|j: int| 0 <= j < i ==> (#[trigger] self.cache@[j]).0 != character_id,
            decreases n - i,
        {
            if self.cache[i].0 == character_id {
                proof {
                    lemma_cache_idx_first(self.cache@, character_id as int, i as int);
                }
                return &mut self.cache[i].1;
            }
            i += 1;
        }
        proof {
            lemma_cache_idx_none(self.cache@, character_id as int);
        }
        let fresh = CharacterBookmarks::new(character_id, character_name.to_owned());
        self.cache.push((character_id, fresh));
        let last = self.cache.len() - 1;
        &mut self.cache[last].1
    }

    /// All cached character ids, in cache order.
    pub fn cached_characters(&self) -> (r: Vec<u64>)
        ensures
            r@ == self.cache_seq().map_values(|e: (u64, CharacterBookmarks)| e.0),
    {
        let n = self.cache.len();
        let mut r: Vec<u64> = Vec::new();
        let mut i: usize = 0;
        while i < n
            invariant
                i <= n,
                n == self.cache@.len(),
                r@ == self.cache@.subrange(0, i as int).map_values(
                    |e: (u64, CharacterBookmarks)| e.0,
                ),
            decreases n - i,
        {
            r.push(self.cache[i].0);
            proof {
                assert(self.cache@.subrange(0, i + 1 as int).map_values(
                    |e: (u64, CharacterBookmarks)| e.0,
                ) =~= self.cache@.subrange(0, i as int).map_values(
                    |e: (u64, CharacterBookmarks)| e.0,
                ).push(self.cache@[i as int].0));
            }
            i += 1;
        }
        proof {
            assert(self.cache@.subrange(0, n as int) =~= self.cache@);
        }
        r
    }

    /// Drop every cached entry; the backing files are untouched.
    pub fn clear_cache(&mut self)
        ensures
            final(self).cache_seq().len() == 0,
            final(self).data_dir == old(self).data_dir,
    {
        self.cache = Vec::new();
    }
}

} // verus!
