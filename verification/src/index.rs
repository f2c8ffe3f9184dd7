//! A secondary index: from a field's value to the paths of the records that
//! carry it.

use crate::sorted::{
    ascending, holds_at, keys, lemma_ascending_distinct, lemma_contains_insert,
    lemma_contains_remove, lemma_insert_ascending, lemma_keys_insert, lemma_keys_remove,
    lemma_remove_ascending, lower_bound, Keyed,
};
use vstd::prelude::*;

verus! {

/// The index after `path` is filed under `key`.
pub open spec fn index_add(
    ix: Map<Seq<char>, Set<Seq<char>>>,
    key: Seq<char>,
    path: Seq<char>,
) -> Map<Seq<char>, Set<Seq<char>>> {
    let before = if ix.contains_key(key) {
        ix[key]
    } else {
        Set::empty()
    };
    ix.insert(key, before.insert(path))
}

/// The index after `path` is taken from under `key`. A key that loses its last
/// path leaves the index.
pub open spec fn index_remove(
    ix: Map<Seq<char>, Set<Seq<char>>>,
    key: Seq<char>,
    path: Seq<char>,
) -> Map<Seq<char>, Set<Seq<char>>> {
    if ix.contains_key(key) {
        let rest = ix[key].remove(path);
        if rest.is_empty() {
            ix.remove(key)
        } else {
            ix.insert(key, rest)
        }
    } else {
        ix
    }
}

/// A key of the index with the paths filed under it, in ascending order.
#[derive(Debug)]
pub struct Bucket {
    key: String,
    paths: Vec<String>,
}

impl Keyed for Bucket {
    closed spec fn key(&self) -> Seq<char> {
        self.key@
    }

    fn key_str(&self) -> (k: &str) {
        self.key.as_str()
    }
}

impl Bucket {
    /// The paths of the bucket, as a set.
    pub closed spec fn path_set(self) -> Set<Seq<char>> {
        keys(self.paths@).to_set()
    }

    /// A bucket holds at least one path, and its paths ascend.
    pub closed spec fn wf(self) -> bool {
        self.paths.len() > 0 && ascending(keys(self.paths@))
    }
}

/// An ordered map from a key to a non-empty set of paths.
#[derive(Debug)]
pub struct SecondaryIndex {
    buckets: Vec<Bucket>,
}

impl View for SecondaryIndex {
    type V = Map<Seq<char>, Set<Seq<char>>>;

    closed spec fn view(&self) -> Map<Seq<char>, Set<Seq<char>>> {
        Map::new(
            |k: Seq<char>| keys(self.buckets@).contains(k),
            |k: Seq<char>| self.buckets@[keys(self.buckets@).index_of(k)].path_set(),
        )
    }
}

impl SecondaryIndex {
    /// The buckets ascend by key, and each is well formed.
    pub closed spec fn wf(&self) -> bool {
        &&& ascending(keys(self.buckets@))
        &&& forall|i: int| 0 <= i < self.buckets.len() ==> (#[trigger] self.buckets@[i]).wf()
    }

    /// The bucket at `i` is the entry of the view under its key.
    proof fn lemma_bucket(&self, i: int)
        requires
            ascending(keys(self.buckets@)),
            0 <= i < self.buckets.len(),
        ensures
            self@.contains_key(self.buckets@[i].key()),
            self@[self.buckets@[i].key()] == self.buckets@[i].path_set(),
    {
        let ks = keys(self.buckets@);
        let k = self.buckets@[i].key();
        assert(ks[i] == k);
        lemma_ascending_distinct(ks, ks.index_of(k), i);
    }

    /// No key of a well-formed index has an empty set of paths.
    pub proof fn lemma_no_empty_bucket(&self, key: Seq<char>)
        requires
            self.wf(),
            self@.contains_key(key),
        ensures
            !self@[key].is_empty(),
            self@[key].finite(),
    {
        let ks = keys(self.buckets@);
        let i = ks.index_of(key);
        let b = self.buckets@[i];
        assert(b.wf());
        assert(keys(b.paths@)[0] == b.paths@[0].key());
        assert(b.path_set().contains(b.paths@[0].key()));
        vstd::seq_lib::seq_to_set_is_finite(keys(b.paths@));
    }

    /// The empty index.
    pub fn new() -> (ix: SecondaryIndex)
        ensures
            ix.wf(),
            ix@ == Map::<Seq<char>, Set<Seq<char>>>::empty(),
    {
        let ix = SecondaryIndex { buckets: Vec::new() };
        assert(ix@ =~= Map::<Seq<char>, Set<Seq<char>>>::empty());
        ix
    }

    /// Files `path` under `key`.
    pub fn add(&mut self, key: &str, path: &str)
        requires
            old(self).wf(),
        ensures
            final(self).wf(),
            final(self)@ == index_add(old(self)@, key@, path@),
    {
        let ghost before = *self;
        let ghost ks = keys(self.buckets@);
        let pos = lower_bound(&self.buckets, key);
        if holds_at(&self.buckets, key, pos) {
            let ghost held = self.buckets@[pos as int];
            proof {
                before.lemma_bucket(pos as int);
                assert(held.wf());
            }
            let ppos = lower_bound(&self.buckets[pos].paths, path);
            if !holds_at(&self.buckets[pos].paths, path, ppos) {
                let owned = path.to_owned();
                self.buckets[pos].paths.insert(ppos, owned);
                proof {
                    let now = self.buckets@[pos as int];
                    lemma_keys_insert(held.paths@, ppos as int, owned);
                    lemma_insert_ascending(keys(held.paths@), path@, ppos as int);
                    assert(keys(self.buckets@) =~= ks);
                    assert(now.path_set() =~= held.path_set().insert(path@)) by {
                        assert forall|x: Seq<char>|
                            now.path_set().contains(x) <==> held.path_set().insert(path@).contains(
                                x,
                            ) by {
                            lemma_contains_insert(keys(held.paths@), ppos as int, path@, x);
                        }
                    }
                    assert forall|i: int| 0 <= i < self.buckets.len() implies (
                    #[trigger] self.buckets@[i]).wf() by {
                        if i != pos {
                            assert(self.buckets@[i] == before.buckets@[i]);
                        }
                    }
                    self.lemma_bucket(pos as int);
                    assert forall|k: Seq<char>| self@.contains_key(k) && k != key@ implies self@[k]
                        == before@[k] by {
                        let i = ks.index_of(k);
                        assert(self.buckets@[i] == before.buckets@[i]);
                    }
                    assert(self@ =~= index_add(before@, key@, path@));
                }
            } else {
                proof {
                    assert(held.path_set().contains(path@));
                    assert(held.path_set().insert(path@) =~= held.path_set());
                    assert(self@ =~= index_add(before@, key@, path@));
                }
            }
        } else {
            let mut paths: Vec<String> = Vec::new();
            paths.push(path.to_owned());
            let bucket = Bucket { key: key.to_owned(), paths };
            self.buckets.insert(pos, bucket);
            proof {
                lemma_keys_insert(before.buckets@, pos as int, bucket);
                lemma_insert_ascending(ks, key@, pos as int);
                assert(keys(bucket.paths@) =~= seq![path@]);
                assert(bucket.path_set() =~= Set::<Seq<char>>::empty().insert(path@)) by {
                    assert(keys(bucket.paths@)[0] == path@);
                }
                assert forall|i: int| 0 <= i < self.buckets.len() implies (
                #[trigger] self.buckets@[i]).wf() by {
                    if i < pos {
                        assert(self.buckets@[i] == before.buckets@[i]);
                    } else if i > pos {
                        assert(self.buckets@[i] == before.buckets@[i - 1]);
                    }
                }
                self.lemma_bucket(pos as int);
                let want = index_add(before@, key@, path@);
                assert forall|k: Seq<char>| #[trigger]
                    self@.contains_key(k) == want.contains_key(k) by {
                    lemma_contains_insert(ks, pos as int, key@, k);
                }
                assert forall|k: Seq<char>| #[trigger] self@.contains_key(k) implies self@[k]
                    == want[k] by {
                    lemma_contains_insert(ks, pos as int, key@, k);
                    if k != key@ {
                        let i = ks.index_of(k);
                        let j = if i < pos {
                            i
                        } else {
                            i + 1
                        };
                        assert(self.buckets@[j] == before.buckets@[i]);
                        before.lemma_bucket(i);
                        self.lemma_bucket(j);
                    }
                }
                assert(self@ =~= want);
            }
        }
    }

    /// Takes `path` from under `key`.
    pub fn remove(&mut self, key: &str, path: &str)
        requires
            old(self).wf(),
        ensures
            final(self).wf(),
            final(self)@ == index_remove(old(self)@, key@, path@),
    {
        let ghost before = *self;
        let ghost ks = keys(self.buckets@);
        let pos = lower_bound(&self.buckets, key);
        if holds_at(&self.buckets, key, pos) {
            let ghost held = self.buckets@[pos as int];
            let ghost pks = keys(held.paths@);
            proof {
                before.lemma_bucket(pos as int);
                assert(held.wf());
            }
            let ppos = lower_bound(&self.buckets[pos].paths, path);
            if holds_at(&self.buckets[pos].paths, path, ppos) {
                assert(pks[ppos as int] == path@);
                if self.buckets[pos].paths.len() == 1 {
                    self.buckets.remove(pos);
                    proof {
                        assert(held.path_set().remove(path@) =~= Set::<Seq<char>>::empty()) by {
                            assert forall|x: Seq<char>| !held.path_set().remove(path@).contains(
                                x,
                            ) by {
                                if pks.contains(x) {
                                    let i = choose|i: int| 0 <= i < pks.len() && pks[i] == x;
                                    assert(i == 0);
                                }
                            }
                        }
                        lemma_keys_remove(before.buckets@, pos as int);
                        lemma_remove_ascending(ks, pos as int);
                        assert forall|i: int| 0 <= i < self.buckets.len() implies (
                        #[trigger] self.buckets@[i]).wf() by {
                            let j = if i < pos {
                                i
                            } else {
                                i + 1
                            };
                            assert(self.buckets@[i] == before.buckets@[j]);
                        }
                        let want = index_remove(before@, key@, path@);
                        assert(want == before@.remove(key@));
                        assert forall|k: Seq<char>| #[trigger]
                            self@.contains_key(k) == want.contains_key(k) by {
                            lemma_contains_remove(ks, pos as int, k);
                        }
                        assert forall|k: Seq<char>| #[trigger]
                            self@.contains_key(k) implies self@[k] == want[k] by {
                            lemma_contains_remove(ks, pos as int, k);
                            let i = ks.index_of(k);
                            lemma_ascending_distinct(ks, i, i);
                            if i == pos {
                                assert(ks[i] == key@);
                            }
                            let j = if i < pos {
                                i
                            } else {
                                i - 1
                            };
                            assert(self.buckets@[j] == before.buckets@[i]);
                            before.lemma_bucket(i);
                            self.lemma_bucket(j);
                        }
                        assert(self@ =~= want);
                    }
                } else {
                    self.buckets[pos].paths.remove(ppos);
                    proof {
                        let now = self.buckets@[pos as int];
                        lemma_keys_remove(held.paths@, ppos as int);
                        lemma_remove_ascending(pks, ppos as int);
                        assert(keys(self.buckets@) =~= ks);
                        assert(now.path_set() =~= held.path_set().remove(path@)) by {
                            assert forall|x: Seq<char>|
                                now.path_set().contains(x) <==> held.path_set().remove(
                                    path@,
                                ).contains(x) by {
                                lemma_contains_remove(pks, ppos as int, x);
                            }
                        }
                        assert(now.path_set().contains(keys(now.paths@)[0]));
                        assert forall|i: int| 0 <= i < self.buckets.len() implies (
                        #[trigger] self.buckets@[i]).wf() by {
                            if i != pos {
                                assert(self.buckets@[i] == before.buckets@[i]);
                            }
                        }
                        self.lemma_bucket(pos as int);
                        assert forall|k: Seq<char>|
                            self@.contains_key(k) && k != key@ implies self@[k] == before@[k] by {
                            let i = ks.index_of(k);
                            assert(self.buckets@[i] == before.buckets@[i]);
                        }
                        assert(self@ =~= index_remove(before@, key@, path@));
                    }
                }
            } else {
                proof {
                    assert(!held.path_set().contains(path@));
                    assert(held.path_set().remove(path@) =~= held.path_set());
                    assert(held.path_set().contains(pks[0]));
                    assert(self@ =~= index_remove(before@, key@, path@));
                }
            }
        }
    }

    /// The paths filed under `key`, in ascending order.
    pub fn paths_of(&self, key: &str) -> (r: Option<&Vec<String>>)
        requires
            self.wf(),
        ensures
            r is Some == self@.contains_key(key@),
            r matches Some(paths) ==> ascending(keys(paths@)) && keys(paths@).to_set()
                == self@[key@],
    {
        let pos = lower_bound(&self.buckets, key);
        if holds_at(&self.buckets, key, pos) {
            proof {
                self.lemma_bucket(pos as int);
                assert(self.buckets@[pos as int].wf());
            }
            Some(&self.buckets[pos].paths)
        } else {
            None
        }
    }

    /// The index as plain values: an entry for each key, in ascending order of
    /// the keys, with the paths of the key in ascending order.
    pub fn entries(&self) -> (r: Vec<IndexEntry>)
        requires
            self.wf(),
        ensures
            entries_in_order(r@),
            entries_view(r@) == self@,
    {
        let ghost ks = keys(self.buckets@);
        let mut out: Vec<IndexEntry> = Vec::new();
        let mut i: usize = 0;
        while i < self.buckets.len()
            invariant
                i <= self.buckets.len(),
                self.wf(),
                ks == keys(self.buckets@),
                out.len() == i,
                forall|j: int|
                    0 <= j < i ==> (#[trigger] out@[j]).key@ == self.buckets@[j].key() && keys(
                        out@[j].paths@,
                    ) == keys(self.buckets@[j].paths@),
            decreases self.buckets.len() - i,
        {
            let bucket = &self.buckets[i];
            let mut paths: Vec<String> = Vec::new();
            let mut k: usize = 0;
            while k < bucket.paths.len()
                invariant
                    k <= bucket.paths.len(),
                    paths.len() == k,
                    forall|j: int| 0 <= j < k ==> (#[trigger] paths@[j])@ == bucket.paths@[j]@,
                decreases bucket.paths.len() - k,
            {
                paths.push(bucket.paths[k].clone());
                k += 1;
            }
            assert(keys(paths@) =~= keys(bucket.paths@));
            out.push(IndexEntry { key: bucket.key.clone(), paths });
            i += 1;
        }
        proof {
            assert(entry_keys(out@) =~= ks);
            assert forall|j: int| 0 <= j < out.len() implies (#[trigger] out@[j]).paths.len() > 0
                && ascending(keys(out@[j].paths@)) by {
                assert(self.buckets@[j].wf());
                assert(keys(out@[j].paths@).len() == out@[j].paths.len());
                assert(keys(self.buckets@[j].paths@).len() == self.buckets@[j].paths.len());
            }
            assert forall|k: Seq<char>| #[trigger]
                entries_view(out@).contains_key(k) == self@.contains_key(k) by {
                if entries_view(out@).contains_key(k) {
                    let j = choose|j: int| 0 <= j < out.len() && (#[trigger] out@[j]).key@ == k;
                    assert(ks[j] == k);
                }
                if self@.contains_key(k) {
                    let j = ks.index_of(k);
                    assert(out@[j].key@ == k);
                }
            }
            assert forall|k: Seq<char>| #[trigger] entries_view(out@).contains_key(k) implies entries_view(
                out@,
            )[k] == self@[k] by {
                let j = choose|j: int| 0 <= j < out.len() && (#[trigger] out@[j]).key@ == k;
                assert(ks[j] == k);
                self.lemma_bucket(j);
            }
            assert(entries_view(out@) =~= self@);
        }
        out
    }

    /// The keys of the index, in ascending order.
    pub fn key_list(&self) -> (r: Vec<&str>)
        requires
            self.wf(),
        ensures
            ascending(str_views(r@)),
            str_views(r@).to_set() == self@.dom(),
    {
        let mut out: Vec<&str> = Vec::new();
        let mut i: usize = 0;
        while i < self.buckets.len()
            invariant
                i <= self.buckets.len(),
                out.len() == i,
                str_views(out@) == keys(self.buckets@).take(i as int),
            decreases self.buckets.len() - i,
        {
            let ghost prev = out@;
            out.push(self.buckets[i].key_str());
            assert forall|j: int| 0 <= j < i + 1 implies str_views(out@)[j] == keys(
                self.buckets@,
            ).take(i + 1)[j] by {
                if j < i {
                    assert(str_views(prev)[j] == keys(self.buckets@).take(i as int)[j]);
                }
            }
            assert(str_views(out@) =~= keys(self.buckets@).take(i + 1));
            i += 1;
        }
        assert(keys(self.buckets@).take(i as int) == keys(self.buckets@));
        assert(str_views(out@).to_set() =~= self@.dom());
        out
    }
}

/// A key of a secondary index with the paths filed under it, as plain values.
#[derive(Debug)]
pub struct IndexEntry {
    pub key: String,
    pub paths: Vec<String>,
}

/// The index that a vector of entries spells out.
pub open spec fn entries_view(v: Seq<IndexEntry>) -> Map<Seq<char>, Set<Seq<char>>> {
    Map::new(
        |k: Seq<char>| exists|i: int| 0 <= i < v.len() && (#[trigger] v[i]).key@ == k,
        |k: Seq<char>|
            keys(v[choose|i: int| 0 <= i < v.len() && (#[trigger] v[i]).key@ == k].paths@).to_set(),
    )
}

/// The keys of a vector of entries, in their order.
pub open spec fn entry_keys(v: Seq<IndexEntry>) -> Seq<Seq<char>> {
    Seq::new(v.len(), |i: int| v[i].key@)
}

/// The entries list an index in order: their keys ascend, the paths of each
/// ascend, and none is without a path.
pub open spec fn entries_in_order(v: Seq<IndexEntry>) -> bool {
    &&& ascending(entry_keys(v))
    &&& forall|i: int|
        0 <= i < v.len() ==> (#[trigger] v[i]).paths.len() > 0 && ascending(keys(v[i].paths@))
}

/// The views of a vector of string slices.
pub open spec fn str_views(v: Seq<&str>) -> Seq<Seq<char>> {
    Seq::new(v.len(), |i: int| v[i]@)
}

} // verus!
