//! The indexed store: repository records by path, with secondary indexes by
//! host, owner and repository name.

use crate::index::{
    entries_in_order, entries_view, index_add, index_remove, str_views, IndexEntry, SecondaryIndex,
};
use crate::order::{
    lemma_lex_asymmetric, lemma_lex_irreflexive, lemma_lex_prefix, lemma_prefix_range, lex_le,
    lex_lt, str_starts_with,
};
use crate::models::{Repo, RepoView};
use crate::sorted::{
    ascending, holds_at, keys, lemma_ascending_distinct, lemma_ascending_unique,
    lemma_contains_insert,
    lemma_contains_remove, lemma_insert_ascending, lemma_keys_insert, lemma_keys_remove,
    lemma_keys_update, lemma_remove_ascending, lower_bound, Keyed,
};
use vstd::prelude::*;

verus! {

/// A field of a record that has a secondary index.
#[derive(Debug, Clone, Copy, PartialEq, Eq, Structural)]
pub enum Field {
    Host,
    Owner,
    Repo,
}

/// The value of the field `f` in the record `r`.
pub open spec fn field_of(f: Field, r: RepoView) -> Seq<char> {
    match f {
        Field::Host => r.host,
        Field::Owner => r.owner,
        Field::Repo => r.repo,
    }
}

/// The secondary index that the records of `m` have for the field `f`: each
/// value that the field takes, with the paths of exactly the records in which
/// it takes that value.
pub open spec fn index_for(m: Map<Seq<char>, RepoView>, f: Field) -> Map<
    Seq<char>,
    Set<Seq<char>>,
> {
    Map::new(
        |k: Seq<char>| exists|p: Seq<char>| #[trigger] m.contains_key(p) && field_of(f, m[p]) == k,
        |k: Seq<char>| Set::new(|p: Seq<char>| m.contains_key(p) && field_of(f, m[p]) == k),
    )
}

/// A record that enters under a new path enters the index of each field.
pub proof fn lemma_index_for_insert(m: Map<Seq<char>, RepoView>, p: Seq<char>, r: RepoView, f: Field)
    requires
        !m.contains_key(p),
    ensures
        index_for(m.insert(p, r), f) == index_add(index_for(m, f), field_of(f, r), p),
{
    let m2 = m.insert(p, r);
    let k0 = field_of(f, r);
    let got = index_for(m2, f);
    let want = index_add(index_for(m, f), k0, p);
    assert(m2.contains_key(p) && field_of(f, m2[p]) == k0);
    assert forall|k: Seq<char>| #[trigger] got.contains_key(k) == want.contains_key(k) by {
        if got.contains_key(k) {
            let q = choose|q: Seq<char>| #[trigger] m2.contains_key(q) && field_of(f, m2[q]) == k;
            if q != p {
                assert(m.contains_key(q) && field_of(f, m[q]) == k);
            }
        }
        if want.contains_key(k) && k != k0 {
            let q = choose|q: Seq<char>| #[trigger] m.contains_key(q) && field_of(f, m[q]) == k;
            assert(m2.contains_key(q) && field_of(f, m2[q]) == k);
        }
    }
    assert forall|k: Seq<char>| #[trigger] got.contains_key(k) implies got[k] =~= want[k] by {
        if k == k0 {
            if !index_for(m, f).contains_key(k0) {
                assert forall|q: Seq<char>| m.contains_key(q) implies field_of(f, m[q]) != k0 by {
                    if field_of(f, m[q]) == k0 {
                        assert(index_for(m, f).contains_key(k0));
                    }
                }
            }
        }
    }
    assert(got =~= want);
}

/// A record that leaves the store leaves the index of each field.
pub proof fn lemma_index_for_remove(m: Map<Seq<char>, RepoView>, p: Seq<char>, f: Field)
    requires
        m.contains_key(p),
    ensures
        index_for(m.remove(p), f) == index_remove(index_for(m, f), field_of(f, m[p]), p),
{
    let m2 = m.remove(p);
    let k0 = field_of(f, m[p]);
    let ix = index_for(m, f);
    let got = index_for(m2, f);
    let want = index_remove(ix, k0, p);
    assert(ix.contains_key(k0));
    let rest = ix[k0].remove(p);
    assert forall|k: Seq<char>| #[trigger] got.contains_key(k) == want.contains_key(k) by {
        if got.contains_key(k) {
            let q = choose|q: Seq<char>| #[trigger] m2.contains_key(q) && field_of(f, m2[q]) == k;
            assert(m.contains_key(q) && field_of(f, m[q]) == k);
            if k == k0 {
                assert(rest.contains(q));
            }
        }
        if want.contains_key(k) {
            if k == k0 {
                assert(!rest.is_empty());
                let q = choose|q: Seq<char>| rest.contains(q);
                assert(m2.contains_key(q) && field_of(f, m2[q]) == k);
            } else {
                let q = choose|q: Seq<char>| #[trigger]
                    m.contains_key(q) && field_of(f, m[q]) == k;
                assert(m2.contains_key(q) && field_of(f, m2[q]) == k);
            }
        }
    }
    assert forall|k: Seq<char>| #[trigger] got.contains_key(k) implies got[k] =~= want[k] by {
    }
    assert(got =~= want);
}

/// A change of the store.
pub enum StoreOp {
    /// The record is kept under its path.
    Insert(RepoView),
    /// The record under the path is taken out.
    Remove(Seq<char>),
}

/// The store after the change `op`.
pub open spec fn apply_op(m: Map<Seq<char>, RepoView>, op: StoreOp) -> Map<Seq<char>, RepoView> {
    match op {
        StoreOp::Insert(r) => m.insert(r.full_path, r),
        StoreOp::Remove(p) => m.remove(p),
    }
}

/// The store that the changes `ops`, made in their order, leave of an empty
/// store.
pub open spec fn apply_ops(ops: Seq<StoreOp>) -> Map<Seq<char>, RepoView>
    decreases ops.len(),
{
    if ops.len() == 0 {
        Map::empty()
    } else {
        apply_op(apply_ops(ops.drop_last()), ops.last())
    }
}

/// The paths that were inserted by `ops` and not removed afterwards.
pub open spec fn live_paths(ops: Seq<StoreOp>) -> Set<Seq<char>>
    decreases ops.len(),
{
    if ops.len() == 0 {
        Set::empty()
    } else {
        match ops.last() {
            StoreOp::Insert(r) => live_paths(ops.drop_last()).insert(r.full_path),
            StoreOp::Remove(p) => live_paths(ops.drop_last()).remove(p),
        }
    }
}

/// After any changes the store holds exactly the paths that were inserted and
/// not removed afterwards, so its size is their number; each record stands
/// under its own path; and the index of each field holds under a value
/// exactly the paths of the records that have the value, and no value without
/// a path.
pub proof fn lemma_store_after_ops(ops: Seq<StoreOp>)
    ensures
        apply_ops(ops).dom() == live_paths(ops),
        live_paths(ops).finite(),
        apply_ops(ops).dom().len() == live_paths(ops).len(),
        forall|p: Seq<char>| #[trigger]
            apply_ops(ops).contains_key(p) ==> apply_ops(ops)[p].full_path == p,
        forall|f: Field, k: Seq<char>, p: Seq<char>|
            (#[trigger] index_for(apply_ops(ops), f).contains_key(k) && #[trigger] index_for(
                apply_ops(ops),
                f,
            )[k].contains(p)) <==> (apply_ops(ops).contains_key(p) && field_of(
                f,
                apply_ops(ops)[p],
            ) == k),
        forall|f: Field, k: Seq<char>| #[trigger]
            index_for(apply_ops(ops), f).contains_key(k) ==> !index_for(apply_ops(ops), f)[k].is_empty(),
    decreases ops.len(),
{
    let m = apply_ops(ops);
    if ops.len() > 0 {
        lemma_store_after_ops(ops.drop_last());
    }
    assert(m.dom() =~= live_paths(ops));
    assert forall|f: Field, k: Seq<char>| #[trigger] index_for(m, f).contains_key(k) implies !index_for(
        m,
        f,
    )[k].is_empty() by {
        let p = choose|p: Seq<char>| #[trigger] m.contains_key(p) && field_of(f, m[p]) == k;
        assert(index_for(m, f)[k].contains(p));
    }
}

/// Storing under a path makes the store larger by one record where the path
/// is new, and leaves its size where the path was held.
pub proof fn lemma_size_after_insert(m: Map<Seq<char>, RepoView>, p: Seq<char>, r: RepoView)
    requires
        m.dom().finite(),
    ensures
        m.insert(p, r).dom().finite(),
        m.insert(p, r).dom().len() == m.dom().len() + if m.contains_key(p) {
            0int
        } else {
            1int
        },
{
    assert(m.insert(p, r).dom() =~= m.dom().insert(p));
}

/// Removing a path makes the store smaller by one record where the path was
/// held, and leaves its size where it was not.
pub proof fn lemma_size_after_remove(m: Map<Seq<char>, RepoView>, p: Seq<char>)
    requires
        m.dom().finite(),
    ensures
        m.remove(p).dom().finite(),
        m.remove(p).dom().len() == m.dom().len() - if m.contains_key(p) {
            1int
        } else {
            0int
        },
{
    assert(m.remove(p).dom() =~= m.dom().remove(p));
}

/// Which records a listing holds.
pub enum Selector {
    /// Every record.
    All,
    /// The records whose path starts with the given text.
    PathPrefix(Seq<char>),
    /// The records in which the field has the given value.
    FieldIs(Field, Seq<char>),
}

/// Whether a listing for `sel` holds the record `r`.
pub open spec fn selects(sel: Selector, r: RepoView) -> bool {
    match sel {
        Selector::All => true,
        Selector::PathPrefix(p) => p.is_prefix_of(r.full_path),
        Selector::FieldIs(f, v) => field_of(f, r) == v,
    }
}

/// The paths of `out`, in the order of the records.
pub open spec fn paths(out: Seq<RepoView>) -> Seq<Seq<char>> {
    Seq::new(out.len(), |i: int| out[i].full_path)
}

/// `out` holds, in ascending order of path, exactly the records of `m` that
/// `sel` selects.
pub open spec fn is_listing(out: Seq<RepoView>, m: Map<Seq<char>, RepoView>, sel: Selector) -> bool {
    &&& ascending(paths(out))
    &&& forall|i: int|
        0 <= i < out.len() ==> m.contains_key((#[trigger] out[i]).full_path) && m[out[i].full_path]
            == out[i] && selects(sel, out[i])
    &&& forall|p: Seq<char>| #[trigger]
        m.contains_key(p) && selects(sel, m[p]) ==> paths(out).contains(p)
}

/// A store has one listing for a selector, and no other.
pub proof fn lemma_listing_unique(
    a: Seq<RepoView>,
    b: Seq<RepoView>,
    m: Map<Seq<char>, RepoView>,
    sel: Selector,
)
    requires
        is_listing(a, m, sel),
        is_listing(b, m, sel),
    ensures
        a == b,
{
    let pa = paths(a);
    let pb = paths(b);
    assert forall|i: int| 0 <= i < pa.len() implies pb.contains(#[trigger] pa[i]) by {
        assert(m.contains_key(a[i].full_path));
    }
    assert forall|i: int| 0 <= i < pb.len() implies pa.contains(#[trigger] pb[i]) by {
        assert(m.contains_key(b[i].full_path));
    }
    lemma_ascending_unique(pa, pb);
    assert(a.len() == pa.len() && b.len() == pb.len());
    assert forall|i: int| 0 <= i < a.len() implies a[i] == b[i] by {
        assert(pa[i] == a[i].full_path);
        assert(pb[i] == b[i].full_path);
    }
    assert(a =~= b);
}

/// The listing of a whole store has as many records as the store.
pub proof fn lemma_listing_len(out: Seq<RepoView>, m: Map<Seq<char>, RepoView>)
    requires
        is_listing(out, m, Selector::All),
    ensures
        m.dom().finite(),
        out.len() == m.dom().len(),
{
    let ps = paths(out);
    assert(m.dom() =~= ps.to_set()) by {
        assert forall|p: Seq<char>| m.dom().contains(p) <==> ps.to_set().contains(p) by {
            if ps.contains(p) {
                let i = choose|i: int| 0 <= i < ps.len() && ps[i] == p;
                assert(m.contains_key(out[i].full_path));
            }
            if m.contains_key(p) {
                assert(selects(Selector::All, m[p]));
            }
        }
    }
    assert(ps.no_duplicates()) by {
        assert forall|i: int, j: int|
            0 <= i < ps.len() && 0 <= j < ps.len() && i != j implies ps[i] != ps[j] by {
            if ps[i] == ps[j] {
                lemma_ascending_distinct(ps, i, j);
            }
        }
    }
    ps.unique_seq_to_set();
    vstd::seq_lib::seq_to_set_is_finite(ps);
}

/// The values of a vector of records.
pub open spec fn repo_views(v: Seq<Repo>) -> Seq<RepoView> {
    Seq::new(v.len(), |i: int| v[i]@)
}

/// The values of a vector of borrowed records.
pub open spec fn ref_views(v: Seq<&Repo>) -> Seq<RepoView> {
    Seq::new(v.len(), |i: int| v[i]@)
}

/// The store that holds the records of `records`, a later one in place of an
/// earlier one with the same path.
pub open spec fn map_from(records: Seq<RepoView>) -> Map<Seq<char>, RepoView>
    decreases records.len(),
{
    if records.len() == 0 {
        Map::empty()
    } else {
        map_from(records.drop_last()).insert(records.last().full_path, records.last())
    }
}

/// The indexed store.
#[derive(Debug)]
pub struct IndexedRecords {
    records: Vec<Repo>,
    host_index: SecondaryIndex,
    owner_index: SecondaryIndex,
    repo_index: SecondaryIndex,
}

impl View for IndexedRecords {
    type V = Map<Seq<char>, RepoView>;

    /// The primary index: from each path to the record kept under it.
    closed spec fn view(&self) -> Map<Seq<char>, RepoView> {
        Map::new(
            |p: Seq<char>| keys(self.records@).contains(p),
            |p: Seq<char>| self.records@[keys(self.records@).index_of(p)]@,
        )
    }
}

impl IndexedRecords {
    /// The secondary index that the store keeps for the field `f`.
    pub closed spec fn index(&self, f: Field) -> Map<Seq<char>, Set<Seq<char>>> {
        match f {
            Field::Host => self.host_index@,
            Field::Owner => self.owner_index@,
            Field::Repo => self.repo_index@,
        }
    }

    /// The representation is sound: the records ascend by path, each may be
    /// stored, and each secondary index is the one that the records give.
    pub closed spec fn wf(&self) -> bool {
        &&& ascending(keys(self.records@))
        &&& forall|i: int| 0 <= i < self.records.len() ==> (#[trigger] self.records@[i]@).is_valid()
        &&& self.host_index.wf()
        &&& self.owner_index.wf()
        &&& self.repo_index.wf()
        &&& self.host_index@ == index_for(self@, Field::Host)
        &&& self.owner_index@ == index_for(self@, Field::Owner)
        &&& self.repo_index@ == index_for(self@, Field::Repo)
    }

    /// The record at `i` is the entry of the view under its path.
    proof fn lemma_record(&self, i: int)
        requires
            ascending(keys(self.records@)),
            0 <= i < self.records.len(),
        ensures
            self@.contains_key(self.records@[i]@.full_path),
            self@[self.records@[i]@.full_path] == self.records@[i]@,
    {
        let ks = keys(self.records@);
        let k = self.records@[i].key();
        assert(ks[i] == k);
        lemma_ascending_distinct(ks, ks.index_of(k), i);
    }

    /// What holds of every well-formed store: each record is kept under its own
    /// path and may be stored, the store is finite, and every secondary index
    /// holds under each value exactly the paths of the records with that value.
    pub proof fn lemma_wf(&self)
        requires
            self.wf(),
        ensures
            self@.dom().finite(),
            forall|p: Seq<char>| #[trigger]
                self@.contains_key(p) ==> self@[p].full_path == p && self@[p].is_valid(),
            forall|f: Field| #[trigger] self.index(f) == index_for(self@, f),
    {
        let ks = keys(self.records@);
        assert(self@.dom() =~= ks.to_set());
        vstd::seq_lib::seq_to_set_is_finite(ks);
        assert forall|p: Seq<char>| #[trigger] self@.contains_key(p) implies self@[p].full_path
            == p && self@[p].is_valid() by {
            let i = ks.index_of(p);
            assert(ks[i] == p);
            assert(self.records@[i]@.is_valid());
        }
        assert forall|f: Field| #[trigger] self.index(f) == index_for(self@, f) by {
            match f {
                Field::Host => {},
                Field::Owner => {},
                Field::Repo => {},
            }
        }
    }

    /// The empty store.
    pub fn new() -> (s: IndexedRecords)
        ensures
            s.wf(),
            s@ == Map::<Seq<char>, RepoView>::empty(),
    {
        let s = IndexedRecords {
            records: Vec::new(),
            host_index: SecondaryIndex::new(),
            owner_index: SecondaryIndex::new(),
            repo_index: SecondaryIndex::new(),
        };
        assert(s@ =~= Map::<Seq<char>, RepoView>::empty());
        assert(index_for(s@, Field::Host) =~= Map::<Seq<char>, Set<Seq<char>>>::empty());
        assert(index_for(s@, Field::Owner) =~= Map::<Seq<char>, Set<Seq<char>>>::empty());
        assert(index_for(s@, Field::Repo) =~= Map::<Seq<char>, Set<Seq<char>>>::empty());
        s
    }

    /// Drops every record and every entry of the secondary indexes.
    pub fn reset(&mut self)
        ensures
            final(self).wf(),
            final(self)@ == Map::<Seq<char>, RepoView>::empty(),
    {
        *self = IndexedRecords::new();
    }

    /// The secondary index of the field `f` as plain values: an entry for each
    /// value that the field takes, in ascending order, with the paths of the
    /// records that have the value, in ascending order.
    pub fn index_entries(&self, f: Field) -> (r: Vec<IndexEntry>)
        requires
            self.wf(),
        ensures
            entries_in_order(r@),
            entries_view(r@) == index_for(self@, f),
    {
        self.index_ref(f).entries()
    }

    /// The number of records.
    pub fn size(&self) -> (n: usize)
        requires
            self.wf(),
        ensures
            n == self@.dom().len(),
    {
        proof {
            let ks = keys(self.records@);
            assert(self@.dom() =~= ks.to_set());
            assert(ks.no_duplicates()) by {
                assert forall|i: int, j: int|
                    0 <= i < ks.len() && 0 <= j < ks.len() && i != j implies ks[i] != ks[j] by {
                    if ks[i] == ks[j] {
                        lemma_ascending_distinct(ks, i, j);
                    }
                }
            }
            ks.unique_seq_to_set();
        }
        self.records.len()
    }

    /// The record kept under `path`.
    pub fn get(&self, path: &str) -> (r: Option<&Repo>)
        requires
            self.wf(),
        ensures
            r is Some == self@.contains_key(path@),
            r matches Some(x) ==> x@ == self@[path@],
    {
        let pos = lower_bound(&self.records, path);
        if holds_at(&self.records, path, pos) {
            proof {
                self.lemma_record(pos as int);
            }
            Some(&self.records[pos])
        } else {
            None
        }
    }

    /// The records in ascending order of path.
    pub fn records(&self) -> (r: &Vec<Repo>)
        requires
            self.wf(),
        ensures
            is_listing(repo_views(r@), self@, Selector::All),
    {
        proof {
            let out = repo_views(self.records@);
            assert(paths(out) =~= keys(self.records@));
            assert forall|i: int| 0 <= i < out.len() implies self@.contains_key(
                (#[trigger] out[i]).full_path,
            ) && self@[out[i].full_path] == out[i] by {
                self.lemma_record(i);
            }
        }
        &self.records
    }

    /// A copy of every record, in ascending order of path.
    pub fn get_all_sorted(&self) -> (r: Vec<Repo>)
        requires
            self.wf(),
        ensures
            is_listing(repo_views(r@), self@, Selector::All),
    {
        let all = self.records();
        let mut out: Vec<Repo> = Vec::new();
        let mut i: usize = 0;
        while i < all.len()
            invariant
                i <= all.len(),
                out.len() == i,
                forall|j: int| 0 <= j < i ==> out@[j]@ == all@[j]@,
            decreases all.len() - i,
        {
            out.push(all[i].clone());
            i += 1;
        }
        assert(repo_views(out@) =~= repo_views(all@));
        out
    }

    /// The records whose path starts with `prefix`, in ascending order of path.
    pub fn get_by_prefix(&self, prefix: &str) -> (r: Vec<&Repo>)
        requires
            self.wf(),
        ensures
            is_listing(ref_views(r@), self@, Selector::PathPrefix(prefix@)),
    {
        let ghost ks = keys(self.records@);
        let start = lower_bound(&self.records, prefix);
        let mut out: Vec<&Repo> = Vec::new();
        let mut i: usize = start;
        while i < self.records.len() && str_starts_with(self.records[i].key_str(), prefix)
            invariant
                start <= i <= self.records.len(),
                out.len() == i - start,
                forall|j: int| 0 <= j < out.len() ==> *out@[j] == self.records@[start + j],
                forall|j: int| start <= j < i ==> prefix@.is_prefix_of(#[trigger] ks[j]),
                ks == keys(self.records@),
            decreases self.records.len() - i,
        {
            assert(ks[i as int] == self.records@[i as int].key());
            out.push(&self.records[i]);
            i += 1;
        }
        proof {
            let res = ref_views(out@);
            let sel = Selector::PathPrefix(prefix@);
            assert forall|j: int| 0 <= j < res.len() implies paths(res)[j] == ks[start + j] by {
                assert(*out@[j] == self.records@[start + j]);
            }
            assert(ascending(paths(res))) by {
                assert forall|a: int, b: int| 0 <= a < b < res.len() implies lex_lt(
                    paths(res)[a],
                    paths(res)[b],
                ) by {
                    assert(lex_lt(ks[start + a], ks[start + b]));
                }
            }
            assert forall|j: int| 0 <= j < res.len() implies self@.contains_key(
                (#[trigger] res[j]).full_path,
            ) && self@[res[j].full_path] == res[j] && selects(sel, res[j]) by {
                assert(*out@[j] == self.records@[start + j]);
                self.lemma_record(start + j);
                assert(prefix@.is_prefix_of(ks[start + j]));
            }
            assert forall|p: Seq<char>| #[trigger]
                self@.contains_key(p) && selects(sel, self@[p]) implies paths(res).contains(p) by {
                let k = ks.index_of(p);
                assert(ks[k] == p);
                self.lemma_record(k);
                lemma_lex_prefix(prefix@, p);
                if k < start {
                    assert(lex_lt(ks[k], prefix@));
                    lemma_lex_irreflexive(p);
                    if prefix@ != p {
                        lemma_lex_asymmetric(prefix@, p);
                    }
                }
                if k >= i {
                    assert(ks[i as int] == self.records@[i as int].key());
                    assert(lex_le(prefix@, ks[i as int]));
                    if k > i {
                        assert(lex_lt(ks[i as int], ks[k]));
                        lemma_prefix_range(prefix@, ks[i as int], p);
                    }
                }
                assert(paths(res)[k - start] == p);
            }
        }
        out
    }

    fn index_ref(&self, f: Field) -> (ix: &SecondaryIndex)
        requires
            self.wf(),
        ensures
            ix.wf(),
            ix@ == index_for(self@, f),
    {
        match f {
            Field::Host => &self.host_index,
            Field::Owner => &self.owner_index,
            Field::Repo => &self.repo_index,
        }
    }

    /// The records in which the field `f` has the value `value`, found through
    /// the secondary index of the field.
    pub fn get_by_field(&self, f: Field, value: &str) -> (r: Vec<&Repo>)
        requires
            self.wf(),
        ensures
            is_listing(ref_views(r@), self@, Selector::FieldIs(f, value@)),
    {
        let ghost m = self@;
        let ghost sel = Selector::FieldIs(f, value@);
        let mut out: Vec<&Repo> = Vec::new();
        match self.index_ref(f).paths_of(value) {
            None => {
                proof {
                    assert forall|p: Seq<char>| #[trigger]
                        m.contains_key(p) && selects(sel, m[p]) implies false by {
                        assert(index_for(m, f).contains_key(value@));
                    }
                }
            },
            Some(found) => {
                let ghost pks = keys(found@);
                let mut i: usize = 0;
                while i < found.len()
                    invariant
                        self.wf(),
                        m == self@,
                        pks == keys(found@),
                        pks.to_set() == index_for(m, f)[value@],
                        index_for(m, f).contains_key(value@),
                        i <= found.len(),
                        out.len() == i,
                        forall|j: int|
                            0 <= j < i ==> m.contains_key(#[trigger] pks[j]) && out@[j]@
                                == m[pks[j]] && out@[j]@.full_path == pks[j],
                    decreases found.len() - i,
                {
                    let path = found[i].as_str();
                    proof {
                        assert(pks[i as int] == path@);
                        assert(pks.to_set().contains(path@));
                        self.lemma_wf();
                    }
                    match self.get(path) {
                        Some(record) => {
                            out.push(record);
                        },
                        None => {
                            assert(false);
                        },
                    }
                    i += 1;
                }
                proof {
                    let res = ref_views(out@);
                    assert(paths(res) =~= pks);
                    assert forall|j: int| 0 <= j < res.len() implies m.contains_key(
                        (#[trigger] res[j]).full_path,
                    ) && m[res[j].full_path] == res[j] && selects(sel, res[j]) by {
                        assert(m.contains_key(pks[j]));
                        assert(pks.to_set().contains(pks[j]));
                    }
                    assert forall|p: Seq<char>| #[trigger]
                        m.contains_key(p) && selects(sel, m[p]) implies paths(res).contains(p) by {
                        assert(index_for(m, f)[value@].contains(p));
                        assert(pks.to_set().contains(p));
                    }
                }
            },
        }
        out
    }

    /// The records of the host `host`, in ascending order of path.
    pub fn get_by_host(&self, host: &str) -> (r: Vec<&Repo>)
        requires
            self.wf(),
        ensures
            is_listing(ref_views(r@), self@, Selector::FieldIs(Field::Host, host@)),
    {
        self.get_by_field(Field::Host, host)
    }

    /// The records of the owner `owner`, in ascending order of path.
    pub fn get_by_owner(&self, owner: &str) -> (r: Vec<&Repo>)
        requires
            self.wf(),
        ensures
            is_listing(ref_views(r@), self@, Selector::FieldIs(Field::Owner, owner@)),
    {
        self.get_by_field(Field::Owner, owner)
    }

    /// The records of the repository name `repo`, in ascending order of path.
    pub fn get_by_repo(&self, repo: &str) -> (r: Vec<&Repo>)
        requires
            self.wf(),
        ensures
            is_listing(ref_views(r@), self@, Selector::FieldIs(Field::Repo, repo@)),
    {
        self.get_by_field(Field::Repo, repo)
    }

    /// The hosts of the records, each once, in ascending order.
    pub fn get_all_hosts(&self) -> (r: Vec<&str>)
        requires
            self.wf(),
        ensures
            ascending(str_views(r@)),
            str_views(r@).to_set() == index_for(self@, Field::Host).dom(),
    {
        self.index_ref(Field::Host).key_list()
    }

    /// The owners of the records, each once, in ascending order.
    pub fn get_all_owners(&self) -> (r: Vec<&str>)
        requires
            self.wf(),
        ensures
            ascending(str_views(r@)),
            str_views(r@).to_set() == index_for(self@, Field::Owner).dom(),
    {
        self.index_ref(Field::Owner).key_list()
    }

    /// The repository names of the records, each once, in ascending order.
    pub fn get_all_repos(&self) -> (r: Vec<&str>)
        requires
            self.wf(),
        ensures
            ascending(str_views(r@)),
            str_views(r@).to_set() == index_for(self@, Field::Repo).dom(),
    {
        self.index_ref(Field::Repo).key_list()
    }

    /// The store that holds the given records, a later one in place of an
    /// earlier one with the same path.
    pub fn from_vec(records: Vec<Repo>) -> (s: IndexedRecords)
        requires
            forall|i: int| 0 <= i < records.len() ==> (#[trigger] records@[i]@).is_valid(),
        ensures
            s.wf(),
            s@ == map_from(repo_views(records@)),
    {
        let mut s = IndexedRecords::new();
        let ghost all = repo_views(records@);
        let mut i: usize = 0;
        assert(all.take(0) =~= Seq::<RepoView>::empty());
        while i < records.len()
            invariant
                i <= records.len(),
                all == repo_views(records@),
                forall|j: int| 0 <= j < records.len() ==> (#[trigger] records@[j]@).is_valid(),
                s.wf(),
                s@ == map_from(all.take(i as int)),
            decreases records.len() - i,
        {
            proof {
                assert(all.take(i + 1).drop_last() =~= all.take(i as int));
                assert(all.take(i + 1).last() == records@[i as int]@);
            }
            s.add(records[i].clone());
            i += 1;
        }
        assert(all.take(i as int) =~= all);
        s
    }

    /// Keeps `record` under `path`, in place of the record that was kept there
    /// if there was one, and brings the secondary indexes up to date.
    pub fn insert(&mut self, path: &str, record: Repo)
        requires
            old(self).wf(),
            record@.is_valid(),
            record@.full_path == path@,
        ensures
            final(self).wf(),
            final(self)@ == old(self)@.insert(path@, record@),
    {
        let ghost before = *self;
        let ghost m = before@;
        let ghost ks = keys(self.records@);
        let pos = lower_bound(&self.records, path);
        if holds_at(&self.records, path, pos) {
            proof {
                before.lemma_record(pos as int);
                lemma_index_for_remove(m, path@, Field::Host);
                lemma_index_for_remove(m, path@, Field::Owner);
                lemma_index_for_remove(m, path@, Field::Repo);
            }
            self.host_index.remove(self.records[pos].host.as_str(), path);
            self.owner_index.remove(self.records[pos].owner.as_str(), path);
            self.repo_index.remove(self.records[pos].repo.as_str(), path);
            proof {
                let m1 = m.remove(path@);
                lemma_index_for_insert(m1, path@, record@, Field::Host);
                lemma_index_for_insert(m1, path@, record@, Field::Owner);
                lemma_index_for_insert(m1, path@, record@, Field::Repo);
                assert(m1.insert(path@, record@) =~= m.insert(path@, record@));
            }
            self.host_index.add(record.host.as_str(), path);
            self.owner_index.add(record.owner.as_str(), path);
            self.repo_index.add(record.repo.as_str(), path);
            self.records[pos] = record;
            proof {
                assert(self.records@ == before.records@.update(pos as int, record));
                lemma_keys_update(before.records@, pos as int, record);
                assert forall|p: Seq<char>| #[trigger] self@.contains_key(p) implies self@[p]
                    == m.insert(path@, record@)[p] by {
                    let i = ks.index_of(p);
                    if p == path@ {
                        lemma_ascending_distinct(ks, i, pos as int);
                    }
                }
                assert(self@ =~= m.insert(path@, record@));
                assert forall|i: int| 0 <= i < self.records.len() implies (
                #[trigger] self.records@[i]@).is_valid() by {
                    if i != pos {
                        assert(self.records@[i] == before.records@[i]);
                    }
                }
            }
        } else {
            proof {
                lemma_index_for_insert(m, path@, record@, Field::Host);
                lemma_index_for_insert(m, path@, record@, Field::Owner);
                lemma_index_for_insert(m, path@, record@, Field::Repo);
            }
            self.host_index.add(record.host.as_str(), path);
            self.owner_index.add(record.owner.as_str(), path);
            self.repo_index.add(record.repo.as_str(), path);
            self.records.insert(pos, record);
            proof {
                lemma_keys_insert(before.records@, pos as int, record);
                lemma_insert_ascending(ks, path@, pos as int);
                let want = m.insert(path@, record@);
                assert forall|p: Seq<char>| #[trigger]
                    self@.contains_key(p) == want.contains_key(p) by {
                    lemma_contains_insert(ks, pos as int, path@, p);
                }
                assert forall|p: Seq<char>| #[trigger] self@.contains_key(p) implies self@[p]
                    == want[p] by {
                    lemma_contains_insert(ks, pos as int, path@, p);
                    if p == path@ {
                        self.lemma_record(pos as int);
                    } else {
                        let i = ks.index_of(p);
                        let j = if i < pos {
                            i
                        } else {
                            i + 1
                        };
                        assert(self.records@[j] == before.records@[i]);
                        before.lemma_record(i);
                        self.lemma_record(j);
                    }
                }
                assert(self@ =~= want);
                assert forall|i: int| 0 <= i < self.records.len() implies (
                #[trigger] self.records@[i]@).is_valid() by {
                    if i < pos {
                        assert(self.records@[i] == before.records@[i]);
                    } else if i > pos {
                        assert(self.records@[i] == before.records@[i - 1]);
                    }
                }
            }
        }
    }

    /// Keeps `record` under its own path.
    pub fn add(&mut self, record: Repo)
        requires
            old(self).wf(),
            record@.is_valid(),
        ensures
            final(self).wf(),
            final(self)@ == old(self)@.insert(record@.full_path, record@),
    {
        let path = record.full_path.clone();
        self.insert(path.as_str(), record);
    }

    /// Takes the record under `path` out of the store and of the secondary
    /// indexes. Returns whether there was one.
    pub fn remove(&mut self, path: &str) -> (existed: bool)
        requires
            old(self).wf(),
        ensures
            final(self).wf(),
            existed == old(self)@.contains_key(path@),
            final(self)@ == old(self)@.remove(path@),
    {
        let ghost before = *self;
        let ghost m = before@;
        let ghost ks = keys(self.records@);
        let pos = lower_bound(&self.records, path);
        if holds_at(&self.records, path, pos) {
            proof {
                before.lemma_record(pos as int);
                lemma_index_for_remove(m, path@, Field::Host);
                lemma_index_for_remove(m, path@, Field::Owner);
                lemma_index_for_remove(m, path@, Field::Repo);
            }
            let record = self.records.remove(pos);
            self.host_index.remove(record.host.as_str(), path);
            self.owner_index.remove(record.owner.as_str(), path);
            self.repo_index.remove(record.repo.as_str(), path);
            proof {
                lemma_keys_remove(before.records@, pos as int);
                lemma_remove_ascending(ks, pos as int);
                let want = m.remove(path@);
                assert forall|p: Seq<char>| #[trigger]
                    self@.contains_key(p) == want.contains_key(p) by {
                    lemma_contains_remove(ks, pos as int, p);
                }
                assert forall|p: Seq<char>| #[trigger] self@.contains_key(p) implies self@[p]
                    == want[p] by {
                    lemma_contains_remove(ks, pos as int, p);
                    let i = ks.index_of(p);
                    let j = if i < pos {
                        i
                    } else {
                        i - 1
                    };
                    assert(self.records@[j] == before.records@[i]);
                    before.lemma_record(i);
                    self.lemma_record(j);
                }
                assert(self@ =~= want);
                assert forall|i: int| 0 <= i < self.records.len() implies (
                #[trigger] self.records@[i]@).is_valid() by {
                    let j = if i < pos {
                        i
                    } else {
                        i + 1
                    };
                    assert(self.records@[i] == before.records@[j]);
                }
            }
            true
        } else {
            assert(self@ =~= m.remove(path@));
            false
        }
    }
}

} // verus!
