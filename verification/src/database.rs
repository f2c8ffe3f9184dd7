//! The database: the indexed store with its format version and the time of
//! the last sync, and the plain form in which it is persisted.

use crate::index_records::{
    is_listing, lemma_listing_len, map_from, paths, repo_views, IndexedRecords, Selector,
};
use crate::matching::normalized_keyword;
use crate::models::{Repo, RepoView, Timestamp};
use crate::order::lex_lt;
use crate::ranking::{is_ranking, match_views, rank_records, RankedMatch};
use crate::sorted::{ascending, lemma_ascending_distinct};
use vstd::prelude::*;

verus! {

/// The version of the persisted format: `1.0`.
pub open spec fn current_version() -> Seq<char> {
    "1.0"@
}

/// The mathematical value of a database.
pub struct DataView {
    /// The format version.
    pub version: Seq<char>,
    /// The primary index of the store.
    pub records: Map<Seq<char>, RepoView>,
    /// When the store was last rebuilt by a sync.
    pub last_sync_time: Option<Timestamp>,
}

/// The database without records, never synced.
pub open spec fn fresh() -> DataView {
    DataView { version: current_version(), records: Map::empty(), last_sync_time: None }
}

/// The record that is kept for a repository recorded at the time `now`, where
/// `before` is the record that was kept under the path until then. The time of
/// creation stays that of the earlier record; the time of update is `now`, or
/// the time of creation where the clock stands before it.
pub open spec fn record_for(
    before: Option<RepoView>,
    base_dir: Seq<char>,
    remote_url: Seq<char>,
    host: Seq<char>,
    repo: Seq<char>,
    owner: Seq<char>,
    full_path: Seq<char>,
    now: Timestamp,
) -> RepoView {
    let created_at = match before {
        Some(r) => r.created_at,
        None => now,
    };
    RepoView {
        created_at,
        updated_at: created_at.max(now),
        host,
        repo,
        owner,
        remote_url,
        base_dir,
        full_path,
    }
}

/// The entry of `m` under `p`, if there is one.
pub open spec fn lookup(m: Map<Seq<char>, RepoView>, p: Seq<char>) -> Option<RepoView> {
    if m.contains_key(p) {
        Some(m[p])
    } else {
        None
    }
}

/// The store after a repository was recorded at the time `now`.
pub open spec fn recorded(
    m: Map<Seq<char>, RepoView>,
    base_dir: Seq<char>,
    remote_url: Seq<char>,
    host: Seq<char>,
    repo: Seq<char>,
    owner: Seq<char>,
    full_path: Seq<char>,
    now: Timestamp,
) -> Map<Seq<char>, RepoView> {
    m.insert(
        full_path,
        record_for(lookup(m, full_path), base_dir, remote_url, host, repo, owner, full_path, now),
    )
}

/// The current time.
///
/// Wraps `chrono::Utc::now` and gives its result as seconds and nanoseconds
/// since the epoch. Nothing is promised of the value: a clock may stand
/// anywhere, and may go back.
#[verifier::external_body]
pub(crate) fn now() -> (t: Timestamp) {
    let t = chrono::Utc::now();
    Timestamp { secs: t.timestamp(), nanos: t.timestamp_subsec_nanos() }
}

/// The plain form of a database, as it is written to and read from a file.
#[derive(Debug)]
pub struct Snapshot {
    pub version: String,
    pub records: Vec<Repo>,
    pub last_sync_time: Option<Timestamp>,
}

/// The mathematical value of a `Snapshot`.
pub struct SnapshotView {
    pub version: Seq<char>,
    pub records: Seq<RepoView>,
    pub last_sync_time: Option<Timestamp>,
}

impl View for Snapshot {
    type V = SnapshotView;

    open spec fn view(&self) -> SnapshotView {
        SnapshotView {
            version: self.version@,
            records: repo_views(self.records@),
            last_sync_time: self.last_sync_time,
        }
    }
}

/// Why a snapshot does not restore.
#[derive(Debug, Clone, Copy, PartialEq, Eq, Structural)]
pub enum LoadError {
    /// The record at `index` may not be stored: it lacks a host or an owner,
    /// or was updated before it was created.
    InvalidRecord { index: usize },
}

/// The least index of a record of `records` that may not be stored.
pub open spec fn first_invalid(records: Seq<RepoView>, i: int) -> bool {
    &&& 0 <= i < records.len()
    &&& !records[i].is_valid()
    &&& forall|j: int| 0 <= j < i ==> (#[trigger] records[j]).is_valid()
}

/// Every record of `records` may be stored.
pub open spec fn all_valid(records: Seq<RepoView>) -> bool {
    forall|i: int| 0 <= i < records.len() ==> (#[trigger] records[i]).is_valid()
}

/// `s` is the snapshot of `d`: it has the version and the time of the last
/// sync of `d`, and its records are the listing of the store.
pub open spec fn is_snapshot_of(s: SnapshotView, d: DataView) -> bool {
    &&& s.version == d.version
    &&& s.last_sync_time == d.last_sync_time
    &&& is_listing(s.records, d.records, Selector::All)
}

/// The database that a snapshot of valid records restores to. Where two
/// records have one path, the later one is kept.
pub open spec fn restored(s: SnapshotView) -> DataView {
    DataView {
        version: s.version,
        records: map_from(s.records),
        last_sync_time: s.last_sync_time,
    }
}

/// The listing of a store restores to the store.
pub proof fn lemma_map_from_listing(recs: Seq<RepoView>, m: Map<Seq<char>, RepoView>)
    requires
        is_listing(recs, m, Selector::All),
        forall|p: Seq<char>| #[trigger] m.contains_key(p) ==> m[p].full_path == p,
    ensures
        map_from(recs) == m,
    decreases recs.len(),
{
    if recs.len() == 0 {
        assert forall|p: Seq<char>| !m.contains_key(p) by {
            if m.contains_key(p) {
                assert(paths(recs).contains(p));
            }
        }
        assert(m =~= Map::<Seq<char>, RepoView>::empty());
    } else {
        let init = recs.drop_last();
        let last = recs.last();
        let n = recs.len() - 1;
        let last_path = last.full_path;
        let m1 = m.remove(last_path);
        assert(paths(recs)[n] == last_path);
        assert(is_listing(init, m1, Selector::All)) by {
            assert(ascending(paths(init))) by {
                assert forall|i: int, j: int| 0 <= i < j < init.len() implies lex_lt(
                    #[trigger] paths(init)[i],
                    #[trigger] paths(init)[j],
                ) by {
                    assert(paths(init)[i] == paths(recs)[i] && paths(init)[j] == paths(recs)[j]);
                }
            }
            assert forall|i: int| 0 <= i < init.len() implies m1.contains_key(
                (#[trigger] init[i]).full_path,
            ) && m1[init[i].full_path] == init[i] by {
                assert(init[i] == recs[i]);
                assert(paths(recs)[i] == recs[i].full_path);
                if recs[i].full_path == last_path {
                    lemma_ascending_distinct(paths(recs), i, n);
                }
            }
            assert forall|p: Seq<char>| #[trigger] m1.contains_key(p) implies paths(
                init,
            ).contains(p) by {
                assert(m.contains_key(p));
                assert(paths(recs).contains(p));
                let i = choose|i: int| 0 <= i < paths(recs).len() && paths(recs)[i] == p;
                assert(i < n);
                assert(paths(init)[i] == p);
            }
        }
        lemma_map_from_listing(init, m1);
        assert(m1.insert(last_path, last) =~= m);
    }
}

/// A database that is restored from its own snapshot is the database it was.
/// The snapshot has as many records as the store, it restores, and the
/// restored store has as many records again, each path leading to the record
/// it led to.
pub proof fn lemma_snapshot_round_trip(d: DataView, s: SnapshotView)
    requires
        is_snapshot_of(s, d),
        forall|p: Seq<char>| #[trigger]
            d.records.contains_key(p) ==> d.records[p].full_path == p && d.records[p].is_valid(),
    ensures
        all_valid(s.records),
        restored(s) == d,
        d.records.dom().finite(),
        s.records.len() == d.records.dom().len(),
        restored(s).records.dom().len() == d.records.dom().len(),
        forall|p: Seq<char>| #[trigger]
            d.records.contains_key(p) ==> restored(s).records.contains_key(p) && restored(
                s,
            ).records[p] == d.records[p],
{
    lemma_map_from_listing(s.records, d.records);
    lemma_listing_len(s.records, d.records);
    assert forall|i: int| 0 <= i < s.records.len() implies (#[trigger] s.records[i]).is_valid() by {
        assert(d.records.contains_key(s.records[i].full_path));
    }
}

/// The records with their format version and the time of the last sync.
#[derive(Debug)]
pub struct Data {
    version: String,
    records: IndexedRecords,
    last_sync_time: Option<Timestamp>,
}

impl View for Data {
    type V = DataView;

    closed spec fn view(&self) -> DataView {
        DataView {
            version: self.version@,
            records: self.records@,
            last_sync_time: self.last_sync_time,
        }
    }
}

impl Data {
    /// The store is well formed.
    pub closed spec fn wf(&self) -> bool {
        self.records.wf()
    }

    /// What holds of every well-formed database: the store is finite, and each
    /// record is kept under its own path and may be stored.
    pub proof fn lemma_wf(&self)
        requires
            self.wf(),
        ensures
            self@.records.dom().finite(),
            forall|p: Seq<char>| #[trigger]
                self@.records.contains_key(p) ==> self@.records[p].full_path == p
                    && self@.records[p].is_valid(),
    {
        self.records.lemma_wf();
    }

    /// The database without records, never synced.
    pub fn new() -> (d: Data)
        ensures
            d.wf(),
            d@ == fresh(),
    {
        Data { version: "1.0".to_owned(), records: IndexedRecords::new(), last_sync_time: None }
    }

    /// Drops every record and the time of the last sync.
    pub fn reset(&mut self)
        ensures
            final(self).wf(),
            final(self)@ == fresh(),
    {
        self.version = "1.0".to_owned();
        self.records = IndexedRecords::new();
        self.last_sync_time = None;
    }

    /// The store.
    pub fn records(&self) -> (r: &IndexedRecords)
        requires
            self.wf(),
        ensures
            r.wf(),
            r@ == self@.records,
    {
        &self.records
    }

    /// The time of the last sync.
    pub fn get_last_sync_time(&self) -> (t: Option<Timestamp>)
        ensures
            t == self@.last_sync_time,
    {
        self.last_sync_time
    }

    /// Sets the time of the last sync.
    pub fn set_last_sync_time(&mut self, now: Timestamp)
        requires
            old(self).wf(),
        ensures
            final(self).wf(),
            final(self)@ == (DataView { last_sync_time: Some(now), ..old(self)@ }),
    {
        self.last_sync_time = Some(now);
    }

    /// Records a repository at the time `now`: under `full_path` stands
    /// afterwards the record `record_for` gives.
    pub fn record_item_at(
        &mut self,
        base_dir: &str,
        remote_url: &str,
        host: &str,
        repo: &str,
        owner: &str,
        full_path: &str,
        now: Timestamp,
    )
        requires
            old(self).wf(),
            host@.len() > 0,
            owner@.len() > 0,
        ensures
            final(self).wf(),
            final(self)@ == (DataView {
                records: recorded(
                    old(self)@.records,
                    base_dir@,
                    remote_url@,
                    host@,
                    repo@,
                    owner@,
                    full_path@,
                    now,
                ),
                ..old(self)@
            }),
    {
        let created_at = match self.records.get(full_path) {
            Some(existing) => existing.created_at,
            None => now,
        };
        let record = Repo {
            created_at,
            updated_at: created_at.latest(now),
            host: host.to_owned(),
            repo: repo.to_owned(),
            owner: owner.to_owned(),
            remote_url: remote_url.to_owned(),
            base_dir: base_dir.to_owned(),
            full_path: full_path.to_owned(),
        };
        self.records.insert(full_path, record);
    }

    /// Records a repository at the current time.
    pub fn record_item(
        &mut self,
        base_dir: &str,
        remote_url: &str,
        host: &str,
        repo: &str,
        owner: &str,
        full_path: &str,
    )
        requires
            old(self).wf(),
            host@.len() > 0,
            owner@.len() > 0,
        ensures
            final(self).wf(),
            exists|now: Timestamp|
                final(self)@ == (DataView {
                    records: #[trigger] recorded(
                        old(self)@.records,
                        base_dir@,
                        remote_url@,
                        host@,
                        repo@,
                        owner@,
                        full_path@,
                        now,
                    ),
                    ..old(self)@
                }),
    {
        let t = now();
        self.record_item_at(base_dir, remote_url, host, repo, owner, full_path, t);
    }

    /// The ranking of the records for `keyword`: each record that matches the
    /// normalized keyword, with the kind of its match, in the order of ranking.
    pub fn find(&self, keyword: &str) -> (r: Vec<RankedMatch>)
        requires
            self.wf(),
        ensures
            is_ranking(match_views(r@), self@.records, normalized_keyword(keyword@)),
    {
        rank_records(&self.records, keyword)
    }

    /// Takes the record under `path` out of the store. Returns whether there
    /// was one.
    pub fn remove(&mut self, path: &str) -> (existed: bool)
        requires
            old(self).wf(),
        ensures
            final(self).wf(),
            existed == old(self)@.records.contains_key(path@),
            final(self)@ == (DataView {
                records: old(self)@.records.remove(path@),
                ..old(self)@
            }),
    {
        self.records.remove(path)
    }

    /// The snapshot of the database.
    pub fn to_snapshot(&self) -> (s: Snapshot)
        requires
            self.wf(),
        ensures
            is_snapshot_of(s@, self@),
    {
        Snapshot {
            version: self.version.clone(),
            records: self.records.get_all_sorted(),
            last_sync_time: self.last_sync_time,
        }
    }

    /// The database that `s` restores to.
    ///
    /// Fails exactly where some record of `s` may not be stored, and names the
    /// first such record.
    pub fn from_snapshot(s: Snapshot) -> (r: Result<Data, LoadError>)
        ensures
            match r {
                Ok(d) => all_valid(s@.records) && d.wf() && d@ == restored(s@),
                Err(LoadError::InvalidRecord { index }) => first_invalid(s@.records, index as int),
            },
    {
        let mut i: usize = 0;
        while i < s.records.len()
            invariant
                i <= s.records.len(),
                forall|j: int| 0 <= j < i ==> (#[trigger] s@.records[j]).is_valid(),
            decreases s.records.len() - i,
        {
            assert(s@.records[i as int] == s.records@[i as int]@);
            if !s.records[i].is_valid() {
                return Err(LoadError::InvalidRecord { index: i });
            }
            i += 1;
        }
        assert forall|j: int| 0 <= j < s.records.len() implies (#[trigger] s.records@[j]@).is_valid() by {
            assert(s@.records[j] == s.records@[j]@);
        }
        let records = IndexedRecords::from_vec(s.records);
        Ok(Data { version: s.version, records, last_sync_time: s.last_sync_time })
    }
}

/// The database of one process: it is opened from what was persisted, changed
/// by the commands, and persisted again as a snapshot.
#[derive(Debug)]
pub struct Database {
    data: Data,
}

impl View for Database {
    type V = DataView;

    closed spec fn view(&self) -> DataView {
        self.data@
    }
}

/// The database that is opened from what was read of the persisted file:
/// the restored snapshot, or a fresh database where there is no snapshot or
/// where one of its records may not be stored.
pub open spec fn opened(stored: Option<SnapshotView>) -> DataView {
    match stored {
        Some(s) => if all_valid(s.records) {
            restored(s)
        } else {
            fresh()
        },
        None => fresh(),
    }
}

impl Database {
    /// The store is well formed.
    pub closed spec fn wf(&self) -> bool {
        self.data.wf()
    }

    /// What holds of every well-formed database: the store is finite, and each
    /// record is kept under its own path and may be stored.
    pub proof fn lemma_wf(&self)
        requires
            self.wf(),
        ensures
            self@.records.dom().finite(),
            forall|p: Seq<char>| #[trigger]
                self@.records.contains_key(p) ==> self@.records[p].full_path == p
                    && self@.records[p].is_valid(),
    {
        self.data.lemma_wf();
    }

    /// The database without records, never synced.
    pub fn new() -> (db: Database)
        ensures
            db.wf(),
            db@ == fresh(),
    {
        Database { data: Data::new() }
    }

    /// Opens the database from what was read of the persisted file. A missing
    /// or empty file is no snapshot and gives a fresh database, and so does a
    /// snapshot that does not restore.
    pub fn open(stored: Option<Snapshot>) -> (db: Database)
        ensures
            db.wf(),
            db@ == opened(
                match stored {
                    Some(s) => Some(s@),
                    None => None,
                },
            ),
    {
        match stored {
            Some(s) => match Data::from_snapshot(s) {
                Ok(data) => Database { data },
                Err(_) => Database::new(),
            },
            None => Database::new(),
        }
    }

    /// The snapshot of the database, to be persisted.
    pub fn to_snapshot(&self) -> (s: Snapshot)
        requires
            self.wf(),
        ensures
            is_snapshot_of(s@, self@),
    {
        self.data.to_snapshot()
    }

    /// Drops every record and the time of the last sync.
    pub fn reset(&mut self)
        ensures
            final(self).wf(),
            final(self)@ == fresh(),
    {
        self.data.reset();
    }

    /// The time of the last sync.
    pub fn get_last_sync_time(&self) -> (t: Option<Timestamp>)
        ensures
            t == self@.last_sync_time,
    {
        self.data.get_last_sync_time()
    }

    /// Sets the time of the last sync to `now`.
    pub fn update_last_sync_time_at(&mut self, now: Timestamp)
        requires
            old(self).wf(),
        ensures
            final(self).wf(),
            final(self)@ == (DataView { last_sync_time: Some(now), ..old(self)@ }),
    {
        self.data.set_last_sync_time(now);
    }

    /// Sets the time of the last sync to the current time.
    pub fn update_last_sync_time(&mut self)
        requires
            old(self).wf(),
        ensures
            final(self).wf(),
            final(self)@.last_sync_time is Some,
            final(self)@ == (DataView {
                last_sync_time: final(self)@.last_sync_time,
                ..old(self)@
            }),
    {
        let t = now();
        self.data.set_last_sync_time(t);
    }

    /// Records a repository at the time `now`.
    pub fn record_item_at(
        &mut self,
        base_dir: &str,
        remote_url: &str,
        host: &str,
        repo: &str,
        owner: &str,
        full_path: &str,
        now: Timestamp,
    )
        requires
            old(self).wf(),
            host@.len() > 0,
            owner@.len() > 0,
        ensures
            final(self).wf(),
            final(self)@ == (DataView {
                records: recorded(
                    old(self)@.records,
                    base_dir@,
                    remote_url@,
                    host@,
                    repo@,
                    owner@,
                    full_path@,
                    now,
                ),
                ..old(self)@
            }),
    {
        self.data.record_item_at(base_dir, remote_url, host, repo, owner, full_path, now);
    }

    /// Records a repository at the current time.
    pub fn record_item(
        &mut self,
        base_dir: &str,
        remote_url: &str,
        host: &str,
        repo: &str,
        owner: &str,
        full_path: &str,
    )
        requires
            old(self).wf(),
            host@.len() > 0,
            owner@.len() > 0,
        ensures
            final(self).wf(),
            exists|now: Timestamp|
                final(self)@ == (DataView {
                    records: #[trigger] recorded(
                        old(self)@.records,
                        base_dir@,
                        remote_url@,
                        host@,
                        repo@,
                        owner@,
                        full_path@,
                        now,
                    ),
                    ..old(self)@
                }),
    {
        self.data.record_item(base_dir, remote_url, host, repo, owner, full_path);
    }

    /// The ranking of the records for `keyword`.
    pub fn find(&self, keyword: &str) -> (r: Vec<RankedMatch>)
        requires
            self.wf(),
        ensures
            is_ranking(match_views(r@), self@.records, normalized_keyword(keyword@)),
    {
        self.data.find(keyword)
    }

    /// Takes the record under `path` out of the store.
    pub fn remove(&mut self, path: &str)
        requires
            old(self).wf(),
        ensures
            final(self).wf(),
            final(self)@ == (DataView {
                records: old(self)@.records.remove(path@),
                ..old(self)@
            }),
    {
        self.data.remove(path);
    }

    /// A copy of every record, in ascending order of path.
    pub fn get_all_items(&self) -> (r: Vec<Repo>)
        requires
            self.wf(),
        ensures
            is_listing(repo_views(r@), self@.records, Selector::All),
    {
        self.data.records().get_all_sorted()
    }

    /// The number of records.
    pub fn size(&self) -> (n: usize)
        requires
            self.wf(),
        ensures
            n == self@.records.dom().len(),
    {
        self.data.records().size()
    }

    /// A copy of the record kept under `path`.
    pub fn get_by_path(&self, path: &str) -> (r: Option<Repo>)
        requires
            self.wf(),
        ensures
            r is Some == self@.records.contains_key(path@),
            r matches Some(x) ==> x@ == self@.records[path@],
    {
        match self.data.records().get(path) {
            Some(record) => Some(record.clone()),
            None => None,
        }
    }

    /// The store.
    pub fn records(&self) -> (r: &IndexedRecords)
        requires
            self.wf(),
        ensures
            r.wf(),
            r@ == self@.records,
    {
        self.data.records()
    }
}

} // verus!
