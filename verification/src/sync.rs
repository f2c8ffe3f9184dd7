//! What a sync records: the rule by which a working directory found by the
//! walk becomes a record or is skipped, the rebuilding of the store from what
//! the walk found, and the rule by which a sync is due.

use crate::database::{current_version, now, recorded, DataView, Database};
use crate::git_url::{
    is_valid_remote, parse_git_url, parse_git_url_spec, remote_url_is_valid, ParsedUrl,
};
use crate::models::{RepoView, Timestamp};
use crate::text::{copy_range, is_blank, str_chars, string_of, trim, trim_bounds};
use vstd::prelude::*;

verus! {

/// How many levels below a base directory the walk descends: host, owner and
/// repository.
pub const MAX_WALK_DEPTH: usize = 3;

/// The most workers that the walk uses.
pub const MAX_WALK_WORKERS: usize = 12;

/// The number of workers for a walk on a machine that offers `available`
/// parallel threads: that number, but 12 at most, and 1 where it is unknown.
pub fn walk_workers(available: Option<usize>) -> (n: usize)
    ensures
        n == match available {
            Some(a) => if a < MAX_WALK_WORKERS {
                a
            } else {
                MAX_WALK_WORKERS
            },
            None => 1,
        },
{
    match available {
        Some(a) => if a < MAX_WALK_WORKERS {
            a
        } else {
            MAX_WALK_WORKERS
        },
        None => 1,
    }
}

/// A directory in which the walk found a `.git` entry, with the text that the
/// remote URL reader gave for it.
#[derive(Debug)]
pub struct WorkingDir {
    /// The base directory under which the walk found the directory.
    pub base_dir: String,
    /// The path of the directory.
    pub full_path: String,
    /// What the reader gave as the URL of the remote `origin`; empty where it
    /// gave none.
    pub remote_url: String,
}

/// The mathematical value of a `WorkingDir`.
pub struct WorkingDirView {
    pub base_dir: Seq<char>,
    pub full_path: Seq<char>,
    pub remote_url: Seq<char>,
}

impl View for WorkingDir {
    type V = WorkingDirView;

    open spec fn view(&self) -> WorkingDirView {
        WorkingDirView {
            base_dir: self.base_dir@,
            full_path: self.full_path@,
            remote_url: self.remote_url@,
        }
    }
}

/// A repository that a sync records.
#[derive(Debug)]
pub struct SyncItem {
    pub host: String,
    pub repo: String,
    pub owner: String,
    pub remote_url: String,
    pub base_dir: String,
    pub full_path: String,
}

/// The mathematical value of a `SyncItem`.
pub struct SyncItemView {
    pub host: Seq<char>,
    pub repo: Seq<char>,
    pub owner: Seq<char>,
    pub remote_url: Seq<char>,
    pub base_dir: Seq<char>,
    pub full_path: Seq<char>,
}

impl View for SyncItem {
    type V = SyncItemView;

    open spec fn view(&self) -> SyncItemView {
        SyncItemView {
            host: self.host@,
            repo: self.repo@,
            owner: self.owner@,
            remote_url: self.remote_url@,
            base_dir: self.base_dir@,
            full_path: self.full_path@,
        }
    }
}

/// Why a working directory is skipped.
#[derive(Debug, Clone, Copy, PartialEq, Eq, Structural)]
pub enum Skip {
    /// The reader gave no remote URL.
    NoRemote,
    /// The remote URL does not parse.
    Unparsable,
    /// The remote URL lacks a host, an owner or a repository name.
    Incomplete,
}

/// A remote URL is complete where it is valid and names a repository.
pub open spec fn is_complete(p: ParsedUrl) -> bool {
    is_valid_remote(p) && p.name.len() > 0
}

/// What a working directory becomes: the item to record, or the reason for
/// which it is skipped. The remote URL is taken without the whitespace around
/// it.
pub open spec fn item_of(dir: WorkingDirView) -> Result<SyncItemView, Skip> {
    let url = trim(dir.remote_url);
    if url.len() == 0 {
        Err(Skip::NoRemote)
    } else {
        match parse_git_url_spec(url) {
            None => Err(Skip::Unparsable),
            Some(p) => if is_complete(p) {
                Ok(
                    SyncItemView {
                        host: p.host->0,
                        repo: p.name,
                        owner: p.owner->0,
                        remote_url: url,
                        base_dir: dir.base_dir,
                        full_path: dir.full_path,
                    },
                )
            } else {
                Err(Skip::Incomplete)
            },
        }
    }
}

/// An item that a sync records names a host and an owner.
pub proof fn lemma_item_has_host_and_owner(dir: WorkingDirView)
    requires
        item_of(dir) is Ok,
    ensures
        item_of(dir)->Ok_0.host.len() > 0,
        item_of(dir)->Ok_0.owner.len() > 0,
{
    let p = parse_git_url_spec(trim(dir.remote_url))->0;
    if p.host->0.len() == 0 {
        lemma_blank_empty(p.host->0);
    }
    if p.owner->0.len() == 0 {
        lemma_blank_empty(p.owner->0);
    }
}

proof fn lemma_blank_empty(s: Seq<char>)
    requires
        s.len() == 0,
    ensures
        is_blank(s),
{
}

/// Decides what a working directory becomes.
pub fn read_item(dir: &WorkingDir) -> (r: Result<SyncItem, Skip>)
    ensures
        r is Ok == item_of(dir@) is Ok,
        r matches Ok(item) ==> Ok::<SyncItemView, Skip>(item@) == item_of(dir@),
        r matches Err(why) ==> Err::<SyncItemView, Skip>(why) == item_of(dir@),
{
    let raw = str_chars(dir.remote_url.as_str());
    let (lo, hi) = trim_bounds(&raw);
    if lo == hi {
        return Err(Skip::NoRemote);
    }
    let url = string_of(&copy_range(&raw, lo, hi));
    match parse_git_url(url.as_str()) {
        None => Err(Skip::Unparsable),
        Some(p) => {
            if !remote_url_is_valid(&p) || p.name.as_str().is_empty() {
                return Err(Skip::Incomplete);
            }
            match (p.host, p.owner) {
                (Some(host), Some(owner)) => Ok(
                    SyncItem {
                        host,
                        repo: p.name,
                        owner,
                        remote_url: url,
                        base_dir: dir.base_dir.clone(),
                        full_path: dir.full_path.clone(),
                    },
                ),
                _ => {
                    assert(false);
                    Err(Skip::Incomplete)
                },
            }
        },
    }
}

/// The store after `item` was recorded at the time `now`.
pub open spec fn record_item_in(
    m: Map<Seq<char>, RepoView>,
    item: SyncItemView,
    now: Timestamp,
) -> Map<Seq<char>, RepoView> {
    recorded(
        m,
        item.base_dir,
        item.remote_url,
        item.host,
        item.repo,
        item.owner,
        item.full_path,
        now,
    )
}

/// The store that a sync builds from what the walk found: beginning with no
/// record, each directory that is not skipped is recorded, in the order in
/// which the walk gave them.
pub open spec fn synced_records(found: Seq<WorkingDirView>, now: Timestamp) -> Map<
    Seq<char>,
    RepoView,
>
    decreases found.len(),
{
    if found.len() == 0 {
        Map::empty()
    } else {
        let before = synced_records(found.drop_last(), now);
        match item_of(found.last()) {
            Ok(item) => record_item_in(before, item, now),
            Err(_) => before,
        }
    }
}

/// The directories of `found` that a sync skips, in the order of `found`, each
/// with its place in `found` and the reason.
pub open spec fn skipped_of(found: Seq<WorkingDirView>) -> Seq<(int, Skip)>
    decreases found.len(),
{
    if found.len() == 0 {
        Seq::empty()
    } else {
        let before = skipped_of(found.drop_last());
        match item_of(found.last()) {
            Ok(_) => before,
            Err(why) => before.push((found.len() - 1, why)),
        }
    }
}

/// A working directory that a sync skipped.
#[derive(Debug, Clone, Copy, PartialEq, Eq, Structural)]
pub struct Skipped {
    /// The place of the directory in what the walk found.
    pub index: usize,
    /// Why it was skipped.
    pub why: Skip,
}

/// What a sync did.
#[derive(Debug)]
pub struct SyncReport {
    /// How many directories were recorded.
    pub recorded: usize,
    /// The directories that were skipped.
    pub skipped: Vec<Skipped>,
}

/// The places and reasons of a vector of skipped directories.
pub open spec fn skip_views(v: Seq<Skipped>) -> Seq<(int, Skip)> {
    Seq::new(v.len(), |i: int| (v[i].index as int, v[i].why))
}

/// The values of a vector of working directories.
pub open spec fn dir_views(v: Seq<WorkingDir>) -> Seq<WorkingDirView> {
    Seq::new(v.len(), |i: int| v[i]@)
}

/// The database after a sync at the time `now` of what the walk found.
pub open spec fn synced(found: Seq<WorkingDirView>, now: Timestamp) -> DataView {
    DataView {
        version: current_version(),
        records: synced_records(found, now),
        last_sync_time: Some(now),
    }
}

/// Rebuilds the database from what the walk found, at the time `now`.
///
/// The database is reset; each directory that is not skipped is recorded; the
/// time of the last sync becomes `now`. A directory that is skipped does not
/// stop the sync: it is reported, and the sync goes on.
pub fn sync_at(db: &mut Database, found: &Vec<WorkingDir>, now: Timestamp) -> (report: SyncReport)
    ensures
        final(db).wf(),
        final(db)@ == synced(dir_views(found@), now),
        skip_views(report.skipped@) == skipped_of(dir_views(found@)),
        report.recorded + report.skipped.len() == found.len(),
{
    db.reset();
    let ghost all = dir_views(found@);
    let mut recorded: usize = 0;
    let mut skipped: Vec<Skipped> = Vec::new();
    let mut i: usize = 0;
    assert(all.take(0) =~= Seq::<WorkingDirView>::empty());
    while i < found.len()
        invariant
            i <= found.len(),
            all == dir_views(found@),
            db.wf(),
            db@.version == current_version(),
            db@.last_sync_time is None,
            db@.records == synced_records(all.take(i as int), now),
            skip_views(skipped@) == skipped_of(all.take(i as int)),
            recorded + skipped.len() == i,
        decreases found.len() - i,
    {
        proof {
            assert(all.take(i + 1).drop_last() =~= all.take(i as int));
            assert(all.take(i + 1).last() == found@[i as int]@);
        }
        let ghost old_skips = skip_views(skipped@);
        match read_item(&found[i]) {
            Ok(item) => {
                proof {
                    lemma_item_has_host_and_owner(found@[i as int]@);
                }
                db.record_item_at(
                    item.base_dir.as_str(),
                    item.remote_url.as_str(),
                    item.host.as_str(),
                    item.repo.as_str(),
                    item.owner.as_str(),
                    item.full_path.as_str(),
                    now,
                );
                recorded += 1;
            },
            Err(why) => {
                skipped.push(Skipped { index: i, why });
                assert(skip_views(skipped@) =~= old_skips.push((i as int, why)));
            },
        }
        i += 1;
    }
    assert(all.take(i as int) =~= all);
    db.update_last_sync_time_at(now);
    SyncReport { recorded, skipped }
}

/// Rebuilds the database from what the walk found, at the current time.
pub fn sync(db: &mut Database, found: &Vec<WorkingDir>) -> (report: SyncReport)
    ensures
        final(db).wf(),
        exists|now: Timestamp| final(db)@ == #[trigger] synced(dir_views(found@), now),
        skip_views(report.skipped@) == skipped_of(dir_views(found@)),
        report.recorded + report.skipped.len() == found.len(),
{
    let t = now();
    sync_at(db, found, t)
}

/// The whole seconds from `earlier` to `later`, negative where `later` is the
/// earlier one; a part of a second does not count.
pub open spec fn seconds_between(earlier: Timestamp, later: Timestamp) -> int {
    let nanos = later.total_nanos() - earlier.total_nanos();
    if nanos >= 0 {
        nanos / 1_000_000_000
    } else {
        -((-nanos) / 1_000_000_000)
    }
}

/// A sync is due where syncing by interval is on, that is the interval is
/// positive, and where the store was never synced or more whole seconds than
/// the interval have passed since the last sync.
pub open spec fn sync_due(interval_secs: i64, last: Option<Timestamp>, now: Timestamp) -> bool {
    interval_secs > 0 && match last {
        None => true,
        Some(t) => seconds_between(t, now) > interval_secs,
    }
}

/// Whether a sync is due at the time `now`.
pub fn is_sync_due(interval_secs: i64, last: Option<Timestamp>, now: Timestamp) -> (r: bool)
    ensures
        r == sync_due(interval_secs, last, now),
{
    if interval_secs <= 0 {
        return false;
    }
    match last {
        None => true,
        Some(t) => {
            let nanos: i128 = (now.secs as i128 - t.secs as i128) * 1_000_000_000 + (now.nanos as i128
                - t.nanos as i128);
            if nanos >= 0 {
                nanos / 1_000_000_000 > interval_secs as i128
            } else {
                false
            }
        },
    }
}

} // verus!
