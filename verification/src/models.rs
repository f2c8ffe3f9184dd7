//! The repository record and the time stamps it carries.

use crate::path::{join, join_path};
use crate::sorted::Keyed;
use vstd::prelude::*;

verus! {

/// A point in time: whole seconds since 1970-01-01T00:00:00 UTC and the
/// nanoseconds after that second.
#[derive(Debug, Clone, Copy, PartialEq, Eq, Structural)]
pub struct Timestamp {
    pub secs: i64,
    pub nanos: u32,
}

impl Timestamp {
    /// The point in time as nanoseconds since the epoch.
    pub open spec fn total_nanos(self) -> int {
        self.secs * 1_000_000_000 + self.nanos
    }

    /// `self` is not later than `other`.
    pub open spec fn le(self, other: Timestamp) -> bool {
        self.secs < other.secs || (self.secs == other.secs && self.nanos <= other.nanos)
    }

    /// The later of the two.
    pub open spec fn max(self, other: Timestamp) -> Timestamp {
        if self.le(other) {
            other
        } else {
            self
        }
    }

    /// The time stamp with the given seconds and nanoseconds.
    pub fn new(secs: i64, nanos: u32) -> (t: Timestamp)
        ensures
            t.secs == secs,
            t.nanos == nanos,
    {
        Timestamp { secs, nanos }
    }

    /// Whether `self` is not later than `other`.
    pub fn is_le(&self, other: &Timestamp) -> (r: bool)
        ensures
            r == self.le(*other),
    {
        self.secs < other.secs || (self.secs == other.secs && self.nanos <= other.nanos)
    }

    /// The later of the two.
    pub fn latest(self, other: Timestamp) -> (r: Timestamp)
        ensures
            r == self.max(other),
    {
        if self.is_le(&other) {
            other
        } else {
            self
        }
    }
}

/// One managed repository.
#[derive(Debug)]
pub struct Repo {
    /// When the path was first recorded.
    pub created_at: Timestamp,
    /// When the path was last recorded.
    pub updated_at: Timestamp,
    /// The remote's host, such as `github.com`.
    pub host: String,
    /// The repository's short name.
    pub repo: String,
    /// The account or organisation of the remote.
    pub owner: String,
    /// The remote URL as it was read from the working directory.
    pub remote_url: String,
    /// The configured root under which the record was found.
    pub base_dir: String,
    /// The path of the working directory, by which records are kept and found.
    pub full_path: String,
}

/// The mathematical value of a `Repo`.
pub struct RepoView {
    pub created_at: Timestamp,
    pub updated_at: Timestamp,
    pub host: Seq<char>,
    pub repo: Seq<char>,
    pub owner: Seq<char>,
    pub remote_url: Seq<char>,
    pub base_dir: Seq<char>,
    pub full_path: Seq<char>,
}

impl View for Repo {
    type V = RepoView;

    open spec fn view(&self) -> RepoView {
        RepoView {
            created_at: self.created_at,
            updated_at: self.updated_at,
            host: self.host@,
            repo: self.repo@,
            owner: self.owner@,
            remote_url: self.remote_url@,
            base_dir: self.base_dir@,
            full_path: self.full_path@,
        }
    }
}

impl RepoView {
    /// A record may be stored where it names a host and an owner and was not
    /// updated before it was created.
    pub open spec fn is_valid(self) -> bool {
        &&& self.host.len() > 0
        &&& self.owner.len() > 0
        &&& self.created_at.le(self.updated_at)
    }

    /// The directory of the host below the base directory.
    pub open spec fn host_dir(self) -> Seq<char> {
        join_path(join_path(Seq::empty(), self.base_dir), self.host)
    }

    /// The directory of the owner below that of the host.
    pub open spec fn owner_dir(self) -> Seq<char> {
        join_path(self.host_dir(), self.owner)
    }
}

impl Clone for Repo {
    fn clone(&self) -> (r: Repo)
        ensures
            r@ == self@,
    {
        Repo {
            created_at: self.created_at,
            updated_at: self.updated_at,
            host: self.host.clone(),
            repo: self.repo.clone(),
            owner: self.owner.clone(),
            remote_url: self.remote_url.clone(),
            base_dir: self.base_dir.clone(),
            full_path: self.full_path.clone(),
        }
    }
}

impl Keyed for Repo {
    open spec fn key(&self) -> Seq<char> {
        self.full_path@
    }

    fn key_str(&self) -> (k: &str) {
        self.full_path.as_str()
    }
}

impl Repo {
    /// The directory of the owner: `base_dir/host/owner`.
    pub fn owner_fs_path(&self) -> (r: String)
        ensures
            r@ == self@.owner_dir(),
    {
        join(self.host_fs_path().as_str(), self.owner.as_str())
    }

    /// The directory of the host: `base_dir/host`.
    pub fn host_fs_path(&self) -> (r: String)
        ensures
            r@ == self@.host_dir(),
    {
        let base = join("", self.base_dir.as_str());
        proof {
            reveal_strlit("");
            assert(""@ =~= Seq::<char>::empty());
        }
        join(base.as_str(), self.host.as_str())
    }

    /// Whether the record may be stored.
    pub fn is_valid(&self) -> (r: bool)
        ensures
            r == self@.is_valid(),
    {
        !self.host.as_str().is_empty() && !self.owner.as_str().is_empty()
            && self.created_at.is_le(&self.updated_at)
    }
}

} // verus!
