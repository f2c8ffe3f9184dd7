//! The context of a command: the configuration and the database.

use crate::configuration::{BaseDirError, Config};
use crate::database::{now, Database};
use crate::models::Timestamp;
use crate::path::{expand_tilde_in, home_dir};
use crate::sync::{
    dir_views, is_sync_due, skip_views, skipped_of, sync, sync_due, synced, SyncReport, WorkingDir,
};
use vstd::prelude::*;

verus! {

/// The configuration and the database of one command.
#[derive(Debug)]
pub struct Context {
    config: Config,
    db: Database,
}

impl Context {
    /// The database of the context.
    pub closed spec fn db(&self) -> Database {
        self.db
    }

    /// The configuration of the context.
    pub closed spec fn cfg(&self) -> Config {
        self.config
    }

    /// The context of the given configuration and database.
    pub fn new(config: Config, db: Database) -> (c: Context)
        ensures
            c.cfg() == config,
            c.db() == db,
    {
        Context { config, db }
    }

    /// The configuration.
    pub fn config(&self) -> (config: &Config)
        ensures
            *config == self.cfg(),
    {
        &self.config
    }

    /// The database.
    pub fn database(&self) -> (db: &Database)
        ensures
            *db == self.db(),
    {
        &self.db
    }

    /// The database, to be changed.
    pub fn database_mut(&mut self) -> (db: &mut Database)
        ensures
            *db == old(self).db(),
            final(self).db() == *final(db),
            final(self).cfg() == old(self).cfg(),
    {
        &mut self.db
    }

    /// The base directory in which the commands work, expanded with `home`:
    /// the one that is configured, where it is exactly one.
    pub fn get_base_dir_with(&self, home: Option<&str>) -> (r: Result<String, BaseDirError>)
        ensures
            match r {
                Ok(dir) => self.cfg().base.len() == 1 && dir@ == expand_tilde_in(
                    self.cfg().base@[0]@,
                    match home {
                        Some(h) => Some(h@),
                        None => None,
                    },
                ),
                Err(BaseDirError::NotConfigured) => self.cfg().base.len() == 0,
                Err(BaseDirError::MoreThanOne) => self.cfg().base.len() > 1,
            },
    {
        if self.config.base.len() > 1 {
            return Err(BaseDirError::MoreThanOne);
        }
        self.config.get_base_dir_with(home)
    }

    /// The base directory in which the commands work, expanded with the home
    /// directory of the user.
    pub fn get_base_dir(&self) -> (r: Result<String, BaseDirError>)
        ensures
            match r {
                Ok(dir) => self.cfg().base.len() == 1 && exists|home: Option<Seq<char>>|
                    dir@ == #[trigger] expand_tilde_in(self.cfg().base@[0]@, home),
                Err(BaseDirError::NotConfigured) => self.cfg().base.len() == 0,
                Err(BaseDirError::MoreThanOne) => self.cfg().base.len() > 1,
            },
    {
        let home = home_dir();
        let r = match &home {
            Some(h) => self.get_base_dir_with(Some(h.as_str())),
            None => self.get_base_dir_with(None),
        };
        proof {
            let hv: Option<Seq<char>> = match home {
                Some(h) => Some(h@),
                None => None,
            };
            if r is Ok {
                assert(r->Ok_0@ == expand_tilde_in(self.cfg().base@[0]@, hv));
            }
        }
        r
    }

    /// Rebuilds the database from what the walk of the base directories found.
    pub fn sync_silent(&mut self, found: &Vec<WorkingDir>) -> (report: SyncReport)
        ensures
            final(self).db().wf(),
            final(self).cfg() == old(self).cfg(),
            exists|now: Timestamp| final(self).db()@ == #[trigger] synced(dir_views(found@), now),
            skip_views(report.skipped@) == skipped_of(dir_views(found@)),
            report.recorded + report.skipped.len() == found.len(),
    {
        sync(&mut self.db, found)
    }

    /// Whether a sync is due at the time `now`, by the configured interval and
    /// the time of the last sync.
    pub fn auto_sync_due_at(&self, now: Timestamp) -> (due: bool)
        ensures
            due == sync_due(self.cfg().auto_sync_interval_secs, self.db()@.last_sync_time, now),
    {
        is_sync_due(
            self.config.get_auto_sync_interval_secs(),
            self.db.get_last_sync_time(),
            now,
        )
    }

    /// Whether a sync is due at the current time, by the configured interval
    /// and the time of the last sync. Where it is, the base directories are to
    /// be walked and the database rebuilt with `sync_silent`.
    pub fn auto_sync_silent(&self) -> (due: bool)
        ensures
            exists|now: Timestamp|
                due == #[trigger] sync_due(
                    self.cfg().auto_sync_interval_secs,
                    self.db()@.last_sync_time,
                    now,
                ),
            self.cfg().auto_sync_interval_secs <= 0 ==> !due,
            self.cfg().auto_sync_interval_secs > 0 && self.db()@.last_sync_time is None ==> due,
    {
        let t = now();
        let due = self.auto_sync_due_at(t);
        assert(due == sync_due(
            self.cfg().auto_sync_interval_secs,
            self.db()@.last_sync_time,
            t,
        ));
        due
    }
}

} // verus!
