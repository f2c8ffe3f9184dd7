use prog::database::{Data, Database, LoadError, Snapshot};
use prog::models::{Repo, Timestamp};

fn repo(path: &str, name: &str, host: &str, owner: &str) -> Repo {
    Repo {
        created_at: Timestamp::new(100, 0),
        updated_at: Timestamp::new(200, 0),
        host: host.to_string(),
        repo: name.to_string(),
        owner: owner.to_string(),
        remote_url: format!("https://{}/{}/{}.git", host, owner, name),
        base_dir: "/base".to_string(),
        full_path: path.to_string(),
    }
}

#[test]
fn a_new_database_is_empty_and_never_synced() {
    let db = Database::new();
    assert_eq!(db.size(), 0);
    assert_eq!(db.get_last_sync_time(), None);
    assert!(db.get_all_items().is_empty());
    assert_eq!(db.to_snapshot().version, "1.0");
}

#[test]
fn recording_keeps_the_time_of_creation_and_renews_the_time_of_update() {
    let mut data = Data::new();
    data.record_item_at("/b", "u1", "h", "r", "o", "/b/h/o/r", Timestamp::new(10, 1));
    data.record_item_at("/b2", "u2", "h2", "r2", "o2", "/b/h/o/r", Timestamp::new(20, 2));
    let r = data.records().get("/b/h/o/r").unwrap();
    assert_eq!(r.created_at, Timestamp::new(10, 1));
    assert_eq!(r.updated_at, Timestamp::new(20, 2));
    assert_eq!(r.host, "h2");
    assert_eq!(r.owner, "o2");
    assert_eq!(r.repo, "r2");
    assert_eq!(r.remote_url, "u2");
    assert_eq!(r.base_dir, "/b2");
    assert_eq!(data.records().size(), 1);
}

#[test]
fn a_clock_that_went_back_does_not_put_the_update_before_the_creation() {
    let mut data = Data::new();
    data.record_item_at("/b", "u", "h", "r", "o", "/p", Timestamp::new(50, 0));
    data.record_item_at("/b", "u", "h", "r", "o", "/p", Timestamp::new(40, 0));
    let r = data.records().get("/p").unwrap();
    assert_eq!(r.created_at, Timestamp::new(50, 0));
    assert_eq!(r.updated_at, Timestamp::new(50, 0));
}

#[test]
fn record_item_reads_the_clock() {
    let mut db = Database::new();
    db.record_item("/b", "u", "h", "r", "o", "/p");
    let r = db.get_by_path("/p").unwrap();
    assert_eq!(r.created_at, r.updated_at);
    assert!(r.created_at.secs > 1_600_000_000);
    db.update_last_sync_time();
    let t = db.get_last_sync_time().unwrap();
    assert!(r.created_at.is_le(&t));
}

#[test]
fn a_snapshot_restores_to_the_same_database() {
    let mut db = Database::new();
    for i in 0..25 {
        let path = format!("/base/h/o/r{:02}", 24 - i);
        db.record_item_at("/base", "url", "h", &format!("r{:02}", 24 - i), "o", &path, Timestamp::new(i, 0));
    }
    db.update_last_sync_time_at(Timestamp::new(99, 9));
    let snapshot = db.to_snapshot();
    assert_eq!(snapshot.records.len(), 25);
    assert_eq!(snapshot.records[0].full_path, "/base/h/o/r00");
    let restored = Database::open(Some(snapshot));
    assert_eq!(restored.size(), 25);
    assert_eq!(restored.get_last_sync_time(), Some(Timestamp::new(99, 9)));
    for i in 0..25 {
        let path = format!("/base/h/o/r{:02}", i);
        let was = db.get_by_path(&path).unwrap();
        let is = restored.get_by_path(&path).unwrap();
        assert_eq!(is.repo, was.repo);
        assert_eq!(is.created_at, was.created_at);
        assert_eq!(is.updated_at, was.updated_at);
    }
    assert_eq!(restored.records().get_by_owner("o").len(), 25);
}

#[test]
fn no_snapshot_opens_a_fresh_database() {
    let db = Database::open(None);
    assert_eq!(db.size(), 0);
    assert_eq!(db.get_last_sync_time(), None);
}

#[test]
fn a_snapshot_with_a_record_that_may_not_be_stored_does_not_restore() {
    let mut no_host = repo("/b", "r", "", "o");
    no_host.remote_url = "x".to_string();
    let snapshot = Snapshot {
        version: "1.0".to_string(),
        records: vec![repo("/a", "r", "h", "o"), no_host, repo("/c", "r", "h", "")],
        last_sync_time: Some(Timestamp::new(5, 0)),
    };
    match Data::from_snapshot(snapshot) {
        Err(LoadError::InvalidRecord { index }) => assert_eq!(index, 1),
        Ok(_) => panic!("a record without host was restored"),
    }
    let mut backwards = repo("/a", "r", "h", "o");
    backwards.created_at = Timestamp::new(200, 1);
    let snapshot = Snapshot {
        version: "1.0".to_string(),
        records: vec![backwards],
        last_sync_time: Some(Timestamp::new(5, 0)),
    };
    let db = Database::open(Some(snapshot));
    assert_eq!(db.size(), 0);
    assert_eq!(db.get_last_sync_time(), None);
}

#[test]
fn a_snapshot_keeps_the_later_of_two_records_of_one_path() {
    let snapshot = Snapshot {
        version: "0.9".to_string(),
        records: vec![repo("/a", "first", "h", "o"), repo("/a", "second", "h", "o")],
        last_sync_time: None,
    };
    let data = Data::from_snapshot(snapshot).unwrap();
    assert_eq!(data.records().size(), 1);
    assert_eq!(data.records().get("/a").unwrap().repo, "second");
    assert_eq!(data.to_snapshot().version, "0.9");
}

#[test]
fn remove_and_reset() {
    let mut db = Database::new();
    db.record_item_at("/b", "u", "h", "r", "o", "/p", Timestamp::new(1, 0));
    db.record_item_at("/b", "u", "h", "s", "o", "/q", Timestamp::new(1, 0));
    db.update_last_sync_time_at(Timestamp::new(2, 0));
    db.remove("/p");
    assert_eq!(db.size(), 1);
    assert!(db.get_by_path("/p").is_none());
    db.remove("/p");
    assert_eq!(db.size(), 1);
    assert_eq!(db.get_last_sync_time(), Some(Timestamp::new(2, 0)));
    db.reset();
    assert_eq!(db.size(), 0);
    assert_eq!(db.get_last_sync_time(), None);
}

#[test]
fn time_stamps_are_ordered_by_seconds_then_nanoseconds() {
    let a = Timestamp::new(-1, 999_999_999);
    let b = Timestamp::new(0, 0);
    let c = Timestamp::new(0, 1);
    assert!(a.is_le(&b) && b.is_le(&c) && a.is_le(&c) && b.is_le(&b));
    assert!(!b.is_le(&a) && !c.is_le(&b));
    assert_eq!(a.latest(b), b);
    assert_eq!(c.latest(b), c);
}

#[test]
fn the_directories_of_host_and_owner_lie_below_the_base_directory() {
    let r = repo("/base/github.com/microsoft/vscode", "vscode", "github.com", "microsoft");
    assert_eq!(r.host_fs_path(), "/base/github.com");
    assert_eq!(r.owner_fs_path(), "/base/github.com/microsoft");
    assert!(r.is_valid());
    assert!(!repo("/p", "r", "", "o").is_valid());
    assert!(!repo("/p", "r", "h", "").is_valid());
    assert_eq!(r.clone().full_path, r.full_path);
}
