use prog::database::Database;
use prog::models::Timestamp;
use prog::sync::{is_sync_due, read_item, sync, sync_at, walk_workers, Skip, WorkingDir};

fn dir(base_dir: &str, full_path: &str, remote_url: &str) -> WorkingDir {
    WorkingDir {
        base_dir: base_dir.to_string(),
        full_path: full_path.to_string(),
        remote_url: remote_url.to_string(),
    }
}

#[test]
fn sync_records_three_and_skips_the_one_without_remote() {
    let found = vec![
        dir("/one", "/one/github.com/a/x", "https://github.com/a/x.git"),
        dir("/one", "/one/github.com/a/y", "git@github.com:a/y.git"),
        dir("/two", "/two/local/nothing", ""),
        dir("/one", "/one/gitlab.com/b/z", "ssh://git@gitlab.com/b/z"),
    ];
    let mut db = Database::new();
    let now = Timestamp::new(1_700_000_000, 5);
    let report = sync_at(&mut db, &found, now);
    assert_eq!(report.recorded, 3);
    assert_eq!(report.skipped.len(), 1);
    assert_eq!(report.skipped[0].index, 2);
    assert_eq!(report.skipped[0].why, Skip::NoRemote);
    assert_eq!(db.size(), 3);
    assert_eq!(db.get_last_sync_time(), Some(now));
    let items = db.get_all_items();
    let paths: Vec<&str> = items.iter().map(|r| r.full_path.as_str()).collect();
    assert_eq!(paths, vec!["/one/github.com/a/x", "/one/github.com/a/y", "/one/gitlab.com/b/z"]);
    let y = db.get_by_path("/one/github.com/a/y").unwrap();
    assert_eq!(y.host, "github.com");
    assert_eq!(y.owner, "a");
    assert_eq!(y.repo, "y");
    assert_eq!(y.remote_url, "git@github.com:a/y.git");
    assert_eq!(y.base_dir, "/one");
    assert_eq!(y.created_at, now);
    assert_eq!(y.updated_at, now);
}

#[test]
fn sync_drops_what_the_store_held_before() {
    let mut db = Database::new();
    db.record_item_at("/b", "u", "h", "r", "o", "/b/h/o/r", Timestamp::new(1, 0));
    let found = vec![dir("/b", "/b/h/o/other", "https://h/o/other")];
    let report = sync(&mut db, &found);
    assert_eq!(report.recorded, 1);
    assert!(report.skipped.is_empty());
    assert_eq!(db.size(), 1);
    assert!(db.get_by_path("/b/h/o/r").is_none());
    assert!(db.get_by_path("/b/h/o/other").is_some());
    assert!(db.get_last_sync_time().is_some());
}

#[test]
fn sync_of_nothing_leaves_an_empty_synced_store() {
    let mut db = Database::new();
    let report = sync_at(&mut db, &Vec::new(), Timestamp::new(7, 0));
    assert_eq!(report.recorded, 0);
    assert!(report.skipped.is_empty());
    assert_eq!(db.size(), 0);
    assert_eq!(db.get_last_sync_time(), Some(Timestamp::new(7, 0)));
}

#[test]
fn read_item_gives_each_reason_to_skip() {
    assert_eq!(read_item(&dir("/b", "/b/x", "  \n")).unwrap_err(), Skip::NoRemote);
    assert_eq!(read_item(&dir("/b", "/b/x", "https://github.com/owner")).unwrap_err(), Skip::Unparsable);
    assert_eq!(read_item(&dir("/b", "/b/x", "https:///owner/repo")).unwrap_err(), Skip::Incomplete);
    assert_eq!(read_item(&dir("/b", "/b/x", "git@github.com:owner/")).unwrap_err(), Skip::Incomplete);
    assert_eq!(read_item(&dir("/b", "/b/x", "host:22/owner/repo")).unwrap_err(), Skip::Incomplete);
}

#[test]
fn read_item_takes_the_url_without_the_whitespace_around_it() {
    let item = read_item(&dir("/b", "/b/x", " https://example.org/team/tool.git\n")).unwrap();
    assert_eq!(item.host, "example.org");
    assert_eq!(item.owner, "team");
    assert_eq!(item.repo, "tool");
    assert_eq!(item.remote_url, "https://example.org/team/tool.git");
    assert_eq!(item.base_dir, "/b");
    assert_eq!(item.full_path, "/b/x");
}

#[test]
fn a_path_found_twice_is_recorded_once() {
    let found = vec![
        dir("/b", "/b/h/o/r", "https://h/o/r"),
        dir("/c", "/b/h/o/r", "https://h2/o2/r2"),
    ];
    let mut db = Database::new();
    let report = sync_at(&mut db, &found, Timestamp::new(3, 0));
    assert_eq!(report.recorded, 2);
    assert_eq!(db.size(), 1);
    let r = db.get_by_path("/b/h/o/r").unwrap();
    assert_eq!(r.host, "h2");
    assert_eq!(r.base_dir, "/c");
    assert_eq!(db.records().get_by_host("h").len(), 0);
}

#[test]
fn sync_is_due_by_whole_seconds_past_the_interval() {
    let last = Timestamp::new(1000, 500_000_000);
    assert!(is_sync_due(3600, None, Timestamp::new(0, 0)));
    assert!(!is_sync_due(0, None, Timestamp::new(0, 0)));
    assert!(!is_sync_due(-5, Some(last), Timestamp::new(1_000_000, 0)));
    assert!(!is_sync_due(3600, Some(last), Timestamp::new(4600, 500_000_000)));
    assert!(!is_sync_due(3600, Some(last), Timestamp::new(4601, 499_999_999)));
    assert!(is_sync_due(3600, Some(last), Timestamp::new(4601, 500_000_000)));
    assert!(!is_sync_due(3600, Some(last), Timestamp::new(10, 0)));
    assert!(is_sync_due(1, Some(Timestamp::new(i64::MIN, 0)), Timestamp::new(i64::MAX, 999_999_999)));
}

#[test]
fn the_walk_uses_twelve_workers_at_most() {
    assert_eq!(walk_workers(None), 1);
    assert_eq!(walk_workers(Some(4)), 4);
    assert_eq!(walk_workers(Some(12)), 12);
    assert_eq!(walk_workers(Some(64)), 12);
}
