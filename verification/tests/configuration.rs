use prog::configuration::{
    default_auto_sync_interval_secs, get_random_string, Alias, BaseDirError, Config,
};
use prog::context::Context;
use prog::database::Database;
use prog::models::Timestamp;
use prog::sync::WorkingDir;

fn config(base: &[&str], aliases: &[(&str, &str)], tmp_dir: &str) -> Config {
    Config {
        base: base.iter().map(|s| s.to_string()).collect(),
        alias: aliases
            .iter()
            .map(|(p, t)| Alias { prefix: p.to_string(), target: t.to_string() })
            .collect(),
        tmp_dir: tmp_dir.to_string(),
        auto_sync_interval_secs: default_auto_sync_interval_secs(),
    }
}

#[test]
fn test_get_random_string() {
    let n = 10;
    let result = get_random_string(n);
    println!("random string {}", result);
    assert_eq!(result.len(), { n });
}

#[test]
fn a_random_string_is_made_of_digits_and_small_letters() {
    let s = get_random_string(200);
    assert_eq!(s.chars().count(), 200);
    assert!(s.chars().all(|c| c.is_ascii_digit() || c.is_ascii_lowercase()));
    assert_eq!(get_random_string(0), "");
}

#[test]
fn the_first_alias_that_begins_the_url_is_applied() {
    let c = config(
        &[],
        &[
            ("gitlab://", "https://gitlab.com/"),
            ("github://", "https://github.com/"),
            ("git", "WRONG"),
        ],
        "",
    );
    assert_eq!(c.replace_alias("github://owner/repo".to_string()), "https://github.com/owner/repo");
    assert_eq!(c.replace_alias("gitlab://".to_string()), "https://gitlab.com/");
    assert_eq!(c.replace_alias("gitea://x".to_string()), "WRONGea://x");
    assert_eq!(c.replace_alias("https://github.com/o/r".to_string()), "https://github.com/o/r");
    assert_eq!(config(&[], &[], "").replace_alias("github://o/r".to_string()), "github://o/r");
}

#[test]
fn base_dirs_are_expanded() {
    let c = config(&["~/0Workspace", "/srv/code", "~"], &[], "");
    assert_eq!(
        c.base_dirs_with(Some("/home/u")),
        vec!["/home/u/0Workspace", "/srv/code", "/home/u"]
    );
    assert_eq!(c.base_dirs_with(None), vec!["~/0Workspace", "/srv/code", "~"]);
    let home = dirs::home_dir().unwrap().to_string_lossy().to_string();
    assert_eq!(c.base_dirs(), vec![format!("{}/0Workspace", home), "/srv/code".to_string(), home]);
}

#[test]
fn the_base_dir_is_the_first_one() {
    let c = config(&["/srv/code", "/other"], &[], "");
    assert_eq!(c.get_base_dir(), Ok("/srv/code".to_string()));
    assert_eq!(c.get_base_dir_with(Some("/h")), Ok("/srv/code".to_string()));
    assert_eq!(config(&[], &[], "").get_base_dir(), Err(BaseDirError::NotConfigured));
}

#[test]
fn the_tmp_dir_and_new_directories_below_it() {
    let c = config(&[], &[], "~/tmp");
    assert_eq!(c.tmp_dir_with(Some("/home/u")), "/home/u/tmp");
    let home = dirs::home_dir().unwrap().to_string_lossy().to_string();
    assert_eq!(c.tmp_dir(), format!("{}/tmp", home));
    assert_eq!(Config::tmp_dir_path("/home/u/tmp", "abc123"), "/home/u/tmp/prog-abc123");
    let made = c.create_tmp_dir();
    let prefix = format!("{}/tmp/prog-", home);
    assert!(made.starts_with(&prefix));
    let suffix = &made[prefix.len()..];
    assert_eq!(suffix.len(), 6);
    assert!(suffix.chars().all(|ch| ch.is_ascii_digit() || ch.is_ascii_lowercase()));
    assert_eq!(c.get_auto_sync_interval_secs(), 3600);
}

#[test]
fn the_context_works_in_the_one_base_dir() {
    let one = Context::new(config(&["/srv/code"], &[], ""), Database::new());
    assert_eq!(one.get_base_dir(), Ok("/srv/code".to_string()));
    let none = Context::new(config(&[], &[], ""), Database::new());
    assert_eq!(none.get_base_dir(), Err(BaseDirError::NotConfigured));
    let two = Context::new(config(&["/a", "/b"], &[], ""), Database::new());
    assert_eq!(two.get_base_dir(), Err(BaseDirError::MoreThanOne));
    assert_eq!(two.get_base_dir_with(Some("/h")), Err(BaseDirError::MoreThanOne));
    assert_eq!(two.config().base.len(), 2);
}

#[test]
fn the_context_syncs_and_tells_when_a_sync_is_due() {
    let mut c = Context::new(config(&["/b"], &[], ""), Database::new());
    assert!(c.auto_sync_due_at(Timestamp::new(0, 0)));
    assert!(c.auto_sync_silent());
    let found = vec![WorkingDir {
        base_dir: "/b".to_string(),
        full_path: "/b/h/o/r".to_string(),
        remote_url: "https://h/o/r.git".to_string(),
    }];
    let report = c.sync_silent(&found);
    assert_eq!(report.recorded, 1);
    assert_eq!(c.database().size(), 1);
    let last = c.database().get_last_sync_time().unwrap();
    assert!(!c.auto_sync_due_at(Timestamp::new(last.secs + 3600, last.nanos)));
    assert!(c.auto_sync_due_at(Timestamp::new(last.secs + 3601, last.nanos)));
    assert!(!c.auto_sync_silent());
    c.database_mut().remove("/b/h/o/r");
    assert_eq!(c.database().size(), 0);
}
