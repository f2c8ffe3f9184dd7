use prog::index_records::{Field, IndexedRecords};
use prog::models::{Repo, Timestamp};

fn create_test_repo(full_path: &str, repo: &str) -> Repo {
    let now = Timestamp::new(1_700_000_000, 0);
    Repo {
        created_at: now,
        updated_at: now,
        host: "github.com".to_string(),
        repo: repo.to_string(),
        owner: "user".to_string(),
        remote_url: format!("https://github.com/user/{}.git", repo),
        base_dir: "/base".to_string(),
        full_path: full_path.to_string(),
    }
}

fn create_test_repo_with_details(full_path: &str, repo: &str, host: &str, owner: &str) -> Repo {
    let now = Timestamp::new(1_700_000_000, 0);
    Repo {
        created_at: now,
        updated_at: now,
        host: host.to_string(),
        repo: repo.to_string(),
        owner: owner.to_string(),
        remote_url: format!("https://{}/{}/{}.git", host, owner, repo),
        base_dir: "/base".to_string(),
        full_path: full_path.to_string(),
    }
}

#[test]
fn test_btree_sorted_iteration() {
    let mut records = IndexedRecords::new();

    records.add(create_test_repo("/base/github.com/user/zebra", "zebra"));
    records.add(create_test_repo("/base/github.com/user/apple", "apple"));
    records.add(create_test_repo("/base/github.com/user/mango", "mango"));

    let sorted = records.get_all_sorted();
    let paths: Vec<&str> = sorted.iter().map(|r| r.full_path.as_str()).collect();

    assert_eq!(
        paths,
        vec![
            "/base/github.com/user/apple",
            "/base/github.com/user/mango",
            "/base/github.com/user/zebra",
        ]
    );
}

#[test]
fn test_btree_prefix_query() {
    let mut records = IndexedRecords::new();

    records.add(create_test_repo("/base/github.com/user/prog", "prog"));
    records.add(create_test_repo("/base/github.com/user/prog-cli", "prog-cli"));
    records.add(create_test_repo("/base/github.com/user/prog-tools", "prog-tools"));
    records.add(create_test_repo("/base/github.com/other/prog", "prog"));
    records.add(create_test_repo("/base/gitlab.com/user/prog", "prog"));

    let results = records.get_by_prefix("/base/github.com/user/prog");
    let paths: Vec<&str> = results.iter().map(|r| r.full_path.as_str()).collect();

    assert_eq!(
        paths,
        vec![
            "/base/github.com/user/prog",
            "/base/github.com/user/prog-cli",
            "/base/github.com/user/prog-tools",
        ]
    );
}

#[test]
fn test_btree_prefix_query_no_matches() {
    let mut records = IndexedRecords::new();
    records.add(create_test_repo("/base/github.com/user/vscode", "vscode"));

    let results = records.get_by_prefix("/base/gitlab.com");
    assert!(results.is_empty());
}

#[test]
fn test_btree_lookup_performance() {
    let mut records = IndexedRecords::new();

    for i in 0..100 {
        let path = format!("/base/github.com/user/repo{:03}", i);
        let name = format!("repo{:03}", i);
        records.add(create_test_repo(&path, &name));
    }

    assert!(records.get("/base/github.com/user/repo050").is_some());
    assert!(records.get("/base/github.com/user/repo099").is_some());
    assert!(records.get("/base/github.com/user/repo000").is_some());
    assert!(records.get("/base/github.com/user/nonexistent").is_none());
}

#[test]
fn test_secondary_index_by_host() {
    let mut records = IndexedRecords::new();

    records.add(create_test_repo_with_details(
        "/base/github.com/user/repo1",
        "repo1",
        "github.com",
        "user",
    ));
    records.add(create_test_repo_with_details(
        "/base/github.com/user/repo2",
        "repo2",
        "github.com",
        "user",
    ));
    records.add(create_test_repo_with_details(
        "/base/gitlab.com/user/repo3",
        "repo3",
        "gitlab.com",
        "user",
    ));
    records.add(create_test_repo_with_details(
        "/base/bitbucket.org/user/repo4",
        "repo4",
        "bitbucket.org",
        "user",
    ));

    let github_repos = records.get_by_host("github.com");
    assert_eq!(github_repos.len(), 2);
    assert!(github_repos.iter().all(|r| r.host == "github.com"));

    let gitlab_repos = records.get_by_host("gitlab.com");
    assert_eq!(gitlab_repos.len(), 1);
    assert_eq!(gitlab_repos[0].repo, "repo3");

    let nonexistent = records.get_by_host("nonexistent.com");
    assert!(nonexistent.is_empty());
}

#[test]
fn test_secondary_index_by_owner() {
    let mut records = IndexedRecords::new();

    records.add(create_test_repo_with_details(
        "/base/github.com/microsoft/vscode",
        "vscode",
        "github.com",
        "microsoft",
    ));
    records.add(create_test_repo_with_details(
        "/base/github.com/microsoft/typescript",
        "typescript",
        "github.com",
        "microsoft",
    ));
    records.add(create_test_repo_with_details(
        "/base/github.com/bytemain/prog",
        "prog",
        "github.com",
        "bytemain",
    ));

    let microsoft_repos = records.get_by_owner("microsoft");
    assert_eq!(microsoft_repos.len(), 2);
    assert!(microsoft_repos.iter().all(|r| r.owner == "microsoft"));

    let bytemain_repos = records.get_by_owner("bytemain");
    assert_eq!(bytemain_repos.len(), 1);
    assert_eq!(bytemain_repos[0].repo, "prog");

    let nonexistent = records.get_by_owner("nonexistent");
    assert!(nonexistent.is_empty());
}

#[test]
fn test_secondary_index_by_repo() {
    let mut records = IndexedRecords::new();

    records.add(create_test_repo_with_details(
        "/base/github.com/user1/prog",
        "prog",
        "github.com",
        "user1",
    ));
    records.add(create_test_repo_with_details(
        "/base/github.com/user2/prog",
        "prog",
        "github.com",
        "user2",
    ));
    records.add(create_test_repo_with_details(
        "/base/gitlab.com/user1/prog",
        "prog",
        "gitlab.com",
        "user1",
    ));
    records.add(create_test_repo_with_details(
        "/base/github.com/user1/vscode",
        "vscode",
        "github.com",
        "user1",
    ));

    let prog_repos = records.get_by_repo("prog");
    assert_eq!(prog_repos.len(), 3);
    assert!(prog_repos.iter().all(|r| r.repo == "prog"));

    let vscode_repos = records.get_by_repo("vscode");
    assert_eq!(vscode_repos.len(), 1);
    assert_eq!(vscode_repos[0].owner, "user1");

    let nonexistent = records.get_by_repo("nonexistent");
    assert!(nonexistent.is_empty());
}

#[test]
fn test_index_updated_on_remove() {
    let mut records = IndexedRecords::new();

    records.add(create_test_repo_with_details(
        "/base/github.com/user/repo1",
        "repo1",
        "github.com",
        "user",
    ));
    records.add(create_test_repo_with_details(
        "/base/github.com/user/repo2",
        "repo2",
        "github.com",
        "user",
    ));

    assert_eq!(records.get_by_host("github.com").len(), 2);
    assert_eq!(records.get_by_owner("user").len(), 2);

    assert!(records.remove("/base/github.com/user/repo1"));

    assert_eq!(records.get_by_host("github.com").len(), 1);
    assert_eq!(records.get_by_owner("user").len(), 1);
    assert_eq!(records.get_by_repo("repo1").len(), 0);
    assert_eq!(records.get_by_repo("repo2").len(), 1);
}

#[test]
fn test_index_updated_on_update() {
    let mut records = IndexedRecords::new();

    records.add(create_test_repo_with_details(
        "/base/github.com/user/repo",
        "repo",
        "github.com",
        "user",
    ));

    assert_eq!(records.get_by_host("github.com").len(), 1);
    assert_eq!(records.get_by_host("gitlab.com").len(), 0);

    let now = Timestamp::new(1_700_000_100, 0);
    let updated_repo = Repo {
        created_at: now,
        updated_at: now,
        host: "gitlab.com".to_string(),
        repo: "repo".to_string(),
        owner: "newowner".to_string(),
        remote_url: "https://gitlab.com/newowner/repo.git".to_string(),
        base_dir: "/base".to_string(),
        full_path: "/base/github.com/user/repo".to_string(),
    };
    records.insert("/base/github.com/user/repo", updated_repo);

    assert_eq!(records.get_by_host("github.com").len(), 0);
    assert_eq!(records.get_by_host("gitlab.com").len(), 1);
    assert_eq!(records.get_by_owner("user").len(), 0);
    assert_eq!(records.get_by_owner("newowner").len(), 1);
}

#[test]
fn test_get_all_hosts() {
    let mut records = IndexedRecords::new();

    records.add(create_test_repo_with_details(
        "/base/github.com/user/repo1",
        "repo1",
        "github.com",
        "user",
    ));
    records.add(create_test_repo_with_details(
        "/base/gitlab.com/user/repo2",
        "repo2",
        "gitlab.com",
        "user",
    ));
    records.add(create_test_repo_with_details(
        "/base/bitbucket.org/user/repo3",
        "repo3",
        "bitbucket.org",
        "user",
    ));

    let hosts = records.get_all_hosts();
    assert_eq!(hosts.len(), 3);
    assert_eq!(hosts, vec!["bitbucket.org", "github.com", "gitlab.com"]);
}

#[test]
fn test_get_all_owners() {
    let mut records = IndexedRecords::new();

    records.add(create_test_repo_with_details(
        "/base/github.com/alice/repo1",
        "repo1",
        "github.com",
        "alice",
    ));
    records.add(create_test_repo_with_details(
        "/base/github.com/bob/repo2",
        "repo2",
        "github.com",
        "bob",
    ));
    records.add(create_test_repo_with_details(
        "/base/github.com/charlie/repo3",
        "repo3",
        "github.com",
        "charlie",
    ));

    let owners = records.get_all_owners();
    assert_eq!(owners.len(), 3);
    assert_eq!(owners, vec!["alice", "bob", "charlie"]);
}

#[test]
fn test_get_all_repos() {
    let mut records = IndexedRecords::new();

    records.add(create_test_repo_with_details(
        "/base/github.com/user/alpha",
        "alpha",
        "github.com",
        "user",
    ));
    records.add(create_test_repo_with_details(
        "/base/github.com/user/beta",
        "beta",
        "github.com",
        "user",
    ));
    records.add(create_test_repo_with_details(
        "/base/github.com/user/gamma",
        "gamma",
        "github.com",
        "user",
    ));

    let repos = records.get_all_repos();
    assert_eq!(repos.len(), 3);
    assert_eq!(repos, vec!["alpha", "beta", "gamma"]);
}

#[test]
fn size_counts_distinct_paths_inserted_minus_removed() {
    let mut records = IndexedRecords::new();
    assert_eq!(records.size(), 0);
    records.add(create_test_repo("/base/a", "a"));
    records.add(create_test_repo("/base/b", "b"));
    records.add(create_test_repo("/base/a", "a2"));
    assert_eq!(records.size(), 2);
    assert_eq!(records.get("/base/a").unwrap().repo, "a2");
    assert!(!records.remove("/base/missing"));
    assert_eq!(records.size(), 2);
    assert!(records.remove("/base/a"));
    assert_eq!(records.size(), 1);
    assert!(records.get("/base/a").is_none());
    assert!(records.remove("/base/b"));
    assert_eq!(records.size(), 0);
}

#[test]
fn overwrite_retracts_the_old_index_entries_and_prunes_empty_buckets() {
    let mut records = IndexedRecords::new();
    records.add(create_test_repo_with_details("/w/x", "one", "h1", "o1"));
    records.add(create_test_repo_with_details("/w/x", "two", "h2", "o2"));
    assert_eq!(records.get_all_hosts(), vec!["h2"]);
    assert_eq!(records.get_all_owners(), vec!["o2"]);
    assert_eq!(records.get_all_repos(), vec!["two"]);
    assert!(records.get_by_field(Field::Host, "h1").is_empty());
    assert_eq!(records.get_by_field(Field::Repo, "two").len(), 1);
    assert!(records.remove("/w/x"));
    assert!(records.get_all_hosts().is_empty());
    assert!(records.get_all_owners().is_empty());
    assert!(records.get_all_repos().is_empty());
}

#[test]
fn keys_are_ordered_by_code_point() {
    let mut records = IndexedRecords::new();
    records.add(create_test_repo("/b", "b"));
    records.add(create_test_repo("/B", "B"));
    records.add(create_test_repo("/a/\u{e9}", "e-acute"));
    records.add(create_test_repo("/a", "a"));
    records.add(create_test_repo("/a/z", "z"));
    let sorted = records.get_all_sorted();
    let paths: Vec<&str> = sorted.iter().map(|r| r.full_path.as_str()).collect();
    let mut expected = vec!["/b", "/B", "/a/\u{e9}", "/a", "/a/z"];
    expected.sort();
    assert_eq!(paths, expected);
    assert_eq!(paths, vec!["/B", "/a", "/a/z", "/a/\u{e9}", "/b"]);
}

#[test]
fn prefix_query_with_the_empty_prefix_lists_everything() {
    let mut records = IndexedRecords::new();
    records.add(create_test_repo("/b", "b"));
    records.add(create_test_repo("/a", "a"));
    let all = records.get_by_prefix("");
    let paths: Vec<&str> = all.iter().map(|r| r.full_path.as_str()).collect();
    assert_eq!(paths, vec!["/a", "/b"]);
}

#[test]
fn from_vec_keeps_the_later_record_of_a_path() {
    let records = IndexedRecords::from_vec(vec![
        create_test_repo("/p", "first"),
        create_test_repo("/q", "other"),
        create_test_repo("/p", "second"),
    ]);
    assert_eq!(records.size(), 2);
    assert_eq!(records.get("/p").unwrap().repo, "second");
    assert_eq!(records.get_by_repo("first").len(), 0);
}

#[test]
fn reset_drops_the_records_and_the_indexes() {
    let mut records = IndexedRecords::new();
    records.add(create_test_repo("/base/a", "a"));
    records.add(create_test_repo("/base/b", "b"));
    records.reset();
    assert_eq!(records.size(), 0);
    assert!(records.get("/base/a").is_none());
    assert!(records.get_all_hosts().is_empty());
    assert!(records.index_entries(Field::Repo).is_empty());
    assert!(records.get_all_sorted().is_empty());
}

#[test]
fn the_entries_of_an_index_spell_it_out_in_order() {
    let mut records = IndexedRecords::new();
    records.add(create_test_repo_with_details("/w/3", "r", "h2", "o1"));
    records.add(create_test_repo_with_details("/w/1", "r", "h1", "o1"));
    records.add(create_test_repo_with_details("/w/2", "s", "h2", "o2"));
    let hosts: Vec<(String, Vec<String>)> =
        records.index_entries(Field::Host).into_iter().map(|e| (e.key, e.paths)).collect();
    assert_eq!(
        hosts,
        vec![
            ("h1".to_string(), vec!["/w/1".to_string()]),
            ("h2".to_string(), vec!["/w/2".to_string(), "/w/3".to_string()]),
        ]
    );
    let repos: Vec<(String, Vec<String>)> =
        records.index_entries(Field::Repo).into_iter().map(|e| (e.key, e.paths)).collect();
    assert_eq!(
        repos,
        vec![
            ("r".to_string(), vec!["/w/1".to_string(), "/w/3".to_string()]),
            ("s".to_string(), vec!["/w/2".to_string()]),
        ]
    );
    assert_eq!(records.index_entries(Field::Owner).len(), 2);
}
