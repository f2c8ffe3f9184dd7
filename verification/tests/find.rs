use prog::database::Data;
use prog::matching::MatchKind;
use prog::models::Timestamp;

fn create_test_data() -> Data {
    let mut data = Data::new();
    data.record_item(
        "/base",
        "https://github.com/user/vscode.git",
        "github.com",
        "vscode",
        "user",
        "/base/github.com/user/vscode",
    );
    data.record_item(
        "/base",
        "https://github.com/user/prog.git",
        "github.com",
        "prog",
        "user",
        "/base/github.com/user/prog",
    );
    data.record_item(
        "/base",
        "https://github.com/user/prog-cli.git",
        "github.com",
        "prog-cli",
        "user",
        "/base/github.com/user/prog-cli",
    );
    data.record_item(
        "/base",
        "https://github.com/user/my-prog-tools.git",
        "github.com",
        "my-prog-tools",
        "user",
        "/base/github.com/user/my-prog-tools",
    );
    data
}

#[test]
fn test_find_exact_match_first() {
    let data = create_test_data();

    let results = data.find("prog");

    assert!(!results.is_empty(), "Should find results");
    assert_eq!(
        results[0].repo.repo, "prog",
        "Exact match 'prog' should be first (Levenshtein distance 0)"
    );
}

#[test]
fn test_find_sorted_by_levenshtein_distance() {
    let data = create_test_data();

    let results = data.find("prog");

    assert_eq!(results[0].repo.repo, "prog", "Exact match should be first");

    let repo_names: Vec<&str> = results.iter().map(|r| r.repo.repo.as_str()).collect();

    let prog_pos = repo_names.iter().position(|&r| r == "prog").unwrap();
    let prog_cli_pos = repo_names.iter().position(|&r| r == "prog-cli").unwrap();
    assert!(prog_pos < prog_cli_pos, "prog should come before prog-cli");

    let my_prog_tools_pos = repo_names.iter().position(|&r| r == "my-prog-tools").unwrap();
    assert!(prog_cli_pos < my_prog_tools_pos, "prog-cli should come before my-prog-tools");
}

#[test]
fn test_find_alphabetical_within_same_distance() {
    let mut data = Data::new();
    data.record_item(
        "/base",
        "https://github.com/user/progs.git",
        "github.com",
        "progs",
        "user",
        "/base/github.com/user/progs",
    );
    data.record_item(
        "/base",
        "https://github.com/user/progx.git",
        "github.com",
        "progx",
        "user",
        "/base/github.com/user/progx",
    );
    data.record_item(
        "/base",
        "https://github.com/user/prog.git",
        "github.com",
        "prog",
        "user",
        "/base/github.com/user/prog",
    );

    let results = data.find("prog");

    assert_eq!(results[0].repo.repo, "prog", "Exact match should be first");

    let repo_names: Vec<&str> = results.iter().skip(1).map(|r| r.repo.repo.as_str()).collect();
    assert_eq!(
        repo_names,
        vec!["progs", "progx"],
        "Same distance repos should be alphabetically sorted"
    );
}

#[test]
fn test_find_order_is_deterministic() {
    let data = create_test_data();

    let results1 = data.find("prog");
    let results2 = data.find("prog");
    let results3 = data.find("prog");

    let order1: Vec<&str> = results1.iter().map(|r| r.repo.repo.as_str()).collect();
    let order2: Vec<&str> = results2.iter().map(|r| r.repo.repo.as_str()).collect();
    let order3: Vec<&str> = results3.iter().map(|r| r.repo.repo.as_str()).collect();

    assert_eq!(order1, order2, "Find results should be deterministic");
    assert_eq!(order2, order3, "Find results should be deterministic");
}

fn data_of(records: &[(&str, &str, &str, &str)]) -> Data {
    let mut data = Data::new();
    for (owner, repo, url, path) in records {
        data.record_item_at("/base", url, "example.org", repo, owner, path, Timestamp::new(10, 0));
    }
    data
}

fn found(data: &Data, keyword: &str) -> Vec<(String, MatchKind)> {
    data.find(keyword).into_iter().map(|m| (m.repo.repo, m.kind)).collect()
}

#[test]
fn find_gives_the_kind_of_each_match_in_the_order_of_preference() {
    let data = data_of(&[
        ("acme", "tool", "https://example.org/acme/tool.git", "/w/1"),
        ("tool", "kit", "https://example.org/tool/kit.git", "/w/2"),
        ("acme", "toolbox", "https://example.org/acme/toolbox.git", "/w/3"),
        ("acme", "other", "https://example.org/acme/other.git", "/w/tool/4"),
        ("mytools", "box", "https://example.org/mytools/box.git", "/w/5"),
        ("acme", "renamed", "https://example.org/acme/tool-old.git", "/w/6"),
        ("acme", "none", "https://example.org/acme/none.git", "/w/7"),
    ]);
    assert_eq!(
        found(&data, "tool"),
        vec![
            ("tool".to_string(), MatchKind::ExactRepo),
            ("toolbox".to_string(), MatchKind::RepoSubstring),
            ("other".to_string(), MatchKind::PathSubstring),
            ("kit".to_string(), MatchKind::ExactOwner),
            ("box".to_string(), MatchKind::OwnerSubstring),
            ("renamed".to_string(), MatchKind::RemoteUrlSubstring),
        ]
    );
}

#[test]
fn find_matches_owner_and_repo_together() {
    let data = data_of(&[
        ("acme", "tool", "u1", "/w/1"),
        ("acme", "toolbox", "u2", "/w/2"),
    ]);
    assert_eq!(found(&data, "acme/tool"), vec![("tool".to_string(), MatchKind::ExactFullName)]);
}

#[test]
fn find_takes_a_remote_url_for_its_owner_and_repo() {
    let data = data_of(&[
        ("acme", "tool", "git@example.org:acme/tool.git", "/w/1"),
        ("acme", "toolbox", "u2", "/w/2"),
    ]);
    assert_eq!(
        found(&data, "https://example.org/Acme/Tool.git"),
        vec![("tool".to_string(), MatchKind::ExactFullName)]
    );
    assert_eq!(
        found(&data, "git@example.org:acme/tool.git"),
        vec![("tool".to_string(), MatchKind::ExactFullName)]
    );
}

#[test]
fn find_compares_in_lower_case() {
    let data = data_of(&[("Acme", "TOOL", "U1", "/W/1"), ("acme", "Toolbox", "u2", "/w/2")]);
    assert_eq!(
        found(&data, "Tool"),
        vec![
            ("TOOL".to_string(), MatchKind::ExactRepo),
            ("Toolbox".to_string(), MatchKind::RepoSubstring),
        ]
    );
}

#[test]
fn fuzzy_segments_match_in_order_only() {
    let data = data_of(&[
        ("o", "abcd-efg-jkl", "u", "/w/1"),
        ("o", "jkl-abcd", "u", "/w/2"),
        ("o", "abc-jkl", "u", "/w/3"),
        ("o", "abcd_x.jkl", "u", "/w/4"),
    ]);
    assert_eq!(
        found(&data, "abcd-jkl"),
        vec![
            ("abcd_x.jkl".to_string(), MatchKind::FuzzySegment),
            ("abcd-efg-jkl".to_string(), MatchKind::FuzzySegment),
        ]
    );
}

#[test]
fn exact_repo_name_ranks_first_among_many_partial_matches() {
    let data = data_of(&[
        ("o", "aprog", "u", "/w/1"),
        ("o", "prog-a", "u", "/w/2"),
        ("o", "a-prog", "u", "/w/3"),
        ("prog", "zz", "u", "/w/4"),
        ("o", "prog", "u", "/w/9"),
        ("o", "progs", "u", "/w/5"),
    ]);
    let results = data.find("prog");
    assert_eq!(results.len(), 6);
    assert_eq!(results[0].repo.repo, "prog");
    assert_eq!(results[0].kind, MatchKind::ExactRepo);
    assert_eq!(results[0].kind.rank(), 0);
}

#[test]
fn records_of_one_name_stand_in_the_order_of_their_paths() {
    let data = data_of(&[
        ("u2", "prog", "url2", "/w/u2/prog"),
        ("u1", "prog", "url1", "/w/u1/prog"),
        ("u3", "prog", "url3", "/w/u3/prog"),
    ]);
    let results = data.find("prog");
    let paths: Vec<&str> = results.iter().map(|m| m.repo.full_path.as_str()).collect();
    assert_eq!(paths, vec!["/w/u1/prog", "/w/u2/prog", "/w/u3/prog"]);
}

#[test]
fn rank_comes_before_distance() {
    let data = data_of(&[
        ("o", "xy", "u", "/w/abcdefgh/1"),
        ("o", "abcdefgh-and-a-long-tail", "u", "/w/2"),
    ]);
    assert_eq!(
        found(&data, "abcdefgh"),
        vec![
            ("abcdefgh-and-a-long-tail".to_string(), MatchKind::RepoSubstring),
            ("xy".to_string(), MatchKind::PathSubstring),
        ]
    );
}

#[test]
fn find_without_a_match_is_empty() {
    let data = create_test_data();
    assert!(data.find("no-such-thing").is_empty());
    assert!(Data::new().find("prog").is_empty());
}

#[test]
fn the_empty_keyword_matches_every_record() {
    let data = create_test_data();
    let names: Vec<String> = data.find("").into_iter().map(|m| m.repo.repo).collect();
    assert_eq!(names, vec!["prog", "vscode", "prog-cli", "my-prog-tools"]);
}

#[test]
fn rank_is_the_place_in_the_order_of_preference() {
    let kinds = [
        MatchKind::ExactRepo,
        MatchKind::ExactFullName,
        MatchKind::RepoSubstring,
        MatchKind::PathSubstring,
        MatchKind::ExactOwner,
        MatchKind::OwnerSubstring,
        MatchKind::RemoteUrlSubstring,
        MatchKind::FuzzySegment,
    ];
    for (i, kind) in kinds.iter().enumerate() {
        assert_eq!(kind.rank() as usize, i);
    }
}
