use prog::branch::{get_branch, read_branch, resolve_gitdir};

#[test]
fn test_read_branch_simple_branch() {
    assert_eq!(read_branch("ref: refs/heads/main\n"), "main");
}

#[test]
fn test_read_branch_with_slash() {
    assert_eq!(read_branch("ref: refs/heads/release/1.100\n"), "release/1.100");
}

#[test]
fn test_read_branch_feature_branch() {
    assert_eq!(read_branch("ref: refs/heads/feature/user-auth\n"), "feature/user-auth");
}

#[test]
fn test_read_branch_remote_branch() {
    assert_eq!(read_branch("ref: refs/remotes/origin/main\n"), "origin/main");
}

#[test]
fn test_read_branch_detached_head() {
    assert_eq!(read_branch("1234567890abcdef1234567890abcdef12345678\n"), "detached-1234567");
}

#[test]
fn test_read_branch_tag() {
    assert_eq!(read_branch("ref: refs/tags/v1.0.0\n"), "tags/v1.0.0");
}

#[test]
fn test_read_branch_unknown_ref_format() {
    assert_eq!(read_branch("ref: refs/custom/something\n"), "refs/custom/something");
}

#[test]
fn a_short_or_empty_head_is_detached() {
    assert_eq!(read_branch("abc"), "detached-abc");
    assert_eq!(read_branch(""), "detached-");
    assert_eq!(read_branch("  \n"), "detached-");
    assert_eq!(read_branch("ref:"), "");
    assert_eq!(read_branch("ref:refs/heads/x"), "x");
}

#[test]
fn no_head_is_no_branch() {
    assert_eq!(get_branch(None), "");
    assert_eq!(get_branch(Some("ref: refs/heads/dev")), "dev");
}

#[test]
fn the_git_file_of_a_worktree_names_the_git_directory() {
    assert_eq!(
        resolve_gitdir("gitdir: /repo/.git/worktrees/wt\n", "/work/wt"),
        Some("/repo/.git/worktrees/wt".to_string())
    );
    assert_eq!(
        resolve_gitdir("# note\r\n  gitdir:  ../repo/.git/worktrees/wt \r\n", "/work/wt"),
        Some("/work/wt/../repo/.git/worktrees/wt".to_string())
    );
    assert_eq!(
        resolve_gitdir("gitdir: a\ngitdir: b\n", "/w"),
        Some("/w/a".to_string())
    );
    assert_eq!(resolve_gitdir("nothing here\n", "/w"), None);
    assert_eq!(resolve_gitdir("", "/w"), None);
}
