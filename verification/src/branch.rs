//! What the files of a git directory say: the branch that `HEAD` names, and the
//! git directory that a `.git` file of a linked worktree names.

use crate::path::{join, join_path};
use crate::text::{
    copy_range, push_from, split, split_chars, starts_with, str_chars, string_of, trim,
    trim_bounds, views,
};
use vstd::prelude::*;

verus! {

/// `s` without the prefix `prefix`, where it begins so.
pub open spec fn strip_prefix(s: Seq<char>, prefix: Seq<char>) -> Option<Seq<char>> {
    if prefix.is_prefix_of(s) {
        Some(s.skip(prefix.len() as int))
    } else {
        None
    }
}

/// The first `n` characters of `s`, or all of it where it has fewer.
pub open spec fn first_chars(s: Seq<char>, n: int) -> Seq<char> {
    if s.len() <= n {
        s
    } else {
        s.take(n)
    }
}

/// The name by which a reference is shown: a branch by its name, a remote
/// branch by remote and name, a tag with `tags/` before its name, and any
/// other reference in full.
pub open spec fn ref_name(reference: Seq<char>) -> Seq<char> {
    if let Some(branch) = strip_prefix(reference, "refs/heads/"@) {
        branch
    } else if let Some(branch) = strip_prefix(reference, "refs/remotes/"@) {
        branch
    } else if let Some(tag) = strip_prefix(reference, "refs/tags/"@) {
        "tags/"@ + tag
    } else {
        reference
    }
}

/// The branch that the contents of `HEAD` name. A `HEAD` that names no
/// reference is detached: it is shown as `detached-` and the first seven
/// characters of what it holds.
pub open spec fn branch_of(head: Seq<char>) -> Seq<char> {
    let trimmed = trim(head);
    match strip_prefix(trimmed, "ref:"@) {
        Some(rest) => ref_name(trim(rest)),
        None => "detached-"@ + first_chars(trimmed, 7),
    }
}

fn trimmed(v: &Vec<char>) -> (r: Vec<char>)
    ensures
        r@ == trim(v@),
{
    let (lo, hi) = trim_bounds(v);
    copy_range(v, lo, hi)
}

fn strip(s: &Vec<char>, prefix: &str) -> (r: Option<Vec<char>>)
    ensures
        r is Some == strip_prefix(s@, prefix@) is Some,
        r matches Some(rest) ==> Some(rest@) == strip_prefix(s@, prefix@),
{
    let p = str_chars(prefix);
    if starts_with(s, &p) {
        let rest = copy_range(s, p.len(), s.len());
        assert(s@.subrange(p.len() as int, s.len() as int) =~= s@.skip(p.len() as int));
        Some(rest)
    } else {
        None
    }
}

/// The branch that the contents of `HEAD` name.
pub fn read_branch(head: &str) -> (r: String)
    ensures
        r@ == branch_of(head@),
{
    let t = trimmed(&str_chars(head));
    match strip(&t, "ref:") {
        Some(rest) => {
            let reference = trimmed(&rest);
            if let Some(branch) = strip(&reference, "refs/heads/") {
                string_of(&branch)
            } else if let Some(branch) = strip(&reference, "refs/remotes/") {
                string_of(&branch)
            } else if let Some(tag) = strip(&reference, "refs/tags/") {
                let mut out = str_chars("tags/");
                assert(tag@.skip(0) =~= tag@);
                push_from(&mut out, &tag, 0);
                string_of(&out)
            } else {
                string_of(&reference)
            }
        },
        None => {
            let mut out = str_chars("detached-");
            let short = if t.len() <= 7 {
                copy_range(&t, 0, t.len())
            } else {
                copy_range(&t, 0, 7)
            };
            assert(t@.subrange(0, t.len() as int) =~= t@);
            assert(short@.skip(0) =~= short@);
            push_from(&mut out, &short, 0);
            string_of(&out)
        },
    }
}

/// The branch of a working directory, from what was read of its `HEAD`: the
/// branch that it names, and no branch where nothing was read.
pub fn get_branch(head: Option<&str>) -> (r: String)
    ensures
        r@ == match head {
            Some(h) => branch_of(h@),
            None => Seq::empty(),
        },
{
    match head {
        Some(h) => read_branch(h),
        None => String::new(),
    }
}

/// The line separator.
pub open spec fn newline() -> Seq<char> {
    seq!['\n']
}

/// The git directory that the first of the lines `lines[from..]` names: a line
/// names one with `gitdir:` and a path, which is taken below `repo_path`
/// unless it begins with `/`.
pub open spec fn gitdir_from(
    lines: Seq<Seq<char>>,
    repo_path: Seq<char>,
    from: int,
) -> Option<Seq<char>>
    decreases lines.len() - from,
{
    if from < 0 || from >= lines.len() {
        None
    } else {
        match strip_prefix(trim(lines[from]), "gitdir:"@) {
            Some(rest) => Some(join_path(repo_path, trim(rest))),
            None => gitdir_from(lines, repo_path, from + 1),
        }
    }
}

/// The git directory that the `.git` file with the given contents names for
/// the working directory `repo_path`.
pub open spec fn gitdir_of(contents: Seq<char>, repo_path: Seq<char>) -> Option<Seq<char>> {
    gitdir_from(split(contents, newline()), repo_path, 0)
}

/// The git directory that a `.git` file names.
pub fn resolve_gitdir(contents: &str, repo_path: &str) -> (r: Option<String>)
    ensures
        r is Some == gitdir_of(contents@, repo_path@) is Some,
        r matches Some(dir) ==> Some(dir@) == gitdir_of(contents@, repo_path@),
{
    let seps: Vec<char> = vec!['\n'];
    assert(seps@ == newline());
    let lines = split_chars(&str_chars(contents), &seps);
    let ghost all = views(lines@);
    let mut i: usize = 0;
    while i < lines.len()
        invariant
            i <= lines.len(),
            all == views(lines@),
            all == split(contents@, newline()),
            gitdir_of(contents@, repo_path@) == gitdir_from(all, repo_path@, i as int),
        decreases lines.len() - i,
    {
        assert(all[i as int] == lines@[i as int]@);
        let line = trimmed(&lines[i]);
        if let Some(rest) = strip(&line, "gitdir:") {
            let dir = string_of(&trimmed(&rest));
            return Some(join(repo_path, dir.as_str()));
        }
        i += 1;
    }
    None
}

} // verus!
