//! What the assistant that resolves a wish to a keyword is given: its
//! settings and the list of the repositories.

use crate::index_records::repo_views;
use crate::models::{Repo, RepoView};
use crate::text::{push_str, string_of};
use vstd::prelude::*;

verus! {

/// The service that is asked where none is configured.
pub const DEFAULT_BASE_URL: &'static str = "https://api.openai.com";

/// The model that is asked where none is configured.
pub const DEFAULT_MODEL: &'static str = "gpt-4o-mini";

/// The setting that holds: the value of the environment variable where it is
/// set and not empty, else the configured value where that is not empty.
pub open spec fn setting(env_value: Option<Seq<char>>, config_val: Seq<char>) -> Option<Seq<char>> {
    match env_value {
        Some(v) if v.len() > 0 => Some(v),
        _ => if config_val.len() > 0 {
            Some(config_val)
        } else {
            None
        },
    }
}

/// The setting that holds, from the value that was read of the environment
/// variable and the configured value.
pub fn get_env_or_config(env_value: Option<&str>, config_val: &str) -> (r: Option<String>)
    ensures
        r is Some == setting(
            match env_value {
                Some(v) => Some(v@),
                None => None,
            },
            config_val@,
        ) is Some,
        r matches Some(s) ==> Some(s@) == setting(
            match env_value {
                Some(v) => Some(v@),
                None => None,
            },
            config_val@,
        ),
{
    match env_value {
        Some(v) => {
            if !v.is_empty() {
                return Some(v.to_owned());
            }
        },
        None => {},
    }
    if config_val.is_empty() {
        None
    } else {
        Some(config_val.to_owned())
    }
}

/// The line of a repository: `host/owner/repo`.
pub open spec fn repo_line(r: RepoView) -> Seq<char> {
    r.host + seq!['/'] + r.owner + seq!['/'] + r.repo
}

/// The lines of the repositories, one below the other.
pub open spec fn repo_list(repos: Seq<RepoView>) -> Seq<char>
    decreases repos.len(),
{
    if repos.len() == 0 {
        Seq::empty()
    } else if repos.len() == 1 {
        repo_line(repos[0])
    } else {
        repo_list(repos.drop_last()) + seq!['\n'] + repo_line(repos.last())
    }
}

/// The list of the repositories that the assistant is given.
pub fn build_repo_list(repos: &Vec<Repo>) -> (r: String)
    ensures
        r@ == repo_list(repo_views(repos@)),
{
    let ghost all = repo_views(repos@);
    let mut out: Vec<char> = Vec::new();
    let mut i: usize = 0;
    assert(all.take(0) =~= Seq::<RepoView>::empty());
    while i < repos.len()
        invariant
            i <= repos.len(),
            all == repo_views(repos@),
            out@ == repo_list(all.take(i as int)),
        decreases repos.len() - i,
    {
        let ghost before = out@;
        proof {
            assert(all.take(i + 1).drop_last() =~= all.take(i as int));
            assert(all.take(i + 1).last() == repos@[i as int]@);
            if i == 0 {
                assert(all.take(1)[0] == repos@[0]@);
            }
        }
        if i > 0 {
            out.push('\n');
        }
        let ghost started = out@;
        push_str(&mut out, repos[i].host.as_str());
        out.push('/');
        push_str(&mut out, repos[i].owner.as_str());
        out.push('/');
        push_str(&mut out, repos[i].repo.as_str());
        assert(out@ =~= started + repo_line(repos@[i as int]@));
        assert(Seq::<char>::empty() + repo_line(repos@[i as int]@) =~= repo_line(repos@[i as int]@));
        i += 1;
    }
    assert(all.take(i as int) =~= all);
    string_of(&out)
}

} // verus!
