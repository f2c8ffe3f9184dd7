//! The remote URL parser: text to host, owner and repository name.

use crate::text::{
    contains_char, copy_range, ends_with, find_char, find_in, find_sub, first_index_of, is_blank,
    last_index_of, rfind_char, split, split_chars, str_chars, string_of, strip_suffix, trim,
    trim_bounds, views,
};
use vstd::prelude::*;

verus! {

/// The parts of a remote URL.
#[derive(Debug)]
pub struct ParsedGitUrl {
    /// The host, absent where the text names none.
    pub host: Option<String>,
    /// The account or organisation.
    pub owner: Option<String>,
    /// The repository's short name, without a trailing `.git`.
    pub name: String,
    /// `owner/name`, or the name alone where there is no owner.
    pub fullname: String,
}

/// The mathematical value of a `ParsedGitUrl`.
pub struct ParsedUrl {
    pub host: Option<Seq<char>>,
    pub owner: Option<Seq<char>>,
    pub name: Seq<char>,
    pub fullname: Seq<char>,
}

/// The view of an optional string.
pub open spec fn opt_view(s: Option<String>) -> Option<Seq<char>> {
    match s {
        Some(x) => Some(x@),
        None => None,
    }
}

impl View for ParsedGitUrl {
    type V = ParsedUrl;

    open spec fn view(&self) -> ParsedUrl {
        ParsedUrl {
            host: opt_view(self.host),
            owner: opt_view(self.owner),
            name: self.name@,
            fullname: self.fullname@,
        }
    }
}

impl Clone for ParsedGitUrl {
    fn clone(&self) -> (r: ParsedGitUrl)
        ensures
            r@ == self@,
    {
        ParsedGitUrl {
            host: match &self.host {
                Some(h) => Some(h.clone()),
                None => None,
            },
            owner: match &self.owner {
                Some(o) => Some(o.clone()),
                None => None,
            },
            name: self.name.clone(),
            fullname: self.fullname.clone(),
        }
    }
}

/// The suffix that a repository name may carry: `.git`.
pub open spec fn git_suffix() -> Seq<char> {
    seq!['.', 'g', 'i', 't']
}

/// What stands between the scheme and the rest of a URL: `://`.
pub open spec fn scheme_mark() -> Seq<char> {
    seq![':', '/', '/']
}

/// The path separator, as a set of separators.
pub open spec fn slash() -> Seq<char> {
    seq!['/']
}

/// `owner/name`, or `name` alone.
pub open spec fn full_name(owner: Option<Seq<char>>, name: Seq<char>) -> Seq<char> {
    match owner {
        Some(o) => o + seq!['/'] + name,
        None => name,
    }
}

/// The parsed URL with the given host and owner, and with the name taken from
/// `segment` by stripping `.git`.
pub open spec fn assemble(
    host: Option<Seq<char>>,
    owner: Option<Seq<char>>,
    segment: Seq<char>,
) -> ParsedUrl {
    let name = strip_suffix(segment, git_suffix());
    ParsedUrl { host, owner, name, fullname: full_name(owner, name) }
}

/// What follows the user in `user@host/...`. An `@` names a user only where it
/// precedes the first `/`.
pub open spec fn skip_user(rest: Seq<char>) -> Seq<char> {
    match first_index_of(rest, '@') {
        Some(at) => if rest.take(at).contains('/') {
            rest
        } else {
            rest.skip(at + 1)
        },
        None => rest,
    }
}

/// Parses what follows `://`: `[user@]host/owner/name[.git]`.
pub open spec fn parse_after_scheme(rest: Seq<char>) -> Option<ParsedUrl> {
    let parts = split(skip_user(rest), slash());
    if parts.len() >= 3 {
        Some(assemble(Some(parts[0]), Some(parts[1]), parts[2]))
    } else {
        None
    }
}

/// Whether `s` has the shape `user@host:path`: its last `@` precedes its last `:`.
pub open spec fn is_scp_like(s: Seq<char>) -> bool {
    match (last_index_of(s, '@'), last_index_of(s, ':')) {
        (Some(at), Some(colon)) => at < colon,
        _ => false,
    }
}

/// Parses `user@host:owner/name[.git]`.
pub open spec fn parse_scp_like(s: Seq<char>) -> Option<ParsedUrl> {
    let at = last_index_of(s, '@')->0;
    let colon = last_index_of(s, ':')->0;
    let parts = split(s.skip(colon + 1), slash());
    if parts.len() >= 2 {
        Some(assemble(Some(s.subrange(at + 1, colon)), Some(parts[0]), parts[1]))
    } else {
        None
    }
}

/// Parses `host/owner/name[.git]`. A first part that holds `:` or `@` is no host.
pub open spec fn parse_bare(s: Seq<char>) -> Option<ParsedUrl> {
    let parts = split(s, slash());
    if parts.len() >= 3 {
        let host = if parts[0].contains(':') || parts[0].contains('@') {
            None
        } else {
            Some(parts[0])
        };
        Some(assemble(host, Some(parts[1]), parts[2]))
    } else {
        None
    }
}

/// What `parse_git_url` returns for the text `input`.
///
/// The text is trimmed first. A text that holds `://` is read as a URL with a
/// scheme; otherwise one whose last `@` precedes its last `:` is read as
/// `user@host:owner/name`; any other as `host/owner/name`. Text after the name
/// is ignored. There is no result for an empty text or one without a name part.
pub open spec fn parse_git_url_spec(input: Seq<char>) -> Option<ParsedUrl> {
    let s = trim(input);
    if s.len() == 0 {
        None
    } else {
        match find_sub(s, scheme_mark()) {
            Some(idx) => parse_after_scheme(s.skip(idx + 3)),
            None => if is_scp_like(s) {
                parse_scp_like(s)
            } else {
                parse_bare(s)
            },
        }
    }
}

/// A parsed URL is valid where it has a host and an owner, neither of them blank.
pub open spec fn is_valid_remote(p: ParsedUrl) -> bool {
    &&& p.host matches Some(h) && !is_blank(h)
    &&& p.owner matches Some(o) && !is_blank(o)
}

/// `name` without a trailing `.git`.
pub fn strip_git_suffix(name: &Vec<char>) -> (r: Vec<char>)
    ensures
        r@ == strip_suffix(name@, git_suffix()),
{
    let suffix: Vec<char> = vec!['.', 'g', 'i', 't'];
    assert(suffix@ == git_suffix());
    if ends_with(name, &suffix) {
        copy_range(name, 0, name.len() - 4)
    } else {
        copy_range(name, 0, name.len())
    }
}

fn build(host: Option<&Vec<char>>, owner: &Vec<char>, segment: &Vec<char>) -> (r: ParsedGitUrl)
    ensures
        r@ == assemble(
            match host {
                Some(h) => Some(h@),
                None => None,
            },
            Some(owner@),
            segment@,
        ),
{
    let name = strip_git_suffix(segment);
    let mut full: Vec<char> = copy_range(owner, 0, owner.len());
    full.push('/');
    let mut i: usize = 0;
    while i < name.len()
        invariant
            i <= name.len(),
            full@ == owner@ + seq!['/'] + name@.take(i as int),
        decreases name.len() - i,
    {
        full.push(name[i]);
        i += 1;
    }
    assert(name@.take(name.len() as int) == name@);
    let host_string = match host {
        Some(h) => Some(string_of(h)),
        None => None,
    };
    ParsedGitUrl {
        host: host_string,
        owner: Some(string_of(owner)),
        name: string_of(&name),
        fullname: string_of(&full),
    }
}

fn parse_rest(rest: &Vec<char>) -> (r: Option<ParsedGitUrl>)
    ensures
        r is Some == parse_after_scheme(rest@) is Some,
        r matches Some(p) ==> Some(p@) == parse_after_scheme(rest@),
{
    let after_user = match find_char(rest, '@') {
        Some(at) => {
            let before = copy_range(rest, 0, at);
            if contains_char(&before, '/') {
                copy_range(rest, 0, rest.len())
            } else {
                copy_range(rest, at + 1, rest.len())
            }
        },
        None => copy_range(rest, 0, rest.len()),
    };
    assert(after_user@ == skip_user(rest@));
    let seps: Vec<char> = vec!['/'];
    assert(seps@ == slash());
    let parts = split_chars(&after_user, &seps);
    if parts.len() >= 3 {
        assert(views(parts@)[0] == parts@[0]@);
        assert(views(parts@)[1] == parts@[1]@);
        assert(views(parts@)[2] == parts@[2]@);
        Some(build(Some(&parts[0]), &parts[1], &parts[2]))
    } else {
        None
    }
}

fn parse_scp(s: &Vec<char>, at: usize, colon: usize) -> (r: Option<ParsedGitUrl>)
    requires
        last_index_of(s@, '@') == Some(at as int),
        last_index_of(s@, ':') == Some(colon as int),
        at < colon < s.len(),
    ensures
        r is Some == parse_scp_like(s@) is Some,
        r matches Some(p) ==> Some(p@) == parse_scp_like(s@),
{
    let host = copy_range(s, at + 1, colon);
    let path = copy_range(s, colon + 1, s.len());
    let seps: Vec<char> = vec!['/'];
    assert(seps@ == slash());
    let parts = split_chars(&path, &seps);
    if parts.len() >= 2 {
        assert(views(parts@)[0] == parts@[0]@);
        assert(views(parts@)[1] == parts@[1]@);
        Some(build(Some(&host), &parts[0], &parts[1]))
    } else {
        None
    }
}

fn parse_host_path(s: &Vec<char>) -> (r: Option<ParsedGitUrl>)
    ensures
        r is Some == parse_bare(s@) is Some,
        r matches Some(p) ==> Some(p@) == parse_bare(s@),
{
    let seps: Vec<char> = vec!['/'];
    assert(seps@ == slash());
    let parts = split_chars(s, &seps);
    if parts.len() >= 3 {
        assert(views(parts@)[0] == parts@[0]@);
        assert(views(parts@)[1] == parts@[1]@);
        assert(views(parts@)[2] == parts@[2]@);
        if contains_char(&parts[0], ':') || contains_char(&parts[0], '@') {
            Some(build(None, &parts[1], &parts[2]))
        } else {
            Some(build(Some(&parts[0]), &parts[1], &parts[2]))
        }
    } else {
        None
    }
}

/// Parses a remote URL.
///
/// Returns the parts that `parse_git_url_spec` gives for the text, and `None`
/// exactly where it gives none.
pub fn parse_git_url(input: &str) -> (r: Option<ParsedGitUrl>)
    ensures
        r is Some == parse_git_url_spec(input@) is Some,
        r matches Some(p) ==> Some(p@) == parse_git_url_spec(input@),
{
    let all = str_chars(input);
    let (lo, hi) = trim_bounds(&all);
    let s = copy_range(&all, lo, hi);
    if s.len() == 0 {
        return None;
    }
    let mark: Vec<char> = vec![':', '/', '/'];
    assert(mark@ == scheme_mark());
    match find_in(&s, &mark) {
        Some(idx) => {
            let rest = copy_range(&s, idx + 3, s.len());
            parse_rest(&rest)
        },
        None => {
            let at = rfind_char(&s, '@');
            let colon = rfind_char(&s, ':');
            match (at, colon) {
                (Some(a), Some(c)) => {
                    if a < c {
                        parse_scp(&s, a, c)
                    } else {
                        parse_host_path(&s)
                    }
                },
                _ => parse_host_path(&s),
            }
        },
    }
}

/// Whether a parsed URL names a host and an owner, neither of them blank.
pub fn remote_url_is_valid(parsed: &ParsedGitUrl) -> (r: bool)
    ensures
        r == is_valid_remote(parsed@),
{
    let host_ok = match &parsed.host {
        Some(h) => {
            let chars = str_chars(h.as_str());
            let (lo, hi) = trim_bounds(&chars);
            lo < hi
        },
        None => false,
    };
    let owner_ok = match &parsed.owner {
        Some(o) => {
            let chars = str_chars(o.as_str());
            let (lo, hi) = trim_bounds(&chars);
            lo < hi
        },
        None => false,
    };
    host_ok && owner_ok
}

} // verus!
