//! How a keyword matches a record: the kinds of match, in their order of
//! preference, and the test for each.

use crate::git_url::{is_valid_remote, parse_git_url, parse_git_url_spec, remote_url_is_valid};
use crate::models::{Repo, RepoView};
use crate::text::{chars_eq, contains_in, contains_sub, split, split_chars, str_chars, views};
use vstd::prelude::*;

verus! {

/// The lower-case form of a text, as `str::to_lowercase` gives it.
pub uninterp spec fn lowercase(s: Seq<char>) -> Seq<char>;

/// The lower-case form of `s`.
///
/// Wraps `str::to_lowercase`, which gives the lower-case equivalent of a text
/// by the Unicode tables of the standard library. The result depends on the
/// text alone; it is not spelled out here but named: `lowercase(s@)`.
#[verifier::external_body]
pub(crate) fn to_lowercase(s: &str) -> (r: String)
    ensures
        r@ == lowercase(s@),
{
    s.to_lowercase()
}

/// The least of three numbers.
pub open spec fn min3(a: nat, b: nat, c: nat) -> nat {
    if a <= b && a <= c {
        a
    } else if b <= c {
        b
    } else {
        c
    }
}

/// The Levenshtein distance: the least number of insertions, deletions and
/// substitutions of single characters that turn `a` into `b`.
pub open spec fn edit_distance(a: Seq<char>, b: Seq<char>) -> nat
    decreases a.len() + b.len(),
{
    if a.len() == 0 {
        b.len()
    } else if b.len() == 0 {
        a.len()
    } else {
        let substitute = edit_distance(a.drop_last(), b.drop_last()) + if a.last() == b.last() {
            0nat
        } else {
            1nat
        };
        let delete = edit_distance(a.drop_last(), b) + 1;
        let insert = edit_distance(a, b.drop_last()) + 1;
        min3(substitute, delete, insert)
    }
}

/// Two texts are at distance 0 exactly where they are equal.
pub proof fn lemma_edit_distance_zero(a: Seq<char>, b: Seq<char>)
    ensures
        edit_distance(a, b) == 0 <==> a == b,
    decreases a.len() + b.len(),
{
    if a.len() == 0 || b.len() == 0 {
        if a.len() == 0 && b.len() == 0 {
            assert(a =~= b);
        }
    } else {
        lemma_edit_distance_zero(a.drop_last(), b.drop_last());
        if a == b {
            assert(a.drop_last() == b.drop_last());
        }
        if edit_distance(a, b) == 0 {
            assert(a.drop_last() == b.drop_last() && a.last() == b.last());
            assert(a =~= a.drop_last().push(a.last()));
            assert(b =~= b.drop_last().push(b.last()));
        }
    }
}

/// The Levenshtein distance between `a` and `b`.
///
/// Wraps `strsim::levenshtein`, which counts over the characters of the two
/// texts the least number of insertions, deletions and substitutions that
/// turn one into the other.
#[verifier::external_body]
pub(crate) fn levenshtein(a: &str, b: &str) -> (d: usize)
    ensures
        d == edit_distance(a@, b@),
{
    strsim::levenshtein(a, b)
}

/// Why a record matches a keyword. The kinds are declared from the most to the
/// least preferred; the order serves ranking only.
#[derive(Debug, Clone, Copy, PartialEq, Eq, Structural)]
pub enum MatchKind {
    /// The repository name is the keyword.
    ExactRepo,
    /// `owner/repo` is the keyword.
    ExactFullName,
    /// The repository name holds the keyword.
    RepoSubstring,
    /// The path holds the keyword.
    PathSubstring,
    /// The owner is the keyword.
    ExactOwner,
    /// The owner holds the keyword.
    OwnerSubstring,
    /// The remote URL holds the keyword.
    RemoteUrlSubstring,
    /// The segments of the keyword stand, in order, among those of the
    /// repository name.
    FuzzySegment,
}

impl MatchKind {
    /// The rank of the kind: 0 for the most preferred.
    pub open spec fn rank_of(self) -> nat {
        match self {
            MatchKind::ExactRepo => 0,
            MatchKind::ExactFullName => 1,
            MatchKind::RepoSubstring => 2,
            MatchKind::PathSubstring => 3,
            MatchKind::ExactOwner => 4,
            MatchKind::OwnerSubstring => 5,
            MatchKind::RemoteUrlSubstring => 6,
            MatchKind::FuzzySegment => 7,
        }
    }

    /// The rank of the kind: 0 for the most preferred.
    pub fn rank(&self) -> (r: u8)
        ensures
            r == self.rank_of(),
    {
        match self {
            MatchKind::ExactRepo => 0,
            MatchKind::ExactFullName => 1,
            MatchKind::RepoSubstring => 2,
            MatchKind::PathSubstring => 3,
            MatchKind::ExactOwner => 4,
            MatchKind::OwnerSubstring => 5,
            MatchKind::RemoteUrlSubstring => 6,
            MatchKind::FuzzySegment => 7,
        }
    }
}

/// The characters that part a name into segments: `-`, `_` and `.`.
pub open spec fn segment_separators() -> Seq<char> {
    seq!['-', '_', '.']
}

/// The segments of a name.
pub open spec fn segments(s: Seq<char>) -> Seq<Seq<char>> {
    split(s, segment_separators())
}

/// `at` gives for each member of `a` an index in `b` where it stands, and the
/// indexes ascend.
pub open spec fn places(a: Seq<Seq<char>>, b: Seq<Seq<char>>, at: Seq<int>) -> bool {
    &&& at.len() == a.len()
    &&& forall|i: int| 0 <= i < a.len() ==> 0 <= #[trigger] at[i] < b.len() && b[at[i]] == a[i]
    &&& forall|i: int, j: int| 0 <= i < j < a.len() ==> #[trigger] at[i] < #[trigger] at[j]
}

/// The members of `a` stand in `b` in the same order, not necessarily side by
/// side.
pub open spec fn stands_in_order(a: Seq<Seq<char>>, b: Seq<Seq<char>>) -> bool {
    exists|at: Seq<int>| places(a, b, at)
}

/// Whether the members of `a` stand in order in `b`, decided by taking for
/// each member of `a` the first member of `b` that will do.
pub open spec fn greedy_in_order(a: Seq<Seq<char>>, b: Seq<Seq<char>>) -> bool
    decreases b.len(),
{
    if a.len() == 0 {
        true
    } else if b.len() == 0 {
        false
    } else if a[0] == b[0] {
        greedy_in_order(a.drop_first(), b.drop_first())
    } else {
        greedy_in_order(a, b.drop_first())
    }
}

/// Taking the first member that will do finds a placement wherever there is one.
pub proof fn lemma_greedy_in_order(a: Seq<Seq<char>>, b: Seq<Seq<char>>)
    ensures
        greedy_in_order(a, b) == stands_in_order(a, b),
    decreases b.len(),
{
    if a.len() == 0 {
        assert(places(a, b, Seq::<int>::empty()));
    } else if b.len() == 0 {
        assert forall|at: Seq<int>| !places(a, b, at) by {
            if places(a, b, at) {
                assert(0 <= at[0] < b.len());
            }
        }
    } else {
        let a1 = a.drop_first();
        let b1 = b.drop_first();
        if a[0] == b[0] {
            lemma_greedy_in_order(a1, b1);
            if stands_in_order(a1, b1) {
                let at1 = choose|at: Seq<int>| places(a1, b1, at);
                let at = Seq::new(a.len(), |i: int| if i == 0 { 0 } else { at1[i - 1] + 1 });
                assert(places(a, b, at)) by {
                    assert forall|i: int| 0 <= i < a.len() implies 0 <= #[trigger] at[i] < b.len()
                        && b[at[i]] == a[i] by {
                        if i > 0 {
                            assert(b1[at1[i - 1]] == a1[i - 1]);
                        }
                    }
                }
            }
            if stands_in_order(a, b) {
                let at = choose|at: Seq<int>| places(a, b, at);
                let at1 = Seq::new(a1.len(), |i: int| at[i + 1] - 1);
                assert(places(a1, b1, at1)) by {
                    assert forall|i: int| 0 <= i < a1.len() implies 0 <= #[trigger] at1[i]
                        < b1.len() && b1[at1[i]] == a1[i] by {
                        assert(at[0] < at[i + 1]);
                        assert(b[at[i + 1]] == a[i + 1]);
                    }
                    assert forall|i: int, j: int| 0 <= i < j < a1.len() implies #[trigger] at1[i]
                        < #[trigger] at1[j] by {
                        assert(at[i + 1] < at[j + 1]);
                    }
                }
            }
        } else {
            lemma_greedy_in_order(a, b1);
            if stands_in_order(a, b1) {
                let at1 = choose|at: Seq<int>| places(a, b1, at);
                let at = Seq::new(a.len(), |i: int| at1[i] + 1);
                assert(places(a, b, at)) by {
                    assert forall|i: int| 0 <= i < a.len() implies 0 <= #[trigger] at[i] < b.len()
                        && b[at[i]] == a[i] by {
                        assert(b1[at1[i]] == a[i]);
                    }
                }
            }
            if stands_in_order(a, b) {
                let at = choose|at: Seq<int>| places(a, b, at);
                let at1 = Seq::new(a.len(), |i: int| at[i] - 1);
                assert(places(a, b1, at1)) by {
                    assert forall|i: int| 0 <= i < a.len() implies 0 <= #[trigger] at1[i]
                        < b1.len() && b1[at1[i]] == a[i] by {
                        assert(b[at[i]] == a[i]);
                        if i > 0 {
                            assert(at[0] < at[i]);
                        }
                    }
                    assert forall|i: int, j: int| 0 <= i < j < a.len() implies #[trigger] at1[i]
                        < #[trigger] at1[j] by {
                        assert(at[i] < at[j]);
                    }
                }
            }
        }
    }
}

/// A keyword matches a name by segments where every segment of the keyword
/// stands, in order, among the segments of the name.
pub open spec fn fuzzy_match(keyword: Seq<char>, name: Seq<char>) -> bool {
    stands_in_order(segments(keyword), segments(name))
}

/// `owner/repo`, from the lower-case owner and repository name.
pub open spec fn lower_full_name(r: RepoView) -> Seq<char> {
    lowercase(r.owner) + seq!['/'] + lowercase(r.repo)
}

/// The kind of match of the record `r` with the lower-case keyword `kw`: the
/// first kind, in the order of preference, whose test holds; none where no
/// test holds. Every field is compared in lower case.
pub open spec fn match_kind(r: RepoView, kw: Seq<char>) -> Option<MatchKind> {
    let repo = lowercase(r.repo);
    let owner = lowercase(r.owner);
    if repo == kw {
        Some(MatchKind::ExactRepo)
    } else if lower_full_name(r) == kw {
        Some(MatchKind::ExactFullName)
    } else if contains_sub(repo, kw) {
        Some(MatchKind::RepoSubstring)
    } else if contains_sub(lowercase(r.full_path), kw) {
        Some(MatchKind::PathSubstring)
    } else if owner == kw {
        Some(MatchKind::ExactOwner)
    } else if contains_sub(owner, kw) {
        Some(MatchKind::OwnerSubstring)
    } else if contains_sub(lowercase(r.remote_url), kw) {
        Some(MatchKind::RemoteUrlSubstring)
    } else if fuzzy_match(kw, repo) {
        Some(MatchKind::FuzzySegment)
    } else {
        None
    }
}

/// The keyword that a search compares with the records: the lower-case form
/// of `owner/repo` where the keyword is a valid remote URL, and of the keyword
/// itself where it is not.
pub open spec fn normalized_keyword(keyword: Seq<char>) -> Seq<char> {
    match parse_git_url_spec(keyword) {
        Some(p) => if is_valid_remote(p) {
            lowercase(p.fullname)
        } else {
            lowercase(keyword)
        },
        None => lowercase(keyword),
    }
}

/// The keyword that a search compares with the records.
pub fn normalize_keyword(keyword: &str) -> (r: String)
    ensures
        r@ == normalized_keyword(keyword@),
{
    match parse_git_url(keyword) {
        Some(p) => {
            if remote_url_is_valid(&p) {
                to_lowercase(p.fullname.as_str())
            } else {
                to_lowercase(keyword)
            }
        },
        None => to_lowercase(keyword),
    }
}

/// Whether the members of `a` stand in order in `b`.
pub fn in_order(a: &Vec<Vec<char>>, b: &Vec<Vec<char>>) -> (r: bool)
    ensures
        r == stands_in_order(views(a@), views(b@)),
{
    let ghost sa = views(a@);
    let ghost sb = views(b@);
    let mut i: usize = 0;
    let mut j: usize = 0;
    proof {
        lemma_greedy_in_order(sa, sb);
        assert(sa.skip(0) =~= sa);
        assert(sb.skip(0) =~= sb);
    }
    while i < a.len() && j < b.len()
        invariant
            i <= a.len(),
            j <= b.len(),
            sa == views(a@),
            sb == views(b@),
            stands_in_order(sa, sb) == greedy_in_order(sa.skip(i as int), sb.skip(j as int)),
        decreases b.len() - j,
    {
        proof {
            assert(sa.skip(i as int)[0] == a@[i as int]@);
            assert(sb.skip(j as int)[0] == b@[j as int]@);
            assert(sa.skip(i as int).drop_first() =~= sa.skip(i + 1));
            assert(sb.skip(j as int).drop_first() =~= sb.skip(j + 1));
        }
        if chars_eq(&a[i], &b[j]) {
            i += 1;
        }
        j += 1;
    }
    i == a.len()
}

/// The kind of match of `record` with the lower-case keyword `kw`, whose
/// segments are `kw_segments`.
pub fn classify(record: &Repo, kw: &Vec<char>, kw_segments: &Vec<Vec<char>>) -> (r: Option<
    MatchKind,
>)
    requires
        views(kw_segments@) == segments(kw@),
    ensures
        r == match_kind(record@, kw@),
{
    let repo = str_chars(to_lowercase(record.repo.as_str()).as_str());
    if chars_eq(&repo, kw) {
        return Some(MatchKind::ExactRepo);
    }
    let owner = str_chars(to_lowercase(record.owner.as_str()).as_str());
    let mut full: Vec<char> = Vec::new();
    let mut i: usize = 0;
    while i < owner.len()
        invariant
            i <= owner.len(),
            full@ == owner@.take(i as int),
        decreases owner.len() - i,
    {
        full.push(owner[i]);
        i += 1;
    }
    full.push('/');
    i = 0;
    assert(owner@.take(owner.len() as int) == owner@);
    while i < repo.len()
        invariant
            i <= repo.len(),
            full@ == owner@ + seq!['/'] + repo@.take(i as int),
        decreases repo.len() - i,
    {
        full.push(repo[i]);
        i += 1;
    }
    assert(repo@.take(repo.len() as int) == repo@);
    if chars_eq(&full, kw) {
        return Some(MatchKind::ExactFullName);
    }
    if contains_in(&repo, kw) {
        return Some(MatchKind::RepoSubstring);
    }
    let path = str_chars(to_lowercase(record.full_path.as_str()).as_str());
    if contains_in(&path, kw) {
        return Some(MatchKind::PathSubstring);
    }
    if chars_eq(&owner, kw) {
        return Some(MatchKind::ExactOwner);
    }
    if contains_in(&owner, kw) {
        return Some(MatchKind::OwnerSubstring);
    }
    let url = str_chars(to_lowercase(record.remote_url.as_str()).as_str());
    if contains_in(&url, kw) {
        return Some(MatchKind::RemoteUrlSubstring);
    }
    let seps: Vec<char> = vec!['-', '_', '.'];
    assert(seps@ == segment_separators());
    let repo_segments = split_chars(&repo, &seps);
    if in_order(kw_segments, &repo_segments) {
        return Some(MatchKind::FuzzySegment);
    }
    None
}

} // verus!
