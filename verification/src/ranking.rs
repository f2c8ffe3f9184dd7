//! The ranking of the records that match a keyword.

use crate::index_records::{is_listing, paths, repo_views, IndexedRecords, Selector};
use crate::matching::{
    classify, edit_distance, lemma_edit_distance_zero, levenshtein, lowercase, match_kind,
    normalize_keyword, normalized_keyword, segment_separators, segments, to_lowercase, MatchKind,
};
use crate::models::{Repo, RepoView};
use crate::order::{
    compare, lemma_lex_asymmetric, lemma_lex_irreflexive, lemma_lex_total, lemma_lex_transitive,
    lex_le, lex_lt, Rel,
};
use crate::sorted::{ascending, lemma_ascending_distinct};
use crate::text::{split_chars, str_chars, views};
use vstd::prelude::*;

verus! {

/// A record that matches a keyword, with the kind of its match.
#[derive(Debug)]
pub struct RankedMatch {
    pub repo: Repo,
    pub kind: MatchKind,
}

/// The mathematical value of a `RankedMatch`.
pub struct RankedMatchView {
    pub repo: RepoView,
    pub kind: MatchKind,
}

impl View for RankedMatch {
    type V = RankedMatchView;

    open spec fn view(&self) -> RankedMatchView {
        RankedMatchView { repo: self.repo@, kind: self.kind }
    }
}

/// The values of a vector of ranked matches.
pub open spec fn match_views(v: Seq<RankedMatch>) -> Seq<RankedMatchView> {
    Seq::new(v.len(), |i: int| v[i]@)
}

/// By what a match is ranked.
pub struct RankKey {
    /// The rank of the kind of match.
    pub rank: nat,
    /// The Levenshtein distance between the lower-case repository name and the
    /// keyword.
    pub distance: nat,
    /// The lower-case repository name.
    pub name: Seq<char>,
    /// The path of the record.
    pub path: Seq<char>,
}

/// The key of a match of kind `kind` between the record `r` and the keyword `kw`.
pub open spec fn rank_key(r: RepoView, kind: MatchKind, kw: Seq<char>) -> RankKey {
    RankKey {
        rank: kind.rank_of(),
        distance: edit_distance(lowercase(r.repo), kw),
        name: lowercase(r.repo),
        path: r.full_path,
    }
}

/// The key of a ranked match for the keyword `kw`.
pub open spec fn key_of(x: RankedMatchView, kw: Seq<char>) -> RankKey {
    rank_key(x.repo, x.kind, kw)
}

/// The order of ranking: by rank of the kind of match; within a rank by
/// distance; within a distance by the lower-case repository name; and among
/// records of one name by path, which is the order in which the store holds
/// them.
pub open spec fn key_lt(a: RankKey, b: RankKey) -> bool {
    ||| a.rank < b.rank
    ||| a.rank == b.rank && a.distance < b.distance
    ||| a.rank == b.rank && a.distance == b.distance && lex_lt(a.name, b.name)
    ||| a.rank == b.rank && a.distance == b.distance && a.name == b.name && lex_lt(a.path, b.path)
}

/// No key comes before itself.
pub proof fn lemma_key_irreflexive(a: RankKey)
    ensures
        !key_lt(a, a),
{
    lemma_lex_irreflexive(a.name);
    lemma_lex_irreflexive(a.path);
}

/// The order of ranking is transitive.
pub proof fn lemma_key_transitive(a: RankKey, b: RankKey, c: RankKey)
    requires
        key_lt(a, b),
        key_lt(b, c),
    ensures
        key_lt(a, c),
{
    if a.rank == b.rank && b.rank == c.rank && a.distance == b.distance && b.distance
        == c.distance {
        lemma_lex_irreflexive(a.name);
        lemma_lex_irreflexive(b.name);
        if lex_lt(a.name, b.name) && lex_lt(b.name, c.name) {
            lemma_lex_transitive(a.name, b.name, c.name);
        }
        if a.name == b.name && b.name == c.name {
            lemma_lex_transitive(a.path, b.path, c.path);
        }
    }
}

/// Keys of different paths are ordered one way or the other.
pub proof fn lemma_key_total(a: RankKey, b: RankKey)
    requires
        a.path != b.path,
    ensures
        key_lt(a, b) || key_lt(b, a),
{
    lemma_lex_total(a.name, b.name);
    lemma_lex_total(a.path, b.path);
}

/// Each match comes strictly before every later one.
pub open spec fn ranked(out: Seq<RankedMatchView>, kw: Seq<char>) -> bool {
    forall|i: int, j: int|
        0 <= i < j < out.len() ==> key_lt(key_of(#[trigger] out[i], kw), key_of(#[trigger] out[j], kw))
}

/// `out` is the ranking of the store `m` for the lower-case keyword `kw`: it
/// holds each record of the store that matches the keyword, once and with the
/// kind of its match, and no other; and it is in the order of ranking.
pub open spec fn is_ranking(
    out: Seq<RankedMatchView>,
    m: Map<Seq<char>, RepoView>,
    kw: Seq<char>,
) -> bool {
    &&& forall|i: int|
        0 <= i < out.len() ==> m.contains_key((#[trigger] out[i]).repo.full_path)
            && m[out[i].repo.full_path] == out[i].repo && match_kind(out[i].repo, kw) == Some(
            out[i].kind,
        )
    &&& forall|p: Seq<char>| #[trigger]
        m.contains_key(p) && match_kind(m[p], kw) is Some ==> exists|i: int|
            0 <= i < out.len() && (#[trigger] out[i]).repo.full_path == p
    &&& ranked(out, kw)
}

/// A store has one ranking for a keyword, and no other: a search with the
/// same store and the same keyword gives the same matches in the same order.
pub proof fn lemma_ranking_unique(
    a: Seq<RankedMatchView>,
    b: Seq<RankedMatchView>,
    m: Map<Seq<char>, RepoView>,
    kw: Seq<char>,
)
    requires
        is_ranking(a, m, kw),
        is_ranking(b, m, kw),
    ensures
        a == b,
    decreases a.len(),
{
    if a.len() == 0 {
        if b.len() > 0 {
            let p = b[0].repo.full_path;
            assert(m.contains_key(p) && match_kind(m[p], kw) is Some);
        }
        assert(a =~= b);
    } else if b.len() == 0 {
        let p = a[0].repo.full_path;
        assert(m.contains_key(p) && match_kind(m[p], kw) is Some);
    } else {
        let pa = a[0].repo.full_path;
        let pb = b[0].repo.full_path;
        assert(m.contains_key(pa) && match_kind(m[pa], kw) is Some);
        assert(m.contains_key(pb) && match_kind(m[pb], kw) is Some);
        let j = choose|j: int| 0 <= j < b.len() && (#[trigger] b[j]).repo.full_path == pa;
        let i = choose|i: int| 0 <= i < a.len() && (#[trigger] a[i]).repo.full_path == pb;
        lemma_same_match(a[0], b[j], m, kw);
        lemma_same_match(a[i], b[0], m, kw);
        if i > 0 && j > 0 {
            lemma_key_transitive(key_of(a[0], kw), key_of(a[i], kw), key_of(b[j], kw));
        }
        lemma_key_irreflexive(key_of(a[0], kw));
        lemma_key_irreflexive(key_of(b[0], kw));
        assert(a[0] == b[0]);
        let a1 = a.drop_first();
        let b1 = b.drop_first();
        let m1 = m.remove(pa);
        assert(is_ranking(a1, m1, kw)) by {
            lemma_drop_first_ranking(a, m, kw);
        }
        assert(is_ranking(b1, m1, kw)) by {
            lemma_drop_first_ranking(b, m, kw);
        }
        lemma_ranking_unique(a1, b1, m1, kw);
        assert(a =~= seq![a[0]] + a1);
        assert(b =~= seq![b[0]] + b1);
    }
}

proof fn lemma_same_match(
    x: RankedMatchView,
    y: RankedMatchView,
    m: Map<Seq<char>, RepoView>,
    kw: Seq<char>,
)
    requires
        x.repo.full_path == y.repo.full_path,
        m[x.repo.full_path] == x.repo,
        m[y.repo.full_path] == y.repo,
        match_kind(x.repo, kw) == Some(x.kind),
        match_kind(y.repo, kw) == Some(y.kind),
    ensures
        x == y,
{
}

proof fn lemma_drop_first_ranking(a: Seq<RankedMatchView>, m: Map<Seq<char>, RepoView>, kw: Seq<char>)
    requires
        is_ranking(a, m, kw),
        a.len() > 0,
    ensures
        is_ranking(a.drop_first(), m.remove(a[0].repo.full_path), kw),
{
    let a1 = a.drop_first();
    let first_path = a[0].repo.full_path;
    let m1 = m.remove(first_path);
    assert forall|i: int| 0 <= i < a1.len() implies m1.contains_key(
        (#[trigger] a1[i]).repo.full_path,
    ) && m1[a1[i].repo.full_path] == a1[i].repo && match_kind(a1[i].repo, kw) == Some(
        a1[i].kind,
    ) by {
        assert(a1[i] == a[i + 1]);
        assert(key_lt(key_of(a[0], kw), key_of(a[i + 1], kw)));
        lemma_key_irreflexive(key_of(a[0], kw));
        if a[i + 1].repo.full_path == first_path {
            lemma_same_match(a[0], a[i + 1], m, kw);
        }
    }
    assert forall|p: Seq<char>| #[trigger]
        m1.contains_key(p) && match_kind(m1[p], kw) is Some implies exists|i: int|
        0 <= i < a1.len() && (#[trigger] a1[i]).repo.full_path == p by {
        assert(m.contains_key(p) && match_kind(m[p], kw) is Some);
        let i = choose|i: int| 0 <= i < a.len() && (#[trigger] a[i]).repo.full_path == p;
        assert(i > 0);
        assert(a1[i - 1] == a[i]);
    }
    assert(ranked(a1, kw)) by {
        assert forall|i: int, j: int| 0 <= i < j < a1.len() implies key_lt(
            key_of(#[trigger] a1[i], kw),
            key_of(#[trigger] a1[j], kw),
        ) by {
            assert(a1[i] == a[i + 1] && a1[j] == a[j + 1]);
        }
    }
}

/// Where a record's lower-case repository name is the keyword, the ranking
/// begins with a match of the kind `ExactRepo` at distance 0, and every match
/// of that kind comes before every match of another kind.
pub proof fn lemma_exact_repo_first(
    out: Seq<RankedMatchView>,
    m: Map<Seq<char>, RepoView>,
    kw: Seq<char>,
    p: Seq<char>,
)
    requires
        is_ranking(out, m, kw),
        m.contains_key(p),
        lowercase(m[p].repo) == kw,
    ensures
        out.len() > 0,
        out[0].kind == MatchKind::ExactRepo,
        lowercase(out[0].repo.repo) == kw,
        key_of(out[0], kw).distance == 0,
        forall|i: int, j: int|
            0 <= i < out.len() && 0 <= j < out.len() && out[i].kind == MatchKind::ExactRepo
                && out[j].kind != MatchKind::ExactRepo ==> i < j,
{
    assert(match_kind(m[p], kw) == Some(MatchKind::ExactRepo));
    let i = choose|i: int| 0 <= i < out.len() && (#[trigger] out[i]).repo.full_path == p;
    assert(out[i].kind == MatchKind::ExactRepo);
    if i > 0 {
        assert(key_lt(key_of(out[0], kw), key_of(out[i], kw)));
    }
    assert(out[0].kind.rank_of() == 0);
    assert(out[0].kind == MatchKind::ExactRepo);
    assert(match_kind(out[0].repo, kw) == Some(MatchKind::ExactRepo));
    lemma_edit_distance_zero(lowercase(out[0].repo.repo), kw);
    assert forall|i: int, j: int|
        0 <= i < out.len() && 0 <= j < out.len() && out[i].kind == MatchKind::ExactRepo
            && out[j].kind != MatchKind::ExactRepo implies i < j by {
        if j < i {
            assert(key_lt(key_of(out[j], kw), key_of(out[i], kw)));
        }
    }
}

/// Matches of one kind at one distance stand in the order of their lower-case
/// repository names, and matches of one name in the order of their paths.
pub proof fn lemma_ties_by_name(out: Seq<RankedMatchView>, kw: Seq<char>, i: int, j: int)
    requires
        ranked(out, kw),
        0 <= i < j < out.len(),
        out[i].kind == out[j].kind,
        key_of(out[i], kw).distance == key_of(out[j], kw).distance,
    ensures
        lex_le(lowercase(out[i].repo.repo), lowercase(out[j].repo.repo)),
        lowercase(out[i].repo.repo) == lowercase(out[j].repo.repo) ==> lex_lt(
            out[i].repo.full_path,
            out[j].repo.full_path,
        ),
{
    assert(key_lt(key_of(out[i], kw), key_of(out[j], kw)));
    lemma_lex_irreflexive(lowercase(out[i].repo.repo));
}

/// A match on its way into the ranking, with the values by which it is ranked.
struct Candidate {
    rank: u8,
    distance: usize,
    name: String,
    found: RankedMatch,
}

impl Candidate {
    spec fn key(self) -> RankKey {
        RankKey {
            rank: self.rank as nat,
            distance: self.distance as nat,
            name: self.name@,
            path: self.found.repo.full_path@,
        }
    }

    /// Whether `self` comes before `other` in the order of ranking.
    fn precedes(&self, other: &Candidate) -> (r: bool)
        ensures
            r == key_lt(self.key(), other.key()),
    {
        if self.rank != other.rank {
            return self.rank < other.rank;
        }
        if self.distance != other.distance {
            return self.distance < other.distance;
        }
        proof {
            lemma_lex_irreflexive(self.name@);
            lemma_lex_irreflexive(other.name@);
        }
        match compare(self.name.as_str(), other.name.as_str()) {
            Rel::Before => true,
            Rel::After => {
                proof {
                    lemma_lex_asymmetric(other.name@, self.name@);
                }
                false
            },
            Rel::Same => compare(self.found.repo.full_path.as_str(), other.found.repo.full_path.as_str())
                == Rel::Before,
        }
    }
}

spec fn cand_keys(cands: Seq<Candidate>) -> Seq<RankKey> {
    Seq::new(cands.len(), |i: int| cands[i].key())
}

spec fn keys_ranked(ks: Seq<RankKey>) -> bool {
    forall|i: int, j: int| 0 <= i < j < ks.len() ==> key_lt(#[trigger] ks[i], #[trigger] ks[j])
}

/// Puts `c` into the ranked candidates at its place, and returns the place.
fn insert_ranked(cands: &mut Vec<Candidate>, c: Candidate) -> (pos: usize)
    requires
        keys_ranked(cand_keys(old(cands)@)),
        forall|i: int| 0 <= i < old(cands).len() ==> (#[trigger] old(cands)@[i]).key().path != c.key().path,
    ensures
        pos <= old(cands).len(),
        final(cands)@ == old(cands)@.insert(pos as int, c),
        keys_ranked(cand_keys(final(cands)@)),
{
    let ghost before = cands@;
    let ghost ks = cand_keys(cands@);
    let mut pos: usize = cands.len();
    while pos > 0 && c.precedes(&cands[pos - 1])
        invariant
            pos <= cands.len(),
            cands@ == before,
            ks == cand_keys(before),
            forall|j: int| pos <= j < ks.len() ==> key_lt(c.key(), #[trigger] ks[j]),
        decreases pos,
    {
        assert(ks[pos - 1] == cands@[pos - 1].key());
        pos -= 1;
    }
    cands.insert(pos, c);
    proof {
        let out = cand_keys(cands@);
        assert(out =~= ks.insert(pos as int, c.key()));
        assert forall|j: int| 0 <= j < pos implies key_lt(#[trigger] ks[j], c.key()) by {
            assert(ks[pos - 1] == before[pos - 1].key());
            assert(ks[j] == before[j].key());
            lemma_key_total(ks[pos - 1], c.key());
            if j < pos - 1 {
                lemma_key_transitive(ks[j], ks[pos - 1], c.key());
            }
        }
        assert forall|i: int, j: int| 0 <= i < j < out.len() implies key_lt(
            #[trigger] out[i],
            #[trigger] out[j],
        ) by {
            let x = if i < pos { i } else { i - 1 };
            let y = if j < pos { j } else { j - 1 };
            if i != pos && j != pos {
                assert(out[i] == ks[x] && out[j] == ks[y]);
            } else if i == pos {
                assert(out[j] == ks[y]);
            } else {
                assert(out[i] == ks[x]);
            }
        }
    }
    pos
}

/// The candidate `c` stands for the record `r`, which matches `kw`.
spec fn stands_for(c: Candidate, r: RepoView, kw: Seq<char>) -> bool {
    &&& c.found.repo@ == r
    &&& match_kind(r, kw) == Some(c.found.kind)
    &&& c.key() == rank_key(r, c.found.kind, kw)
}

/// `cands` holds a candidate for each of the first `n` records that matches
/// `kw`, and `src` tells for each candidate which record it stands for.
spec fn collected(
    cands: Seq<Candidate>,
    src: Seq<int>,
    recs: Seq<RepoView>,
    n: int,
    kw: Seq<char>,
) -> bool {
    &&& src.len() == cands.len()
    &&& forall|k: int|
        0 <= k < cands.len() ==> 0 <= (#[trigger] src[k]) < n && stands_for(
            cands[k],
            recs[src[k]],
            kw,
        )
    &&& forall|j: int| 0 <= j < n && match_kind(#[trigger] recs[j], kw) is Some ==> src.contains(j)
}

proof fn lemma_collected_insert(
    cands: Seq<Candidate>,
    src: Seq<int>,
    recs: Seq<RepoView>,
    n: int,
    kw: Seq<char>,
    pos: int,
    c: Candidate,
)
    requires
        collected(cands, src, recs, n, kw),
        0 <= pos <= cands.len(),
        0 <= n < recs.len(),
        stands_for(c, recs[n], kw),
    ensures
        collected(cands.insert(pos, c), src.insert(pos, n), recs, n + 1, kw),
{
    let cands2 = cands.insert(pos, c);
    let src2 = src.insert(pos, n);
    assert forall|k: int| 0 <= k < cands2.len() implies 0 <= (#[trigger] src2[k]) < n + 1
        && stands_for(cands2[k], recs[src2[k]], kw) by {
        if k < pos {
            assert(src2[k] == src[k] && cands2[k] == cands[k]);
        } else if k > pos {
            assert(src2[k] == src[k - 1] && cands2[k] == cands[k - 1]);
        }
    }
    assert forall|j: int| 0 <= j < n + 1 && match_kind(#[trigger] recs[j], kw) is Some implies src2.contains(
        j,
    ) by {
        if j < n {
            let k = choose|k: int| 0 <= k < src.len() && src[k] == j;
            let k2 = if k < pos {
                k
            } else {
                k + 1
            };
            assert(src2[k2] == j);
        } else {
            assert(src2[pos] == j);
        }
    }
}

/// Candidates that were collected from the listing of a store and that stand
/// in the order of ranking are the ranking of the store.
proof fn lemma_collected_is_ranking(
    cands: Seq<Candidate>,
    src: Seq<int>,
    recs: Seq<RepoView>,
    m: Map<Seq<char>, RepoView>,
    kw: Seq<char>,
    res: Seq<RankedMatchView>,
)
    requires
        is_listing(recs, m, Selector::All),
        collected(cands, src, recs, recs.len() as int, kw),
        keys_ranked(cand_keys(cands)),
        res.len() == cands.len(),
        forall|k: int| 0 <= k < res.len() ==> #[trigger] res[k] == cands[k].found@,
    ensures
        is_ranking(res, m, kw),
{
    let ps = paths(recs);
    assert forall|k: int| 0 <= k < res.len() implies m.contains_key(
        (#[trigger] res[k]).repo.full_path,
    ) && m[res[k].repo.full_path] == res[k].repo && match_kind(res[k].repo, kw) == Some(
        res[k].kind,
    ) by {
        assert(0 <= src[k] < recs.len());
        assert(stands_for(cands[k], recs[src[k]], kw));
    }
    assert forall|p: Seq<char>| #[trigger]
        m.contains_key(p) && match_kind(m[p], kw) is Some implies exists|k: int|
        0 <= k < res.len() && (#[trigger] res[k]).repo.full_path == p by {
        assert(ps.contains(p));
        let j = choose|j: int| 0 <= j < ps.len() && ps[j] == p;
        assert(recs[j].full_path == p);
        assert(m[recs[j].full_path] == recs[j]);
        assert(src.contains(j));
        let k = choose|k: int| 0 <= k < src.len() && src[k] == j;
        assert(stands_for(cands[k], recs[src[k]], kw));
        assert(res[k] == cands[k].found@);
    }
    assert(ranked(res, kw)) by {
        assert forall|a: int, b: int| 0 <= a < b < res.len() implies key_lt(
            key_of(#[trigger] res[a], kw),
            key_of(#[trigger] res[b], kw),
        ) by {
            assert(stands_for(cands[a], recs[src[a]], kw));
            assert(stands_for(cands[b], recs[src[b]], kw));
            assert(cand_keys(cands)[a] == cands[a].key());
            assert(cand_keys(cands)[b] == cands[b].key());
        }
    }
}

/// A candidate for each record of `records` that matches `kw`, in the order of
/// ranking.
fn collect(records: &Vec<Repo>, kw_string: &String) -> (r: (Vec<Candidate>, Ghost<Seq<int>>))
    requires
        ascending(paths(repo_views(records@))),
    ensures
        keys_ranked(cand_keys(r.0@)),
        collected(r.0@, r.1@, repo_views(records@), records.len() as int, kw_string@),
{
    let kw = str_chars(kw_string.as_str());
    let seps: Vec<char> = vec!['-', '_', '.'];
    assert(seps@ == segment_separators());
    let kw_segments = split_chars(&kw, &seps);
    let ghost recs = repo_views(records@);
    let ghost ps = paths(recs);
    let mut cands: Vec<Candidate> = Vec::new();
    let ghost mut src: Seq<int> = Seq::empty();
    let mut i: usize = 0;
    while i < records.len()
        invariant
            i <= records.len(),
            recs == repo_views(records@),
            ps == paths(recs),
            ascending(ps),
            kw@ == kw_string@,
            views(kw_segments@) == segments(kw@),
            keys_ranked(cand_keys(cands@)),
            collected(cands@, src, recs, i as int, kw@),
        decreases records.len() - i,
    {
        let record = &records[i];
        assert(recs[i as int] == record@);
        match classify(record, &kw, &kw_segments) {
            Some(kind) => {
                let name = to_lowercase(record.repo.as_str());
                let distance = levenshtein(name.as_str(), kw_string.as_str());
                let c = Candidate {
                    rank: kind.rank(),
                    distance,
                    name,
                    found: RankedMatch { repo: record.clone(), kind },
                };
                proof {
                    assert(stands_for(c, recs[i as int], kw@));
                    assert forall|k: int| 0 <= k < cands.len() implies (#[trigger] cands@[k]).key().path
                        != c.key().path by {
                        assert(0 <= src[k] < i);
                        assert(stands_for(cands@[k], recs[src[k]], kw@));
                        assert(ps[src[k]] == recs[src[k]].full_path);
                        assert(ps[i as int] == recs[i as int].full_path);
                        if ps[src[k]] == ps[i as int] {
                            lemma_ascending_distinct(ps, src[k], i as int);
                        }
                    }
                }
                let ghost before = cands@;
                let pos = insert_ranked(&mut cands, c);
                proof {
                    lemma_collected_insert(before, src, recs, i as int, kw@, pos as int, c);
                    src = src.insert(pos as int, i as int);
                }
            },
            None => {},
        }
        i += 1;
    }
    (cands, Ghost(src))
}

/// The ranking of the records of `store` for `keyword`: a copy of each record
/// that matches the normalized keyword, with the kind of its match, in the
/// order of ranking.
pub fn rank_records(store: &IndexedRecords, keyword: &str) -> (r: Vec<RankedMatch>)
    requires
        store.wf(),
    ensures
        is_ranking(match_views(r@), store@, normalized_keyword(keyword@)),
{
    let kw_string = normalize_keyword(keyword);
    let records = store.records();
    let (cands, Ghost(src)) = collect(records, &kw_string);
    let ghost sorted = cands@;
    let mut out: Vec<RankedMatch> = Vec::new();
    for c in it: cands
        invariant
            it.seq() == sorted,
            out.len() == it.index(),
            forall|k: int| 0 <= k < out.len() ==> (#[trigger] out@[k])@ == sorted[k].found@,
    {
        out.push(c.found);
    }
    proof {
        let res = match_views(out@);
        assert forall|k: int| 0 <= k < res.len() implies #[trigger] res[k] == sorted[k].found@ by {
            assert(res[k] == out@[k]@);
        }
        lemma_collected_is_ranking(
            sorted,
            src,
            repo_views(records@),
            store@,
            kw_string@,
            res,
        );
    }
    out
}

} // verus!
