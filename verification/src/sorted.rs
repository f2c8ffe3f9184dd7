//! Vectors kept in ascending order of a string key.
//!
//! An ordered map or set is a vector whose items have pairwise different
//! keys in ascending order. A key is found by binary search; an item enters at
//! the place the search gives, so the order holds without sorting.

use crate::order::{
    compare, lemma_lex_asymmetric, lemma_lex_irreflexive, lemma_lex_total, lemma_lex_transitive,
    lex_le, lex_lt, Rel,
};
use vstd::prelude::*;

verus! {

/// An item that is ordered and found by a string key.
pub trait Keyed {
    /// The key of the item.
    spec fn key(&self) -> Seq<char>;

    /// The key of the item, as text.
    fn key_str(&self) -> (k: &str)
        ensures
            k@ == self.key(),
    ;
}

impl Keyed for String {
    open spec fn key(&self) -> Seq<char> {
        self@
    }

    fn key_str(&self) -> (k: &str) {
        self.as_str()
    }
}

/// The keys of `items`, in the order of the items.
pub open spec fn keys<T: Keyed>(items: Seq<T>) -> Seq<Seq<char>> {
    Seq::new(items.len(), |i: int| items[i].key())
}

/// Each key comes strictly before every later one.
pub open spec fn ascending(ks: Seq<Seq<char>>) -> bool {
    forall|i: int, j: int| 0 <= i < j < ks.len() ==> lex_lt(#[trigger] ks[i], #[trigger] ks[j])
}

/// `pos` is where `k` stands or would stand in `ks`: every key before `pos`
/// comes before `k`, and no key from `pos` on does.
pub open spec fn is_lower_bound(ks: Seq<Seq<char>>, k: Seq<char>, pos: int) -> bool {
    &&& 0 <= pos <= ks.len()
    &&& forall|i: int| 0 <= i < pos ==> lex_lt(#[trigger] ks[i], k)
    &&& forall|i: int| pos <= i < ks.len() ==> lex_le(k, #[trigger] ks[i])
}

/// In an ascending sequence a key stands at one index at most.
pub proof fn lemma_ascending_distinct(ks: Seq<Seq<char>>, i: int, j: int)
    requires
        ascending(ks),
        0 <= i < ks.len(),
        0 <= j < ks.len(),
        ks[i] == ks[j],
    ensures
        i == j,
{
    if i < j {
        lemma_lex_irreflexive(ks[i]);
    } else if j < i {
        lemma_lex_irreflexive(ks[j]);
    }
}

/// A key stands in an ascending sequence only at its lower bound.
pub proof fn lemma_lower_bound_finds(ks: Seq<Seq<char>>, k: Seq<char>, pos: int, i: int)
    requires
        ascending(ks),
        is_lower_bound(ks, k, pos),
        0 <= i < ks.len(),
        ks[i] == k,
    ensures
        i == pos,
{
    lemma_lex_irreflexive(k);
    if pos < i {
        assert(lex_le(k, ks[pos]));
        if ks[pos] != k {
            lemma_lex_asymmetric(k, ks[pos]);
        }
    }
}

/// A new key that enters at its lower bound leaves the sequence ascending.
pub proof fn lemma_insert_ascending(ks: Seq<Seq<char>>, k: Seq<char>, pos: int)
    requires
        ascending(ks),
        is_lower_bound(ks, k, pos),
        pos == ks.len() || ks[pos] != k,
    ensures
        ascending(ks.insert(pos, k)),
{
    let out = ks.insert(pos, k);
    assert forall|i: int, j: int| 0 <= i < j < out.len() implies lex_lt(out[i], out[j]) by {
        if j < pos {
            assert(out[i] == ks[i] && out[j] == ks[j]);
        } else if j == pos {
            assert(out[i] == ks[i]);
        } else if i < pos {
            assert(out[i] == ks[i] && out[j] == ks[j - 1]);
            if i < j - 1 {
            } else {
                assert(lex_le(k, ks[j - 1]));
                if k != ks[j - 1] {
                    lemma_lex_transitive(ks[i], k, ks[j - 1]);
                }
            }
        } else if i == pos {
            assert(out[j] == ks[j - 1]);
            assert(lex_le(k, ks[j - 1]));
            if j - 1 > pos {
                assert(lex_le(k, ks[pos]));
                lemma_lex_transitive(k, ks[pos], ks[j - 1]);
            }
        } else {
            assert(out[i] == ks[i - 1] && out[j] == ks[j - 1]);
        }
    }
}

/// What is left of an ascending sequence when a key leaves is ascending.
pub proof fn lemma_remove_ascending(ks: Seq<Seq<char>>, pos: int)
    requires
        ascending(ks),
        0 <= pos < ks.len(),
    ensures
        ascending(ks.remove(pos)),
{
    let out = ks.remove(pos);
    assert forall|i: int, j: int| 0 <= i < j < out.len() implies lex_lt(out[i], out[j]) by {
        let a = if i < pos { i } else { i + 1 };
        let b = if j < pos { j } else { j + 1 };
        assert(out[i] == ks[a] && out[j] == ks[b]);
    }
}

/// Two ascending sequences that hold the same keys are equal.
pub proof fn lemma_ascending_unique(a: Seq<Seq<char>>, b: Seq<Seq<char>>)
    requires
        ascending(a),
        ascending(b),
        forall|i: int| 0 <= i < a.len() ==> b.contains(#[trigger] a[i]),
        forall|i: int| 0 <= i < b.len() ==> a.contains(#[trigger] b[i]),
    ensures
        a == b,
    decreases a.len(),
{
    if a.len() == 0 {
        if b.len() > 0 {
            assert(a.contains(b[0]));
        }
        assert(a =~= b);
    } else if b.len() == 0 {
        assert(b.contains(a[0]));
    } else {
        // The least key of each is the least key of the other.
        assert(b.contains(a[0]));
        assert(a.contains(b[0]));
        let j = choose|j: int| 0 <= j < b.len() && b[j] == a[0];
        let i = choose|i: int| 0 <= i < a.len() && a[i] == b[0];
        if i > 0 && j > 0 {
            assert(lex_lt(a[0], a[i]));
            assert(lex_lt(b[0], b[j]));
            lemma_lex_asymmetric(a[0], a[i]);
        }
        if i > 0 && j == 0 {
            lemma_ascending_distinct(a, 0, i);
        }
        if i == 0 && j > 0 {
            lemma_ascending_distinct(b, 0, j);
        }
        assert(a[0] == b[0]);
        let a1 = a.drop_first();
        let b1 = b.drop_first();
        assert(ascending(a1)) by {
            assert forall|x: int, y: int| 0 <= x < y < a1.len() implies lex_lt(a1[x], a1[y]) by {
                assert(a1[x] == a[x + 1] && a1[y] == a[y + 1]);
            }
        }
        assert(ascending(b1)) by {
            assert forall|x: int, y: int| 0 <= x < y < b1.len() implies lex_lt(b1[x], b1[y]) by {
                assert(b1[x] == b[x + 1] && b1[y] == b[y + 1]);
            }
        }
        assert forall|x: int| 0 <= x < a1.len() implies b1.contains(#[trigger] a1[x]) by {
            assert(a1[x] == a[x + 1]);
            assert(b.contains(a[x + 1]));
            let y = choose|y: int| 0 <= y < b.len() && b[y] == a[x + 1];
            if y == 0 {
                lemma_ascending_distinct(a, 0, x + 1);
            }
            assert(b1[y - 1] == b[y]);
        }
        assert forall|x: int| 0 <= x < b1.len() implies a1.contains(#[trigger] b1[x]) by {
            assert(b1[x] == b[x + 1]);
            assert(a.contains(b[x + 1]));
            let y = choose|y: int| 0 <= y < a.len() && a[y] == b[x + 1];
            if y == 0 {
                lemma_ascending_distinct(b, 0, x + 1);
            }
            assert(a1[y - 1] == a[y]);
        }
        lemma_ascending_unique(a1, b1);
        assert(a =~= seq![a[0]] + a1);
        assert(b =~= seq![b[0]] + b1);
    }
}

/// The keys after an item entered at `pos`.
pub proof fn lemma_keys_insert<T: Keyed>(items: Seq<T>, pos: int, x: T)
    requires
        0 <= pos <= items.len(),
    ensures
        keys(items.insert(pos, x)) == keys(items).insert(pos, x.key()),
{
    assert(keys(items.insert(pos, x)) =~= keys(items).insert(pos, x.key()));
}

/// The keys after the item at `pos` left.
pub proof fn lemma_keys_remove<T: Keyed>(items: Seq<T>, pos: int)
    requires
        0 <= pos < items.len(),
    ensures
        keys(items.remove(pos)) == keys(items).remove(pos),
{
    assert(keys(items.remove(pos)) =~= keys(items).remove(pos));
}

/// The keys after the item at `pos` gave way to one with the same key.
pub proof fn lemma_keys_update<T: Keyed>(items: Seq<T>, pos: int, x: T)
    requires
        0 <= pos < items.len(),
        items[pos].key() == x.key(),
    ensures
        keys(items.update(pos, x)) == keys(items),
{
    assert(keys(items.update(pos, x)) =~= keys(items));
}

/// After `k` entered, the sequence holds `k` and what it held before.
pub proof fn lemma_contains_insert(ks: Seq<Seq<char>>, pos: int, k: Seq<char>, x: Seq<char>)
    requires
        0 <= pos <= ks.len(),
    ensures
        ks.insert(pos, k).contains(x) <==> ks.contains(x) || x == k,
{
    let out = ks.insert(pos, k);
    if out.contains(x) {
        let i = choose|i: int| 0 <= i < out.len() && out[i] == x;
        if i < pos {
            assert(ks[i] == x);
        } else if i > pos {
            assert(ks[i - 1] == x);
        }
    }
    if ks.contains(x) {
        let i = choose|i: int| 0 <= i < ks.len() && ks[i] == x;
        if i < pos {
            assert(out[i] == x);
        } else {
            assert(out[i + 1] == x);
        }
    }
    if x == k {
        assert(out[pos] == x);
    }
}

/// After the key at `pos` left an ascending sequence, the sequence holds what
/// it held before but for that key.
pub proof fn lemma_contains_remove(ks: Seq<Seq<char>>, pos: int, x: Seq<char>)
    requires
        ascending(ks),
        0 <= pos < ks.len(),
    ensures
        ks.remove(pos).contains(x) <==> ks.contains(x) && x != ks[pos],
{
    let out = ks.remove(pos);
    if out.contains(x) {
        let i = choose|i: int| 0 <= i < out.len() && out[i] == x;
        let j = if i < pos { i } else { i + 1 };
        assert(ks[j] == x);
        if x == ks[pos] {
            lemma_ascending_distinct(ks, j, pos);
        }
    }
    if ks.contains(x) && x != ks[pos] {
        let i = choose|i: int| 0 <= i < ks.len() && ks[i] == x;
        if i < pos {
            assert(out[i] == x);
        } else {
            assert(out[i - 1] == x);
        }
    }
}

/// The place of `k` among the ascending keys of `items`, by binary search.
pub fn lower_bound<T: Keyed>(items: &Vec<T>, k: &str) -> (pos: usize)
    requires
        ascending(keys(items@)),
    ensures
        is_lower_bound(keys(items@), k@, pos as int),
{
    let ghost ks = keys(items@);
    let mut lo: usize = 0;
    let mut hi: usize = items.len();
    while lo < hi
        invariant
            ks == keys(items@),
            ascending(ks),
            0 <= lo <= hi <= items.len(),
            forall|i: int| 0 <= i < lo ==> lex_lt(#[trigger] ks[i], k@),
            forall|i: int| hi <= i < ks.len() ==> lex_le(k@, #[trigger] ks[i]),
        decreases hi - lo,
    {
        let mid: usize = lo + (hi - lo) / 2;
        let rel = compare(items[mid].key_str(), k);
        assert(ks[mid as int] == items@[mid as int].key());
        if rel == Rel::Before {
            assert forall|i: int| 0 <= i < mid + 1 implies lex_lt(#[trigger] ks[i], k@) by {
                if i < mid {
                    assert(lex_lt(ks[i], ks[mid as int]));
                    lemma_lex_transitive(ks[i], ks[mid as int], k@);
                }
            }
            lo = mid + 1;
        } else {
            proof {
                lemma_lex_total(ks[mid as int], k@);
            }
            assert forall|i: int| mid <= i < ks.len() implies lex_le(k@, #[trigger] ks[i]) by {
                if i > mid {
                    assert(lex_lt(ks[mid as int], ks[i]));
                    if k@ != ks[mid as int] {
                        lemma_lex_transitive(k@, ks[mid as int], ks[i]);
                    }
                }
            }
            hi = mid;
        }
    }
    lo
}

/// Whether the item at the lower bound `pos` of `k` has the key `k`.
pub fn holds_at<T: Keyed>(items: &Vec<T>, k: &str, pos: usize) -> (r: bool)
    requires
        ascending(keys(items@)),
        is_lower_bound(keys(items@), k@, pos as int),
    ensures
        r == keys(items@).contains(k@),
        r ==> pos < items.len() && items@[pos as int].key() == k@,
{
    let ghost ks = keys(items@);
    if pos < items.len() {
        let rel = compare(items[pos].key_str(), k);
        assert(ks[pos as int] == items@[pos as int].key());
        proof {
            if rel != Rel::Same && ks.contains(k@) {
                let i = choose|i: int| 0 <= i < ks.len() && ks[i] == k@;
                lemma_lower_bound_finds(ks, k@, pos as int, i);
            }
        }
        rel == Rel::Same
    } else {
        proof {
            if ks.contains(k@) {
                let i = choose|i: int| 0 <= i < ks.len() && ks[i] == k@;
                lemma_lower_bound_finds(ks, k@, pos as int, i);
            }
        }
        false
    }
}

} // verus!
