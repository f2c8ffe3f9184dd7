//! The lexicographic order of strings by code point, which is the order in
//! which the store keeps its keys.

use vstd::prelude::*;
use vstd::std_specs::iter::IteratorSpec;

verus! {

/// `a` comes strictly before `b`: at the first index where they differ `a` has
/// the smaller code point, or `a` is a proper prefix of `b`.
pub open spec fn lex_lt(a: Seq<char>, b: Seq<char>) -> bool
    decreases a.len(),
{
    if b.len() == 0 {
        false
    } else if a.len() == 0 {
        true
    } else if a[0] != b[0] {
        (a[0] as u32) < (b[0] as u32)
    } else {
        lex_lt(a.drop_first(), b.drop_first())
    }
}

/// `a` comes before `b` or equals it.
pub open spec fn lex_le(a: Seq<char>, b: Seq<char>) -> bool {
    a == b || lex_lt(a, b)
}

/// How one value stands to another in an order.
#[derive(Debug, Clone, Copy, PartialEq, Eq, Structural)]
pub enum Rel {
    Before,
    Same,
    After,
}

/// Different characters have different code points.
pub proof fn lemma_code_points_differ(x: char, y: char)
    requires
        x != y,
    ensures
        x as u32 != y as u32,
{
    vstd::utf8::char_u32_cast(x, x as u32);
    vstd::utf8::char_u32_cast(y, y as u32);
}

/// No string comes before itself.
pub proof fn lemma_lex_irreflexive(a: Seq<char>)
    ensures
        !lex_lt(a, a),
    decreases a.len(),
{
    if a.len() > 0 {
        lemma_lex_irreflexive(a.drop_first());
    }
}

/// Of two strings at most one comes before the other.
pub proof fn lemma_lex_asymmetric(a: Seq<char>, b: Seq<char>)
    requires
        lex_lt(a, b),
    ensures
        !lex_lt(b, a),
    decreases a.len(),
{
    if a.len() > 0 && b.len() > 0 && a[0] == b[0] {
        lemma_lex_asymmetric(a.drop_first(), b.drop_first());
    }
}

/// The order is transitive.
pub proof fn lemma_lex_transitive(a: Seq<char>, b: Seq<char>, c: Seq<char>)
    requires
        lex_lt(a, b),
        lex_lt(b, c),
    ensures
        lex_lt(a, c),
    decreases a.len(),
{
    if a.len() > 0 && b.len() > 0 && c.len() > 0 && a[0] == b[0] && b[0] == c[0] {
        lemma_lex_transitive(a.drop_first(), b.drop_first(), c.drop_first());
    }
}

/// Two different strings are ordered one way or the other.
pub proof fn lemma_lex_total(a: Seq<char>, b: Seq<char>)
    ensures
        lex_lt(a, b) || a == b || lex_lt(b, a),
    decreases a.len(),
{
    if a.len() > 0 && b.len() > 0 {
        if a[0] == b[0] {
            lemma_lex_total(a.drop_first(), b.drop_first());
            if a.drop_first() == b.drop_first() {
                assert(a =~= seq![a[0]] + a.drop_first());
                assert(b =~= seq![b[0]] + b.drop_first());
            }
        } else {
            lemma_code_points_differ(a[0], b[0]);
        }
    } else if a.len() == 0 && b.len() == 0 {
        assert(a =~= b);
    }
}

/// A proper prefix comes before the string, and no string comes before one of
/// its prefixes.
pub proof fn lemma_lex_prefix(p: Seq<char>, s: Seq<char>)
    requires
        p.is_prefix_of(s),
    ensures
        lex_le(p, s),
        !lex_lt(s, p),
    decreases p.len(),
{
    if p.len() == 0 {
        if s.len() == 0 {
            assert(p =~= s);
        }
    } else {
        assert(p[0] == s[0]);
        let p_rest = p.drop_first();
        let s_rest = s.drop_first();
        assert(p_rest.is_prefix_of(s_rest)) by {
            assert(p_rest =~= s_rest.subrange(0, p_rest.len() as int));
        }
        lemma_lex_prefix(p_rest, s_rest);
        if p_rest == s_rest {
            assert(p =~= seq![p[0]] + p_rest);
            assert(s =~= seq![s[0]] + s_rest);
        }
    }
}

proof fn lemma_same_head(a: Seq<char>, b: Seq<char>)
    requires
        a.len() > 0,
        b.len() > 0,
        a[0] == b[0],
    ensures
        (a == b) == (a.drop_first() == b.drop_first()),
{
    if a.drop_first() == b.drop_first() {
        assert(a =~= seq![a[0]] + a.drop_first());
        assert(b =~= seq![b[0]] + b.drop_first());
    }
}

/// How `a` stands to `b` in the lexicographic order.
pub fn compare(a: &str, b: &str) -> (r: Rel)
    ensures
        r == Rel::Before <==> lex_lt(a@, b@),
        r == Rel::Same <==> a@ == b@,
        r == Rel::After <==> lex_lt(b@, a@),
{
    let mut ia = a.chars();
    let mut ib = b.chars();
    proof {
        lemma_lex_total(a@, b@);
        lemma_lex_irreflexive(a@);
        if lex_lt(a@, b@) {
            lemma_lex_asymmetric(a@, b@);
        }
    }
    loop
        invariant
            lex_lt(a@, b@) == lex_lt(ia.remaining(), ib.remaining()),
            lex_lt(b@, a@) == lex_lt(ib.remaining(), ia.remaining()),
            (a@ == b@) == (ia.remaining() == ib.remaining()),
            lex_lt(a@, b@) ==> a@ != b@ && !lex_lt(b@, a@),
            lex_lt(b@, a@) ==> a@ != b@,
            ia.obeys_prophetic_iter_laws(),
            ib.obeys_prophetic_iter_laws(),
            ia.decrease() is Some,
        decreases ia.decrease()->0,
    {
        let ghost ra = ia.remaining();
        let ghost rb = ib.remaining();
        let ca = ia.next();
        let cb = ib.next();
        match (ca, cb) {
            (None, None) => {
                assert(ra =~= rb);
                return Rel::Same;
            },
            (None, Some(_)) => {
                return Rel::Before;
            },
            (Some(_), None) => {
                return Rel::After;
            },
            (Some(x), Some(y)) => {
                if x != y {
                    if (x as u32) < (y as u32) {
                        return Rel::Before;
                    } else {
                        proof {
                            lemma_code_points_differ(x, y);
                        }
                        return Rel::After;
                    }
                }
                assert((ra == rb) == (ra.drop_first() == rb.drop_first())) by {
                    lemma_same_head(ra, rb);
                }
            },
        }
    }
}

proof fn lemma_prefix_step(p: Seq<char>, s: Seq<char>)
    requires
        p.len() > 0,
    ensures
        p.is_prefix_of(s) == (s.len() > 0 && p[0] == s[0] && p.drop_first().is_prefix_of(
            s.drop_first(),
        )),
{
    let p_rest = p.drop_first();
    if p.is_prefix_of(s) {
        assert(s.subrange(0, p.len() as int)[0] == p[0]);
        let s_rest = s.drop_first();
        assert(p_rest =~= s_rest.subrange(0, p_rest.len() as int)) by {
            assert forall|i: int| 0 <= i < p_rest.len() implies p_rest[i] == s_rest.subrange(
                0,
                p_rest.len() as int,
            )[i] by {
                assert(p[i + 1] == s.subrange(0, p.len() as int)[i + 1]);
            }
        }
    }
    if s.len() > 0 && p[0] == s[0] && p_rest.is_prefix_of(s.drop_first()) {
        let s_rest = s.drop_first();
        assert(p =~= s.subrange(0, p.len() as int)) by {
            assert forall|i: int| 0 <= i < p.len() implies p[i] == s.subrange(0, p.len() as int)[i] by {
                if i > 0 {
                    assert(p_rest[i - 1] == s_rest.subrange(0, p_rest.len() as int)[i - 1]);
                }
            }
        }
    }
}

/// Whether `s` starts with `prefix`.
pub fn str_starts_with(s: &str, prefix: &str) -> (r: bool)
    ensures
        r == prefix@.is_prefix_of(s@),
{
    let mut is = s.chars();
    let mut ip = prefix.chars();
    loop
        invariant
            prefix@.is_prefix_of(s@) == ip.remaining().is_prefix_of(is.remaining()),
            is.obeys_prophetic_iter_laws(),
            ip.obeys_prophetic_iter_laws(),
            ip.decrease() is Some,
        decreases ip.decrease()->0,
    {
        let ghost rs = is.remaining();
        let ghost rp = ip.remaining();
        match ip.next() {
            None => {
                assert(rp =~= rs.subrange(0, 0));
                return true;
            },
            Some(x) => {
                assert(rp.is_prefix_of(rs) == (rs.len() > 0 && rp[0] == rs[0]
                    && rp.drop_first().is_prefix_of(rs.drop_first()))) by {
                    lemma_prefix_step(rp, rs);
                }
                match is.next() {
                    None => {
                        return false;
                    },
                    Some(y) => {
                        if x != y {
                            return false;
                        }
                    },
                }
            },
        }
    }
}

/// Between a prefix and a string that starts with it stand only strings that
/// start with it.
pub proof fn lemma_prefix_range(p: Seq<char>, a: Seq<char>, b: Seq<char>)
    requires
        lex_le(p, a),
        lex_lt(a, b),
        p.is_prefix_of(b),
    ensures
        p.is_prefix_of(a),
    decreases p.len(),
{
    if p.len() == 0 {
        assert(p =~= a.subrange(0, 0));
    } else {
        lemma_prefix_step(p, b);
        if p == a {
            assert(p =~= a.subrange(0, p.len() as int));
        } else {
            assert(a.len() > 0);
            if a[0] != p[0] {
                assert((p[0] as u32) < (a[0] as u32));
                assert(false);
            }
            let p_rest = p.drop_first();
            let a1 = a.drop_first();
            let b1 = b.drop_first();
            assert(lex_lt(p_rest, a1));
            lemma_prefix_range(p_rest, a1, b1);
            lemma_prefix_step(p, a);
        }
    }
}

} // verus!
