//! Templates with placeholders of the form `{{key}}`.

use crate::order::{compare, Rel};
use crate::text::{
    copy_range, find_in, find_sub, lemma_find_sub, push_str, str_chars, string_of,
};
use vstd::prelude::*;

verus! {

/// What closes a placeholder: `}}`.
pub open spec fn closing() -> Seq<char> {
    seq!['}', '}']
}

/// The value that the first pair of `values` from `from` on with the key `key`
/// gives.
pub open spec fn value_of(
    values: Seq<(Seq<char>, Seq<char>)>,
    key: Seq<char>,
    from: int,
) -> Option<Seq<char>>
    decreases values.len() - from,
{
    if from < 0 || from >= values.len() {
        None
    } else if values[from].0 == key {
        Some(values[from].1)
    } else {
        value_of(values, key, from + 1)
    }
}

/// What stands for the placeholder with the key `key`: its value, or the
/// placeholder itself where the key has none.
pub open spec fn filled(values: Seq<(Seq<char>, Seq<char>)>, key: Seq<char>) -> Seq<char> {
    match value_of(values, key, 0) {
        Some(v) => v,
        None => seq!['{', '{'] + key + closing(),
    }
}

/// The text with each placeholder filled. A placeholder begins with `{{` and
/// ends with the next `}}`; what stands between them is its key. Where a `{{`
/// is never closed, the text ends before it.
pub open spec fn rendered(text: Seq<char>, values: Seq<(Seq<char>, Seq<char>)>) -> Seq<char>
    decreases text.len(),
    via rendered_decreases
{
    if text.len() == 0 {
        Seq::empty()
    } else if text.len() >= 2 && text[0] == '{' && text[1] == '{' {
        let rest = text.skip(2);
        match find_sub(rest, closing()) {
            Some(end) => filled(values, rest.take(end)) + rendered(rest.skip(end + 2), values),
            None => Seq::empty(),
        }
    } else {
        seq![text[0]] + rendered(text.skip(1), values)
    }
}

#[via_fn]
proof fn rendered_decreases(text: Seq<char>, values: Seq<(Seq<char>, Seq<char>)>) {
    if text.len() >= 2 {
        lemma_find_sub(text.skip(2), closing());
    }
}

/// The keys and values of a vector of pairs.
pub open spec fn pair_views(v: Seq<(String, String)>) -> Seq<(Seq<char>, Seq<char>)> {
    Seq::new(v.len(), |i: int| (v[i].0@, v[i].1@))
}

fn value_for<'a>(values: &'a Vec<(String, String)>, key: &str) -> (r: Option<&'a String>)
    ensures
        r is Some == value_of(pair_views(values@), key@, 0) is Some,
        r matches Some(v) ==> Some(v@) == value_of(pair_views(values@), key@, 0),
{
    let ghost all = pair_views(values@);
    let mut i: usize = 0;
    while i < values.len()
        invariant
            i <= values.len(),
            all == pair_views(values@),
            value_of(all, key@, 0) == value_of(all, key@, i as int),
        decreases values.len() - i,
    {
        assert(all[i as int] == (values@[i as int].0@, values@[i as int].1@));
        if compare(values[i].0.as_str(), key) == Rel::Same {
            return Some(&values[i].1);
        }
        i += 1;
    }
    None
}

/// Fills the placeholders of `text` with the values of `values`, which gives
/// for each key the value of the first pair that has it.
pub fn render_template(text: String, values: &Vec<(String, String)>) -> (r: String)
    ensures
        r@ == rendered(text@, pair_views(values@)),
{
    let t = str_chars(text.as_str());
    let close: Vec<char> = vec!['}', '}'];
    assert(close@ == closing());
    let ghost vals = pair_views(values@);
    let mut out: Vec<char> = Vec::new();
    let mut i: usize = 0;
    assert(t@.skip(0) =~= t@);
    while i < t.len()
        invariant
            i <= t.len(),
            t@ == text@,
            close@ == closing(),
            vals == pair_views(values@),
            rendered(text@, vals) == out@ + rendered(t@.skip(i as int), vals),
        decreases t.len() - i,
    {
        let ghost here = t@.skip(i as int);
        let ghost before = out@;
        assert(here[0] == t@[i as int]);
        if t[i] == '{' && i + 1 < t.len() && t[i + 1] == '{' {
            assert(here[1] == t@[i + 1]);
            let rest = copy_range(&t, i + 2, t.len());
            assert(rest@ =~= here.skip(2));
            match find_in(&rest, &close) {
                Some(end) => {
                    let key = string_of(&copy_range(&rest, 0, end));
                    assert(key@ =~= rest@.take(end as int));
                    match value_for(values, key.as_str()) {
                        Some(v) => {
                            push_str(&mut out, v.as_str());
                        },
                        None => {
                            out.push('{');
                            out.push('{');
                            push_str(&mut out, key.as_str());
                            out.push('}');
                            out.push('}');
                            assert(out@ =~= before + (seq!['{', '{'] + key@ + closing()));
                        },
                    }
                    assert(out@ == before + filled(vals, key@));
                    assert(rest@.skip(end + 2) =~= t@.skip(i + 2 + end + 2));
                    assert(before + (filled(vals, key@) + rendered(rest@.skip(end + 2), vals)) =~= (
                    before + filled(vals, key@)) + rendered(rest@.skip(end + 2), vals));
                    i = i + 2 + end + 2;
                },
                None => {
                    assert(rendered(t@.skip(t.len() as int), vals) =~= Seq::<char>::empty());
                    i = t.len();
                },
            }
        } else {
            out.push(t[i]);
            assert(here.skip(1) =~= t@.skip(i + 1));
            assert(before + (seq![here[0]] + rendered(here.skip(1), vals)) =~= before.push(here[0])
                + rendered(here.skip(1), vals));
            i += 1;
        }
    }
    assert(rendered(t@.skip(i as int), vals) =~= Seq::<char>::empty());
    assert(out@ + Seq::<char>::empty() =~= out@);
    string_of(&out)
}

} // verus!
