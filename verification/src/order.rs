//! Lexicographic order of strings, and sorted sets of strings.
//!
//! Strings order by their characters' code points, first difference first,
//! a proper prefix before the longer string. This is the order of `String`,
//! which compares UTF-8 bytes: UTF-8 keeps the order of code points.
use vstd::prelude::*;
use crate::text::{chars_of, views};

verus! {

/// `a` comes strictly before `b`.
pub open spec fn lex_lt(a: Seq<char>, b: Seq<char>) -> bool
    decreases a.len(),
{
    if a.len() == 0 {
        b.len() > 0
    } else if b.len() == 0 {
        false
    } else if a[0] != b[0] {
        a[0] < b[0]
    } else {
        lex_lt(a.drop_first(), b.drop_first())
    }
}

/// Every element comes strictly before the ones after it.
pub open spec fn strictly_sorted(s: Seq<Seq<char>>) -> bool {
    forall|i: int, j: int| 0 <= i < j < s.len() ==> lex_lt(#[trigger] s[i], #[trigger] s[j])
}

pub proof fn lemma_lex_irreflexive(a: Seq<char>)
    ensures
        !lex_lt(a, a),
    decreases a.len(),
{
    if a.len() > 0 {
        lemma_lex_irreflexive(a.drop_first());
    }
}

pub proof fn lemma_lex_asymmetric(a: Seq<char>, b: Seq<char>)
    ensures
        lex_lt(a, b) ==> !lex_lt(b, a),
    decreases a.len(),
{
    if a.len() > 0 && b.len() > 0 && a[0] == b[0] {
        lemma_lex_asymmetric(a.drop_first(), b.drop_first());
    }
}

pub proof fn lemma_lex_transitive(a: Seq<char>, b: Seq<char>, c: Seq<char>)
    requires
        lex_lt(a, b),
        lex_lt(b, c),
    ensures
        lex_lt(a, c),
    decreases a.len(),
{
    if a.len() > 0 && b.len() > 0 && c.len() > 0 && a[0] == b[0] && b[0] == c[0] {
        lemma_lex_transitive(a.drop_first(), b.drop_first(), c.drop_first());
    }
}

pub proof fn lemma_lex_total(a: Seq<char>, b: Seq<char>)
    ensures
        a != b ==> lex_lt(a, b) || lex_lt(b, a),
    decreases a.len(),
{
    if a.len() > 0 && b.len() > 0 {
        if a[0] == b[0] {
            lemma_lex_total(a.drop_first(), b.drop_first());
            if a.drop_first() == b.drop_first() {
                assert(a =~= seq![a[0]] + a.drop_first());
                assert(b =~= seq![b[0]] + b.drop_first());
            }
        } else {
        }
    } else if a.len() == 0 && b.len() == 0 {
        assert(a =~= b);
    }
}

proof fn lemma_lex_skip(a: Seq<char>, b: Seq<char>, i: int)
    requires
        0 <= i <= a.len(),
        i <= b.len(),
        a.take(i) == b.take(i),
    ensures
        lex_lt(a, b) == lex_lt(a.skip(i), b.skip(i)),
    decreases i,
{
    if i > 0 {
        assert(a[0] == a.take(i)[0]);
        assert(b[0] == b.take(i)[0]);
        assert(a.drop_first().take(i - 1) =~= a.take(i).drop_first());
        assert(b.drop_first().take(i - 1) =~= b.take(i).drop_first());
        lemma_lex_skip(a.drop_first(), b.drop_first(), i - 1);
        assert(a.drop_first().skip(i - 1) =~= a.skip(i));
        assert(b.drop_first().skip(i - 1) =~= b.skip(i));
    } else {
        assert(a.skip(0) =~= a);
        assert(b.skip(0) =~= b);
    }
}

/// Whether `a` comes strictly before `b`.
pub fn str_lt(a: &str, b: &str) -> (r: bool)
    ensures
        r == lex_lt(a@, b@),
{
    let ac = chars_of(a);
    let bc = chars_of(b);
    let mut i: usize = 0;
    while i < ac.len() && i < bc.len() && ac[i] == bc[i]
        invariant
            i <= ac@.len(),
            i <= bc@.len(),
            ac@ == a@,
            bc@ == b@,
            ac@.take(i as int) == bc@.take(i as int),
        decreases ac@.len() - i,
    {
        proof {
            assert(ac@.take(i + 1) =~= ac@.take(i as int).push(ac@[i as int]));
            assert(bc@.take(i + 1) =~= bc@.take(i as int).push(bc@[i as int]));
        }
        i = i + 1;
    }
    proof {
        lemma_lex_skip(a@, b@, i as int);
    }
    if i == ac.len() {
        i < bc.len()
    } else if i == bc.len() {
        false
    } else {
        proof {
            assert(a@.skip(i as int)[0] == ac@[i as int]);
            assert(b@.skip(i as int)[0] == bc@[i as int]);
        }
        ac[i] < bc[i]
    }
}

/// Adds `s` to the strictly sorted `out`, where it belongs, unless an equal
/// string is there already.
pub fn insert_sorted_unique(out: &mut Vec<String>, s: String)
    requires
        strictly_sorted(views(old(out)@)),
    ensures
        strictly_sorted(views(final(out)@)),
        views(final(out)@).to_set() == views(old(out)@).to_set().insert(s@),
{
    let ghost ov = views(out@);
    let mut p: usize = 0;
    while p < out.len() && str_lt(out[p].as_str(), s.as_str())
        invariant
            p <= out@.len(),
            ov == views(out@),
            forall|k: int| 0 <= k < p ==> lex_lt(#[trigger] ov[k], s@),
        decreases out@.len() - p,
    {
        assert(ov[p as int] == out@[p as int]@);
        p = p + 1;
    }
    if p < out.len() && crate::text::str_eq(out[p].as_str(), s.as_str()) {
        proof {
            assert(ov[p as int] == s@);
            assert(ov.to_set().insert(s@) =~= ov.to_set());
        }
        return;
    }
    let ghost sv = s@;
    proof {
        if p < ov.len() {
            assert(ov[p as int] == out@[p as int]@);
            lemma_lex_total(ov[p as int], sv);
            assert(lex_lt(sv, ov[p as int]));
            assert forall|k: int| p <= k < ov.len() implies lex_lt(sv, #[trigger] ov[k]) by {
                if k > p {
                    lemma_lex_transitive(sv, ov[p as int], ov[k]);
                }
            }
        }
    }
    out.insert(p, s);
    proof {
        let nv = views(out@);
        assert(nv =~= ov.insert(p as int, sv));
        assert forall|i: int, j: int| 0 <= i < j < nv.len() implies lex_lt(
            #[trigger] nv[i],
            #[trigger] nv[j],
        ) by {
            if j < p {
            } else if j == p {
            } else if i < p {
                lemma_lex_transitive(nv[i], sv, nv[j]);
            } else if i == p {
            } else {
            }
        }
        assert forall|x: Seq<char>| nv.to_set().contains(x) <==> ov.to_set().insert(sv).contains(x) by {
            if nv.to_set().contains(x) {
                let i = choose|i: int| 0 <= i < nv.len() && nv[i] == x;
                if i < p {
                    assert(ov[i] == x);
                } else if i > p {
                    assert(ov[i - 1] == x);
                }
            }
            if ov.to_set().contains(x) {
                let i = choose|i: int| 0 <= i < ov.len() && ov[i] == x;
                if i < p {
                    assert(nv[i] == x);
                } else {
                    assert(nv[i + 1] == x);
                }
            }
            if x == sv {
                assert(nv[p as int] == x);
            }
        }
        assert(nv.to_set() =~= ov.to_set().insert(sv));
    }
}

} // verus!
