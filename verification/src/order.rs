//! Lexicographic order on character sequences (the order of Rust's `str`,
//! since UTF-8 keeps code-point order) and strictly ordered string lists.

use vstd::prelude::*;
use crate::text::{strs, chars_of};

verus! {

/// `a` sorts strictly before `b`: at the first position where they differ
/// `a` has the smaller code point, or `a` is a proper prefix of `b`.
pub open spec fn lex_lt(a: Seq<char>, b: Seq<char>) -> bool
    decreases a.len(),
{
    if a.len() == 0 {
        b.len() > 0
    } else if b.len() == 0 {
        false
    } else if a[0] != b[0] {
        a[0] < b[0]
    } else {
        lex_lt(a.drop_first(), b.drop_first())
    }
}

/// Every element sorts strictly before every later one (so none repeats).
pub open spec fn strictly_sorted(s: Seq<Seq<char>>) -> bool {
    forall|i: int, j: int| 0 <= i < j < s.len() ==> lex_lt(#[trigger] s[i], #[trigger] s[j])
}

/// No sequence sorts before itself.
pub proof fn lemma_lex_irreflexive(a: Seq<char>)
    ensures
        !lex_lt(a, a),
    decreases a.len(),
{
    if a.len() > 0 {
        lemma_lex_irreflexive(a.drop_first());
    }
}

/// Of two distinct sequences exactly one sorts before the other.
pub proof fn lemma_lex_trichotomy(a: Seq<char>, b: Seq<char>)
    ensures
        a == b || lex_lt(a, b) || lex_lt(b, a),
        !(lex_lt(a, b) && lex_lt(b, a)),
    decreases a.len(),
{
    if a.len() > 0 && b.len() > 0 && a[0] == b[0] {
        lemma_lex_trichotomy(a.drop_first(), b.drop_first());
        if a.drop_first() == b.drop_first() {
            assert(a =~= seq![a[0]] + a.drop_first());
            assert(b =~= seq![b[0]] + b.drop_first());
        }
    } else if a.len() == 0 && b.len() == 0 {
        assert(a =~= b);
    } else if a.len() > 0 && b.len() > 0 {
        assert(a[0] < b[0] || b[0] < a[0]);
    }
}

/// The order is transitive.
pub proof fn lemma_lex_transitive(a: Seq<char>, b: Seq<char>, c: Seq<char>)
    requires
        lex_lt(a, b),
        lex_lt(b, c),
    ensures
        lex_lt(a, c),
    decreases a.len(),
{
    if a.len() > 0 && b.len() > 0 && c.len() > 0 && a[0] == b[0] && b[0] == c[0] {
        lemma_lex_transitive(a.drop_first(), b.drop_first(), c.drop_first());
    }
}

proof fn lemma_lex_step(a: Seq<char>, b: Seq<char>, i: int)
    requires
        0 <= i < a.len(),
        i < b.len(),
        a[i] == b[i],
    ensures
        lex_lt(a.skip(i), b.skip(i)) == lex_lt(a.skip(i + 1), b.skip(i + 1)),
{
    assert(a.skip(i).drop_first() =~= a.skip(i + 1));
    assert(b.skip(i).drop_first() =~= b.skip(i + 1));
}

/// Whether `a` sorts strictly before `b`.
pub fn lex_less(a: &Vec<char>, b: &Vec<char>) -> (r: bool)
    ensures
        r == lex_lt(a@, b@),
{
    let mut i: usize = 0;
    assert(a@.skip(0) =~= a@);
    assert(b@.skip(0) =~= b@);
    while i < a.len() && i < b.len()
        invariant
            i <= a@.len(),
            i <= b@.len(),
            lex_lt(a@, b@) == lex_lt(a@.skip(i as int), b@.skip(i as int)),
        decreases a@.len() - i,
    {
        if a[i] != b[i] {
            return a[i] < b[i];
        }
        proof {
            lemma_lex_step(a@, b@, i as int);
        }
        i = i + 1;
    }
    i < b.len()
}

/// Inserts `x` into the strictly ordered list `v` at its place, unless an
/// equal string is already there.
pub fn insert_sorted_unique(v: &mut Vec<String>, x: &String)
    requires
        strictly_sorted(strs(old(v)@)),
    ensures
        strictly_sorted(strs(final(v)@)),
        forall|t: Seq<char>| #[trigger] strs(final(v)@).contains(t) <==> (strs(old(v)@).contains(t) || t == x@),
{
    let ghost old_v = strs(v@);
    let xs: &str = x.as_str();
    assert(xs@ == x@);
    let xc = chars_of(xs);
    let n = v.len();
    let mut p: usize = 0;
    while p < n
        invariant
            n == v@.len(),
            xc@ == x@,
            v@ == old(v)@,
            p <= n,
            forall|i: int| 0 <= i < p ==> lex_lt(#[trigger] strs(v@)[i], x@),
        ensures
            p <= n,
            v@ == old(v)@,
            forall|i: int| 0 <= i < p ==> lex_lt(#[trigger] strs(v@)[i], x@),
            p < n ==> !lex_lt(strs(v@)[p as int], x@),
        decreases n - p,
    {
        let vc = chars_of(v[p].as_str());
        assert(strs(v@)[p as int] == vc@);
        if !lex_less(&vc, &xc) {
            break;
        }
        p = p + 1;
    }
    if p < n && v[p] == *x {
        proof {
            assert(strs(v@)[p as int] == x@);
        }
        return;
    }
    proof {
        if p < n {
            lemma_lex_trichotomy(strs(v@)[p as int], x@);
        }
    }
    v.insert(p, x.clone());
    proof {
        let nv = strs(v@);
        assert(nv =~= old_v.insert(p as int, x@));
        assert forall|i: int, j: int| 0 <= i < j < nv.len() implies lex_lt(#[trigger] nv[i], #[trigger] nv[j]) by {
            if j < p {
            } else if j == p {
            } else if i < p {
                lemma_lex_transitive(nv[i], x@, old_v[p as int]);
                if j - 1 > p {
                    lemma_lex_transitive(nv[i], old_v[p as int], old_v[j - 1]);
                }
            } else if i == p {
                if j - 1 > p {
                    lemma_lex_transitive(x@, old_v[p as int], old_v[j - 1]);
                }
            } else {
            }
        }
        assert forall|t: Seq<char>| #[trigger] nv.contains(t) <==> (old_v.contains(t) || t == x@) by {
            if nv.contains(t) {
                let k = choose|k: int| 0 <= k < nv.len() && nv[k] == t;
                if k < p {
                    assert(old_v[k] == t);
                } else if k > p {
                    assert(old_v[k - 1] == t);
                }
            }
            if old_v.contains(t) {
                let k = choose|k: int| 0 <= k < old_v.len() && old_v[k] == t;
                if k < p {
                    assert(nv[k] == t);
                } else {
                    assert(nv[k + 1] == t);
                }
            }
            if t == x@ {
                assert(nv[p as int] == t);
            }
        }
    }
}


/// Two sequences that agree on their first `i` characters and differ at
/// position `i` sort by that character: the one with the smaller code
/// point comes first.
pub proof fn law_first_difference_decides(a: Seq<char>, b: Seq<char>, i: int)
    requires
        0 <= i < a.len(),
        i < b.len(),
        a.take(i) == b.take(i),
        a[i] < b[i],
    ensures
        lex_lt(a, b),
        !lex_lt(b, a),
    decreases i,
{
    if i > 0 {
        assert(a[0] == a.take(i)[0]);
        assert(b[0] == b.take(i)[0]);
        assert(a.drop_first().take(i - 1) =~= a.take(i).drop_first());
        assert(b.drop_first().take(i - 1) =~= b.take(i).drop_first());
        law_first_difference_decides(a.drop_first(), b.drop_first(), i - 1);
    }
}

/// A proper prefix sorts before the longer sequence.
pub proof fn law_proper_prefix_sorts_first(a: Seq<char>, b: Seq<char>)
    requires
        a.len() < b.len(),
        b.take(a.len() as int) == a,
    ensures
        lex_lt(a, b),
        !lex_lt(b, a),
    decreases a.len(),
{
    if a.len() > 0 {
        assert(a[0] == b.take(a.len() as int)[0]);
        assert(b.drop_first().take(a.len() - 1) =~= a.drop_first());
        law_proper_prefix_sorts_first(a.drop_first(), b.drop_first());
    }
}

} // verus!
