//! Character-level text helpers: substring search, lexicographic order and
//! the strictly ordered, duplicate-free string lists built from them.

use vstd::prelude::*;

verus! {

/// The characters of each string in `v`.
pub open spec fn strs(v: Seq<String>) -> Seq<Seq<char>> {
    v.map_values(|s: String| s@)
}

/// `p` occurs in `s` as a contiguous run of characters.
pub open spec fn has_sub(s: Seq<char>, p: Seq<char>) -> bool {
    exists|i: int| 0 <= i && i + p.len() <= s.len() && #[trigger] s.subrange(i, i + p.len()) == p
}

/// `p` occurs in `s` starting at position `i`.
pub open spec fn occurs_at(s: Seq<char>, p: Seq<char>, i: int) -> bool {
    &&& 0 <= i
    &&& i + p.len() <= s.len()
    &&& forall|j: int| 0 <= j < p.len() ==> s[i + j] == p[j]
}

pub proof fn lemma_occurs_at_sub(s: Seq<char>, p: Seq<char>, i: int)
    requires
        0 <= i,
        i + p.len() <= s.len(),
    ensures
        occurs_at(s, p, i) <==> s.subrange(i, i + p.len()) == p,
{
    if occurs_at(s, p, i) {
        assert(s.subrange(i, i + p.len()) =~= p);
    }
    if s.subrange(i, i + p.len()) == p {
        assert forall|j: int| 0 <= j < p.len() implies s[i + j] == p[j] by {
            assert(s.subrange(i, i + p.len())[j] == s[i + j]);
        }
    }
}

/// The characters of `s`, one per element.
pub fn chars_of(s: &str) -> (v: Vec<char>)
    ensures
        v@ == s@,
{
    let n = s.unicode_len();
    let mut v: Vec<char> = Vec::new();
    let mut i: usize = 0;
    while i < n
        invariant
            n == s@.len(),
            i <= n,
            v@ == s@.subrange(0, i as int),
        decreases n - i,
    {
        let c = s.get_char(i);
        v.push(c);
        i = i + 1;
        assert(v@ =~= s@.subrange(0, i as int));
    }
    assert(v@ =~= s@);
    v
}

/// Whether `p` occurs in `s` starting at `i`.
fn matches_at(s: &Vec<char>, p: &Vec<char>, i: usize) -> (b: bool)
    requires
        i + p@.len() <= s@.len(),
    ensures
        b == occurs_at(s@, p@, i as int),
{
    let n = s.len();
    let mut j: usize = 0;
    while j < p.len()
        invariant
            n == s@.len(),
            i + p@.len() <= s@.len(),
            j <= p@.len(),
            forall|k: int| 0 <= k < j ==> s@[i + k] == p@[k],
        decreases p@.len() - j,
    {
        if s[i + j] != p[j] {
            return false;
        }
        j = j + 1;
    }
    true
}

/// Substring search over character vectors.
pub fn vec_contains(s: &Vec<char>, p: &Vec<char>) -> (b: bool)
    ensures
        b == has_sub(s@, p@),
{
    if p.len() > s.len() {
        return false;
    }
    let last = s.len() - p.len();
    let mut i: usize = 0;
    while i <= last
        invariant
            last + p@.len() == s@.len(),
            forall|k: int| 0 <= k < i ==> !occurs_at(s@, p@, k),
        decreases last + 1 - i,
    {
        if matches_at(s, p, i) {
            proof {
                lemma_occurs_at_sub(s@, p@, i as int);
            }
            return true;
        }
        if i == last {
            proof {
                assert forall|k: int| 0 <= k && k + p@.len() <= s@.len() implies #[trigger] s@.subrange(
                    k,
                    k + p@.len(),
                ) != p@ by {
                    lemma_occurs_at_sub(s@, p@, k);
                }
            }
            return false;
        }
        i = i + 1;
    }
    proof {
        assert forall|k: int| 0 <= k && k + p@.len() <= s@.len() implies #[trigger] s@.subrange(
            k,
            k + p@.len(),
        ) != p@ by {
            lemma_occurs_at_sub(s@, p@, k);
        }
    }
    false
}

/// `str::contains` for a string pattern: whether `p` occurs in `s`.
pub fn str_contains(s: &str, p: &str) -> (b: bool)
    ensures
        b == has_sub(s@, p@),
{
    let sv = chars_of(s);
    let pv = chars_of(p);
    vec_contains(&sv, &pv)
}


/// Whether `a` and `b` read the same.
pub fn str_eq(a: &str, b: &str) -> (r: bool)
    ensures
        r == (a@ == b@),
{
    let x = String::from_str(a);
    let y = String::from_str(b);
    x == y
}


/// A text holds every run of characters it is made of: `p` occurs in
/// `a + p + b` whatever `a` and `b`, and only what fits in a text occurs in it.
pub proof fn law_text_holds_its_pieces(a: Seq<char>, p: Seq<char>, b: Seq<char>)
    ensures
        has_sub(a + p + b, p),
        has_sub(p, p),
        has_sub(a, Seq::empty()),
        forall|q: Seq<char>| #[trigger] has_sub(a, q) ==> q.len() <= a.len(),
{
    let s = a + p + b;
    assert(s.subrange(a.len() as int, (a.len() + p.len()) as int) =~= p);
    let z: int = 0;
    assert(p.subrange(z, z + p.len()) =~= p);
    assert(a.subrange(z, z + Seq::<char>::empty().len()) =~= Seq::<char>::empty());
}

} // verus!
