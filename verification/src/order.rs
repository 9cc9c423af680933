//! The lexicographic order of character sequences (the order of `String`'s `Ord`,
//! since UTF-8 byte order agrees with code-point order), and sorted insertion.
use vstd::prelude::*;
use crate::text::{char_vec_views, chars_eq};

verus! {

/// `a` sorts strictly before `b`.
pub open spec fn lex_lt(a: Seq<char>, b: Seq<char>) -> bool
    decreases a.len(),
{
    if a.len() == 0 {
        b.len() > 0
    } else if b.len() == 0 {
        false
    } else if a[0] != b[0] {
        a[0] < b[0]
    } else {
        lex_lt(a.drop_first(), b.drop_first())
    }
}

/// No text comes before itself.
pub proof fn lemma_lex_irreflexive(a: Seq<char>)
    ensures
        !lex_lt(a, a),
    decreases a.len(),
{
    if a.len() > 0 {
        lemma_lex_irreflexive(a.drop_first());
    }
}

/// Of two different texts exactly one comes first.
pub proof fn lemma_lex_total(a: Seq<char>, b: Seq<char>)
    ensures
        a == b || lex_lt(a, b) || lex_lt(b, a),
        !(lex_lt(a, b) && lex_lt(b, a)),
    decreases a.len(),
{
    if a.len() > 0 && b.len() > 0 {
        if a[0] == b[0] {
            lemma_lex_total(a.drop_first(), b.drop_first());
            if a.drop_first() == b.drop_first() {
                assert(a == seq![a[0]] + a.drop_first());
                assert(b == seq![b[0]] + b.drop_first());
            }
        }
    } else if a.len() == 0 && b.len() == 0 {
        assert(a == b);
    }
}

/// The order is transitive.
pub proof fn lemma_lex_transitive(a: Seq<char>, b: Seq<char>, c: Seq<char>)
    requires
        lex_lt(a, b),
        lex_lt(b, c),
    ensures
        lex_lt(a, c),
    decreases a.len(),
{
    if a.len() > 0 && b.len() > 0 && c.len() > 0 {
        if a[0] == b[0] && b[0] == c[0] {
            lemma_lex_transitive(a.drop_first(), b.drop_first(), c.drop_first());
        }
    }
}

/// Strictly increasing in the lexicographic order (so without repeats).
pub open spec fn lex_sorted(v: Seq<Seq<char>>) -> bool {
    forall|i: int, j: int| 0 <= i < j < v.len() ==> lex_lt(v[i], v[j])
}

/// A strictly sorted list holds no text twice.
pub proof fn lemma_lex_sorted_no_duplicates(v: Seq<Seq<char>>)
    requires
        lex_sorted(v),
    ensures
        v.no_duplicates(),
{
    assert forall|i: int, j: int| 0 <= i < v.len() && 0 <= j < v.len() && i != j implies v[i]
        != v[j] by {
        if i < j {
            lemma_lex_irreflexive(v[i]);
        } else {
            lemma_lex_irreflexive(v[j]);
        }
    }
}

/// Executable `lex_lt`.
pub fn lex_less(a: &[char], b: &[char]) -> (r: bool)
    ensures
        r == lex_lt(a@, b@),
{
    let mut i: usize = 0;
    assert(a@.skip(0) == a@ && b@.skip(0) == b@);
    while i < a.len() && i < b.len() && a[i] == b[i]
        invariant
            i <= a.len(),
            i <= b.len(),
            lex_lt(a@, b@) == lex_lt(a@.skip(i as int), b@.skip(i as int)),
        decreases a.len() - i,
    {
        proof {
            assert(a@.skip(i as int).drop_first() == a@.skip(i + 1));
            assert(b@.skip(i as int).drop_first() == b@.skip(i + 1));
        }
        i = i + 1;
    }
    if i == a.len() {
        i < b.len()
    } else if i == b.len() {
        false
    } else {
        a[i] < b[i]
    }
}

/// Adds `x` to the sorted vector `v` unless it is already there.
pub fn insert_sorted(v: &mut Vec<Vec<char>>, x: Vec<char>)
    requires
        lex_sorted(char_vec_views(old(v)@)),
    ensures
        lex_sorted(char_vec_views(final(v)@)),
        char_vec_views(final(v)@).to_set() == char_vec_views(old(v)@).to_set().insert(x@),
{
    let ghost vs = char_vec_views(v@);
    let mut lo: usize = 0;
    let mut hi: usize = v.len();
    while lo < hi
        invariant
            lo <= hi <= v@.len(),
            vs == char_vec_views(v@),
            lex_sorted(vs),
            forall|i: int| 0 <= i < lo ==> lex_lt(#[trigger] vs[i], x@),
            forall|i: int| hi <= i < vs.len() ==> !lex_lt(#[trigger] vs[i], x@),
        decreases hi - lo,
    {
        let mid = lo + (hi - lo) / 2;
        if lex_less(v[mid].as_slice(), x.as_slice()) {
            proof {
                assert forall|i: int| 0 <= i < mid + 1 implies lex_lt(#[trigger] vs[i], x@) by {
                    if i < mid {
                        lemma_lex_transitive(vs[i], vs[mid as int], x@);
                    }
                }
            }
            lo = mid + 1;
        } else {
            proof {
                assert forall|i: int| mid <= i < vs.len() implies !lex_lt(#[trigger] vs[i], x@) by {
                    if i > mid && lex_lt(vs[i], x@) {
                        lemma_lex_transitive(vs[mid as int], vs[i], x@);
                    }
                }
            }
            hi = mid;
        }
    }
    if lo < v.len() && chars_eq(v[lo].as_slice(), x.as_slice()) {
        assert(vs.to_set().insert(x@) == vs.to_set()) by {
            assert(vs.contains(x@)) by {
                assert(vs[lo as int] == x@);
            }
        }
        return ;
    }
    proof {
        if lo < vs.len() {
            lemma_lex_total(vs[lo as int], x@);
        }
    }
    v.insert(lo, x);
    proof {
        let ws = char_vec_views(v@);
        assert(ws == vs.insert(lo as int, x@));
        assert forall|i: int, j: int| 0 <= i < j < ws.len() implies lex_lt(ws[i], ws[j]) by {
            if j == lo {
                assert(ws[i] == vs[i]);
            } else if i == lo {
                assert(ws[j] == vs[j - 1]);
                if j - 1 > lo {
                    lemma_lex_transitive(x@, vs[lo as int], vs[j - 1]);
                }
            } else {
                let ii = if i < lo {
                    i
                } else {
                    i - 1
                };
                let jj = if j < lo {
                    j
                } else {
                    j - 1
                };
                assert(ws[i] == vs[ii]);
                assert(ws[j] == vs[jj]);
                if ii == jj {
                    assert(i < lo && j > lo);
                }
            }
        }
        assert(ws.to_set() == vs.to_set().insert(x@)) by {
            assert forall|t: Seq<char>| ws.to_set().contains(t) <==> vs.to_set().insert(
                x@,
            ).contains(t) by {
                if ws.contains(t) {
                    let k = choose|k: int| 0 <= k < ws.len() && ws[k] == t;
                    if k < lo {
                        assert(vs[k] == t);
                    } else if k > lo {
                        assert(vs[k - 1] == t);
                    }
                }
                if vs.contains(t) {
                    let k = choose|k: int| 0 <= k < vs.len() && vs[k] == t;
                    if k < lo {
                        assert(ws[k] == t);
                    } else {
                        assert(ws[k + 1] == t);
                    }
                }
                if t == x@ {
                    assert(ws[lo as int] == t);
                }
            }
        }
    }
}

} // verus!
