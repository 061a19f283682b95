//! Sets of names kept as strictly ascending sequences.
use vstd::prelude::*;

verus! {

/// Lexicographic order on strings by code point, the order `String`'s `Ord`
/// gives (UTF-8 keeps code point order byte by byte).
pub open spec fn lex_lt(a: Seq<char>, b: Seq<char>) -> bool
    decreases a.len(),
{
    if a.len() == 0 {
        b.len() > 0
    } else if b.len() == 0 {
        false
    } else if a[0] != b[0] {
        a[0] < b[0]
    } else {
        lex_lt(a.drop_first(), b.drop_first())
    }
}

/// Nothing comes before itself.
pub proof fn lemma_lex_irreflexive(a: Seq<char>)
    ensures
        !lex_lt(a, a),
    decreases a.len(),
{
    if a.len() > 0 {
        lemma_lex_irreflexive(a.drop_first());
    }
}

/// The order is transitive.
pub proof fn lemma_lex_transitive(a: Seq<char>, b: Seq<char>, c: Seq<char>)
    requires
        lex_lt(a, b),
        lex_lt(b, c),
    ensures
        lex_lt(a, c),
    decreases a.len(),
{
    if a.len() > 0 && b.len() > 0 && c.len() > 0 && a[0] == b[0] && b[0] == c[0] {
        lemma_lex_transitive(a.drop_first(), b.drop_first(), c.drop_first());
    }
}

/// Of two different strings, one comes first.
pub proof fn lemma_lex_total(a: Seq<char>, b: Seq<char>)
    requires
        a != b,
    ensures
        lex_lt(a, b) || lex_lt(b, a),
    decreases a.len(),
{
    if a.len() > 0 && b.len() > 0 && a[0] == b[0] {
        if a.drop_first() == b.drop_first() {
            assert(a =~= seq![a[0]] + a.drop_first());
            assert(b =~= seq![b[0]] + b.drop_first());
        }
        lemma_lex_total(a.drop_first(), b.drop_first());
    } else if a.len() == 0 && b.len() == 0 {
        assert(a =~= b);
    }
}

/// Of two strings, at most one comes first.
pub proof fn lemma_lex_asymmetric(a: Seq<char>, b: Seq<char>)
    requires
        lex_lt(a, b),
    ensures
        !lex_lt(b, a),
{
    if lex_lt(b, a) {
        lemma_lex_transitive(a, b, a);
        lemma_lex_irreflexive(a);
    }
}

/// Every element is below every later one.
pub open spec fn strictly_sorted(s: Seq<Seq<char>>) -> bool {
    forall|i: int, j: int| 0 <= i < j < s.len() ==> lex_lt(#[trigger] s[i], #[trigger] s[j])
}

/// Two strictly ascending sequences with the same elements are equal.
pub proof fn lemma_sorted_unique(r1: Seq<Seq<char>>, r2: Seq<Seq<char>>)
    requires
        strictly_sorted(r1),
        strictly_sorted(r2),
        forall|y: Seq<char>| r1.contains(y) <==> r2.contains(y),
    ensures
        r1 == r2,
    decreases r1.len(),
{
    if r1.len() == 0 {
        if r2.len() > 0 {
            assert(r2.contains(r2[0]));
        }
        assert(r1 =~= r2);
    } else {
        assert(r1.contains(r1[0]));
        let k = choose|k: int| 0 <= k < r2.len() && r2[k] == r1[0];
        assert(r2.contains(r2[0]));
        let m = choose|m: int| 0 <= m < r1.len() && r1[m] == r2[0];
        if r1[0] != r2[0] {
            assert(m > 0 && k > 0);
            assert(lex_lt(r1[0], r1[m]));
            assert(lex_lt(r2[0], r2[k]));
            lemma_lex_asymmetric(r1[0], r2[0]);
        }
        let t1 = r1.drop_first();
        let t2 = r2.drop_first();
        assert forall|y: Seq<char>| t1.contains(y) <==> t2.contains(y) by {
            if t1.contains(y) {
                let i = choose|i: int| 0 <= i < t1.len() && t1[i] == y;
                assert(lex_lt(r1[0], r1[i + 1]));
                lemma_lex_irreflexive(y);
                assert(r1.contains(y));
                let j = choose|j: int| 0 <= j < r2.len() && r2[j] == y;
                assert(j != 0);
                assert(t2[j - 1] == y);
            }
            if t2.contains(y) {
                let i = choose|i: int| 0 <= i < t2.len() && t2[i] == y;
                assert(lex_lt(r2[0], r2[i + 1]));
                lemma_lex_irreflexive(y);
                assert(r2.contains(y));
                let j = choose|j: int| 0 <= j < r1.len() && r1[j] == y;
                assert(j != 0);
                assert(t1[j - 1] == y);
            }
        }
        lemma_sorted_unique(t1, t2);
        assert(r1 =~= seq![r1[0]] + t1);
        assert(r2 =~= seq![r2[0]] + t2);
    }
}

/// Whether `a` comes before `b`.
pub fn lex_less(a: &[char], b: &[char]) -> (r: bool)
    ensures
        r == lex_lt(a@, b@),
{
    let mut i: usize = 0;
    proof {
        assert(a@.skip(0) =~= a@);
        assert(b@.skip(0) =~= b@);
    }
    while i < a.len() && i < b.len() && a[i] == b[i]
        invariant
            i <= a@.len(),
            i <= b@.len(),
            lex_lt(a@, b@) == lex_lt(a@.skip(i as int), b@.skip(i as int)),
        decreases a@.len() - i,
    {
        proof {
            assert(a@.skip(i as int).drop_first() =~= a@.skip(i + 1));
            assert(b@.skip(i as int).drop_first() =~= b@.skip(i + 1));
        }
        i = i + 1;
    }
    if i == a.len() {
        i < b.len()
    } else if i == b.len() {
        false
    } else {
        proof {
            assert(a@.skip(i as int)[0] == a@[i as int]);
            assert(b@.skip(i as int)[0] == b@[i as int]);
        }
        a[i] < b[i]
    }
}

/// Adds `x` to the ascending set `v`, keeping it strictly ascending.
///
/// The names are kept in a sorted vector rather than a `BTreeSet<String>`:
/// vstd gives `BTreeSet`'s operations a meaning only for keys whose `Ord`
/// obeys its ordering laws, and it states no such law for `String`, so
/// nothing could be proved of a set of strings.
pub fn insert_sorted(v: &mut Vec<Vec<char>>, x: Vec<char>)
    requires
        strictly_sorted(old(v).deep_view()),
    ensures
        strictly_sorted(final(v).deep_view()),
        forall|y: Seq<char>|
            final(v).deep_view().contains(y) <==> (old(v).deep_view().contains(y) || y == x@),
{
    let ghost old_v = v.deep_view();
    let mut p: usize = 0;
    while p < v.len() && lex_less(&v[p], &x)
        invariant
            p <= v@.len(),
            old_v == v.deep_view(),
            strictly_sorted(old_v),
            forall|k: int| 0 <= k < p ==> lex_lt(#[trigger] old_v[k], x@),
        decreases v@.len() - p,
    {
        proof {
            assert(old_v[p as int] == v@[p as int]@);
        }
        p = p + 1;
    }
    if p < v.len() && crate::text::same_chars(&v[p], &x) {
        proof {
            assert(old_v[p as int] == v@[p as int]@);
            assert forall|y: Seq<char>| old_v.contains(y) || y == x@ implies old_v.contains(y) by {
                if y == x@ {
                    assert(old_v[p as int] == y);
                }
            }
        }
        return;
    }
    proof {
        if p < v@.len() {
            assert(old_v[p as int] == v@[p as int]@);
            lemma_lex_total(old_v[p as int], x@);
            assert forall|k: int| p <= k < old_v.len() implies lex_lt(x@, #[trigger] old_v[k]) by {
                if k > p {
                    lemma_lex_transitive(x@, old_v[p as int], old_v[k]);
                }
            }
        }
    }
    let ghost xv = x@;
    v.insert(p, x);
    proof {
        let nv = old_v.insert(p as int, xv);
        assert(v.deep_view() =~= nv) by {
            assert forall|k: int| 0 <= k < nv.len() implies v.deep_view()[k] == nv[k] by {
                if k < p {
                    assert(v@[k] == old(v)@[k]);
                } else if k == p {
                } else {
                    assert(v@[k] == old(v)@[k - 1]);
                }
            }
        }
        assert forall|i: int, j: int| 0 <= i < j < nv.len() implies lex_lt(
            #[trigger] nv[i],
            #[trigger] nv[j],
        ) by {
            if j < p {
            } else if j == p {
            } else if i < p {
                assert(nv[j] == old_v[j - 1]);
                if p < old_v.len() {
                    lemma_lex_transitive(nv[i], xv, old_v[j - 1]);
                }
            } else if i == p {
            } else {
                assert(nv[i] == old_v[i - 1]);
                assert(nv[j] == old_v[j - 1]);
            }
        }
        assert forall|y: Seq<char>| nv.contains(y) <==> (old_v.contains(y) || y == xv) by {
            if nv.contains(y) {
                let k = choose|k: int| 0 <= k < nv.len() && nv[k] == y;
                if k < p {
                    assert(old_v[k] == y);
                } else if k > p {
                    assert(old_v[k - 1] == y);
                }
            }
            if old_v.contains(y) {
                let k = choose|k: int| 0 <= k < old_v.len() && old_v[k] == y;
                if k < p {
                    assert(nv[k] == y);
                } else {
                    assert(nv[k + 1] == y);
                }
            }
            if y == xv {
                assert(nv[p as int] == y);
            }
        }
    }
}

} // verus!
