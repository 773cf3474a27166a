//! The order in which `String`s sort (character by character, a proper
//! prefix first), and sorted lists without repeats.
use vstd::prelude::*;

use crate::text::views;

verus! {

/// `a < b` in the order of `String::cmp` (code points compared one by one).
pub open spec fn lex_lt(a: Seq<char>, b: Seq<char>) -> bool
    decreases a.len(),
{
    if a.len() == 0 {
        b.len() > 0
    } else if b.len() == 0 {
        false
    } else if a[0] != b[0] {
        a[0] < b[0]
    } else {
        lex_lt(a.drop_first(), b.drop_first())
    }
}

pub proof fn lemma_lex_irreflexive(a: Seq<char>)
    ensures
        !lex_lt(a, a),
    decreases a.len(),
{
    if a.len() > 0 {
        lemma_lex_irreflexive(a.drop_first());
    }
}

pub proof fn lemma_lex_transitive(a: Seq<char>, b: Seq<char>, c: Seq<char>)
    requires
        lex_lt(a, b),
        lex_lt(b, c),
    ensures
        lex_lt(a, c),
    decreases a.len(),
{
    if a.len() > 0 && b.len() > 0 && c.len() > 0 {
        if a[0] == b[0] && b[0] == c[0] {
            lemma_lex_transitive(a.drop_first(), b.drop_first(), c.drop_first());
        }
    }
}

pub proof fn lemma_lex_total(a: Seq<char>, b: Seq<char>)
    ensures
        lex_lt(a, b) || lex_lt(b, a) || a == b,
    decreases a.len(),
{
    if a.len() > 0 && b.len() > 0 {
        if a[0] == b[0] {
            lemma_lex_total(a.drop_first(), b.drop_first());
            if a.drop_first() == b.drop_first() {
                assert(a =~= seq![a[0]] + a.drop_first());
                assert(b =~= seq![b[0]] + b.drop_first());
            }
        }
    } else if a.len() == 0 && b.len() == 0 {
        assert(a =~= b);
    }
}

/// Strictly increasing in `lex_lt`: sorted, nothing twice.
pub open spec fn strictly_sorted(s: Seq<Seq<char>>) -> bool {
    forall|i: int, j: int| 0 <= i < j < s.len() ==> lex_lt(#[trigger] s[i], #[trigger] s[j])
}

/// `r` is the sorted list, without repeats, of what `s` holds
/// (`sort` followed by `dedup`).
pub open spec fn sorted_distinct_of(r: Seq<Seq<char>>, s: Seq<Seq<char>>) -> bool {
    &&& strictly_sorted(r)
    &&& forall|x: Seq<char>| r.contains(x) <==> s.contains(x)
}

/// Strictly increasing in the order `lt`.
pub open spec fn strictly_sorted_by<A>(s: Seq<A>, lt: spec_fn(A, A) -> bool) -> bool {
    forall|i: int, j: int| 0 <= i < j < s.len() ==> lt(#[trigger] s[i], #[trigger] s[j])
}

/// `lt` is irreflexive and transitive.
pub open spec fn strict_order<A>(lt: spec_fn(A, A) -> bool) -> bool {
    &&& forall|a: A| !(#[trigger] lt(a, a))
    &&& forall|a: A, b: A, c: A| #[trigger] lt(a, b) && #[trigger] lt(b, c) ==> lt(a, c)
}

/// Two strictly sorted sequences that hold the same elements are equal.
pub proof fn lemma_sorted_unique<A>(r1: Seq<A>, r2: Seq<A>, lt: spec_fn(A, A) -> bool)
    requires
        strict_order(lt),
        strictly_sorted_by(r1, lt),
        strictly_sorted_by(r2, lt),
        forall|x: A| r1.contains(x) <==> r2.contains(x),
    ensures
        r1 == r2,
    decreases r1.len(),
{
    if r1.len() == 0 {
        if r2.len() > 0 {
            assert(r2.contains(r2[0]));
        }
        assert(r1 =~= r2);
    } else {
        assert(r1.contains(r1[0]));
        let j = choose|j: int| 0 <= j < r2.len() && r2[j] == r1[0];
        assert(r2.contains(r2[0]));
        let k = choose|k: int| 0 <= k < r1.len() && r1[k] == r2[0];
        if j > 0 {
            assert(lt(r2[0], r2[j]));
            if k > 0 {
                assert(lt(r1[0], r1[k]));
                assert(lt(r1[0], r1[0]));
            } else {
                assert(lt(r1[0], r1[0]));
            }
        }
        let t1 = r1.drop_first();
        let t2 = r2.drop_first();
        assert forall|x: A| t1.contains(x) <==> t2.contains(x) by {
            if t1.contains(x) {
                let a = choose|a: int| 0 <= a < t1.len() && t1[a] == x;
                assert(lt(r1[0], r1[a + 1]));
                assert(r1.contains(x));
                let b = choose|b: int| 0 <= b < r2.len() && r2[b] == x;
                if b == 0 {
                    assert(lt(x, x));
                }
                assert(t2[b - 1] == x);
            }
            if t2.contains(x) {
                let a = choose|a: int| 0 <= a < t2.len() && t2[a] == x;
                assert(lt(r2[0], r2[a + 1]));
                assert(r2.contains(x));
                let b = choose|b: int| 0 <= b < r1.len() && r1[b] == x;
                if b == 0 {
                    assert(lt(x, x));
                }
                assert(t1[b - 1] == x);
            }
        }
        assert(strictly_sorted_by(t1, lt)) by {
            assert forall|a: int, b: int| 0 <= a < b < t1.len() implies lt(#[trigger] t1[a], #[trigger] t1[b]) by {
                assert(lt(r1[a + 1], r1[b + 1]));
            }
        }
        assert(strictly_sorted_by(t2, lt)) by {
            assert forall|a: int, b: int| 0 <= a < b < t2.len() implies lt(#[trigger] t2[a], #[trigger] t2[b]) by {
                assert(lt(r2[a + 1], r2[b + 1]));
            }
        }
        lemma_sorted_unique(t1, t2, lt);
        assert(r1 =~= seq![r1[0]] + t1);
        assert(r2 =~= seq![r2[0]] + t2);
    }
}

pub open spec fn lex_order() -> spec_fn(Seq<char>, Seq<char>) -> bool {
    |a: Seq<char>, b: Seq<char>| lex_lt(a, b)
}

pub proof fn lemma_lex_strict_order()
    ensures
        strict_order(lex_order()),
{
    assert forall|a: Seq<char>| !(#[trigger] lex_order()(a, a)) by {
        lemma_lex_irreflexive(a);
    }
    assert forall|a: Seq<char>, b: Seq<char>, c: Seq<char>| #[trigger] lex_order()(a, b) && #[trigger] lex_order()(b, c) implies lex_order()(a, c) by {
        lemma_lex_transitive(a, b, c);
    }
}

/// The sorted list, without repeats, of what `s` holds.
pub open spec fn sorted_set(s: Seq<Seq<char>>) -> Seq<Seq<char>> {
    choose|r: Seq<Seq<char>>| sorted_distinct_of(r, s)
}

/// `sorted_distinct_of` pins its first argument down.
pub proof fn lemma_sorted_set(r: Seq<Seq<char>>, s: Seq<Seq<char>>)
    requires
        sorted_distinct_of(r, s),
    ensures
        r == sorted_set(s),
        sorted_distinct_of(sorted_set(s), s),
{
    let w = sorted_set(s);
    assert(sorted_distinct_of(w, s));
    lemma_lex_strict_order();
    assert(strictly_sorted_by(r, lex_order()));
    assert(strictly_sorted_by(w, lex_order()));
    lemma_sorted_unique(r, w, lex_order());
}

/// `a < b` for pairs of strings: by the first, then by the second (the
/// order that `derive(Ord)` gives a struct of two `String` fields).
pub open spec fn pair_lt(a: (Seq<char>, Seq<char>), b: (Seq<char>, Seq<char>)) -> bool {
    lex_lt(a.0, b.0) || (a.0 == b.0 && lex_lt(a.1, b.1))
}

pub open spec fn pair_order() -> spec_fn((Seq<char>, Seq<char>), (Seq<char>, Seq<char>)) -> bool {
    |a: (Seq<char>, Seq<char>), b: (Seq<char>, Seq<char>)| pair_lt(a, b)
}

pub proof fn lemma_pair_total(a: (Seq<char>, Seq<char>), b: (Seq<char>, Seq<char>))
    ensures
        pair_lt(a, b) || pair_lt(b, a) || a == b,
{
    lemma_lex_total(a.0, b.0);
    lemma_lex_total(a.1, b.1);
}

pub proof fn lemma_pair_transitive(a: (Seq<char>, Seq<char>), b: (Seq<char>, Seq<char>), c: (Seq<char>, Seq<char>))
    requires
        pair_lt(a, b),
        pair_lt(b, c),
    ensures
        pair_lt(a, c),
{
    if lex_lt(a.0, b.0) && lex_lt(b.0, c.0) {
        lemma_lex_transitive(a.0, b.0, c.0);
    }
    if a.0 == b.0 && b.0 == c.0 && lex_lt(a.1, b.1) && lex_lt(b.1, c.1) {
        lemma_lex_transitive(a.1, b.1, c.1);
    }
}

pub proof fn lemma_pair_strict_order()
    ensures
        strict_order(pair_order()),
{
    assert forall|a: (Seq<char>, Seq<char>)| !(#[trigger] pair_order()(a, a)) by {
        lemma_lex_irreflexive(a.0);
        lemma_lex_irreflexive(a.1);
    }
    assert forall|a: (Seq<char>, Seq<char>), b: (Seq<char>, Seq<char>), c: (Seq<char>, Seq<char>)|
        #[trigger] pair_order()(a, b) && #[trigger] pair_order()(b, c) implies pair_order()(a, c) by {
        lemma_pair_transitive(a, b, c);
    }
}

/// `r` is the sorted list, without repeats, of the pairs `s` holds.
pub open spec fn sorted_pairs_of(r: Seq<(Seq<char>, Seq<char>)>, s: Seq<(Seq<char>, Seq<char>)>) -> bool {
    &&& strictly_sorted_by(r, pair_order())
    &&& forall|x: (Seq<char>, Seq<char>)| r.contains(x) <==> s.contains(x)
}

/// The sorted list, without repeats, of the pairs `s` holds.
pub open spec fn sorted_pair_set(s: Seq<(Seq<char>, Seq<char>)>) -> Seq<(Seq<char>, Seq<char>)> {
    choose|r: Seq<(Seq<char>, Seq<char>)>| sorted_pairs_of(r, s)
}

/// `sorted_pairs_of` pins its first argument down.
pub proof fn lemma_sorted_pair_set(r: Seq<(Seq<char>, Seq<char>)>, s: Seq<(Seq<char>, Seq<char>)>)
    requires
        sorted_pairs_of(r, s),
    ensures
        r == sorted_pair_set(s),
        sorted_pairs_of(sorted_pair_set(s), s),
{
    let w = sorted_pair_set(s);
    assert(sorted_pairs_of(w, s));
    lemma_pair_strict_order();
    lemma_sorted_unique(r, w, pair_order());
}

/// `a < b` on strings.
pub fn lex_less(a: &Vec<char>, b: &Vec<char>) -> (r: bool)
    ensures
        r == lex_lt(a@, b@),
{
    let mut i: usize = 0;
    assert(a@.skip(0) =~= a@ && b@.skip(0) =~= b@);
    while i < a.len() && i < b.len() && a[i] == b[i]
        invariant
            i <= a.len(),
            i <= b.len(),
            a@.take(i as int) == b@.take(i as int),
            lex_lt(a@, b@) == lex_lt(a@.skip(i as int), b@.skip(i as int)),
        decreases a.len() - i,
    {
        proof {
            let sa = a@.skip(i as int);
            let sb = b@.skip(i as int);
            assert(sa.drop_first() =~= a@.skip(i + 1));
            assert(sb.drop_first() =~= b@.skip(i + 1));
            assert(a@.take(i + 1) =~= a@.take(i as int).push(a@[i as int]));
            assert(b@.take(i + 1) =~= b@.take(i as int).push(b@[i as int]));
        }
        i += 1;
    }
    let sa = Ghost(a@.skip(i as int));
    let sb = Ghost(b@.skip(i as int));
    if i == a.len() {
        assert(sa@.len() == 0);
        i < b.len()
    } else if i == b.len() {
        assert(sb@.len() == 0);
        false
    } else {
        assert(sa@[0] == a@[i as int]);
        assert(sb@[0] == b@[i as int]);
        a[i] < b[i]
    }
}

/// Sorts `v` and drops repeats.
pub fn sort_dedup(v: &Vec<Vec<char>>) -> (r: Vec<Vec<char>>)
    ensures
        sorted_distinct_of(views(r@), views(v@)),
        views(r@) == sorted_set(views(v@)),
{
    let mut r: Vec<Vec<char>> = Vec::new();
    let mut i: usize = 0;
    while i < v.len()
        invariant
            i <= v.len(),
            sorted_distinct_of(views(r@), views(v@).take(i as int)),
        decreases v.len() - i,
    {
        let x = &v[i];
        let ghost old_r = views(r@);
        // position of the first element that is not below `x`
        let mut k: usize = 0;
        while k < r.len() && lex_less(&r[k], x)
            invariant
                k <= r.len(),
                views(r@) == old_r,
                forall|j: int| 0 <= j < k ==> lex_lt(#[trigger] old_r[j], x@),
            decreases r.len() - k,
        {
            k += 1;
        }
        let dup = k < r.len() && crate::text::eq_chars(&r[k], x);
        proof {
            assert(views(v@).take(i + 1) =~= views(v@).take(i as int).push(x@));
        }
        if !dup {
            proof {
                if k < r.len() {
                    lemma_lex_total(old_r[k as int], x@);
                }
            }
            r.insert(k, x.clone());
            proof {
                let nr = views(r@);
                assert(nr =~= old_r.insert(k as int, x@));
                assert forall|a: int, b: int| 0 <= a < b < nr.len() implies lex_lt(
                    #[trigger] nr[a],
                    #[trigger] nr[b],
                ) by {
                    if b < k {
                    } else if b == k {
                    } else if a < k {
                        // a < k < b: old_r[a] < x < old_r[b - 1]
                        if k < old_r.len() {
                            lemma_lex_transitive(old_r[a], x@, old_r[k as int]);
                            if b - 1 > k {
                                lemma_lex_transitive(old_r[a], old_r[k as int], old_r[b - 1]);
                            }
                        }
                    } else if a == k {
                        if b - 1 > k {
                            lemma_lex_transitive(x@, old_r[k as int], old_r[b - 1]);
                        }
                    } else {
                    }
                }
                assert forall|y: Seq<char>| nr.contains(y) <==> views(v@).take(i + 1).contains(
                    y,
                ) by {
                    if nr.contains(y) {
                        let j = choose|j: int| 0 <= j < nr.len() && nr[j] == y;
                        if j < k {
                            assert(old_r.contains(old_r[j]));
                        } else if j > k {
                            assert(old_r.contains(old_r[j - 1]));
                        } else {
                            assert(views(v@).take(i + 1)[i as int] == x@);
                        }
                    }
                    if views(v@).take(i + 1).contains(y) {
                        let j = choose|j: int| 0 <= j < i + 1 && #[trigger] views(v@).take(i + 1)[j] == y;
                        if j < i {
                            assert(views(v@).take(i as int)[j] == y);
                            assert(old_r.contains(y));
                            let m = choose|m: int| 0 <= m < old_r.len() && old_r[m] == y;
                            if m < k {
                                assert(nr[m] == y);
                            } else {
                                assert(nr[m + 1] == y);
                            }
                        } else {
                            assert(nr[k as int] == x@);
                        }
                    }
                }
            }
        } else {
            proof {
                let nr = views(r@);
                assert forall|y: Seq<char>| nr.contains(y) <==> views(v@).take(i + 1).contains(
                    y,
                ) by {
                    if nr.contains(y) {
                        let j = choose|j: int| 0 <= j < nr.len() && nr[j] == y;
                        assert(views(v@).take(i as int).contains(y));
                        let m = choose|m: int| 0 <= m < i && #[trigger] views(v@).take(i as int)[m] == y;
                        assert(views(v@).take(i + 1)[m] == y);
                    }
                    if views(v@).take(i + 1).contains(y) {
                        let j = choose|j: int| 0 <= j < i + 1 && #[trigger] views(v@).take(i + 1)[j] == y;
                        if j < i {
                            assert(views(v@).take(i as int)[j] == y);
                        } else {
                            assert(nr[k as int] == x@);
                        }
                    }
                }
            }
        }
        i += 1;
    }
    assert(views(v@).take(v@.len() as int) =~= views(v@));
    proof {
        lemma_sorted_set(views(r@), views(v@));
    }
    r
}

} // verus!
