//! Sorting of keyed items. Night ordering and room ordering both sort a
//! list by an integer key, breaking ties by the item's place in the input,
//! so one routine sorts pairs of a key and a tie-breaking index.

use vstd::prelude::*;
use vstd::multiset::Multiset;
use vstd::relations::total_ordering;
use vstd::seq_lib::lemma_sorted_unique;

verus! {

broadcast use vstd::seq_lib::group_to_multiset_ensures, vstd::multiset::group_multiset_axioms;

/// Order on (key, tie-break index) pairs: by key first, then by index.
pub open spec fn pair_le(a: (i64, usize), b: (i64, usize)) -> bool {
    a.0 < b.0 || (a.0 == b.0 && a.1 <= b.1)
}

/// The sequence is ascending under `pair_le`.
pub open spec fn pairs_sorted(s: Seq<(i64, usize)>) -> bool {
    forall|i: int, j: int| 0 <= i < j < s.len() ==> #[trigger] pair_le(s[i], s[j])
}

/// `pair_le`, read through any pointwise-equal relation, is a total order.
proof fn lemma_pair_le_total(leq: spec_fn((i64, usize), (i64, usize)) -> bool)
    requires
        forall|a: (i64, usize), b: (i64, usize)| #[trigger] leq(a, b) == pair_le(a, b),
    ensures
        total_ordering(leq),
{
    assert forall|a: (i64, usize), b: (i64, usize)| #[trigger]
        leq(a, b) && #[trigger] leq(b, a) implies a == b by {
        assert(a.0 == b.0 && a.1 == b.1);
    }
    assert forall|a: (i64, usize), b: (i64, usize)| #[trigger]
        leq(a, b) || #[trigger] leq(b, a) by {
        if !pair_le(a, b) {
            assert(pair_le(b, a));
        }
    }
}

/// Two sorted sequences of the same pairs are the same sequence: `pair_le`
/// is a total order, so sorting is unique.
pub proof fn lemma_pairs_sorted_unique(x: Seq<(i64, usize)>, y: Seq<(i64, usize)>)
    requires
        pairs_sorted(x),
        pairs_sorted(y),
        x.to_multiset() == y.to_multiset(),
    ensures
        x == y,
{
    let leq = |a: (i64, usize), b: (i64, usize)| pair_le(a, b);
    lemma_pair_le_total(leq);
    lemma_sorted_unique(x, y, leq);
    assert(x =~= y);
}

/// The `pair_le`-sorted arrangement of the pairs of `s` — unique by
/// `lemma_pairs_sorted_unique`.
pub open spec fn sorted_version(s: Seq<(i64, usize)>) -> Seq<(i64, usize)> {
    choose|t: Seq<(i64, usize)>|
        #![auto]
        t.to_multiset() == s.to_multiset() && pairs_sorted(t)
}

/// A sorted arrangement always exists, so `sorted_version` is one: it holds
/// the same pairs and is sorted.
pub proof fn lemma_sorted_version_props(s: Seq<(i64, usize)>)
    ensures
        sorted_version(s).to_multiset() == s.to_multiset(),
        pairs_sorted(sorted_version(s)),
        sorted_version(s).len() == s.len(),
{
    let leq = |a: (i64, usize), b: (i64, usize)| pair_le(a, b);
    lemma_pair_le_total(leq);
    s.lemma_sort_by_ensures(leq);
    let t = s.sort_by(leq);
    assert(pairs_sorted(t)) by {
        assert(vstd::relations::sorted_by(t, leq));
        assert forall|i: int, j: int| 0 <= i < j < t.len() implies #[trigger] pair_le(
            t[i],
            t[j],
        ) by {
            assert(leq(t[i], t[j]));
        }
    }
    assert(t.to_multiset() == s.to_multiset() && pairs_sorted(t));
    assert(sorted_version(s).to_multiset() == s.to_multiset() && pairs_sorted(sorted_version(s)));
    assert(sorted_version(s).len() == sorted_version(s).to_multiset().len());
    assert(s.len() == s.to_multiset().len());
}

/// Every pair of a permutation occurs somewhere in the other arrangement.
pub proof fn lemma_permutation_membership(x: Seq<(i64, usize)>, y: Seq<(i64, usize)>)
    requires
        x.to_multiset() == y.to_multiset(),
    ensures
        forall|k: int| 0 <= k < x.len() ==> y.contains(#[trigger] x[k]),
{
    assert forall|k: int| 0 <= k < x.len() implies y.contains(#[trigger] x[k]) by {
        assert(x.contains(x[k]));
        assert(x.to_multiset().count(x[k]) > 0);
        assert(y.to_multiset().count(x[k]) > 0);
    }
}

/// Sorts the pairs ascending by key, ties by tie-break index. The result is
/// the unique `pair_le`-sorted arrangement of the input.
pub fn sort_pairs(v: &Vec<(i64, usize)>) -> (r: Vec<(i64, usize)>)
    ensures
        r@ == sorted_version(v@),
        r@.to_multiset() == v@.to_multiset(),
        pairs_sorted(r@),
        r@.len() == v@.len(),
{
    let mut rest: Vec<(i64, usize)> = Vec::new();
    let mut t: usize = 0;
    while t < v.len()
        invariant
            t <= v@.len(),
            rest@ == v@.take(t as int),
        decreases v@.len() - t,
    {
        rest.push(v[t]);
        proof {
            assert(v@.take(t as int).push(v@[t as int]) =~= v@.take(t + 1));
        }
        t = t + 1;
    }
    proof {
        assert(v@.take(v@.len() as int) =~= v@);
    }
    let mut out: Vec<(i64, usize)> = Vec::new();
    proof {
        assert(out@.to_multiset().add(rest@.to_multiset()) =~= v@.to_multiset());
    }
    while rest.len() > 0
        invariant
            out@.to_multiset().add(rest@.to_multiset()) == v@.to_multiset(),
            out@.len() + rest@.len() == v@.len(),
            pairs_sorted(out@),
            forall|i: int, j: int|
                0 <= i < out@.len() && 0 <= j < rest@.len() ==> #[trigger] pair_le(
                    out@[i],
                    rest@[j],
                ),
        decreases rest.len(),
    {
        let n = rest.len();
        let mut m: usize = 0;
        let mut j: usize = 1;
        while j < n
            invariant
                m < j <= n,
                n == rest@.len(),
                forall|k: int| 0 <= k < j ==> #[trigger] pair_le(rest@[m as int], rest@[k]),
            decreases n - j,
        {
            let a = rest[j];
            let b = rest[m];
            if a.0 < b.0 || (a.0 == b.0 && a.1 < b.1) {
                proof {
                    assert forall|k: int| 0 <= k < j implies #[trigger] pair_le(
                        rest@[j as int],
                        rest@[k],
                    ) by {
                        assert(pair_le(rest@[m as int], rest@[k]));
                    }
                }
                m = j;
            } else {
                assert(pair_le(rest@[m as int], rest@[j as int]));
            }
            j = j + 1;
        }
        let ghost old_rest = rest@;
        let ghost old_out = out@;
        let x = rest.remove(m);
        out.push(x);
        proof {
            assert(old_rest.remove(m as int).to_multiset() == old_rest.to_multiset().remove(x));
            assert(old_out.push(x).to_multiset() == old_out.to_multiset().insert(x));
            assert(out@.to_multiset().add(rest@.to_multiset()) =~= v@.to_multiset());
            assert forall|i: int, j2: int|
                0 <= i < out@.len() && 0 <= j2 < rest@.len() implies #[trigger] pair_le(
                out@[i],
                rest@[j2],
            ) by {
                let y = rest@[j2];
                if j2 < m {
                    assert(y == old_rest[j2]);
                } else {
                    assert(y == old_rest[j2 + 1]);
                }
                if i < old_out.len() {
                    assert(pair_le(old_out[i], y));
                } else {
                    assert(out@[i] == x);
                    assert(pair_le(x, y));
                }
            }
            assert(pairs_sorted(out@)) by {
                assert forall|i: int, j2: int|
                    0 <= i < j2 < out@.len() implies #[trigger] pair_le(out@[i], out@[j2]) by {
                    if j2 < out@.len() - 1 {
                        assert(pair_le(old_out[i], old_out[j2]));
                    } else {
                        assert(out@[j2] == x);
                        assert(old_rest.to_multiset().contains(x));
                        assert(old_rest.contains(x));
                        let w = choose|w: int| 0 <= w < old_rest.len() && old_rest[w] == x;
                        assert(pair_le(old_out[i], old_rest[w]));
                    }
                }
            }
        }
    }
    proof {
        assert(rest@.to_multiset() =~= Multiset::<(i64, usize)>::empty());
        assert(out@.to_multiset() =~= v@.to_multiset());
        lemma_sorted_version_props(v@);
        lemma_pairs_sorted_unique(out@, sorted_version(v@));
    }
    out
}

} // verus!
