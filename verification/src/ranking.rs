//! Stable orderings of positions by an integer key.
//!
//! A *ranking* of a key sequence lists every position exactly once, ordered by
//! key and, among equal keys, by position: exactly what a stable sort by that
//! key produces. The ranking of a key sequence is unique.
use vstd::prelude::*;

verus! {

/// Position `i` comes before position `j`: smaller key, or equal key and
/// smaller position.
pub open spec fn precedes(key: Seq<int>, i: int, j: int) -> bool {
    key[i] < key[j] || (key[i] == key[j] && i < j)
}

/// `p` lists each position of `key` once, in the order of `precedes`.
pub open spec fn is_ranking(key: Seq<int>, p: Seq<int>) -> bool {
    &&& p.len() == key.len()
    &&& forall|k: int| 0 <= k < p.len() ==> 0 <= #[trigger] p[k] < key.len()
    &&& forall|i: int| 0 <= i < key.len() ==> #[trigger] p.contains(i)
    &&& forall|k: int, l: int|
        0 <= k < l < p.len() ==> precedes(key, #[trigger] p[k], #[trigger] p[l])
}

/// The stable ascending order of the positions of `key`.
pub open spec fn ranking(key: Seq<int>) -> Seq<int> {
    choose|p: Seq<int>| is_ranking(key, p)
}

/// Keys of a `usize` sequence, negated when the order is descending.
pub open spec fn signed_keys(key: Seq<usize>, descending: bool) -> Seq<int> {
    Seq::new(key.len(), |i: int| if descending { -(key[i] as int) } else { key[i] as int })
}

/// A sequence of positions as integers.
pub open spec fn as_ints(p: Seq<usize>) -> Seq<int> {
    Seq::new(p.len(), |i: int| p[i] as int)
}

proof fn lemma_rankings_agree_upto(key: Seq<int>, p1: Seq<int>, p2: Seq<int>, k: int)
    requires
        is_ranking(key, p1),
        is_ranking(key, p2),
        0 <= k <= p1.len(),
    ensures
        forall|j: int| 0 <= j < k ==> p1[j] == p2[j],
    decreases k,
{
    if k > 0 {
        lemma_rankings_agree_upto(key, p1, p2, k - 1);
        let a = p1[k - 1];
        let b = p2[k - 1];
        if a != b {
            assert(p2.contains(a));
            let m2 = choose|m: int| 0 <= m < p2.len() && p2[m] == a;
            assert(p1.contains(b));
            let m1 = choose|m: int| 0 <= m < p1.len() && p1[m] == b;
            if m2 < k - 1 {
                assert(p1[m2] == a);
                assert(precedes(key, p1[m2], p1[k - 1]));
            }
            if m1 < k - 1 {
                assert(p2[m1] == b);
                assert(precedes(key, p2[m1], p2[k - 1]));
            }
            assert(precedes(key, p2[k - 1], p2[m2]));
            assert(precedes(key, p1[k - 1], p1[m1]));
        }
    }
}

/// A key sequence has only one ranking.
pub proof fn lemma_ranking_unique(key: Seq<int>, p1: Seq<int>, p2: Seq<int>)
    requires
        is_ranking(key, p1),
        is_ranking(key, p2),
    ensures
        p1 == p2,
{
    lemma_rankings_agree_upto(key, p1, p2, p1.len() as int);
    assert(p1 =~= p2);
}

/// The ranking of a key sequence exists and is the one that `choose` picks.
pub proof fn lemma_ranking_is(key: Seq<int>, p: Seq<int>)
    requires
        is_ranking(key, p),
    ensures
        ranking(key) == p,
{
    lemma_ranking_unique(key, ranking(key), p);
}

/// Position in `p`, from `k` on, of the first entry whose key is over `x`
/// (the length of `p` when there is none).
spec fn first_over(key: Seq<int>, p: Seq<int>, x: int, k: int) -> int
    decreases p.len() - k,
{
    if k >= p.len() || k < 0 {
        p.len() as int
    } else if key[p[k]] > x {
        k
    } else {
        first_over(key, p, x, k + 1)
    }
}

proof fn lemma_first_over(key: Seq<int>, p: Seq<int>, x: int, k: int)
    requires
        0 <= k <= p.len(),
        forall|j: int| 0 <= j < p.len() ==> 0 <= #[trigger] p[j] < key.len(),
    ensures
        k <= first_over(key, p, x, k) <= p.len(),
        forall|j: int| k <= j < first_over(key, p, x, k) ==> key[#[trigger] p[j]] <= x,
        first_over(key, p, x, k) < p.len() ==> key[p[first_over(key, p, x, k)]] > x,
    decreases p.len() - k,
{
    if k < p.len() && key[p[k]] <= x {
        lemma_first_over(key, p, x, k + 1);
    }
}

/// Every key sequence has a ranking, so `ranking` gives one.
pub proof fn lemma_ranking_exists(key: Seq<int>)
    ensures
        is_ranking(key, ranking(key)),
    decreases key.len(),
{
    if key.len() == 0 {
        let p = Seq::<int>::empty();
        assert(is_ranking(key, p));
    } else {
        let n = key.len() - 1;
        let k0 = key.take(n);
        lemma_ranking_exists(k0);
        let p0 = ranking(k0);
        let x = key[n];
        lemma_first_over(k0, p0, x, 0);
        let m = first_over(k0, p0, x, 0);
        let p = p0.insert(m, n);
        assert forall|k: int| 0 <= k < p.len() implies 0 <= #[trigger] p[k] < key.len() by {
            if k < m {
                assert(p[k] == p0[k]);
            } else if k > m {
                assert(p[k] == p0[k - 1]);
            }
        }
        assert forall|i: int| 0 <= i < key.len() implies #[trigger] p.contains(i) by {
            if i == n {
                assert(p[m] == n);
            } else {
                assert(p0.contains(i));
                let j = choose|j: int| 0 <= j < p0.len() && p0[j] == i;
                if j < m {
                    assert(p[j] == i);
                } else {
                    assert(p[j + 1] == i);
                }
            }
        }
        assert forall|k: int, l: int| 0 <= k < l < p.len() implies precedes(key, #[trigger] p[k], #[trigger] p[l]) by {
            if k < m && l < m {
                assert(p[k] == p0[k] && p[l] == p0[l]);
                assert(precedes(k0, p0[k], p0[l]));
            } else if k < m && l == m {
                assert(p[k] == p0[k]);
                assert(k0[p0[k]] <= x);
            } else if k < m && l > m {
                assert(p[k] == p0[k] && p[l] == p0[l - 1]);
                assert(precedes(k0, p0[k], p0[l - 1]));
            } else if k == m {
                assert(p[l] == p0[l - 1]);
                if l - 1 > m {
                    assert(precedes(k0, p0[m], p0[l - 1]));
                }
                assert(k0[p0[l - 1]] > x);
            } else {
                assert(p[k] == p0[k - 1] && p[l] == p0[l - 1]);
                assert(precedes(k0, p0[k - 1], p0[l - 1]));
            }
        }
        assert(is_ranking(key, p));
        lemma_ranking_is(key, p);
    }
}

/// Whether a key `k` is ordered strictly after the key `ki`.
fn ranks_later(k: usize, ki: usize, descending: bool) -> (r: bool)
    ensures
        r == (if descending { -(k as int) > -(ki as int) } else { k as int > ki as int }),
{
    if descending {
        k < ki
    } else {
        k > ki
    }
}

/// Stable sort of the positions of `key`, ascending or descending by key.
pub fn rank(key: &Vec<usize>, descending: bool) -> (p: Vec<usize>)
    ensures
        as_ints(p@) == ranking(signed_keys(key@, descending)),
        is_ranking(signed_keys(key@, descending), as_ints(p@)),
{
    let ghost sk = signed_keys(key@, descending);
    let n = key.len();
    let mut p: Vec<usize> = Vec::new();
    for i in 0..n
        invariant
            n == key.len(),
            sk == signed_keys(key@, descending),
            p.len() == i,
            forall|k: int| 0 <= k < p.len() ==> p[k] < i,
            forall|j: int| 0 <= j < i ==> #[trigger] as_ints(p@).contains(j),
            forall|k: int, l: int|
                0 <= k < l < p.len() ==> precedes(sk, #[trigger] p[k] as int, #[trigger] p[l] as int),
    {
        let ki = key[i];
        let mut pos: usize = 0;
        while pos < p.len() && !ranks_later(key[p[pos]], ki, descending)
            invariant
                n == key.len(),
                i < n,
                ki == key[i as int],
                sk == signed_keys(key@, descending),
                pos <= p.len(),
                forall|k: int| 0 <= k < p.len() ==> p[k] < i,
                forall|k: int| 0 <= k < pos ==> sk[#[trigger] p[k] as int] <= sk[i as int],
            decreases p.len() - pos,
        {
            pos = pos + 1;
        }
        let ghost old_p = p@;
        proof {
            if pos < p.len() {
                assert(sk[p[pos as int] as int] > sk[i as int]);
            }
        }
        p.insert(pos, i);
        proof {
            assert(p@ == old_p.insert(pos as int, i));
            assert forall|k: int, l: int| 0 <= k < l < p.len() implies precedes(
                sk,
                #[trigger] p[k] as int,
                #[trigger] p[l] as int,
            ) by {
                if k < pos && l < pos {
                    assert(p[k] == old_p[k] && p[l] == old_p[l]);
                } else if k < pos && l == pos {
                    assert(p[k] == old_p[k]);
                    assert(sk[old_p[k] as int] <= sk[i as int]);
                } else if k < pos {
                    assert(p[k] == old_p[k] && p[l] == old_p[l - 1]);
                } else if k == pos {
                    assert(p[l] == old_p[l - 1]);
                    assert(sk[old_p[pos as int] as int] > sk[i as int]);
                    if l - 1 > pos {
                        assert(precedes(sk, old_p[pos as int] as int, old_p[l - 1] as int));
                    }
                } else {
                    assert(p[k] == old_p[k - 1] && p[l] == old_p[l - 1]);
                }
            }
            assert forall|j: int| 0 <= j < i + 1 implies #[trigger] as_ints(p@).contains(j) by {
                if j == i {
                    assert(as_ints(p@)[pos as int] == j);
                } else {
                    assert(as_ints(old_p).contains(j));
                    let m = choose|m: int| 0 <= m < old_p.len() && as_ints(old_p)[m] == j;
                    if m < pos {
                        assert(as_ints(p@)[m] == j);
                    } else {
                        assert(as_ints(p@)[m + 1] == j);
                    }
                }
            }
        }
    }
    proof {
        let q = as_ints(p@);
        assert(is_ranking(sk, q)) by {
            assert forall|k: int, l: int| 0 <= k < l < q.len() implies precedes(
                sk,
                #[trigger] q[k],
                #[trigger] q[l],
            ) by {
                assert(precedes(sk, p[k] as int, p[l] as int));
            }
        }
        lemma_ranking_is(sk, q);
    }
    p
}

} // verus!
