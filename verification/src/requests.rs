//! Choosing which pages to decode around the page on screen.
use vstd::prelude::*;

use crate::cache::PageKey;
use crate::ranking::{as_ints, is_ranking, rank, ranking, signed_keys};

verus! {

broadcast use vstd::seq_lib::group_seq_properties;

/// Pages chosen for decoding, walking `cands` in order: the walk stops once
/// `busy` holds `cap` pages (when there is a cap); a page that is neither
/// `loaded` nor `busy` is chosen, and becomes busy.
pub open spec fn select_requests(
    cands: Seq<PageKey>,
    loaded: Seq<PageKey>,
    busy: Seq<PageKey>,
    cap: Option<nat>,
) -> Seq<PageKey>
    decreases cands.len(),
{
    if cands.len() == 0 {
        Seq::empty()
    } else if cap matches Some(c) && busy.len() >= c {
        Seq::empty()
    } else if !loaded.contains(cands[0]) && !busy.contains(cands[0]) {
        seq![cands[0]] + select_requests(cands.drop_first(), loaded, busy.push(cands[0]), cap)
    } else {
        select_requests(cands.drop_first(), loaded, busy, cap)
    }
}

/// Selection asks for no page that is shown or already being decoded, asks
/// for each page once, and, with a cap, leaves no more pages in flight than
/// the cap or than there were before.
pub proof fn lemma_select_requests_fresh(
    cands: Seq<PageKey>,
    loaded: Seq<PageKey>,
    busy: Seq<PageKey>,
    cap: Option<nat>,
)
    requires
        busy.no_duplicates(),
    ensures
        forall|k: PageKey|
            #[trigger] select_requests(cands, loaded, busy, cap).contains(k) ==> !loaded.contains(k)
                && !busy.contains(k),
        (busy + select_requests(cands, loaded, busy, cap)).no_duplicates(),
        cap matches Some(c) ==> (busy + select_requests(cands, loaded, busy, cap)).len() <= (if busy.len()
            > c {
            busy.len()
        } else {
            c
        }),
    decreases cands.len(),
{
    let sel = select_requests(cands, loaded, busy, cap);
    if cands.len() == 0 || (cap matches Some(c) && busy.len() >= c) {
        assert(busy + sel =~= busy);
    } else if !loaded.contains(cands[0]) && !busy.contains(cands[0]) {
        let x = cands[0];
        let b2 = busy.push(x);
        assert(b2.no_duplicates()) by {
            assert forall|a: int, b: int| 0 <= a < b < b2.len() implies b2[a] != b2[b] by {
                if b == busy.len() {
                    assert(busy.contains(b2[a]) || a >= busy.len());
                }
            }
        }
        lemma_select_requests_fresh(cands.drop_first(), loaded, b2, cap);
        let rest = select_requests(cands.drop_first(), loaded, b2, cap);
        assert(sel == seq![x] + rest);
        assert(busy + sel =~= b2 + rest);
        assert forall|k: PageKey| #[trigger] sel.contains(k) implies !loaded.contains(k) && !busy.contains(k) by {
            let j = choose|j: int| 0 <= j < sel.len() && sel[j] == k;
            if j > 0 {
                assert(rest[j - 1] == k);
                assert(rest.contains(k));
                if busy.contains(k) {
                    let q = choose|q: int| 0 <= q < busy.len() && busy[q] == k;
                    assert(b2[q] == k);
                }
            }
        }
    } else {
        lemma_select_requests_fresh(cands.drop_first(), loaded, busy, cap);
    }
}

/// Whether `v` holds `k`.
pub fn contains_key(v: &Vec<PageKey>, k: &PageKey) -> (b: bool)
    ensures
        b == v@.contains(*k),
{
    let n = v.len();
    for i in 0..n
        invariant
            n == v@.len(),
            forall|j: int| 0 <= j < i ==> v@[j] != *k,
    {
        if v[i] == *k {
            return true;
        }
    }
    false
}

/// Chooses pages of `cands` as `select_requests` does and marks them busy.
/// Returns the positions in `cands` of the chosen pages.
pub fn select_into(
    cands: &Vec<PageKey>,
    loaded: &Vec<PageKey>,
    busy: &mut Vec<PageKey>,
    cap: Option<usize>,
) -> (chosen: Vec<usize>)
    requires
        old(busy)@.no_duplicates(),
    ensures
        chosen@.len() == select_requests(
            cands@,
            loaded@,
            old(busy)@,
            match cap {
                Some(c) => Some(c as nat),
                None => None,
            },
        ).len(),
        forall|i: int|
            0 <= i < chosen@.len() ==> #[trigger] chosen@[i] < cands@.len() && cands@[chosen@[i] as int]
                == select_requests(
                cands@,
                loaded@,
                old(busy)@,
                match cap {
                    Some(c) => Some(c as nat),
                    None => None,
                },
            )[i],
        final(busy)@ == old(busy)@ + select_requests(
            cands@,
            loaded@,
            old(busy)@,
            match cap {
                Some(c) => Some(c as nat),
                None => None,
            },
        ),
        final(busy)@.no_duplicates(),
{
    let ghost spec_cap = match cap {
        Some(c) => Some(c as nat),
        None => None::<nat>,
    };
    let ghost b0 = busy@;
    let ghost total = select_requests(cands@, loaded@, b0, spec_cap);
    let n = cands.len();
    let mut chosen: Vec<usize> = Vec::new();
    let mut i: usize = 0;
    proof {
        assert(cands@.skip(0) =~= cands@);
        assert(b0 + Seq::<PageKey>::empty() =~= b0);
    }
    while i < n
        invariant
            n == cands@.len(),
            i <= n,
            busy@.no_duplicates(),
            spec_cap == match cap {
                Some(c) => Some(c as nat),
                None => None::<nat>,
            },
            total == select_requests(cands@, loaded@, b0, spec_cap),
            busy@.len() >= b0.len(),
            total == busy@.subrange(b0.len() as int, busy@.len() as int) + select_requests(
                cands@.skip(i as int),
                loaded@,
                busy@,
                spec_cap,
            ),
            busy@.subrange(0, b0.len() as int) == b0,
            chosen@.len() == busy@.len() - b0.len(),
            forall|j: int|
                0 <= j < chosen@.len() ==> #[trigger] chosen@[j] < i && cands@[chosen@[j] as int]
                    == busy@[b0.len() + j],
        ensures
            i == n || (cap matches Some(c) && busy@.len() >= c),
            i <= n,
            busy@.no_duplicates(),
            total == busy@.subrange(b0.len() as int, busy@.len() as int) + select_requests(
                cands@.skip(i as int),
                loaded@,
                busy@,
                spec_cap,
            ),
            busy@.subrange(0, b0.len() as int) == b0,
            busy@.len() >= b0.len(),
            chosen@.len() == busy@.len() - b0.len(),
            forall|j: int|
                0 <= j < chosen@.len() ==> #[trigger] chosen@[j] < i && cands@[chosen@[j] as int]
                    == busy@[b0.len() + j],
        decreases n - i,
    {
        let ghost rest = cands@.skip(i as int);
        proof {
            assert(rest[0] == cands@[i as int]);
            assert(rest.drop_first() =~= cands@.skip(i + 1));
        }
        if let Some(c) = cap {
            if busy.len() >= c {
                proof {
                    assert(select_requests(rest, loaded@, busy@, spec_cap) =~= Seq::<PageKey>::empty());
                    assert(busy@.subrange(b0.len() as int, busy@.len() as int) + Seq::<PageKey>::empty()
                        =~= busy@.subrange(b0.len() as int, busy@.len() as int));
                }
                break;
            }
        }
        let k = cands[i];
        if !contains_key(loaded, &k) && !contains_key(busy, &k) {
            let ghost before = busy@;
            busy.push(k);
            chosen.push(i);
            proof {
                assert(busy@.subrange(b0.len() as int, busy@.len() as int) =~= before.subrange(
                    b0.len() as int,
                    before.len() as int,
                ).push(k));
                assert(before.subrange(b0.len() as int, before.len() as int) + (seq![k]
                    + select_requests(rest.drop_first(), loaded@, before.push(k), spec_cap))
                    =~= before.subrange(b0.len() as int, before.len() as int).push(k)
                    + select_requests(rest.drop_first(), loaded@, before.push(k), spec_cap));
                assert(busy@.subrange(0, b0.len() as int) =~= before.subrange(0, b0.len() as int));
                assert forall|a: int, b: int| 0 <= a < b < busy@.len() implies busy@[a] != busy@[b] by {
                    if b == busy@.len() - 1 {
                        assert(busy@[a] == before[a]);
                    } else {
                        assert(busy@[a] == before[a] && busy@[b] == before[b]);
                    }
                }
            }
        }
        i = i + 1;
    }
    proof {
        let sub = busy@.subrange(b0.len() as int, busy@.len() as int);
        if i == n {
            assert(cands@.skip(n as int) =~= Seq::<PageKey>::empty());
        } else {
            assert(cands@.skip(i as int).len() > 0);
        }
        assert(select_requests(cands@.skip(i as int), loaded@, busy@, spec_cap) =~= Seq::<PageKey>::empty());
        assert(sub + Seq::<PageKey>::empty() =~= sub);
        assert(busy@ =~= b0 + total);
    }
    chosen
}

/// Distance between two positions.
pub open spec fn index_distance(a: int, b: int) -> int {
    if a >= b {
        a - b
    } else {
        b - a
    }
}

/// The positions `start..end`, nearest to `current` first; positions at equal
/// distance in increasing order.
pub open spec fn nearest_first(start: int, end: int, current: int) -> Seq<int> {
    let d = Seq::new((end - start) as nat, |i: int| index_distance(start + i, current));
    let p = ranking(d);
    Seq::new((end - start) as nat, |k: int| start + p[k])
}

/// The positions `start..end`, nearest to `current` first.
pub fn positions_nearest_first(start: usize, end: usize, current: usize) -> (r: Vec<usize>)
    requires
        start <= end,
    ensures
        r@.len() == end - start,
        forall|k: int| 0 <= k < r@.len() ==> start <= #[trigger] r@[k] < end && r@[k] as int == nearest_first(
            start as int,
            end as int,
            current as int,
        )[k],
{
    let mut d: Vec<usize> = Vec::new();
    for i in start..end
        invariant
            start <= i <= end,
            d@.len() == i - start,
            forall|j: int|
                0 <= j < d@.len() ==> #[trigger] d@[j] as int == index_distance(start + j, current as int),
    {
        let x = if i >= current {
            i - current
        } else {
            current - i
        };
        d.push(x);
    }
    let p = rank(&d, false);
    let ghost dk = Seq::new((end - start) as nat, |i: int| index_distance(start + i, current as int));
    proof {
        assert(signed_keys(d@, false) =~= dk);
    }
    let mut r: Vec<usize> = Vec::new();
    let n = p.len();
    for k in 0..n
        invariant
            n == p@.len(),
            n == end - start,
            as_ints(p@) == ranking(dk),
            is_ranking(dk, as_ints(p@)),
            dk == Seq::new((end - start) as nat, |i: int| index_distance(start + i, current as int)),
            r@.len() == k,
            forall|m: int| 0 <= m < k ==> #[trigger] r@[m] as int == start + p@[m] as int,
    {
        assert(as_ints(p@)[k as int] == p@[k as int] as int);
        assert(p@[k as int] < n);
        r.push(start + p[k]);
    }
    proof {
        assert forall|m: int| 0 <= m < r@.len() implies start <= #[trigger] r@[m] < end && r@[m] as int
            == nearest_first(start as int, end as int, current as int)[m] by {
            assert(as_ints(p@)[m] == p@[m] as int);
        }
    }
    r
}

} // verus!
