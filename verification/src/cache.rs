//! Resident page textures and their memory budget.
//!
//! The manager keeps decoded pages up to a byte budget. When a page comes in
//! and the total goes over the budget, pages are dropped, the ones farthest
//! from the page on screen first, until the total fits again.
use vstd::prelude::*;

use crate::ranking::{as_ints, is_ranking, lemma_ranking_exists, precedes, rank, ranking, signed_keys};
use crate::text::{
    chars_of, find_newline, first_token, first_token_range, first_with_prefix, has_prefix_at,
    lemma_split_lines_at, parse_unsigned, parse_usize_range, split_lines,
};

verus! {

broadcast use vstd::seq_lib::group_seq_properties;

/// Least number of bytes the cache may hold.
pub const MIN_CACHE_BYTES: usize = 192 * 1024 * 1024;

/// Most number of bytes the cache may hold.
pub const MAX_CACHE_BYTES: usize = 512 * 1024 * 1024;

/// The cache may take one part in this many of the available RAM.
pub const AVAILABLE_RAM_SHARE: usize = 8;

/// One page of one loaded chapter: the chapter's id in the reading stream and
/// the page's position inside the chapter.
#[derive(Clone, Copy, Debug, Hash, PartialEq, Eq, Structural)]
pub struct PageKey {
    pub chapter_idx: usize,
    pub page_idx: usize,
}

/// A decoded page ready to be kept: its texture and its size.
pub struct LoadedPageData<T> {
    pub texture: T,
    pub width: u32,
    pub height: u32,
    pub byte_size: usize,
}

/// A page kept in the cache.
pub struct PageCacheEntry<T> {
    pub key: PageKey,
    pub texture: T,
    pub width: u32,
    pub height: u32,
    pub byte_size: usize,
    pub last_accessed_idx: usize,
}

/// The cache budget for a machine with `available` bytes of free RAM
/// (`None` when unknown): an eighth of it, kept between the two limits;
/// the upper limit when unknown.
pub open spec fn cache_budget(available: Option<usize>) -> int {
    match available {
        Some(a) => {
            let share = a as int / AVAILABLE_RAM_SHARE as int;
            if share < MIN_CACHE_BYTES as int {
                MIN_CACHE_BYTES as int
            } else if share > MAX_CACHE_BYTES as int {
                MAX_CACHE_BYTES as int
            } else {
                share
            }
        },
        None => MAX_CACHE_BYTES as int,
    }
}

/// Budget for resident textures given the RAM that the machine has free.
pub fn detect_cache_budget(available: Option<usize>) -> (budget: usize)
    ensures
        budget == cache_budget(available),
        MIN_CACHE_BYTES <= budget <= MAX_CACHE_BYTES,
{
    match available {
        Some(a) => {
            let share = a / AVAILABLE_RAM_SHARE;
            if share < MIN_CACHE_BYTES {
                MIN_CACHE_BYTES
            } else if share > MAX_CACHE_BYTES {
                MAX_CACHE_BYTES
            } else {
                share
            }
        },
        None => MAX_CACHE_BYTES,
    }
}


/// The free RAM that a `/proc/meminfo` text reports, in bytes: the first
/// whitespace-separated token after `MemAvailable:` on the first line that
/// begins so, read as a `usize` count of kibibytes and multiplied by 1024,
/// saturating.
pub open spec fn mem_available_bytes(meminfo: Seq<char>) -> Option<int> {
    match first_with_prefix(split_lines(meminfo), "MemAvailable:"@) {
        None => None,
        Some(rest) => match first_token(rest) {
            None => None,
            Some(tok) => match parse_unsigned(tok, usize::MAX as nat) {
                None => None,
                Some(kb) => Some(if kb * 1024 > usize::MAX { usize::MAX as int } else { (kb * 1024) as int }),
            },
        },
    }
}

/// `MemAvailable` from a `/proc/meminfo` text: the kernel's estimate of what
/// a new allocation can claim without swapping, in bytes.
pub fn parse_mem_available(meminfo: &str) -> (r: Option<usize>)
    ensures
        r matches Some(b) ==> mem_available_bytes(meminfo@) == Some(b as int),
        r is None ==> mem_available_bytes(meminfo@) is None,
{
    let m = chars_of(meminfo);
    let n = m.len();
    let ghost pre = "MemAvailable:"@;
    let plen = chars_of("MemAvailable:").len();
    let mut i: usize = 0;
    proof {
        assert(m@.skip(0) =~= m@);
    }
    while i < n
        invariant
            n == m.len(),
            m@ == meminfo@,
            pre == "MemAvailable:"@,
            plen == pre.len(),
            i <= n,
            first_with_prefix(split_lines(m@), pre) == first_with_prefix(split_lines(m@.skip(i as int)), pre),
        decreases n - i,
    {
        let e = find_newline(&m, i, n);
        proof {
            lemma_split_lines_at(m@, i as int, e as int);
        }
        let ghost line = m@.subrange(i as int, e as int);
        let ghost rest_lines = if e < n {
            split_lines(m@.skip(e + 1))
        } else {
            Seq::<Seq<char>>::empty()
        };
        proof {
            assert((seq![line] + rest_lines)[0] == line);
            assert((seq![line] + rest_lines).drop_first() =~= rest_lines);
        }
        if has_prefix_at(&m, i, e, "MemAvailable:") {
            proof {
                assert(line.skip(plen as int) =~= m@.subrange(i + plen, e as int));
            }
            return match first_token_range(&m, i + plen, e) {
                None => None,
                Some((a, b)) => match parse_usize_range(&m, a, b) {
                    None => None,
                    Some(kb) => {
                        if kb > usize::MAX / 1024 {
                            proof {
                                assert(kb * 1024 > usize::MAX) by (nonlinear_arith)
                                    requires
                                        kb > usize::MAX / 1024,
                                ;
                            }
                            Some(usize::MAX)
                        } else {
                            proof {
                                assert(kb * 1024 <= usize::MAX) by (nonlinear_arith)
                                    requires
                                        kb <= usize::MAX / 1024,
                                ;
                            }
                            Some(kb * 1024)
                        }
                    },
                },
            };
        }
        if e == n {
            proof {
                assert(rest_lines =~= Seq::<Seq<char>>::empty());
                assert(first_with_prefix(rest_lines, pre) is None);
            }
            return None;
        }
        i = e + 1;
    }
    proof {
        assert(m@.skip(n as int) =~= Seq::<char>::empty());
    }
    None
}

/// Index of the last occurrence of `k` in `s`.
pub open spec fn last_index_of(s: Seq<PageKey>, k: PageKey) -> Option<int>
    decreases s.len(),
{
    if s.len() == 0 {
        None
    } else if s.last() == k {
        Some(s.len() - 1)
    } else {
        last_index_of(s.drop_last(), k)
    }
}

/// Global position of a page in the reading stream; a page that the stream
/// does not hold counts as being at `current`.
pub open spec fn page_position(global_to_key: Seq<PageKey>, k: PageKey, current: usize) -> int {
    match last_index_of(global_to_key, k) {
        Some(j) => j,
        None => current as int,
    }
}

/// How far a page lies from the page at `current`.
pub open spec fn page_distance(global_to_key: Seq<PageKey>, k: PageKey, current: usize) -> int {
    let p = page_position(global_to_key, k, current);
    if p >= current {
        p - current
    } else {
        current - p
    }
}

/// Sort keys for the eviction order: the negated distances.
pub open spec fn eviction_keys(loaded: Seq<PageKey>, global_to_key: Seq<PageKey>, current: usize) -> Seq<int> {
    Seq::new(loaded.len(), |i: int| -page_distance(global_to_key, loaded[i], current))
}

/// The loaded pages, farthest from `current` first; pages at equal distance
/// keep their order.
pub open spec fn eviction_order_spec(
    loaded: Seq<PageKey>,
    global_to_key: Seq<PageKey>,
    current: usize,
) -> Seq<PageKey> {
    let p = ranking(eviction_keys(loaded, global_to_key, current));
    Seq::new(loaded.len(), |k: int| loaded[p[k]])
}

proof fn lemma_last_index_bounds(s: Seq<PageKey>, k: PageKey)
    ensures
        last_index_of(s, k) matches Some(j) ==> 0 <= j < s.len() && s[j] == k,
    decreases s.len(),
{
    if s.len() > 0 && s.last() != k {
        lemma_last_index_bounds(s.drop_last(), k);
    }
}

/// Global position of `key` in `global_to_key`, or `current` when absent.
fn position_of(global_to_key: &[PageKey], key: &PageKey, current: usize) -> (pos: usize)
    ensures
        pos == page_position(global_to_key@, *key, current),
{
    let mut j = global_to_key.len();
    proof {
        assert(global_to_key@.take(j as int) =~= global_to_key@);
    }
    while j > 0
        invariant
            j <= global_to_key@.len(),
            last_index_of(global_to_key@, *key) == last_index_of(global_to_key@.take(j as int), *key),
        decreases j,
    {
        proof {
            assert(global_to_key@.take(j as int).drop_last() =~= global_to_key@.take(j - 1));
        }
        if global_to_key[j - 1] == *key {
            return j - 1;
        }
        j = j - 1;
    }
    proof {
        assert(global_to_key@.take(0) =~= Seq::<PageKey>::empty());
    }
    current
}

/// Loaded page keys ordered furthest-from-the-viewport first, so eviction drops
/// the pages a reader is least likely to scroll back to. A page missing from
/// `global_to_key` counts as being on screen.
pub fn eviction_order(loaded: &[PageKey], global_to_key: &[PageKey], current_visible_global_idx: usize) -> (order: Vec<PageKey>)
    ensures
        order@ == eviction_order_spec(loaded@, global_to_key@, current_visible_global_idx),
        is_ranking(
            eviction_keys(loaded@, global_to_key@, current_visible_global_idx),
            ranking(eviction_keys(loaded@, global_to_key@, current_visible_global_idx)),
        ),
{
    let n = loaded.len();
    let mut distances: Vec<usize> = Vec::new();
    for i in 0..n
        invariant
            n == loaded@.len(),
            distances.len() == i,
            forall|k: int|
                0 <= k < i ==> #[trigger] distances[k] as int == page_distance(
                    global_to_key@,
                    loaded@[k],
                    current_visible_global_idx,
                ),
    {
        let pos = position_of(global_to_key, &loaded[i], current_visible_global_idx);
        let d = if pos >= current_visible_global_idx {
            pos - current_visible_global_idx
        } else {
            current_visible_global_idx - pos
        };
        distances.push(d);
    }
    let p = rank(&distances, true);
    let ghost ek = eviction_keys(loaded@, global_to_key@, current_visible_global_idx);
    proof {
        assert(signed_keys(distances@, true) =~= ek);
    }
    let mut order: Vec<PageKey> = Vec::new();
    for k in 0..n
        invariant
            n == loaded@.len(),
            p.len() == n,
            as_ints(p@) == ranking(ek),
            is_ranking(ek, as_ints(p@)),
            ek == eviction_keys(loaded@, global_to_key@, current_visible_global_idx),
            order.len() == k,
            forall|m: int| 0 <= m < k ==> #[trigger] order[m] == loaded@[p[m] as int],
    {
        assert(as_ints(p@)[k as int] == p[k as int] as int);
        order.push(loaded[p[k]]);
    }
    proof {
        assert forall|m: int| 0 <= m < n implies #[trigger] order@[m]
            == eviction_order_spec(loaded@, global_to_key@, current_visible_global_idx)[m] by {
            assert(as_ints(p@)[m] == p[m] as int);
        }
        assert(order@ =~= eviction_order_spec(loaded@, global_to_key@, current_visible_global_idx));
    }
    order
}

/// Keys of a sequence of cache entries.
pub open spec fn keys_of<T>(es: Seq<PageCacheEntry<T>>) -> Seq<PageKey> {
    Seq::new(es.len(), |i: int| es[i].key)
}

/// Sum of the byte sizes of the entries.
pub open spec fn total_size<T>(es: Seq<PageCacheEntry<T>>) -> nat
    decreases es.len(),
{
    if es.len() == 0 {
        0
    } else {
        total_size(es.drop_last()) + es.last().byte_size as nat
    }
}

/// Byte size of the entry with key `k` (the last one if several), 0 if none.
pub open spec fn size_of_key<T>(es: Seq<PageCacheEntry<T>>, k: PageKey) -> nat
    decreases es.len(),
{
    if es.len() == 0 {
        0
    } else if es.last().key == k {
        es.last().byte_size as nat
    } else {
        size_of_key(es.drop_last(), k)
    }
}

/// The entries whose key is not in `ks`, in their order.
pub open spec fn without_keys<T>(es: Seq<PageCacheEntry<T>>, ks: Seq<PageKey>) -> Seq<PageCacheEntry<T>>
    decreases es.len(),
{
    if es.len() == 0 {
        es
    } else {
        let rest = without_keys(es.drop_last(), ks);
        if ks.contains(es.last().key) {
            rest
        } else {
            rest.push(es.last())
        }
    }
}

/// How many pages of the eviction order go, given their sizes in that order:
/// pages are dropped while the total is over the budget.
pub open spec fn evict_count(sizes: Seq<nat>, total: int, budget: int) -> nat
    decreases sizes.len(),
{
    if total <= budget || sizes.len() == 0 {
        0
    } else {
        1 + evict_count(sizes.drop_first(), total - sizes[0], budget)
    }
}

/// The pages that eviction drops from `es`, in the order they are dropped.
pub open spec fn eviction_victims<T>(
    es: Seq<PageCacheEntry<T>>,
    budget: int,
    global_to_key: Seq<PageKey>,
    current: usize,
) -> Seq<PageKey> {
    let order = eviction_order_spec(keys_of(es), global_to_key, current);
    let sizes = Seq::new(order.len(), |i: int| size_of_key(es, order[i]));
    order.take(evict_count(sizes, total_size(es) as int, budget) as int)
}

proof fn lemma_evict_count_bound(sizes: Seq<nat>, total: int, budget: int)
    ensures
        evict_count(sizes, total, budget) <= sizes.len(),
    decreases sizes.len(),
{
    if !(total <= budget || sizes.len() == 0) {
        lemma_evict_count_bound(sizes.drop_first(), total - sizes[0], budget);
    }
}

/// Eviction drops the pages farthest from the page on screen first: every
/// page it drops lies at least as far from `current` as every page it
/// keeps.
pub proof fn lemma_eviction_drops_farthest<T>(
    es: Seq<PageCacheEntry<T>>,
    budget: int,
    global_to_key: Seq<PageKey>,
    current: usize,
    dropped: PageKey,
    kept: PageKey,
)
    requires
        eviction_victims(es, budget, global_to_key, current).contains(dropped),
        keys_of(es).contains(kept),
        !eviction_victims(es, budget, global_to_key, current).contains(kept),
    ensures
        page_distance(global_to_key, dropped, current) >= page_distance(global_to_key, kept, current),
{
    let loaded = keys_of(es);
    let ek = eviction_keys(loaded, global_to_key, current);
    lemma_ranking_exists(ek);
    let p = ranking(ek);
    let order = eviction_order_spec(loaded, global_to_key, current);
    let sizes = Seq::new(order.len(), |i: int| size_of_key(es, order[i]));
    let c = evict_count(sizes, total_size(es) as int, budget) as int;
    lemma_evict_count_bound(sizes, total_size(es) as int, budget);
    let victims = order.take(c);
    let a = choose|a: int| 0 <= a < victims.len() && victims[a] == dropped;
    let i = choose|i: int| 0 <= i < loaded.len() && loaded[i] == kept;
    assert(p.contains(i));
    let b = choose|b: int| 0 <= b < p.len() && p[b] == i;
    assert(order[b] == kept);
    if b < c {
        assert(victims[b] == kept);
        assert(false);
    }
    assert(precedes(ek, p[a], p[b]));
    assert(order[a] == loaded[p[a]]);
}

/// The entries after `key` comes in with `data`, before any eviction: an
/// earlier copy of the page goes, the new one joins at the end.
pub open spec fn staged_entries<T>(
    es: Seq<PageCacheEntry<T>>,
    key: PageKey,
    data: LoadedPageData<T>,
    access: nat,
) -> Seq<PageCacheEntry<T>> {
    without_keys(es, seq![key]).push(
        PageCacheEntry {
            key,
            texture: data.texture,
            width: data.width,
            height: data.height,
            byte_size: data.byte_size,
            last_accessed_idx: access as usize,
        },
    )
}

proof fn lemma_without_keys_contains<T>(es: Seq<PageCacheEntry<T>>, ks: Seq<PageKey>, k: PageKey)
    ensures
        keys_of(without_keys(es, ks)).contains(k) == (keys_of(es).contains(k) && !ks.contains(k)),
        !ks.contains(k) ==> size_of_key(without_keys(es, ks), k) == size_of_key(es, k),
    decreases es.len(),
{
    if es.len() > 0 {
        let init = es.drop_last();
        lemma_without_keys_contains(init, ks, k);
        let rest = without_keys(init, ks);
        assert(keys_of(es) =~= keys_of(init).push(es.last().key));
        if !ks.contains(es.last().key) {
            assert(keys_of(rest.push(es.last())) =~= keys_of(rest).push(es.last().key));
            assert(rest.push(es.last()).drop_last() =~= rest);
        }
    } else {
        assert(keys_of(es) =~= Seq::<PageKey>::empty());
    }
}

/// A page that comes in and is not among the pages dropped right after is
/// resident afterwards, with the size it came with.
pub proof fn lemma_inserted_page_resident<T>(
    es: Seq<PageCacheEntry<T>>,
    key: PageKey,
    data: LoadedPageData<T>,
    access: nat,
    evicted: Seq<PageKey>,
)
    requires
        !evicted.contains(key),
    ensures
        keys_of(without_keys(staged_entries(es, key, data, access), evicted)).contains(key),
        size_of_key(without_keys(staged_entries(es, key, data, access), evicted), key) == data.byte_size,
{
    let staged = staged_entries(es, key, data, access);
    lemma_without_keys_contains(staged, evicted, key);
    assert(keys_of(staged)[staged.len() - 1] == key);
}

proof fn lemma_without_keys_distinct<T>(es: Seq<PageCacheEntry<T>>, ks: Seq<PageKey>)
    requires
        keys_of(es).no_duplicates(),
    ensures
        keys_of(without_keys(es, ks)).no_duplicates(),
    decreases es.len(),
{
    if es.len() > 0 {
        let init = es.drop_last();
        assert(keys_of(es) =~= keys_of(init).push(es.last().key));
        assert(keys_of(init) =~= keys_of(es).drop_last());
        lemma_without_keys_distinct(init, ks);
        let rest = without_keys(init, ks);
        if !ks.contains(es.last().key) {
            lemma_without_keys_contains(init, ks, es.last().key);
            assert(!keys_of(init).contains(es.last().key)) by {
                if keys_of(init).contains(es.last().key) {
                    let j = choose|j: int| 0 <= j < keys_of(init).len() && keys_of(init)[j] == es.last().key;
                    assert(keys_of(es)[j] == keys_of(es)[es.len() - 1]);
                }
            }
            assert(keys_of(rest.push(es.last())) =~= keys_of(rest).push(es.last().key));
        }
    }
}

proof fn lemma_without_keys_push<T>(es: Seq<PageCacheEntry<T>>, ks: Seq<PageKey>, k: PageKey)
    ensures
        without_keys(es, ks.push(k)) == without_keys(without_keys(es, ks), seq![k]),
    decreases es.len(),
{
    if es.len() > 0 {
        let init = es.drop_last();
        lemma_without_keys_push(init, ks, k);
        let rest = without_keys(init, ks);
        if !ks.contains(es.last().key) {
            assert(rest.push(es.last()).drop_last() =~= rest);
            if es.last().key == k {
                assert(seq![k][0] == k);
            }
        }
    }
}

proof fn lemma_without_absent<T>(es: Seq<PageCacheEntry<T>>, ks: Seq<PageKey>)
    requires
        forall|i: int| 0 <= i < es.len() ==> !ks.contains(#[trigger] es[i].key),
    ensures
        without_keys(es, ks) == es,
    decreases es.len(),
{
    if es.len() > 0 {
        let init = es.drop_last();
        assert forall|i: int| 0 <= i < init.len() implies !ks.contains(#[trigger] init[i].key) by {
            assert(init[i] == es[i]);
        }
        lemma_without_absent(init, ks);
        assert(es.last() == es[es.len() - 1]);
        assert(init.push(es.last()) =~= es);
    }
}

proof fn lemma_without_one<T>(es: Seq<PageCacheEntry<T>>, k: PageKey)
    requires
        keys_of(es).no_duplicates(),
    ensures
        total_size(without_keys(es, seq![k])) + size_of_key(es, k) == total_size(es),
        size_of_key(es, k) > 0 ==> keys_of(es).contains(k),
    decreases es.len(),
{
    if es.len() > 0 {
        let init = es.drop_last();
        assert(keys_of(init) =~= keys_of(es).drop_last());
        lemma_without_one(init, k);
        let rest = without_keys(init, seq![k]);
        if es.last().key == k {
            assert(seq![k][0] == k);
            assert(!keys_of(init).contains(k)) by {
                if keys_of(init).contains(k) {
                    let j = choose|j: int| 0 <= j < keys_of(init).len() && keys_of(init)[j] == k;
                    assert(keys_of(es)[j] == keys_of(es)[es.len() - 1]);
                }
            }
            assert forall|i: int| 0 <= i < init.len() implies !seq![k].contains(#[trigger] init[i].key) by {
                assert(keys_of(init)[i] == init[i].key);
                if init[i].key == k {
                    assert(keys_of(init).contains(k));
                }
            }
            lemma_without_absent(init, seq![k]);
            lemma_size_absent(init, k);
            assert(keys_of(es)[es.len() - 1] == k);
        } else {
            assert(!seq![k].contains(es.last().key));
            assert(rest.push(es.last()).drop_last() =~= rest);
            if size_of_key(es, k) > 0 {
                let j = choose|j: int| 0 <= j < keys_of(init).len() && keys_of(init)[j] == k;
                assert(keys_of(es)[j] == k);
            }
        }
    }
}

proof fn lemma_size_absent<T>(es: Seq<PageCacheEntry<T>>, k: PageKey)
    requires
        !keys_of(es).contains(k),
    ensures
        size_of_key(es, k) == 0,
    decreases es.len(),
{
    if es.len() > 0 {
        let init = es.drop_last();
        assert(keys_of(init) =~= keys_of(es).drop_last());
        assert(keys_of(es)[es.len() - 1] == es.last().key);
        if keys_of(init).contains(k) {
            let j = choose|j: int| 0 <= j < keys_of(init).len() && keys_of(init)[j] == k;
            assert(keys_of(es)[j] == k);
        }
        lemma_size_absent(init, k);
    }
}

/// Removing distinct resident keys takes off exactly their sizes.
proof fn lemma_without_many<T>(es: Seq<PageCacheEntry<T>>, ks: Seq<PageKey>)
    requires
        keys_of(es).no_duplicates(),
        ks.no_duplicates(),
    ensures
        total_size(without_keys(es, ks)) + sum_sizes(es, ks) == total_size(es),
    decreases ks.len(),
{
    if ks.len() == 0 {
        assert forall|i: int| 0 <= i < es.len() implies !ks.contains(#[trigger] es[i].key) by {}
        lemma_without_absent(es, ks);
    } else {
        let init = ks.drop_last();
        let k = ks.last();
        assert(init.push(k) =~= ks);
        assert(init.no_duplicates());
        lemma_without_many(es, init);
        lemma_without_keys_push(es, init, k);
        let f = without_keys(es, init);
        lemma_without_keys_distinct(es, init);
        lemma_without_one(f, k);
        assert(!init.contains(k)) by {
            if init.contains(k) {
                let j = choose|j: int| 0 <= j < init.len() && init[j] == k;
                assert(ks[j] == ks[ks.len() - 1]);
            }
        }
        lemma_without_keys_contains(es, init, k);
    }
}

/// Sum of the sizes that `es` holds for the keys `ks`.
pub open spec fn sum_sizes<T>(es: Seq<PageCacheEntry<T>>, ks: Seq<PageKey>) -> nat
    decreases ks.len(),
{
    if ks.len() == 0 {
        0
    } else {
        sum_sizes(es, ks.drop_last()) + size_of_key(es, ks.last())
    }
}

/// Pages kept in memory, with the total of their sizes and a byte budget.
pub struct MemoryManager<T> {
    entries: Vec<PageCacheEntry<T>>,
    total_bytes: usize,
    access_counter: usize,
    budget_bytes: usize,
}

impl<T> MemoryManager<T> {
    /// The resident pages, oldest first.
    pub closed spec fn entries(&self) -> Seq<PageCacheEntry<T>> {
        self.entries@
    }

    /// The byte count the manager keeps.
    pub closed spec fn total(&self) -> nat {
        self.total_bytes as nat
    }

    /// The byte budget.
    pub closed spec fn budget(&self) -> nat {
        self.budget_bytes as nat
    }

    /// How many pages have come in so far.
    pub closed spec fn accesses(&self) -> nat {
        self.access_counter as nat
    }

    /// Each page is resident once, the byte count is the sum of the sizes,
    /// and the budget lies between the two limits.
    pub open spec fn wf(&self) -> bool {
        &&& keys_of(self.entries()).no_duplicates()
        &&& self.total() == total_size(self.entries())
        &&& MIN_CACHE_BYTES <= self.budget() <= MAX_CACHE_BYTES
    }

    /// An empty cache with the given budget, which lies between the two
    /// limits (as `detect_cache_budget` gives it).
    pub fn new(budget_bytes: usize) -> (m: Self)
        requires
            MIN_CACHE_BYTES <= budget_bytes <= MAX_CACHE_BYTES,
        ensures
            m.wf(),
            m.entries() == Seq::<PageCacheEntry<T>>::empty(),
            m.total() == 0,
            m.accesses() == 0,
            m.budget() == budget_bytes,
    {
        let m = Self { entries: Vec::new(), total_bytes: 0, access_counter: 0, budget_bytes };
        proof {
            assert(keys_of(m.entries()) =~= Seq::<PageKey>::empty());
        }
        m
    }

    /// Number of bytes the resident pages take.
    pub fn total_bytes(&self) -> (t: usize)
        ensures
            t == self.total(),
    {
        self.total_bytes
    }

    /// The byte budget.
    pub fn budget_bytes(&self) -> (b: usize)
        ensures
            b == self.budget(),
    {
        self.budget_bytes
    }

    /// Number of pages stored so far; each insertion counts one.
    pub fn access_count(&self) -> (n: usize)
        ensures
            n == self.accesses(),
    {
        self.access_counter
    }

    /// The byte size of the resident page `key`, 0 when it is not resident.
    pub fn size_of_page(&self, key: &PageKey) -> (n: usize)
        ensures
            n == size_of_key(self.entries(), *key),
    {
        self.size_of(key)
    }

    /// Number of resident pages.
    pub fn len(&self) -> (n: usize)
        ensures
            n == self.entries().len(),
    {
        self.entries.len()
    }

    /// No page is resident.
    pub fn is_empty(&self) -> (b: bool)
        ensures
            b == (self.entries().len() == 0),
    {
        self.entries.len() == 0
    }

    /// The page `key` is resident.
    pub fn contains(&self, key: &PageKey) -> (b: bool)
        ensures
            b == keys_of(self.entries()).contains(*key),
    {
        match self.index_of(key) {
            Some(_) => true,
            None => false,
        }
    }

    /// The resident entry of `key`, if any.
    pub fn get(&self, key: &PageKey) -> (r: Option<&PageCacheEntry<T>>)
        ensures
            r is Some == keys_of(self.entries()).contains(*key),
            r matches Some(e) ==> e.key == *key && self.entries().contains(*e),
    {
        match self.index_of(key) {
            Some(i) => Some(&self.entries[i]),
            None => None,
        }
    }

    fn index_of(&self, key: &PageKey) -> (r: Option<usize>)
        ensures
            r matches Some(i) ==> i < self.entries().len() && self.entries()[i as int].key == *key,
            r is Some ==> keys_of(self.entries()).contains(*key),
            r is None ==> !keys_of(self.entries()).contains(*key),
    {
        let n = self.entries.len();
        for i in 0..n
            invariant
                n == self.entries@.len(),
                forall|j: int| 0 <= j < i ==> self.entries@[j].key != *key,
        {
            if self.entries[i].key == *key {
                proof {
                    assert(keys_of(self.entries())[i as int] == *key);
                }
                return Some(i);
            }
        }
        proof {
            if keys_of(self.entries()).contains(*key) {
                let j = choose|j: int| 0 <= j < n && keys_of(self.entries())[j] == *key;
                assert(self.entries@[j].key == *key);
            }
        }
        None
    }

    fn size_of(&self, key: &PageKey) -> (s: usize)
        ensures
            s == size_of_key(self.entries(), *key),
    {
        let mut j = self.entries.len();
        proof {
            assert(self.entries@.take(j as int) =~= self.entries@);
        }
        while j > 0
            invariant
                j <= self.entries@.len(),
                size_of_key(self.entries(), *key) == size_of_key(self.entries@.take(j as int), *key),
            decreases j,
        {
            proof {
                assert(self.entries@.take(j as int).drop_last() =~= self.entries@.take(j - 1));
            }
            if self.entries[j - 1].key == *key {
                return self.entries[j - 1].byte_size;
            }
            j = j - 1;
        }
        0
    }

    /// Keys of the resident pages, oldest first.
    pub fn resident_keys(&self) -> (ks: Vec<PageKey>)
        ensures
            ks@ == keys_of(self.entries()),
    {
        self.keys()
    }

    fn keys(&self) -> (ks: Vec<PageKey>)
        ensures
            ks@ == keys_of(self.entries()),
    {
        let n = self.entries.len();
        let mut ks: Vec<PageKey> = Vec::new();
        for i in 0..n
            invariant
                n == self.entries@.len(),
                ks@ == keys_of(self.entries@.take(i as int)),
        {
            proof {
                assert(keys_of(self.entries@.take(i + 1)) =~= keys_of(self.entries@.take(i as int)).push(
                    self.entries@[i as int].key,
                ));
            }
            ks.push(self.entries[i].key);
        }
        proof {
            assert(self.entries@.take(n as int) =~= self.entries@);
        }
        ks
    }

    /// Keeps `data` as the page `key` (replacing an earlier copy), then drops
    /// pages as `evict_if_needed` does. Returns the dropped keys in order.
    pub fn insert(
        &mut self,
        key: PageKey,
        data: LoadedPageData<T>,
        current_visible_global_idx: usize,
        global_to_key: &[PageKey],
    ) -> (evicted: Vec<PageKey>)
        requires
            old(self).wf(),
            old(self).accesses() < usize::MAX,
            old(self).total() - size_of_key(old(self).entries(), key) + data.byte_size <= usize::MAX,
        ensures
            final(self).wf(),
            evicted@ == eviction_victims(
                staged_entries(old(self).entries(), key, data, old(self).accesses() + 1),
                old(self).budget() as int,
                global_to_key@,
                current_visible_global_idx,
            ),
            final(self).entries() == without_keys(
                staged_entries(old(self).entries(), key, data, old(self).accesses() + 1),
                evicted@,
            ),
            final(self).accesses() == old(self).accesses() + 1,
            final(self).budget() == old(self).budget(),
            final(self).total() <= final(self).budget() || final(self).entries().len() == 0,
            final(self).total() <= MAX_CACHE_BYTES || final(self).entries().len() == 0,
            final(self).total() == total_size(final(self).entries()),
            keys_of(final(self).entries()).no_duplicates(),
    {
        let ghost es = self.entries@;
        proof {
            lemma_without_one(es, key);
            lemma_without_keys_distinct(es, seq![key]);
            lemma_without_keys_contains(es, seq![key], key);
            assert(seq![key][0] == key);
        }
        match self.index_of(&key) {
            Some(idx) => {
                let s = self.size_of(&key);
                proof {
                    lemma_without_index(es, idx as int, key);
                }
                self.entries.remove(idx);
                self.total_bytes = self.total_bytes - s;
            },
            None => {
                proof {
                    assert forall|i: int| 0 <= i < es.len() implies !seq![key].contains(#[trigger] es[i].key) by {
                        assert(keys_of(es)[i] == es[i].key);
                        if es[i].key == key {
                            assert(keys_of(es).contains(key));
                        }
                    }
                    lemma_without_absent(es, seq![key]);
                    lemma_size_absent(es, key);
                }
            },
        }
        self.access_counter = self.access_counter + 1;
        self.total_bytes = self.total_bytes + data.byte_size;
        let ghost before = self.entries@;
        self.entries.push(
            PageCacheEntry {
                key,
                texture: data.texture,
                width: data.width,
                height: data.height,
                byte_size: data.byte_size,
                last_accessed_idx: self.access_counter,
            },
        );
        proof {
            assert(self.entries@.drop_last() =~= before);
            assert(keys_of(self.entries@) =~= keys_of(before).push(key));
            assert(self.entries@ =~= staged_entries(es, key, data, old(self).accesses() + 1));
        }
        self.evict_if_needed(current_visible_global_idx, global_to_key)
    }

    /// Drops every page; the budget and the access count stay.
    pub fn clear(&mut self)
        requires
            old(self).wf(),
        ensures
            final(self).wf(),
            final(self).entries() == Seq::<PageCacheEntry<T>>::empty(),
            final(self).total() == 0,
            final(self).budget() == old(self).budget(),
            final(self).accesses() == old(self).accesses(),
    {
        self.entries.clear();
        self.total_bytes = 0;
        proof {
            assert(keys_of(self.entries@) =~= Seq::<PageKey>::empty());
        }
    }

    /// Drops pages, farthest from `current_visible_global_idx` first, while the
    /// resident total is over the budget. Returns the dropped keys in order.
    pub fn evict_if_needed(&mut self, current_visible_global_idx: usize, global_to_key: &[PageKey]) -> (evicted: Vec<PageKey>)
        requires
            old(self).wf(),
        ensures
            final(self).wf(),
            evicted@ == eviction_victims(
                old(self).entries(),
                old(self).budget() as int,
                global_to_key@,
                current_visible_global_idx,
            ),
            final(self).entries() == without_keys(old(self).entries(), evicted@),
            final(self).budget() == old(self).budget(),
            final(self).accesses() == old(self).accesses(),
            final(self).total() <= final(self).budget() || final(self).entries().len() == 0,
            final(self).total() <= MAX_CACHE_BYTES || final(self).entries().len() == 0,
            old(self).total() <= old(self).budget() ==> evicted@.len() == 0,
            forall|i: int| 0 <= i < evicted@.len() ==> keys_of(old(self).entries()).contains(#[trigger] evicted@[i]),
    {
        let ghost es = self.entries@;
        let ghost budget = self.budget_bytes as int;
        let keys = self.keys();
        let order = eviction_order(keys.as_slice(), global_to_key, current_visible_global_idx);
        let ghost p = ranking(eviction_keys(keys@, global_to_key@, current_visible_global_idx));
        let ghost sizes = Seq::new(order@.len(), |i: int| size_of_key(es, order@[i]));
        proof {
            self.lemma_order_facts(keys@, global_to_key@, current_visible_global_idx, order@);
        }
        let mut t = self.total_bytes;
        let mut c: usize = 0;
        proof {
            assert(sizes.skip(0) =~= sizes);
            assert(order@.take(0) =~= Seq::<PageKey>::empty());
        }
        while c < order.len() && t > self.budget_bytes
            invariant
                es == self.entries@,
                self.wf(),
                budget == self.budget_bytes,
                sizes == Seq::new(order@.len(), |i: int| size_of_key(es, order@[i])),
                order@.no_duplicates(),
                forall|i: int| 0 <= i < order@.len() ==> keys_of(es).contains(#[trigger] order@[i]),
                c <= order.len(),
                t + sum_sizes(es, order@.take(c as int)) == total_size(es),
                evict_count(sizes, total_size(es) as int, budget) == c + evict_count(
                    sizes.skip(c as int),
                    t as int,
                    budget,
                ),
            decreases order.len() - c,
        {
            let s = self.size_of(&order[c]);
            proof {
                let taken = order@.take(c + 1);
                assert(taken.drop_last() =~= order@.take(c as int));
                assert(taken.no_duplicates());
                lemma_without_many(es, taken);
                assert(sizes.skip(c as int).drop_first() =~= sizes.skip(c + 1));
            }
            t = t - s;
            c = c + 1;
        }
        let mut victims: Vec<PageKey> = Vec::new();
        let mut j: usize = 0;
        proof {
            assert(order@.take(0) =~= Seq::<PageKey>::empty());
            assert forall|i: int| 0 <= i < es.len() implies !order@.take(0).contains(#[trigger] es[i].key) by {}
            lemma_without_absent(es, order@.take(0));
        }
        while j < c
            invariant
                es == old(self).entries@,
                budget == self.budget_bytes,
                self.access_counter == old(self).access_counter,
                self.budget_bytes == old(self).budget_bytes,
                keys_of(es).no_duplicates(),
                order@.no_duplicates(),
                forall|i: int| 0 <= i < order@.len() ==> keys_of(es).contains(#[trigger] order@[i]),
                c <= order.len(),
                j <= c,
                victims@ == order@.take(j as int),
                self.entries@ == without_keys(es, order@.take(j as int)),
            decreases c - j,
        {
            let k = order[j];
            proof {
                let done = order@.take(j as int);
                assert(!done.contains(k)) by {
                    if done.contains(k) {
                        let m = choose|m: int| 0 <= m < done.len() && done[m] == k;
                        assert(order@[m] == order@[j as int]);
                    }
                }
                lemma_without_keys_contains(es, done, k);
                lemma_without_keys_distinct(es, done);
                assert(keys_of(es).contains(order@[j as int]));
            }
            let found = self.index_of(&k);
            let idx = match found {
                Some(idx) => idx,
                None => {
                    proof {
                        assert(false);
                    }
                    0
                },
            };
            proof {
                let done = order@.take(j as int);
                assert(order@.take(j + 1) =~= done.push(k));
                lemma_without_keys_push(es, done, k);
                lemma_without_index(self.entries@, idx as int, k);
            }
            self.entries.remove(idx);
            victims.push(k);
            j = j + 1;
        }
        proof {
            assert(sizes.skip(c as int).len() == 0 || t <= budget);
            let taken = order@.take(c as int);
            assert(taken.no_duplicates());
            lemma_without_many(es, taken);
            lemma_without_keys_distinct(es, taken);
            if c == order.len() {
                assert(taken =~= order@);
                assert forall|i: int| 0 <= i < es.len() implies order@.contains(#[trigger] es[i].key) by {
                    assert(keys_of(es)[i] == es[i].key);
                }
                lemma_all_removed(es, order@);
            }
            assert(forall|i: int| 0 <= i < victims@.len() ==> victims@[i] == order@[i]);
        }
        self.total_bytes = t;
        victims
    }

    /// Shows that the eviction order lists each resident page once.
    proof fn lemma_order_facts(
        &self,
        keys: Seq<PageKey>,
        global_to_key: Seq<PageKey>,
        current: usize,
        order: Seq<PageKey>,
    )
        requires
            keys == keys_of(self.entries()),
            keys.no_duplicates(),
            order == eviction_order_spec(keys, global_to_key, current),
            is_ranking(
                eviction_keys(keys, global_to_key, current),
                ranking(eviction_keys(keys, global_to_key, current)),
            ),
        ensures
            order.no_duplicates(),
            order.len() == keys.len(),
            forall|i: int| 0 <= i < order.len() ==> keys.contains(#[trigger] order[i]),
            forall|i: int| 0 <= i < keys.len() ==> order.contains(#[trigger] keys[i]),
    {
        let ek = eviction_keys(keys, global_to_key, current);
        let p = ranking(ek);
        assert forall|i: int| 0 <= i < order.len() implies keys.contains(#[trigger] order[i]) by {
            assert(order[i] == keys[p[i]]);
        }
        assert forall|a: int, b: int| 0 <= a < order.len() && 0 <= b < order.len() && a != b implies order[a]
            != order[b] by {
            if a < b {
                assert(crate::ranking::precedes(ek, p[a], p[b]));
            } else {
                assert(crate::ranking::precedes(ek, p[b], p[a]));
            }
            assert(order[a] == keys[p[a]] && order[b] == keys[p[b]]);
        }
        assert forall|i: int| 0 <= i < keys.len() implies order.contains(#[trigger] keys[i]) by {
            assert(p.contains(i));
            let m = choose|m: int| 0 <= m < p.len() && p[m] == i;
            assert(order[m] == keys[i]);
        }
    }
}

proof fn lemma_without_index<T>(es: Seq<PageCacheEntry<T>>, idx: int, k: PageKey)
    requires
        keys_of(es).no_duplicates(),
        0 <= idx < es.len(),
        es[idx].key == k,
    ensures
        without_keys(es, seq![k]) == es.remove(idx),
    decreases es.len(),
{
    let init = es.drop_last();
    assert(keys_of(init) =~= keys_of(es).drop_last());
    assert(seq![k][0] == k);
    if idx == es.len() - 1 {
        assert forall|i: int| 0 <= i < init.len() implies !seq![k].contains(#[trigger] init[i].key) by {
            if init[i].key == k {
                assert(keys_of(es)[i] == keys_of(es)[idx]);
            }
        }
        lemma_without_absent(init, seq![k]);
        assert(es.remove(idx) =~= init);
    } else {
        assert(es.last().key != k) by {
            assert(keys_of(es)[es.len() - 1] != keys_of(es)[idx]);
        }
        lemma_without_index(init, idx, k);
        assert(es.remove(idx) =~= init.remove(idx).push(es.last()));
    }
}

proof fn lemma_all_removed<T>(es: Seq<PageCacheEntry<T>>, ks: Seq<PageKey>)
    requires
        forall|i: int| 0 <= i < es.len() ==> ks.contains(#[trigger] es[i].key),
    ensures
        without_keys(es, ks).len() == 0,
    decreases es.len(),
{
    if es.len() > 0 {
        let init = es.drop_last();
        assert forall|i: int| 0 <= i < init.len() implies ks.contains(#[trigger] init[i].key) by {
            assert(init[i] == es[i]);
        }
        lemma_all_removed(init, ks);
        assert(es.last() == es[es.len() - 1]);
    }
}

} // verus!
