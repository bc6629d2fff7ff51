use rand::seq::SliceRandom;
use vstd::prelude::*;
use crate::timestamp::Timestamp;

verus! {

/// How many items a feed of `len` items contributes under the cap `cap`.
pub open spec fn capped(len: usize, cap: usize) -> int {
    if len < cap {
        len as int
    } else {
        cap as int
    }
}

/// A place in the merged output: (feed position, item position in that feed).
pub type ItemRef = (usize, usize);

/// The entries of round `k` among the first `m` feeds, in feed order: feed `f`
/// takes part with its item `k` when it still has one under the cap.
pub open spec fn round_prefix(lens: Seq<usize>, cap: usize, k: int, m: int) -> Seq<ItemRef>
    decreases m,
{
    if m <= 0 {
        seq![]
    } else {
        let rest = round_prefix(lens, cap, k, m - 1);
        if k < capped(lens[m - 1], cap) {
            rest.push(((m - 1) as usize, k as usize))
        } else {
            rest
        }
    }
}

/// Every reference of `plan` names a feed, and one of the first `min(len,
/// cap)` items of that feed.
pub open spec fn draws_within_cap(lens: Seq<usize>, cap: usize, plan: Seq<ItemRef>) -> bool {
    forall|j: int|
        0 <= j < plan.len() ==> (#[trigger] plan[j]).0 < lens.len() && plan[j].1 < capped(
            lens[plan[j].0 as int],
            cap,
        )
}

/// Round `k` of the round-robin merge, feeds visited in canonical order.
pub open spec fn round(lens: Seq<usize>, cap: usize, k: int) -> Seq<ItemRef> {
    round_prefix(lens, cap, k, lens.len() as int)
}

/// Rounds `0 .. k` one after another.
pub open spec fn rounds(lens: Seq<usize>, cap: usize, k: int) -> Seq<ItemRef>
    decreases k,
{
    if k <= 0 {
        seq![]
    } else {
        rounds(lens, cap, k - 1) + round(lens, cap, k - 1)
    }
}

/// The alphabetical round-robin merge: no feed has an item past round `cap`.
pub open spec fn alphabetical_plan(lens: Seq<usize>, cap: usize) -> Seq<ItemRef> {
    rounds(lens, cap, cap as int)
}

/// Round indices never decrease along `plan`.
pub open spec fn rounds_in_order(plan: Seq<ItemRef>) -> bool {
    forall|i: int, j: int| 0 <= i < j < plan.len() ==> #[trigger] plan[i].1 <= #[trigger] plan[j].1
}

/// The sum over the first `m` feeds of `min(len, cap)`.
pub open spec fn capped_total_prefix(lens: Seq<usize>, cap: usize, m: int) -> int
    decreases m,
{
    if m <= 0 {
        0
    } else {
        capped_total_prefix(lens, cap, m - 1) + capped(lens[m - 1], cap)
    }
}

/// The sum over all feeds of `min(len, cap)`.
pub open spec fn total_capped(lens: Seq<usize>, cap: usize) -> int {
    capped_total_prefix(lens, cap, lens.len() as int)
}

/// Relies on rand's `SliceRandom::shuffle` with the thread-local generator: it
/// reorders the vector in place, so the same entries come back.
#[verifier::external_body]
fn shuffled(v: Vec<ItemRef>) -> (r: Vec<ItemRef>)
    ensures
        r@.to_multiset() == v@.to_multiset(),
{
    let mut v = v;
    v.shuffle(&mut rand::thread_rng());
    v
}

proof fn lemma_round_prefix_facts(lens: Seq<usize>, cap: usize, k: int, m: int)
    requires
        0 <= m <= lens.len(),
        lens.len() <= usize::MAX,
        0 <= k,
    ensures
        round_prefix(lens, cap, k, m).len() == 0 <==> (forall|f: int|
            0 <= f < m ==> capped(#[trigger] lens[f], cap) <= k),
        forall|j: int|
            0 <= j < round_prefix(lens, cap, k, m).len() ==> (#[trigger] round_prefix(
                lens,
                cap,
                k,
                m,
            )[j]).1 == k,
        draws_within_cap(lens, cap, round_prefix(lens, cap, k, m)),
        forall|j: int|
            0 <= j < round_prefix(lens, cap, k, m).len() ==> (#[trigger] round_prefix(
                lens,
                cap,
                k,
                m,
            )[j]).0 < m,
        round_prefix(lens, cap, k, m).no_duplicates(),
    decreases m,
{
    if m > 0 {
        lemma_round_prefix_facts(lens, cap, k, m - 1);
        let rest = round_prefix(lens, cap, k, m - 1);
        let all = round_prefix(lens, cap, k, m);
        assert forall|j: int| 0 <= j < all.len() implies (#[trigger] all[j]).0 < lens.len()
            && all[j].1 < capped(lens[all[j].0 as int], cap) && all[j].0 < m by {
            if j < rest.len() {
                assert(all[j] == rest[j]);
            }
        }
        assert forall|i: int, j: int| 0 <= i < all.len() && 0 <= j < all.len() && i != j implies all[i]
            != all[j] by {
            if i < rest.len() && j < rest.len() {
                assert(all[i] == rest[i] && all[j] == rest[j]);
            } else if i < rest.len() {
                assert(all[i] == rest[i]);
            } else if j < rest.len() {
                assert(all[j] == rest[j]);
            }
        }
    }
}

/// Once no feed reaches round `k`, later rounds add nothing.
proof fn lemma_rounds_settle(lens: Seq<usize>, cap: usize, k: int, k2: int)
    requires
        lens.len() <= usize::MAX,
        0 <= k <= k2,
        forall|f: int| 0 <= f < lens.len() ==> capped(#[trigger] lens[f], cap) <= k,
    ensures
        rounds(lens, cap, k2) == rounds(lens, cap, k),
    decreases k2 - k,
{
    if k2 > k {
        lemma_rounds_settle(lens, cap, k, k2 - 1);
        lemma_round_prefix_facts(lens, cap, k2 - 1, lens.len() as int);
        assert(round(lens, cap, k2 - 1).len() == 0);
        assert(rounds(lens, cap, k2) =~= rounds(lens, cap, k2 - 1));
    }
}

proof fn lemma_rounds_indices(lens: Seq<usize>, cap: usize, k: int)
    requires
        lens.len() <= usize::MAX,
        0 <= k,
    ensures
        forall|j: int|
            0 <= j < rounds(lens, cap, k).len() ==> (#[trigger] rounds(lens, cap, k)[j]).1 < k,
        rounds_in_order(rounds(lens, cap, k)),
        draws_within_cap(lens, cap, rounds(lens, cap, k)),
        rounds(lens, cap, k).no_duplicates(),
    decreases k,
{
    if k > 0 {
        lemma_rounds_indices(lens, cap, k - 1);
        lemma_round_prefix_facts(lens, cap, k - 1, lens.len() as int);
        let a = rounds(lens, cap, k - 1);
        let b = round(lens, cap, k - 1);
        let all = rounds(lens, cap, k);
        assert forall|j: int| 0 <= j < all.len() implies (#[trigger] all[j]).0 < lens.len()
            && all[j].1 < capped(lens[all[j].0 as int], cap) by {
            if j < a.len() {
                assert(all[j] == a[j]);
            } else {
                assert(all[j] == b[j - a.len()]);
            }
        }
        assert forall|i: int, j: int| 0 <= i < a.len() && 0 <= j < b.len() implies a[i] != b[j] by {
            assert(a[i].1 < k - 1);
            assert(b[j].1 == k - 1);
        }
        vstd::seq_lib::lemma_no_dup_in_concat(a, b);
    }
}

/// The entries of round `k`, in canonical feed order.
fn round_entries(lens: &Vec<usize>, cap: usize, k: usize) -> (r: Vec<ItemRef>)
    ensures
        r@ == round(lens@, cap, k as int),
{
    let mut r: Vec<ItemRef> = Vec::new();
    let mut f: usize = 0;
    while f < lens.len()
        invariant
            f <= lens@.len(),
            r@ == round_prefix(lens@, cap, k as int, f as int),
        decreases lens@.len() - f,
    {
        let c = if lens[f] < cap {
            lens[f]
        } else {
            cap
        };
        if k < c {
            r.push((f, k));
        }
        f += 1;
    }
    r
}

/// The order of a round-robin merge over feeds of lengths `lens` (in
/// canonical feed order), each contributing at most `cap` items. Round `k`
/// takes item `k` of every feed that still has one under the cap. In
/// alphabetical order the feeds of a round are visited in canonical order; when
/// `shuffle` is set each round visits them in a freshly drawn order.
pub fn round_robin_plan(lens: &Vec<usize>, cap: usize, shuffle: bool) -> (r: Vec<ItemRef>)
    ensures
        !shuffle ==> r@ == alphabetical_plan(lens@, cap),
        shuffle ==> r@.to_multiset() == alphabetical_plan(lens@, cap).to_multiset(),
        rounds_in_order(r@),
{
    let mut out: Vec<ItemRef> = Vec::new();
    let mut k: usize = 0;
    proof {
        assert(lens@.len() == lens.len());
        lemma_rounds_indices(lens@, cap, 0);
    }
    loop
        invariant
            lens@.len() <= usize::MAX,
            k <= cap,
            !shuffle ==> out@ == rounds(lens@, cap, k as int),
            out@.to_multiset() == rounds(lens@, cap, k as int).to_multiset(),
            rounds_in_order(out@),
            forall|j: int| 0 <= j < out@.len() ==> (#[trigger] out@[j]).1 < k,
        ensures
            !shuffle ==> out@ == alphabetical_plan(lens@, cap),
            out@.to_multiset() == alphabetical_plan(lens@, cap).to_multiset(),
            rounds_in_order(out@),
        decreases cap - k,
    {
        let entries = round_entries(lens, cap, k);
        proof {
            lemma_round_prefix_facts(lens@, cap, k as int, lens@.len() as int);
        }
        if entries.len() == 0 {
            proof {
                lemma_rounds_settle(lens@, cap, k as int, cap as int);
            }
            break;
        }
        proof {
            let f = choose|f: int| 0 <= f < lens@.len() && capped(lens@[f], cap) > k;
            assert(capped(lens@[f], cap) > k);
        }
        let mut batch = if shuffle {
            shuffled(entries)
        } else {
            entries
        };
        proof {
            let e = round(lens@, cap, k as int);
            assert(batch@.to_multiset() == e.to_multiset());
            broadcast use vstd::seq_lib::group_to_multiset_ensures;
            assert forall|j: int| 0 <= j < batch@.len() implies (#[trigger] batch@[j]).1 == k by {
                assert(batch@.contains(batch@[j]));
                assert(batch@.to_multiset().count(batch@[j]) > 0);
                assert(e.contains(batch@[j]));
            }
            vstd::seq_lib::lemma_multiset_commutative(out@, batch@);
            vstd::seq_lib::lemma_multiset_commutative(rounds(lens@, cap, k as int), e);
        }
        out.append(&mut batch);
        k += 1;
    }
    out
}

/// The sum over the first `m` feeds of how many of their items come before
/// round `k`.
spec fn items_before_round(lens: Seq<usize>, cap: usize, k: int, m: int) -> int
    decreases m,
{
    if m <= 0 {
        0
    } else {
        let c = capped(lens[m - 1], cap);
        items_before_round(lens, cap, k, m - 1) + if c < k {
            c
        } else {
            k
        }
    }
}

proof fn lemma_items_before_round_step(lens: Seq<usize>, cap: usize, k: int, m: int)
    requires
        0 <= k,
        0 <= m <= lens.len(),
    ensures
        items_before_round(lens, cap, k + 1, m) == items_before_round(lens, cap, k, m)
            + round_prefix(lens, cap, k, m).len(),
        items_before_round(lens, cap, 0, m) == 0,
        items_before_round(lens, cap, cap as int, m) == capped_total_prefix(lens, cap, m),
    decreases m,
{
    if m > 0 {
        lemma_items_before_round_step(lens, cap, k, m - 1);
    }
}

proof fn lemma_rounds_len(lens: Seq<usize>, cap: usize, k: int)
    requires
        0 <= k,
    ensures
        rounds(lens, cap, k).len() == items_before_round(lens, cap, k, lens.len() as int),
    decreases k,
{
    lemma_items_before_round_step(lens, cap, 0, lens.len() as int);
    if k > 0 {
        lemma_rounds_len(lens, cap, k - 1);
        lemma_items_before_round_step(lens, cap, k - 1, lens.len() as int);
    }
}

/// A round-robin merge emits, from each feed, as many items as the smaller of
/// its length and the cap: the output length is the sum of `min(len, cap)`,
/// whatever order the rounds visit the feeds in.
pub proof fn round_robin_length(lens: Seq<usize>, cap: usize, plan: Seq<ItemRef>)
    requires
        plan.to_multiset() == alphabetical_plan(lens, cap).to_multiset(),
    ensures
        plan.len() == total_capped(lens, cap),
{
    lemma_rounds_len(lens, cap, cap as int);
    lemma_items_before_round_step(lens, cap, 0, lens.len() as int);
    broadcast use vstd::seq_lib::group_to_multiset_ensures;
    assert(plan.len() == plan.to_multiset().len());
    assert(alphabetical_plan(lens, cap).len() == alphabetical_plan(lens, cap).to_multiset().len());
}

/// The first `min(len, cap)` items of each of the first `m` feeds, feed after
/// feed, each feed's items in their own order.
pub open spec fn pool_prefix(lens: Seq<usize>, cap: usize, m: int) -> Seq<ItemRef>
    decreases m,
{
    if m <= 0 {
        seq![]
    } else {
        pool_prefix(lens, cap, m - 1) + Seq::new(
            capped(lens[m - 1], cap) as nat,
            |i: int| ((m - 1) as usize, i as usize),
        )
    }
}

/// What the reverse-chronological mode sorts: the first `min(len, cap)` items
/// of every feed, concatenated in canonical feed order.
pub open spec fn chrono_pool(lens: Seq<usize>, cap: usize) -> Seq<ItemRef> {
    pool_prefix(lens, cap, lens.len() as int)
}

/// The lengths of the feeds whose item times are `stamps`.
pub open spec fn lens_of(stamps: Seq<Seq<Timestamp>>) -> Seq<usize> {
    stamps.map_values(|v: Seq<Timestamp>| v.len() as usize)
}

/// The item times held by `stamps`, feed by feed.
pub open spec fn times_view(stamps: Seq<Vec<Timestamp>>) -> Seq<Seq<Timestamp>> {
    stamps.map_values(|v: Vec<Timestamp>| v@)
}

/// Position `a` of `keys` goes before position `b`: it is earlier, or as early
/// and listed first.
pub open spec fn goes_before(keys: Seq<Timestamp>, a: usize, b: usize) -> bool {
    keys[a as int].before(keys[b as int]) || (keys[a as int] == keys[b as int] && a < b)
}

/// `perm` lists every position of `keys` once, in ascending time, positions
/// of equal time in the order they are listed.
pub open spec fn stable_time_order(keys: Seq<Timestamp>, perm: Seq<usize>) -> bool {
    &&& perm.len() == keys.len()
    &&& forall|j: int| 0 <= j < perm.len() ==> #[trigger] perm[j] < keys.len()
    &&& forall|q: int| 0 <= q < keys.len() ==> #[trigger] perm.contains(q as usize)
    &&& forall|i: int, j: int|
        0 <= i < j < perm.len() ==> goes_before(keys, #[trigger] perm[i], #[trigger] perm[j])
}

/// A stable sort of positions by time.
pub fn stable_time_sort(keys: &Vec<Timestamp>) -> (perm: Vec<usize>)
    ensures
        stable_time_order(keys@, perm@),
{
    let mut perm: Vec<usize> = Vec::new();
    let mut n: usize = 0;
    while n < keys.len()
        invariant
            n <= keys@.len(),
            perm@.len() == n,
            forall|j: int| 0 <= j < perm@.len() ==> #[trigger] perm@[j] < n,
            forall|q: int| 0 <= q < n ==> #[trigger] perm@.contains(q as usize),
            forall|i: int, j: int|
                0 <= i < j < perm@.len() ==> goes_before(
                    keys@,
                    #[trigger] perm@[i],
                    #[trigger] perm@[j],
                ),
        decreases keys@.len() - n,
    {
        let mut p: usize = 0;
        while p < perm.len() && !keys[perm[p]].is_after(&keys[n])
            invariant
                p <= perm@.len(),
                n < keys@.len(),
                forall|j: int| 0 <= j < perm@.len() ==> #[trigger] perm@[j] < n,
                forall|q: int| 0 <= q < p ==> !keys@[n as int].before(keys@[#[trigger] perm@[q] as int]),
            decreases perm@.len() - p,
        {
            p += 1;
        }
        let ghost old_perm = perm@;
        perm.insert(p, n);
        proof {
            let np = perm@;
            assert forall|i: int, j: int| 0 <= i < j < np.len() implies goes_before(
                keys@,
                #[trigger] np[i],
                #[trigger] np[j],
            ) by {
                if i < p && j == p {
                    assert(!keys@[n as int].before(keys@[old_perm[i] as int]));
                } else if i == p {
                    assert(keys@[n as int].before(keys@[old_perm[p as int] as int]));
                    if j - 1 > p {
                        assert(goes_before(keys@, old_perm[p as int], old_perm[j - 1]));
                    }
                } else if j < p {
                    assert(goes_before(keys@, old_perm[i], old_perm[j]));
                } else if i < p {
                    assert(goes_before(keys@, old_perm[i], old_perm[j - 1]));
                } else {
                    assert(goes_before(keys@, old_perm[i - 1], old_perm[j - 1]));
                }
            }
            assert forall|q: int| 0 <= q < n + 1 implies #[trigger] np.contains(q as usize) by {
                if q == n {
                    assert(np[p as int] == n);
                } else {
                    assert(old_perm.contains(q as usize));
                    let idx = choose|idx: int| 0 <= idx < old_perm.len() && old_perm[idx] == q as usize;
                    if idx < p {
                        assert(np[idx] == q as usize);
                    } else {
                        assert(np[idx + 1] == q as usize);
                    }
                }
            }
        }
        n += 1;
    }
    perm
}

/// The times of the items of the reverse-chronological pool, in pool order.
pub open spec fn pool_times(stamps: Seq<Seq<Timestamp>>, cap: usize) -> Seq<Timestamp> {
    chrono_pool(lens_of(stamps), cap).map_values(|x: ItemRef| stamps[x.0 as int][x.1 as int])
}

/// `plan` is the reverse-chronological pool sorted stably by item time.
pub open spec fn is_chrono_plan(stamps: Seq<Seq<Timestamp>>, cap: usize, plan: Seq<ItemRef>) -> bool {
    exists|perm: Seq<usize>|
        stable_time_order(pool_times(stamps, cap), perm) && plan == perm.map_values(
            |p: usize| chrono_pool(lens_of(stamps), cap)[p as int],
        )
}

/// The order of the reverse-chronological mode over feeds whose item times
/// are `stamps` (in canonical feed order): the first `min(len, cap)` items of
/// every feed, concatenated, then sorted by time, earliest first, items of
/// equal time kept in concatenation order.
pub fn chrono_plan(stamps: &Vec<Vec<Timestamp>>, cap: usize) -> (r: Vec<ItemRef>)
    ensures
        is_chrono_plan(times_view(stamps@), cap, r@),
{
    let ghost lens = lens_of(times_view(stamps@));
    let mut pool: Vec<ItemRef> = Vec::new();
    let mut keys: Vec<Timestamp> = Vec::new();
    let mut f: usize = 0;
    while f < stamps.len()
        invariant
            f <= stamps@.len(),
            lens == lens_of(times_view(stamps@)),
            pool@ == pool_prefix(lens, cap, f as int),
            keys@.len() == pool@.len(),
            forall|j: int|
                0 <= j < pool@.len() ==> (#[trigger] pool@[j]).0 < stamps@.len() && pool@[j].1
                    < stamps@[pool@[j].0 as int]@.len(),
            forall|j: int|
                0 <= j < pool@.len() ==> #[trigger] keys@[j] == stamps@[pool@[j].0 as int]@[pool@[j].1 as int],
        decreases stamps@.len() - f,
    {
        let feed = &stamps[f];
        let c = if feed.len() < cap {
            feed.len()
        } else {
            cap
        };
        let mut i: usize = 0;
        while i < c
            invariant
                f < stamps@.len(),
                lens == lens_of(times_view(stamps@)),
                *feed == stamps@[f as int],
                c == capped(lens[f as int], cap),
                c <= feed@.len(),
                i <= c,
                pool@ == pool_prefix(lens, cap, f as int) + Seq::new(i as nat, |t: int| (f, t as usize)),
                keys@.len() == pool@.len(),
                forall|j: int|
                    0 <= j < pool@.len() ==> (#[trigger] pool@[j]).0 < stamps@.len() && pool@[j].1
                        < stamps@[pool@[j].0 as int]@.len(),
                forall|j: int|
                    0 <= j < pool@.len() ==> #[trigger] keys@[j] == stamps@[pool@[j].0 as int]@[pool@[j].1 as int],
            decreases c - i,
        {
            pool.push((f, i));
            keys.push(feed[i]);
            proof {
                assert(pool@ =~= pool_prefix(lens, cap, f as int) + Seq::new((i + 1) as nat, |t: int| (f, t as usize)));
            }
            i += 1;
        }
        proof {
            assert(pool@ =~= pool_prefix(lens, cap, (f + 1) as int));
        }
        f += 1;
    }
    let perm = stable_time_sort(&keys);
    proof {
        assert(pool@ == chrono_pool(lens, cap));
        assert forall|j: int| 0 <= j < keys@.len() implies keys@[j] == #[trigger] pool_times(
            times_view(stamps@),
            cap,
        )[j] by {
            assert(times_view(stamps@)[pool@[j].0 as int] == stamps@[pool@[j].0 as int]@);
        }
        assert(keys@ =~= pool_times(times_view(stamps@), cap));
    }
    let mut r: Vec<ItemRef> = Vec::new();
    let mut j: usize = 0;
    while j < perm.len()
        invariant
            j <= perm@.len(),
            stable_time_order(keys@, perm@),
            pool@.len() == keys@.len(),
            r@ == perm@.take(j as int).map_values(|p: usize| pool@[p as int]),
        decreases perm@.len() - j,
    {
        r.push(pool[perm[j]]);
        proof {
            assert(r@ =~= perm@.take((j + 1) as int).map_values(|p: usize| pool@[p as int]));
        }
        j += 1;
    }
    proof {
        assert(perm@.take(j as int) =~= perm@);
        assert(stable_time_order(pool_times(times_view(stamps@), cap), perm@));
    }
    r
}

proof fn lemma_pool_within(lens: Seq<usize>, cap: usize, m: int)
    requires
        0 <= m <= lens.len(),
        lens.len() <= usize::MAX,
    ensures
        draws_within_cap(lens, cap, pool_prefix(lens, cap, m)),
        forall|j: int|
            0 <= j < pool_prefix(lens, cap, m).len() ==> (#[trigger] pool_prefix(lens, cap, m)[j]).0
                < m,
        pool_prefix(lens, cap, m).no_duplicates(),
    decreases m,
{
    if m > 0 {
        lemma_pool_within(lens, cap, m - 1);
        let rest = pool_prefix(lens, cap, m - 1);
        let all = pool_prefix(lens, cap, m);
        assert forall|j: int| 0 <= j < all.len() implies (#[trigger] all[j]).0 < lens.len()
            && all[j].1 < capped(lens[all[j].0 as int], cap) && all[j].0 < m by {
            if j < rest.len() {
                assert(all[j] == rest[j]);
            }
        }
        assert forall|i: int, j: int| 0 <= i < all.len() && 0 <= j < all.len() && i != j implies all[i]
            != all[j] by {
            if i < rest.len() && j < rest.len() {
                assert(all[i] == rest[i] && all[j] == rest[j]);
            } else if i < rest.len() {
                assert(all[i] == rest[i]);
            } else if j < rest.len() {
                assert(all[j] == rest[j]);
            }
        }
    }
}

/// Any plan with the entries of the alphabetical plan, and any
/// reverse-chronological plan, draws each item at most once, and from each
/// feed only among its first `min(len, cap)` items.
pub proof fn plans_within_cap(
    lens: Seq<usize>,
    cap: usize,
    plan: Seq<ItemRef>,
    stamps: Seq<Seq<Timestamp>>,
)
    requires
        lens.len() <= usize::MAX,
    ensures
        plan.to_multiset() == alphabetical_plan(lens, cap).to_multiset() ==> draws_within_cap(
            lens,
            cap,
            plan,
        ) && plan.no_duplicates(),
        lens == lens_of(stamps) && is_chrono_plan(stamps, cap, plan) ==> draws_within_cap(
            lens,
            cap,
            plan,
        ) && plan.no_duplicates(),
{
    lemma_rounds_indices(lens, cap, cap as int);
    lemma_pool_within(lens, cap, lens.len() as int);
    broadcast use vstd::seq_lib::group_to_multiset_ensures;
    if plan.to_multiset() == alphabetical_plan(lens, cap).to_multiset() {
        let a = alphabetical_plan(lens, cap);
        assert forall|j: int| 0 <= j < plan.len() implies (#[trigger] plan[j]).0 < lens.len()
            && plan[j].1 < capped(lens[plan[j].0 as int], cap) by {
            assert(plan.contains(plan[j]));
            assert(plan.to_multiset().count(plan[j]) > 0);
            assert(a.contains(plan[j]));
        }
        a.lemma_multiset_has_no_duplicates();
        plan.lemma_multiset_has_no_duplicates_conv();
    }
    if lens == lens_of(stamps) && is_chrono_plan(stamps, cap, plan) {
        let pool = chrono_pool(lens, cap);
        let perm = choose|perm: Seq<usize>|
            stable_time_order(pool_times(stamps, cap), perm) && plan == perm.map_values(
                |p: usize| chrono_pool(lens_of(stamps), cap)[p as int],
            );
        assert forall|j: int| 0 <= j < plan.len() implies (#[trigger] plan[j]).0 < lens.len()
            && plan[j].1 < capped(lens[plan[j].0 as int], cap) by {
            assert(perm[j] < pool_times(stamps, cap).len());
            assert(plan[j] == pool[perm[j] as int]);
        }
        assert forall|i: int, j: int| 0 <= i < plan.len() && 0 <= j < plan.len() && i != j implies plan[i]
            != plan[j] by {
            if i < j {
                assert(goes_before(pool_times(stamps, cap), perm[i], perm[j]));
            } else {
                assert(goes_before(pool_times(stamps, cap), perm[j], perm[i]));
            }
            assert(perm[i] != perm[j]);
            assert(plan[i] == pool[perm[i] as int] && plan[j] == pool[perm[j] as int]);
        }
    }
}

} // verus!
