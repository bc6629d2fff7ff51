use crate::feed::{DatedItem, ParsedFeed, UnifiedItem};
use crate::merge::{
    plans_within_cap, round_robin_length, total_capped, capped,
    alphabetical_plan, chrono_plan, is_chrono_plan, round_robin_plan, rounds_in_order,
    times_view, ItemRef,
};
use crate::timestamp::Timestamp;
use std::collections::BTreeSet;
use vstd::prelude::*;

verus! {

/// The most items a request may take from one feed, whatever it asks for.
pub const MAX_ITEMS_PER_FEED: usize = 10;

/// The most feeds one request fetches.
pub const MAX_FEED_REQUEST: usize = 20;

/// The per-feed item cap a request asks for.
#[derive(Clone, Copy, Debug, PartialEq, Eq, Structural, Hash)]
pub struct MaxFeedItems(pub usize);

impl Default for MaxFeedItems {
    fn default() -> (r: Self)
        ensures
            r.0 == 5,
    {
        MaxFeedItems(5)
    }
}

/// How the items of several feeds are ordered into one list.
#[derive(Clone, Copy, Debug, PartialEq, Eq, Structural, Hash)]
pub enum ShowMode {
    EqualChronoShuffle,
    ReverseChronological,
    EqualChronoAlphabetical,
}

impl Default for ShowMode {
    fn default() -> (r: Self)
        ensures
            r == ShowMode::EqualChronoShuffle,
    {
        ShowMode::EqualChronoShuffle
    }
}

/// A request: a set of feed URLs, the per-feed cap and the ordering mode.
#[derive(Clone, Debug, PartialEq, Eq, Hash)]
pub struct RssRequest {
    pub feeds: BTreeSet<String>,
    pub max_feed_items: MaxFeedItems,
    pub show_mode: ShowMode,
}

/// The number of items of each feed.
pub open spec fn feed_lens(feeds: Seq<ParsedFeed>) -> Seq<usize> {
    feeds.map_values(|f: ParsedFeed| f.items.len())
}

/// The publication times of the items of each feed.
pub open spec fn feed_times(feeds: Seq<ParsedFeed>) -> Seq<Seq<Timestamp>> {
    feeds.map_values(|f: ParsedFeed| f.items@.map_values(|d: DatedItem| d.published))
}

/// The item that `x` names in `feeds`.
pub open spec fn item_at(feeds: Seq<ParsedFeed>, x: ItemRef) -> UnifiedItem {
    feeds[x.0 as int].items@[x.1 as int].item
}

/// Every reference of `plan` names an item of `feeds`.
pub open spec fn plan_in_bounds(feeds: Seq<ParsedFeed>, plan: Seq<ItemRef>) -> bool {
    forall|j: int|
        0 <= j < plan.len() ==> (#[trigger] plan[j]).0 < feeds.len() && plan[j].1
            < feeds[plan[j].0 as int].items@.len()
}

/// `plan` is an order that `mode` may give to the items of `feeds` under `cap`.
pub open spec fn plan_fits_mode(
    mode: ShowMode,
    feeds: Seq<ParsedFeed>,
    cap: usize,
    plan: Seq<ItemRef>,
) -> bool {
    match mode {
        ShowMode::EqualChronoAlphabetical => plan == alphabetical_plan(feed_lens(feeds), cap),
        ShowMode::EqualChronoShuffle => plan.to_multiset() == alphabetical_plan(
            feed_lens(feeds),
            cap,
        ).to_multiset() && rounds_in_order(plan),
        ShowMode::ReverseChronological => is_chrono_plan(feed_times(feeds), cap, plan),
    }
}

/// `items` is an order `mode` may give to the items of `feeds` under `cap`.
pub open spec fn is_ordering(
    mode: ShowMode,
    feeds: Seq<ParsedFeed>,
    cap: usize,
    items: Seq<UnifiedItem>,
) -> bool {
    exists|plan: Seq<ItemRef>|
        plan_fits_mode(mode, feeds, cap, plan) && items == plan.map_values(
            |x: ItemRef| item_at(feeds, x),
        )
}

impl ShowMode {
    /// Orders the items of `feeds` (in canonical URL order) under this mode,
    /// each feed contributing at most `max_from_feed` items.
    pub fn order_feeds(&self, feeds: &Vec<ParsedFeed>, max_from_feed: usize) -> (r: Vec<
        UnifiedItem,
    >)
        ensures
            is_ordering(*self, feeds@, max_from_feed, r@),
    {
        let plan = match self {
            ShowMode::EqualChronoAlphabetical => round_robin_plan(
                &lens_of_feeds(feeds),
                max_from_feed,
                false,
            ),
            ShowMode::EqualChronoShuffle => round_robin_plan(
                &lens_of_feeds(feeds),
                max_from_feed,
                true,
            ),
            ShowMode::ReverseChronological => {
                let stamps = times_of_feeds(feeds);
                proof {
                    assert(times_view(stamps@) =~= feed_times(feeds@));
                }
                chrono_plan(&stamps, max_from_feed)
            },
        };
        proof {
            assert(plan_fits_mode(*self, feeds@, max_from_feed, plan@));
            let lens = feed_lens(feeds@);
            crate::merge::plans_within_cap(lens, max_from_feed, plan@, feed_times(feeds@));
            assert(crate::merge::lens_of(feed_times(feeds@)) =~= lens);
            assert forall|j: int| 0 <= j < plan@.len() implies (#[trigger] plan@[j]).0
                < feeds@.len() && plan@[j].1 < feeds@[plan@[j].0 as int].items@.len() by {
                assert(lens[plan@[j].0 as int] == feeds@[plan@[j].0 as int].items@.len());
            }
        }
        pick_items(feeds, &plan)
    }
}

fn lens_of_feeds(feeds: &Vec<ParsedFeed>) -> (r: Vec<usize>)
    ensures
        r@ == feed_lens(feeds@),
{
    let mut r: Vec<usize> = Vec::new();
    let mut i: usize = 0;
    while i < feeds.len()
        invariant
            i <= feeds@.len(),
            r@ == feed_lens(feeds@).take(i as int),
        decreases feeds@.len() - i,
    {
        r.push(feeds[i].items.len());
        proof {
            assert(r@ =~= feed_lens(feeds@).take((i + 1) as int));
        }
        i += 1;
    }
    proof {
        assert(feed_lens(feeds@).take(i as int) =~= feed_lens(feeds@));
    }
    r
}

fn times_of_feeds(feeds: &Vec<ParsedFeed>) -> (r: Vec<Vec<Timestamp>>)
    ensures
        times_view(r@) == feed_times(feeds@),
{
    let mut r: Vec<Vec<Timestamp>> = Vec::new();
    let mut i: usize = 0;
    while i < feeds.len()
        invariant
            i <= feeds@.len(),
            r@.len() == i,
            times_view(r@) == feed_times(feeds@).take(i as int),
        decreases feeds@.len() - i,
    {
        let items = &feeds[i].items;
        let mut t: Vec<Timestamp> = Vec::new();
        let mut j: usize = 0;
        while j < items.len()
            invariant
                j <= items@.len(),
                t@ == items@.map_values(|d: DatedItem| d.published).take(j as int),
            decreases items@.len() - j,
        {
            t.push(items[j].published);
            proof {
                assert(t@ =~= items@.map_values(|d: DatedItem| d.published).take((j + 1) as int));
            }
            j += 1;
        }
        proof {
            assert(t@ =~= items@.map_values(|d: DatedItem| d.published));
        }
        let ghost old_r = r@;
        r.push(t);
        proof {
            assert(t@ == feed_times(feeds@)[i as int]);
            assert forall|x: int| 0 <= x <= i implies #[trigger] times_view(r@)[x] == feed_times(
                feeds@,
            )[x] by {
                if x < i {
                    assert(r@[x] == old_r[x]);
                    assert(times_view(old_r)[x] == feed_times(feeds@).take(i as int)[x]);
                }
            }
            assert(times_view(r@) =~= feed_times(feeds@).take((i + 1) as int));
        }
        i += 1;
    }
    proof {
        assert(feed_times(feeds@).take(i as int) =~= feed_times(feeds@));
    }
    r
}

/// The items `plan` names, in plan order.
fn pick_items(feeds: &Vec<ParsedFeed>, plan: &Vec<ItemRef>) -> (r: Vec<UnifiedItem>)
    requires
        plan_in_bounds(feeds@, plan@),
    ensures
        r@ == plan@.map_values(|x: ItemRef| item_at(feeds@, x)),
{
    let mut r: Vec<UnifiedItem> = Vec::new();
    let mut j: usize = 0;
    while j < plan.len()
        invariant
            j <= plan@.len(),
            plan_in_bounds(feeds@, plan@),
            r@ == plan@.take(j as int).map_values(|x: ItemRef| item_at(feeds@, x)),
        decreases plan@.len() - j,
    {
        let x = plan[j];
        r.push(feeds[x.0].items[x.1].item.duplicate());
        proof {
            assert(r@ =~= plan@.take((j + 1) as int).map_values(|x: ItemRef| item_at(feeds@, x)));
        }
        j += 1;
    }
    proof {
        assert(plan@.take(j as int) =~= plan@);
    }
    r
}

/// The per-feed cap a request gets: what it asks for, never above the ceiling.
pub open spec fn effective_cap(asked: usize) -> usize {
    if asked < MAX_ITEMS_PER_FEED {
        asked
    } else {
        MAX_ITEMS_PER_FEED
    }
}

/// `a` sorts strictly before `b`, character by character.
pub open spec fn chars_before(a: Seq<char>, b: Seq<char>) -> bool
    decreases a.len(),
{
    if a.len() == 0 {
        b.len() > 0
    } else if b.len() == 0 {
        false
    } else if a[0] != b[0] {
        (a[0] as u32) < (b[0] as u32)
    } else {
        chars_before(a.drop_first(), b.drop_first())
    }
}

/// `list` holds the strings of `set` once each, in ascending order.
pub open spec fn is_canonical(set: Set<String>, list: Seq<String>) -> bool {
    &&& list.len() == set.len()
    &&& forall|i: int| 0 <= i < list.len() ==> set.contains(#[trigger] list[i])
    &&& forall|i: int, j: int|
        0 <= i < j < list.len() ==> chars_before(#[trigger] list[i]@, #[trigger] list[j]@)
}

/// What the URL parser makes of `text`: its normalized form, or `None` when
/// it is no URL.
pub uninterp spec fn parsed_url(text: Seq<char>) -> Option<Seq<char>>;

/// Relies on `BTreeSet::iter`, which visits the elements in ascending order,
/// and on the order of `String`, which compares the UTF-8 bytes, and so the
/// characters, lexicographically.
#[verifier::external_body]
fn canonical_urls(feeds: &BTreeSet<String>) -> (r: Vec<String>)
    ensures
        is_canonical(feeds@, r@),
{
    feeds.iter().cloned().collect()
}

/// Relies on `reqwest::Url::parse` and the URL's serialization: the
/// normalized URL, or `None` when the text is no URL.
#[verifier::external_body]
fn parse_url(text: &str) -> (r: Option<String>)
    ensures
        match r {
            Some(u) => parsed_url(text@) == Some(u@),
            None => parsed_url(text@) is None,
        },
{
    reqwest::Url::parse(text).ok().map(String::from)
}

/// The normalized forms of the first `m` strings that parse as URLs, in order.
pub open spec fn valid_urls(urls: Seq<String>, m: int) -> Seq<Seq<char>>
    decreases m,
{
    if m <= 0 {
        seq![]
    } else {
        let rest = valid_urls(urls, m - 1);
        match parsed_url(urls[m - 1]@) {
            Some(u) => rest.push(u),
            None => rest,
        }
    }
}

/// The URLs a fetch goes to: the first `limit` strings of `urls` that parse,
/// normalized; the rest are left out.
pub open spec fn select_targets(urls: Seq<String>, limit: usize) -> Seq<Seq<char>> {
    let v = valid_urls(urls, urls.len() as int);
    if v.len() <= limit {
        v
    } else {
        v.take(limit as int)
    }
}

proof fn lemma_valid_urls_grow(urls: Seq<String>, m: int, m2: int)
    requires
        0 <= m <= m2 <= urls.len(),
    ensures
        valid_urls(urls, m).len() <= valid_urls(urls, m2).len(),
        valid_urls(urls, m2).take(valid_urls(urls, m).len() as int) == valid_urls(urls, m),
    decreases m2 - m,
{
    if m < m2 {
        lemma_valid_urls_grow(urls, m, m2 - 1);
        let a = valid_urls(urls, m);
        let b = valid_urls(urls, m2 - 1);
        let c = valid_urls(urls, m2);
        assert(c.take(a.len() as int) =~= b.take(a.len() as int));
    } else {
        assert(valid_urls(urls, m).take(valid_urls(urls, m).len() as int) =~= valid_urls(urls, m));
    }
}

/// Parses `urls` in order, drops those that are no URL, and keeps the first
/// `limit` of the rest, normalized.
pub fn fetch_targets(urls: &Vec<String>, limit: usize) -> (r: Vec<String>)
    ensures
        r@.map_values(|s: String| s@) == select_targets(urls@, limit),
{
    let mut r: Vec<String> = Vec::new();
    let mut i: usize = 0;
    while i < urls.len() && r.len() < limit
        invariant
            i <= urls@.len(),
            r@.len() <= limit,
            r@.map_values(|s: String| s@) == valid_urls(urls@, i as int),
        decreases urls@.len() - i,
    {
        if let Some(u) = parse_url(urls[i].as_str()) {
            r.push(u);
        }
        proof {
            assert(r@.map_values(|s: String| s@) =~= valid_urls(urls@, (i + 1) as int));
        }
        i += 1;
    }
    proof {
        lemma_valid_urls_grow(urls@, i as int, urls@.len() as int);
        if i < urls@.len() {
            assert(r@.len() == limit);
        } else {
            assert(urls@.len() == i);
        }
    }
    r
}

/// Past the ceiling, the fetch goes to exactly the first `limit` URLs of the
/// canonical list that parse, and to no other.
pub proof fn fetch_ceiling(urls: Seq<String>, limit: usize)
    ensures
        select_targets(urls, limit).len() <= limit,
        valid_urls(urls, urls.len() as int).len() > limit ==> select_targets(urls, limit).len()
            == limit,
        forall|i: int|
            0 <= i < select_targets(urls, limit).len() ==> #[trigger] select_targets(urls, limit)[i]
                == valid_urls(urls, urls.len() as int)[i],
{
}

impl RssRequest {
    /// The per-feed cap this request is merged under.
    pub fn effective_cap(&self) -> (r: usize)
        ensures
            r == effective_cap(self.max_feed_items.0),
    {
        if self.max_feed_items.0 < MAX_ITEMS_PER_FEED {
            self.max_feed_items.0
        } else {
            MAX_ITEMS_PER_FEED
        }
    }

    /// The URLs this request fetches: the requested strings in canonical
    /// order, those that are no URL dropped, at most `MAX_FEED_REQUEST` of
    /// them, normalized.
    pub fn targets(&self) -> (r: Vec<String>)
        ensures
            exists|canon: Seq<String>|
                is_canonical(self.feeds@, canon) && r@.map_values(|s: String| s@) == select_targets(
                    canon,
                    MAX_FEED_REQUEST,
                ),
    {
        let canon = canonical_urls(&self.feeds);
        fetch_targets(&canon, MAX_FEED_REQUEST)
    }
}

/// The alphabetical mode is deterministic: merging the same feeds twice gives
/// the same items in the same order.
pub proof fn alphabetical_is_deterministic(
    feeds: Seq<ParsedFeed>,
    cap: usize,
    first: Seq<UnifiedItem>,
    second: Seq<UnifiedItem>,
)
    requires
        is_ordering(ShowMode::EqualChronoAlphabetical, feeds, cap, first),
        is_ordering(ShowMode::EqualChronoAlphabetical, feeds, cap, second),
    ensures
        first == second,
{
}

/// In both round-robin modes the merge holds, in all, the sum over the feeds
/// of `min(len, cap)` items.
pub proof fn round_robin_output_length(
    mode: ShowMode,
    feeds: Seq<ParsedFeed>,
    cap: usize,
    items: Seq<UnifiedItem>,
)
    requires
        mode != ShowMode::ReverseChronological,
        is_ordering(mode, feeds, cap, items),
    ensures
        items.len() == total_capped(feed_lens(feeds), cap),
{
    let plan = choose|plan: Seq<ItemRef>|
        plan_fits_mode(mode, feeds, cap, plan) && items == plan.map_values(
            |x: ItemRef| item_at(feeds, x),
        );
    round_robin_length(feed_lens(feeds), cap, plan);
}

/// Whatever cap a request asks for, the merge takes from each feed only items
/// among its first `MAX_ITEMS_PER_FEED`, each at most once: no feed gives more
/// than `MAX_ITEMS_PER_FEED` items.
pub proof fn per_feed_cap_enforced(
    mode: ShowMode,
    feeds: Seq<ParsedFeed>,
    asked: usize,
    plan: Seq<ItemRef>,
)
    requires
        feeds.len() <= usize::MAX,
        plan_fits_mode(mode, feeds, effective_cap(asked), plan),
    ensures
        plan.no_duplicates(),
        forall|j: int|
            0 <= j < plan.len() ==> (#[trigger] plan[j]).1 < MAX_ITEMS_PER_FEED && plan[j].1
                < feeds[plan[j].0 as int].items@.len(),
{
    let cap = effective_cap(asked);
    let lens = feed_lens(feeds);
    plans_within_cap(lens, cap, plan, feed_times(feeds));
    assert(crate::merge::lens_of(feed_times(feeds)) =~= lens);
    assert forall|j: int| 0 <= j < plan.len() implies (#[trigger] plan[j]).1 < MAX_ITEMS_PER_FEED
        && plan[j].1 < feeds[plan[j].0 as int].items@.len() by {
        assert(plan[j].1 < capped(lens[plan[j].0 as int], cap));
    }
}

} // verus!
