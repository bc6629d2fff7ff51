use crate::feed::{
    atom_accepts, is_parse_of, parse_as_rss_or_atom, rss_accepts, ParsedFeed, UnifiedItem,
};
use crate::request::{
    effective_cap, is_canonical, is_ordering, select_targets, RssRequest,
    MAX_FEED_REQUEST,
};
use vstd::prelude::*;

verus! {

/// The merged items a request is answered with.
#[derive(Clone, Debug)]
pub struct RssResponse {
    pub items: Vec<UnifiedItem>,
}

/// What to do for one URL before any network access.
pub enum FetchStep {
    /// The URL is flagged as no feed: it fails without a network access.
    SkipNonFeed,
    /// A live parse is cached: it is used without a network access.
    UseCached(ParsedFeed),
    /// Neither: download the URL.
    Download,
}

/// The step for a URL, given whether the negative cache flags it and what
/// the positive cache holds for it.
pub open spec fn fetch_step(flagged_non_feed: bool, cached: Option<ParsedFeed>) -> FetchStep {
    if flagged_non_feed {
        FetchStep::SkipNonFeed
    } else {
        match cached {
            Some(f) => FetchStep::UseCached(f),
            None => FetchStep::Download,
        }
    }
}

/// Decides what to do for one URL: the negative cache is consulted first,
/// then the positive one, and only then the network.
pub fn plan_fetch(flagged_non_feed: bool, cached: Option<ParsedFeed>) -> (r: FetchStep)
    ensures
        r == fetch_step(flagged_non_feed, cached),
{
    if flagged_non_feed {
        FetchStep::SkipNonFeed
    } else {
        match cached {
            Some(f) => FetchStep::UseCached(f),
            None => FetchStep::Download,
        }
    }
}

/// What a download came to.
pub enum DownloadResult {
    /// The body parsed: store it in the positive cache and use it.
    Parsed(ParsedFeed),
    /// The body is neither format: flag the URL in the negative cache.
    NotAFeed,
    /// The transport failed: no cache is touched.
    Unreachable,
}

/// The body of a download marks its URL as no feed: it arrived, and neither
/// reader accepts it.
pub open spec fn marks_non_feed(body: Option<Seq<char>>) -> bool {
    match body {
        Some(t) => !rss_accepts(t) && !atom_accepts(t),
        None => false,
    }
}

/// Settles one download, `body` being the text that arrived, or `None` when
/// the transport failed.
pub fn settle_download(body: Option<String>) -> (r: DownloadResult)
    ensures
        body is None ==> r is Unreachable,
        r is NotAFeed <==> marks_non_feed(
            match body {
                Some(t) => Some(t@),
                None => None,
            },
        ),
        body matches Some(t) ==> (r is Parsed <==> rss_accepts(t@) || atom_accepts(t@)),
        body matches Some(t) ==> (r matches DownloadResult::Parsed(f) ==> is_parse_of(t@, f) && (
        f.doc is Rss <==> rss_accepts(t@))),
{
    match body {
        None => DownloadResult::Unreachable,
        Some(t) => match parse_as_rss_or_atom(t.as_str()) {
            Some(f) => DownloadResult::Parsed(f),
            None => DownloadResult::NotAFeed,
        },
    }
}

impl DownloadResult {
    /// Whether the URL goes into the negative cache.
    pub fn flags_non_feed(&self) -> (r: bool)
        ensures
            r == self is NotAFeed,
    {
        match self {
            DownloadResult::NotAFeed => true,
            _ => false,
        }
    }
}

/// A body that neither format accepts flags its URL; while the flag lives,
/// the next request for that URL skips it without a network access, whatever
/// the positive cache holds.
pub proof fn non_feed_is_not_refetched(body: Seq<char>, cached: Option<ParsedFeed>)
    requires
        !rss_accepts(body),
        !atom_accepts(body),
    ensures
        marks_non_feed(Some(body)),
        fetch_step(true, cached) is SkipNonFeed,
{
}

/// Slot `i` of `fetched` (a target URL and what fetching it gave) is the
/// first success for its URL: it holds a feed, and no earlier slot of the same
/// URL does.
pub open spec fn first_success(fetched: Seq<(String, Option<ParsedFeed>)>, i: int) -> bool {
    &&& fetched[i].1 is Some
    &&& forall|j: int| 0 <= j < i && (#[trigger] fetched[j]).0@ == fetched[i].0@ ==> fetched[j].1 is None
}

/// The feeds of the first `m` slots that are the first success for their URL,
/// in slot order.
pub open spec fn kept_prefix(fetched: Seq<(String, Option<ParsedFeed>)>, m: int) -> Seq<ParsedFeed>
    decreases m,
{
    if m <= 0 {
        seq![]
    } else {
        let rest = kept_prefix(fetched, m - 1);
        if first_success(fetched, m - 1) {
            rest.push(fetched[m - 1].1->Some_0)
        } else {
            rest
        }
    }
}

/// The feeds a poll merges: one per URL that some slot fetched, in slot order.
pub open spec fn present(fetched: Seq<(String, Option<ParsedFeed>)>) -> Seq<ParsedFeed> {
    kept_prefix(fetched, fetched.len() as int)
}

/// The fan-in. Each target's outcome sits in the slot of the target's
/// position, so the feeds come out in canonical order whatever order the
/// fetches completed in. Failed targets are dropped, and a URL that several
/// targets normalize to is merged once.
pub fn successes(fetched: Vec<(String, Option<ParsedFeed>)>) -> (r: Vec<ParsedFeed>)
    ensures
        r@ == present(fetched@),
{
    let ghost all = fetched@;
    let mut keep: Vec<bool> = Vec::new();
    let mut i: usize = 0;
    while i < fetched.len()
        invariant
            i <= fetched@.len(),
            fetched@ == all,
            keep@.len() == i,
            forall|x: int| 0 <= x < i ==> #[trigger] keep@[x] == first_success(all, x),
        decreases fetched@.len() - i,
    {
        let mut first = fetched[i].1.is_some();
        let mut j: usize = 0;
        while j < i && first
            invariant
                j <= i < fetched@.len(),
                fetched@ == all,
                first == (all[i as int].1 is Some && forall|y: int|
                    0 <= y < j && (#[trigger] all[y]).0@ == all[i as int].0@ ==> all[y].1 is None),
            decreases i - j,
        {
            if fetched[j].0 == fetched[i].0 && fetched[j].1.is_some() {
                first = false;
            }
            j += 1;
        }
        keep.push(first);
        i += 1;
    }
    let mut slots = fetched;
    let mut r: Vec<ParsedFeed> = Vec::new();
    loop
        invariant
            slots@.len() <= all.len(),
            keep@.len() == all.len(),
            forall|x: int| 0 <= x < all.len() ==> #[trigger] keep@[x] == first_success(all, x),
            forall|x: int| 0 <= x < slots@.len() ==> #[trigger] slots@[x] == all[x],
            kept_prefix(all, slots@.len() as int) + r@ == present(all),
        ensures
            r@ == present(all),
        decreases slots@.len(),
    {
        let ghost before = slots@;
        match slots.pop() {
            None => {
                assert(kept_prefix(all, 0) + r@ =~= r@);
                break;
            },
            Some(slot) => {
                let n = slots.len();
                assert(slot == all[n as int]);
                if keep[n] {
                    match slot.1 {
                        Some(f) => {
                            let ghost r0 = r@;
                            r.insert(0, f);
                            assert(kept_prefix(all, (n + 1) as int) + r0 =~= kept_prefix(all, n as int)
                                + r@);
                        },
                        None => {},
                    }
                } else {
                    assert(kept_prefix(all, (n + 1) as int) == kept_prefix(all, n as int));
                }
            },
        }
    }
    r
}

/// How a poll begins.
pub enum PollStart {
    /// The response cache holds an answer: it is returned as it is, and
    /// nothing is fetched.
    Respond(RssResponse),
    /// No cached answer: fetch these URLs.
    FanOut(Vec<String>),
}

/// `start` is how a poll of `request` may begin when the response cache
/// holds `cached` for it.
pub open spec fn valid_start(request: RssRequest, cached: Option<RssResponse>, start: PollStart) -> bool {
    match cached {
        Some(c) => start == PollStart::Respond(c),
        None => match start {
            PollStart::FanOut(t) => exists|canon: Seq<String>|
                is_canonical(request.feeds@, canon) && t@.map_values(|s: String| s@)
                    == select_targets(canon, MAX_FEED_REQUEST),
            PollStart::Respond(_) => false,
        },
    }
}

/// Begins a poll: `cached` is what the response cache holds for `request`.
pub fn begin_poll(request: &RssRequest, cached: Option<RssResponse>) -> (r: PollStart)
    ensures
        valid_start(*request, cached, r),
{
    match cached {
        Some(c) => PollStart::Respond(c),
        None => PollStart::FanOut(request.targets()),
    }
}

/// Finishes a poll: `fetched` holds, for each target in order, its URL and
/// the feed it gave, or `None` when it failed. The feeds that arrived, one per
/// URL, are merged under the request's mode and effective cap.
pub fn finish_poll(request: &RssRequest, fetched: Vec<(String, Option<ParsedFeed>)>) -> (r:
    RssResponse)
    ensures
        is_ordering(
            request.show_mode,
            present(fetched@),
            effective_cap(request.max_feed_items.0),
            r.items@,
        ),
{
    let feeds = successes(fetched);
    let cap = request.effective_cap();
    RssResponse { items: request.show_mode.order_feeds(&feeds, cap) }
}

/// A repeated request that finds its answer in the response cache gets that
/// very answer back, and starts no fetch.
pub proof fn cached_answer_is_reused(request: RssRequest, cached: RssResponse, start: PollStart)
    requires
        valid_start(request, Some(cached), start),
    ensures
        !(start is FanOut),
        start == PollStart::Respond(cached),
{
}

} // verus!
