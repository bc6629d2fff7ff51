//! A fan-out feed aggregator: canonical requests, a format-detecting feed
//! parser, fetch decisions over a positive and a negative feed cache, and a
//! merger that orders the items of many feeds under one of three policies.

pub mod feed;
pub mod merge;
pub mod pipeline;
pub mod request;
pub mod timestamp;

pub use feed::{dated_items, parse_as_rss_or_atom, rss_date_or_epoch, DatedItem, FeedDoc, ParsedFeed, UnifiedItem};
pub use merge::{chrono_plan, round_robin_plan, stable_time_sort, ItemRef};
pub use pipeline::{
    begin_poll, finish_poll, plan_fetch, settle_download, successes, DownloadResult, FetchStep,
    PollStart, RssResponse,
};
pub use request::{fetch_targets, MaxFeedItems, RssRequest, ShowMode, MAX_FEED_REQUEST, MAX_ITEMS_PER_FEED};
pub use timestamp::Timestamp;
