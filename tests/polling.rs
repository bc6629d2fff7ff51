use rss_fanout::{
    begin_poll, fetch_targets, finish_poll, parse_as_rss_or_atom, plan_fetch, settle_download,
    successes, DownloadResult, FetchStep, MaxFeedItems, PollStart, RssRequest, RssResponse,
    ShowMode, MAX_FEED_REQUEST,
};
use std::collections::BTreeSet;

const RSS: &str = "<?xml version=\"1.0\"?><rss version=\"2.0\"><channel><title>t</title><link>http://x/</link><description>d</description><item><title>one</title></item></channel></rss>";

fn request(urls: &[String]) -> RssRequest {
    RssRequest {
        feeds: urls.iter().cloned().collect::<BTreeSet<String>>(),
        max_feed_items: MaxFeedItems(5),
        show_mode: ShowMode::EqualChronoAlphabetical,
    }
}

#[test]
fn only_the_first_urls_in_canonical_order_are_fetched() {
    let urls: Vec<String> = (0..25).rev().map(|i| format!("http://feed{:02}.example/", i)).collect();
    let req = request(&urls);
    let targets = req.targets();
    assert_eq!(targets.len(), MAX_FEED_REQUEST);
    let expected: Vec<String> = (0..20).map(|i| format!("http://feed{:02}.example/", i)).collect();
    assert_eq!(targets, expected);
}

#[test]
fn invalid_urls_are_dropped_and_valid_ones_normalized() {
    let urls = vec![
        "not a url".to_string(),
        "HTTP://Example.COM".to_string(),
        "http://b.example/x".to_string(),
    ];
    assert_eq!(
        fetch_targets(&urls, 5),
        vec!["http://example.com/".to_string(), "http://b.example/x".to_string()]
    );
    assert_eq!(fetch_targets(&urls, 1), vec!["http://example.com/".to_string()]);
    assert!(fetch_targets(&urls, 0).is_empty());
}

#[test]
fn non_feed_is_flagged_and_then_skipped() {
    let outcome = settle_download(Some("plain text".to_string()));
    assert!(matches!(outcome, DownloadResult::NotAFeed));
    assert!(outcome.flags_non_feed());
    let cached = parse_as_rss_or_atom(RSS);
    assert!(matches!(plan_fetch(true, cached), FetchStep::SkipNonFeed));
    assert!(matches!(plan_fetch(true, None), FetchStep::SkipNonFeed));
}

#[test]
fn fetch_steps_and_download_outcomes() {
    assert!(matches!(plan_fetch(false, None), FetchStep::Download));
    assert!(matches!(plan_fetch(false, parse_as_rss_or_atom(RSS)), FetchStep::UseCached(_)));
    let unreachable = settle_download(None);
    assert!(matches!(unreachable, DownloadResult::Unreachable));
    assert!(!unreachable.flags_non_feed());
    let parsed = settle_download(Some(RSS.to_string()));
    assert!(matches!(parsed, DownloadResult::Parsed(_)));
    assert!(!parsed.flags_non_feed());
}

#[test]
fn fan_in_keeps_target_order_and_drops_failures() {
    let a = parse_as_rss_or_atom(RSS).unwrap();
    let out = successes(vec![
        ("http://a.example/".to_string(), None),
        ("http://b.example/".to_string(), Some(a.clone())),
        ("http://c.example/".to_string(), None),
        ("http://d.example/".to_string(), Some(a)),
    ]);
    assert_eq!(out.len(), 2);
    assert!(successes(vec![("http://a.example/".to_string(), None)]).is_empty());
}

#[test]
fn cached_response_is_returned_without_fetching() {
    let req = request(&["http://a.example/".to_string()]);
    let feed = parse_as_rss_or_atom(RSS).unwrap();
    let response = finish_poll(&req, vec![("http://a.example/".to_string(), Some(feed))]);
    assert_eq!(response.items.len(), 1);
    match begin_poll(&req, Some(response.clone())) {
        PollStart::Respond(r) => assert_eq!(format!("{:?}", r), format!("{:?}", response)),
        PollStart::FanOut(_) => panic!("a cached answer must not fan out"),
    }
    match begin_poll(&req, None) {
        PollStart::FanOut(t) => assert_eq!(t, vec!["http://a.example/".to_string()]),
        PollStart::Respond(_) => panic!("nothing was cached"),
    }
}

#[test]
fn poll_with_no_successes_is_empty() {
    let req = request(&["http://a.example/".to_string()]);
    let response: RssResponse = finish_poll(&req, vec![("http://a.example/".to_string(), None)]);
    assert!(response.items.is_empty());
}

#[test]
fn a_url_named_twice_is_merged_once() {
    let urls = vec!["http://a.example".to_string(), "http://a.example/".to_string()];
    let req = request(&urls);
    let targets = req.targets();
    assert_eq!(targets, vec!["http://a.example/".to_string(), "http://a.example/".to_string()]);
    let feed = parse_as_rss_or_atom(RSS).unwrap();
    let fetched: Vec<_> = targets.into_iter().map(|t| (t, Some(feed.clone()))).collect();
    let response = finish_poll(&req, fetched);
    assert_eq!(response.items.len(), 1);
    let fetched = vec![
        ("http://a.example/".to_string(), None),
        ("http://a.example/".to_string(), Some(feed)),
    ];
    assert_eq!(successes(fetched).len(), 1);
}

#[test]
fn parsed_download_keeps_its_format() {
    match settle_download(Some(RSS.to_string())) {
        DownloadResult::Parsed(f) => assert!(matches!(f.doc, rss_fanout::FeedDoc::Rss(_))),
        _ => panic!("expected a feed"),
    }
}
