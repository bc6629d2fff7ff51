use rss_fanout::{
    chrono_plan, parse_as_rss_or_atom, round_robin_plan, stable_time_sort, MaxFeedItems,
    ParsedFeed, RssRequest, ShowMode, Timestamp, UnifiedItem, MAX_ITEMS_PER_FEED,
};
use std::collections::BTreeSet;

fn rss_doc(items: &[(&str, Option<i64>)]) -> String {
    let mut body = String::new();
    for (title, secs) in items {
        body.push_str("<item><title>");
        body.push_str(title);
        body.push_str("</title>");
        if let Some(s) = secs {
            body.push_str(&format!("<pubDate>Thu, 01 Jan 1970 00:00:{:02} +0000</pubDate>", s));
        }
        body.push_str("</item>");
    }
    format!(
        "<?xml version=\"1.0\"?><rss version=\"2.0\"><channel><title>t</title><link>http://x/</link><description>d</description>{}</channel></rss>",
        body
    )
}

fn feed(items: &[(&str, Option<i64>)]) -> ParsedFeed {
    parse_as_rss_or_atom(&rss_doc(items)).expect("a valid channel")
}

fn titles(items: &[UnifiedItem]) -> Vec<String> {
    items
        .iter()
        .map(|i| match i {
            UnifiedItem::Rss(r) => r.title().unwrap_or("").to_string(),
            UnifiedItem::Atom(a) => a.title().as_str().to_string(),
        })
        .collect()
}

#[test]
fn reverse_chronological_sorts_ascending_by_time() {
    let a = feed(&[("a1", Some(5)), ("a2", Some(3))]);
    let b = feed(&[("b1", Some(4))]);
    let out = ShowMode::ReverseChronological.order_feeds(&vec![a, b], 2);
    assert_eq!(titles(&out), vec!["a2", "b1", "a1"]);
}

#[test]
fn alphabetical_round_robin_scenario() {
    let a = feed(&[("x", None), ("y", None)]);
    let b = feed(&[("z", None)]);
    let out = ShowMode::EqualChronoAlphabetical.order_feeds(&vec![a, b], 5);
    assert_eq!(titles(&out), vec!["x", "z", "y"]);
}

#[test]
fn alphabetical_is_repeatable() {
    let feeds = vec![
        feed(&[("p", None), ("q", None), ("r", None)]),
        feed(&[("s", None)]),
        feed(&[("t", None), ("u", None)]),
    ];
    let first = ShowMode::EqualChronoAlphabetical.order_feeds(&feeds, 2);
    let second = ShowMode::EqualChronoAlphabetical.order_feeds(&feeds, 2);
    assert_eq!(titles(&first), titles(&second));
    assert_eq!(titles(&first), vec!["p", "s", "t", "q", "u"]);
}

#[test]
fn round_robin_length_is_sum_of_capped_sizes() {
    let lens = vec![3usize, 1, 0, 5];
    let alpha = round_robin_plan(&lens, 2, false);
    assert_eq!(alpha, vec![(0, 0), (1, 0), (3, 0), (0, 1), (3, 1)]);
    let shuffled = round_robin_plan(&lens, 2, true);
    assert_eq!(shuffled.len(), 5);
    let mut sorted = shuffled.clone();
    sorted.sort();
    let mut expected = alpha.clone();
    expected.sort();
    assert_eq!(sorted, expected);
    for w in shuffled.windows(2) {
        assert!(w[0].1 <= w[1].1);
    }
}

#[test]
fn shuffle_mode_takes_one_item_per_feed_per_round() {
    let feeds = vec![
        feed(&[("a0", None), ("a1", None), ("a2", None)]),
        feed(&[("b0", None)]),
        feed(&[("c0", None), ("c1", None)]),
    ];
    let out = titles(&ShowMode::EqualChronoShuffle.order_feeds(&feeds, 10));
    assert_eq!(out.len(), 6);
    let mut first_round: Vec<String> = out[..3].to_vec();
    first_round.sort();
    assert_eq!(first_round, vec!["a0", "b0", "c0"]);
    let mut second_round: Vec<String> = out[3..5].to_vec();
    second_round.sort();
    assert_eq!(second_round, vec!["a1", "c1"]);
    assert_eq!(out[5], "a2");
}

#[test]
fn empty_inputs_and_zero_cap_give_nothing() {
    assert!(round_robin_plan(&vec![], 5, false).is_empty());
    assert!(round_robin_plan(&vec![4, 2], 0, false).is_empty());
    assert!(round_robin_plan(&vec![4, 2], 0, true).is_empty());
    assert!(chrono_plan(&vec![], 3).is_empty());
    let empty = feed(&[]);
    assert!(ShowMode::EqualChronoAlphabetical.order_feeds(&vec![empty.clone()], 5).is_empty());
    assert!(ShowMode::ReverseChronological.order_feeds(&vec![empty], 5).is_empty());
}

#[test]
fn chrono_plan_takes_first_items_then_sorts_stably() {
    let t = |s: i64| Timestamp { secs: s, nanos: 0 };
    let stamps = vec![vec![t(9), t(1), t(0)], vec![t(1), t(5)]];
    assert_eq!(chrono_plan(&stamps, 2), vec![(0, 1), (1, 0), (1, 1), (0, 0)]);
}

#[test]
fn stable_sort_keeps_ties_in_order() {
    let t = |s: i64, n: u32| Timestamp { secs: s, nanos: n };
    let keys = vec![t(2, 0), t(1, 5), t(2, 0), t(1, 4), t(-3, 0)];
    assert_eq!(stable_time_sort(&keys), vec![4, 3, 1, 0, 2]);
}

#[test]
fn requested_cap_is_held_to_the_ceiling() {
    let request = RssRequest {
        feeds: BTreeSet::new(),
        max_feed_items: MaxFeedItems(1000),
        show_mode: ShowMode::EqualChronoAlphabetical,
    };
    assert_eq!(request.effective_cap(), MAX_ITEMS_PER_FEED);
    let names: Vec<String> = (0..15).map(|i| format!("i{}", i)).collect();
    let items: Vec<(&str, Option<i64>)> = names.iter().map(|n| (n.as_str(), None)).collect();
    let big = feed(&items);
    let out = ShowMode::EqualChronoAlphabetical.order_feeds(&vec![big.clone()], request.effective_cap());
    assert_eq!(out.len(), 10);
    let out = ShowMode::ReverseChronological.order_feeds(&vec![big], request.effective_cap());
    assert_eq!(out.len(), 10);
    let small = RssRequest {
        feeds: BTreeSet::new(),
        max_feed_items: MaxFeedItems(3),
        show_mode: ShowMode::EqualChronoAlphabetical,
    };
    assert_eq!(small.effective_cap(), 3);
}

#[test]
fn defaults() {
    assert_eq!(MaxFeedItems::default(), MaxFeedItems(5));
    assert_eq!(ShowMode::default(), ShowMode::EqualChronoShuffle);
}
