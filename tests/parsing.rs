use rss_fanout::{dated_items, parse_as_rss_or_atom, rss_date_or_epoch, FeedDoc, Timestamp, UnifiedItem};

const RSS: &str = "<?xml version=\"1.0\"?><rss version=\"2.0\"><channel><title>t</title><link>http://x/</link><description>d</description><item><title>one</title><pubDate>Mon, 02 Jan 2006 15:04:05 -0700</pubDate></item><item><title>two</title></item></channel></rss>";

const ATOM: &str = "<?xml version=\"1.0\"?><feed xmlns=\"http://www.w3.org/2005/Atom\"><title>f</title><id>urn:f</id><updated>2020-01-01T00:00:00Z</updated><entry><title>e</title><id>urn:e</id><updated>2020-01-01T00:00:00Z</updated><published>1970-01-01T00:01:00+00:00</published></entry></feed>";

#[test]
fn rss_text_is_read_as_rss() {
    let f = parse_as_rss_or_atom(RSS).expect("rss");
    assert!(matches!(f.doc, FeedDoc::Rss(_)));
    assert_eq!(f.items.len(), 2);
    assert_eq!(f.items[0].published, Timestamp { secs: 1136239445, nanos: 0 });
    assert_eq!(f.items[1].published, Timestamp { secs: 0, nanos: 0 });
}

#[test]
fn atom_text_is_read_as_atom() {
    let f = parse_as_rss_or_atom(ATOM).expect("atom");
    assert!(matches!(f.doc, FeedDoc::Atom(_)));
    assert_eq!(f.items.len(), 1);
    assert_eq!(f.items[0].published, Timestamp { secs: 60, nanos: 0 });
}

#[test]
fn other_text_is_no_feed() {
    assert!(parse_as_rss_or_atom("hello, world").is_none());
    assert!(parse_as_rss_or_atom("<html><body>no</body></html>").is_none());
}

#[test]
fn publication_dates() {
    assert_eq!(
        rss_date_or_epoch(Some("Thu, 01 Jan 1970 00:00:05 +0000")),
        Timestamp { secs: 5, nanos: 0 }
    );
    assert_eq!(
        rss_date_or_epoch(Some("Thu, 01 Jan 1970 01:00:05 +0100")),
        Timestamp { secs: 5, nanos: 0 }
    );
    assert_eq!(rss_date_or_epoch(Some("yesterday")), Timestamp::epoch());
    assert_eq!(rss_date_or_epoch(None), Timestamp::epoch());
}

#[test]
fn dated_items_follow_document_order() {
    let f = parse_as_rss_or_atom(RSS).unwrap();
    let items = dated_items(&f.doc);
    assert_eq!(items.len(), 2);
    let titles: Vec<String> = items
        .iter()
        .map(|d| match &d.item {
            UnifiedItem::Rss(i) => i.title().unwrap_or("").to_string(),
            UnifiedItem::Atom(e) => e.title().as_str().to_string(),
        })
        .collect();
    assert_eq!(titles, vec!["one", "two"]);
    assert_eq!(items[0].published, Timestamp { secs: 1136239445, nanos: 0 });
    assert_eq!(items[1].published, Timestamp::epoch());
}

#[test]
fn parsing_twice_gives_the_same_feed() {
    let a = parse_as_rss_or_atom(ATOM).unwrap();
    let b = parse_as_rss_or_atom(ATOM).unwrap();
    assert_eq!(format!("{:?}", a), format!("{:?}", b));
}
