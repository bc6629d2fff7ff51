use crate::timestamp::Timestamp;
use std::str::FromStr;
use vstd::prelude::*;

verus! {

#[verifier::external_type_specification]
#[verifier::external_body]
pub struct ExRssChannel(rss::Channel);

#[verifier::external_type_specification]
#[verifier::external_body]
pub struct ExRssItem(rss::Item);

#[verifier::external_type_specification]
#[verifier::external_body]
pub struct ExAtomFeed(atom_syndication::Feed);

#[verifier::external_type_specification]
#[verifier::external_body]
pub struct ExAtomEntry(atom_syndication::Entry);

/// The channel the RSS reader makes of `text`, if it accepts it.
pub uninterp spec fn rss_document(text: Seq<char>) -> Option<rss::Channel>;

/// The feed the Atom reader makes of `text`, if it accepts it.
pub uninterp spec fn atom_document(text: Seq<char>) -> Option<atom_syndication::Feed>;

/// Whether the RSS reader accepts `text` as a channel document.
pub open spec fn rss_accepts(text: Seq<char>) -> bool {
    rss_document(text) is Some
}

/// Whether the Atom reader accepts `text` as a feed document.
pub open spec fn atom_accepts(text: Seq<char>) -> bool {
    atom_document(text) is Some
}

/// The instant an RFC 2822 date-time denotes, if `text` is one.
pub uninterp spec fn rfc2822_instant(text: Seq<char>) -> Option<Timestamp>;

/// The items of a channel, in document order.
pub uninterp spec fn channel_items(c: rss::Channel) -> Seq<rss::Item>;

/// The entries of an Atom feed, in document order.
pub uninterp spec fn feed_entries(f: atom_syndication::Feed) -> Seq<atom_syndication::Entry>;

/// The publication date text of an RSS item, if it has one.
pub uninterp spec fn item_pub_date(i: rss::Item) -> Option<Seq<char>>;

/// The instant an Atom entry says it was published, if it says so.
pub uninterp spec fn entry_published(e: atom_syndication::Entry) -> Option<Timestamp>;

/// Relies on `rss::Channel::from_str`: the channel it reads depends on the
/// text alone.
#[verifier::external_body]
fn read_rss(text: &str) -> (r: Option<rss::Channel>)
    ensures
        r == rss_document(text@),
{
    rss::Channel::from_str(text).ok()
}

/// Relies on `atom_syndication::Feed::from_str`: the feed it reads depends on
/// the text alone.
#[verifier::external_body]
fn read_atom(text: &str) -> (r: Option<atom_syndication::Feed>)
    ensures
        r == atom_document(text@),
{
    atom_syndication::Feed::from_str(text).ok()
}

/// Relies on `chrono::DateTime::parse_from_rfc2822`, taking the parsed
/// date-time to its Unix seconds and sub-second nanoseconds.
#[verifier::external_body]
fn read_rfc2822(text: &str) -> (r: Option<Timestamp>)
    ensures
        r == rfc2822_instant(text@),
{
    chrono::DateTime::parse_from_rfc2822(text).ok().map(
        |d| Timestamp { secs: d.timestamp(), nanos: d.timestamp_subsec_nanos() },
    )
}

/// Relies on `rss::Channel::items`: the channel's items, in document order.
#[verifier::external_body]
fn rss_items(c: &rss::Channel) -> (r: Vec<rss::Item>)
    ensures
        r@ == channel_items(*c),
{
    c.items().to_vec()
}

/// Relies on `atom_syndication::Feed::entries`: the feed's entries, in
/// document order.
#[verifier::external_body]
fn atom_entries(f: &atom_syndication::Feed) -> (r: Vec<atom_syndication::Entry>)
    ensures
        r@ == feed_entries(*f),
{
    f.entries().to_vec()
}

/// Relies on `rss::Item::pub_date`: the item's publication date text, if any.
#[verifier::external_body]
fn rss_pub_date(i: &rss::Item) -> (r: Option<String>)
    ensures
        match r {
            Some(s) => item_pub_date(*i) == Some(s@),
            None => item_pub_date(*i) is None,
        },
{
    i.pub_date().map(|s| s.to_string())
}

/// Relies on `atom_syndication::Entry::published`, taking the date-time to its
/// Unix seconds and sub-second nanoseconds.
#[verifier::external_body]
fn atom_published(e: &atom_syndication::Entry) -> (r: Option<Timestamp>)
    ensures
        r == entry_published(*e),
{
    e.published().map(|d| Timestamp { secs: d.timestamp(), nanos: d.timestamp_subsec_nanos() })
}

/// Relies on the `Clone` that `rss::Item` derives: a copy of every field.
pub assume_specification[ <rss::Item as std::clone::Clone>::clone ](i: &rss::Item) -> (r: rss::Item)
    ensures
        r == *i,
;

/// Relies on the `Clone` that `rss::Channel` derives: a copy of every field.
pub assume_specification[ <rss::Channel as std::clone::Clone>::clone ](c: &rss::Channel) -> (r:
    rss::Channel)
    ensures
        r == *c,
;

/// Relies on the `Clone` that `atom_syndication::Entry` derives: a copy of
/// every field.
pub assume_specification[ <atom_syndication::Entry as std::clone::Clone>::clone ](
    e: &atom_syndication::Entry,
) -> (r: atom_syndication::Entry)
    ensures
        r == *e,
;

/// Relies on the `Clone` that `atom_syndication::Feed` derives: a copy of
/// every field.
pub assume_specification[ <atom_syndication::Feed as std::clone::Clone>::clone ](
    f: &atom_syndication::Feed,
) -> (r: atom_syndication::Feed)
    ensures
        r == *f,
;

/// One item of either format.
#[derive(Clone, Debug)]
pub enum UnifiedItem {
    Rss(rss::Item),
    Atom(atom_syndication::Entry),
}

/// A parsed feed document of either format.
#[derive(Clone, Debug)]
pub enum FeedDoc {
    Rss(rss::Channel),
    Atom(atom_syndication::Feed),
}

/// An item with the instant it was published (the Unix epoch when it carries
/// no readable date).
#[derive(Clone, Debug)]
pub struct DatedItem {
    pub item: UnifiedItem,
    pub published: Timestamp,
}

/// A parsed feed: the document and its items in document order.
#[derive(Clone, Debug)]
pub struct ParsedFeed {
    pub doc: FeedDoc,
    pub items: Vec<DatedItem>,
}

impl UnifiedItem {
    pub fn duplicate(&self) -> (r: UnifiedItem)
        ensures
            r == *self,
    {
        match self {
            UnifiedItem::Rss(i) => UnifiedItem::Rss(i.clone()),
            UnifiedItem::Atom(e) => UnifiedItem::Atom(e.clone()),
        }
    }
}

/// The instant an RSS publication date stands for: the date it reads as under
/// RFC 2822, else the Unix epoch.
pub open spec fn date_or_epoch(text: Option<Seq<char>>) -> Timestamp {
    match text {
        Some(t) => match rfc2822_instant(t) {
            Some(d) => d,
            None => Timestamp { secs: 0, nanos: 0 },
        },
        None => Timestamp { secs: 0, nanos: 0 },
    }
}

/// The instant an RSS item's publication date stands for; an absent or
/// unreadable date counts as the Unix epoch.
pub fn rss_date_or_epoch(text: Option<&str>) -> (r: Timestamp)
    ensures
        r == date_or_epoch(
            match text {
                Some(t) => Some(t@),
                None => None,
            },
        ),
{
    match text {
        Some(t) => match read_rfc2822(t) {
            Some(d) => d,
            None => Timestamp::epoch(),
        },
        None => Timestamp::epoch(),
    }
}

/// An RSS item with its date: what its publication date text reads as, or
/// the Unix epoch.
pub open spec fn dated_rss(i: rss::Item) -> DatedItem {
    DatedItem { item: UnifiedItem::Rss(i), published: date_or_epoch(item_pub_date(i)) }
}

/// An Atom entry with its date: its publication instant, or the Unix epoch.
pub open spec fn dated_atom(e: atom_syndication::Entry) -> DatedItem {
    DatedItem {
        item: UnifiedItem::Atom(e),
        published: match entry_published(e) {
            Some(d) => d,
            None => Timestamp { secs: 0, nanos: 0 },
        },
    }
}

/// The items of a document, in document order, each dated.
pub open spec fn items_of(doc: FeedDoc) -> Seq<DatedItem> {
    match doc {
        FeedDoc::Rss(c) => channel_items(c).map_values(|i: rss::Item| dated_rss(i)),
        FeedDoc::Atom(f) => feed_entries(f).map_values(|e: atom_syndication::Entry| dated_atom(e)),
    }
}

/// The document `text` holds: RSS when the RSS reader accepts it, else Atom
/// when the Atom reader does.
pub open spec fn document_of(text: Seq<char>) -> Option<FeedDoc> {
    match rss_document(text) {
        Some(c) => Some(FeedDoc::Rss(c)),
        None => match atom_document(text) {
            Some(f) => Some(FeedDoc::Atom(f)),
            None => None,
        },
    }
}

/// `f` is the feed parsed from `text`.
pub open spec fn is_parse_of(text: Seq<char>, f: ParsedFeed) -> bool {
    document_of(text) == Some(f.doc) && f.items@ == items_of(f.doc)
}

/// The items of a document, in document order, each dated.
pub fn dated_items(doc: &FeedDoc) -> (r: Vec<DatedItem>)
    ensures
        r@ == items_of(*doc),
{
    let mut r: Vec<DatedItem> = Vec::new();
    match doc {
        FeedDoc::Rss(c) => {
            let items = rss_items(c);
            let mut i: usize = 0;
            while i < items.len()
                invariant
                    i <= items@.len(),
                    items@ == channel_items(*c),
                    r@ == items@.take(i as int).map_values(|x: rss::Item| dated_rss(x)),
                decreases items@.len() - i,
            {
                let date = rss_pub_date(&items[i]);
                let published = match &date {
                    Some(s) => rss_date_or_epoch(Some(s.as_str())),
                    None => rss_date_or_epoch(None),
                };
                r.push(DatedItem { item: UnifiedItem::Rss(items[i].clone()), published });
                proof {
                    assert(r@ =~= items@.take((i + 1) as int).map_values(|x: rss::Item| dated_rss(x)));
                }
                i += 1;
            }
            proof {
                assert(items@.take(i as int) =~= items@);
            }
        },
        FeedDoc::Atom(f) => {
            let entries = atom_entries(f);
            let mut i: usize = 0;
            while i < entries.len()
                invariant
                    i <= entries@.len(),
                    entries@ == feed_entries(*f),
                    r@ == entries@.take(i as int).map_values(
                        |x: atom_syndication::Entry| dated_atom(x),
                    ),
                decreases entries@.len() - i,
            {
                let published = match atom_published(&entries[i]) {
                    Some(d) => d,
                    None => Timestamp::epoch(),
                };
                r.push(DatedItem { item: UnifiedItem::Atom(entries[i].clone()), published });
                proof {
                    assert(r@ =~= entries@.take((i + 1) as int).map_values(
                        |x: atom_syndication::Entry| dated_atom(x),
                    ));
                }
                i += 1;
            }
            proof {
                assert(entries@.take(i as int) =~= entries@);
            }
        },
    }
    r
}

/// Parses `text` as an RSS channel, and failing that as an Atom feed; `None`
/// when it is neither. A text both readers accept is taken as RSS.
pub fn parse_as_rss_or_atom(text: &str) -> (r: Option<ParsedFeed>)
    ensures
        r is Some <==> rss_accepts(text@) || atom_accepts(text@),
        r matches Some(f) ==> is_parse_of(text@, f),
        r matches Some(f) ==> (rss_accepts(text@) <==> f.doc is Rss),
{
    let doc = match read_rss(text) {
        Some(c) => FeedDoc::Rss(c),
        None => match read_atom(text) {
            Some(f) => FeedDoc::Atom(f),
            None => {
                return None;
            },
        },
    };
    let items = dated_items(&doc);
    Some(ParsedFeed { doc, items })
}

/// Parsing is a function of the text: two feeds parsed from one text hold the
/// same document and the same dated items in the same order.
pub proof fn parsing_is_deterministic(text: Seq<char>, a: ParsedFeed, b: ParsedFeed)
    requires
        is_parse_of(text, a),
        is_parse_of(text, b),
    ensures
        a.doc == b.doc,
        a.items@ == b.items@,
{
}

} // verus!
