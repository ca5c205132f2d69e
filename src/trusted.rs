//! The calls into other crates that the engine relies on, each with the
//! contract that the rest of the library is proved against.

use vstd::prelude::*;
use crate::extract::{FeedItem, FeedItemView, item_views};

verus! {

/// The items that the RSS reader finds in a document, or `None` when it
/// cannot read the document as a channel.
pub uninterp spec fn feed_items_of(doc: Seq<char>) -> Option<Seq<FeedItemView>>;

/// For each match of `pattern` in `text`, left to right, its first capture
/// group; `None` when `pattern` does not compile.
pub uninterp spec fn first_groups(pattern: Seq<char>, text: Seq<char>) -> Option<Seq<Option<Seq<char>>>>;

/// The instant, in seconds since the Unix epoch, that an RFC 2822 date
/// denotes, or `None` when the text is not such a date.
pub uninterp spec fn rfc2822_seconds(text: Seq<char>) -> Option<i64>;

/// The calendar date, written `YYYY-MM-DD`, of an instant in seconds since
/// the Unix epoch; `None` when the instant is out of the supported range.
pub uninterp spec fn ymd_of(seconds: i64) -> Option<Seq<char>>;

/// The lines of a text as `str::lines` splits it.
pub uninterp spec fn lines_of(text: Seq<char>) -> Seq<Seq<char>>;

/// The view of an optional string.
pub open spec fn opt_text(o: Option<String>) -> Option<Seq<char>> {
    match o {
        Some(s) => Some(s@),
        None => None,
    }
}

/// The view of what `capture_first_groups` returns.
pub open spec fn groups_view(r: Option<Vec<Option<String>>>) -> Option<Seq<Option<Seq<char>>>> {
    match r {
        Some(v) => Some(v@.map_values(|o: Option<String>| opt_text(o))),
        None => None,
    }
}

/// The view of what `read_feed_items` returns.
pub open spec fn feed_view(r: Option<Vec<FeedItem>>) -> Option<Seq<FeedItemView>> {
    match r {
        Some(v) => Some(item_views(v@)),
        None => None,
    }
}

/// Relies on `rss::Channel::read_from` to read a document as an RSS channel,
/// and on the accessors of `rss::Item` for the fields of each item
/// (`content` holds the `content:encoded` element).
#[verifier::external_body]
pub(crate) fn read_feed_items(doc: &str) -> (r: Option<Vec<FeedItem>>)
    ensures
        feed_view(r) == feed_items_of(doc@),
{
    let channel = rss::Channel::read_from(doc.as_bytes()).ok()?;
    let own = |o: Option<&str>| o.map(str::to_owned);
    Some(channel.items().iter().map(|i| FeedItem {
        enclosure_url: i.enclosure().map(|e| e.url().to_owned()),
        description: own(i.description()),
        encoded_content: own(i.content()),
        pub_date: own(i.pub_date()),
        title: own(i.title()),
    }).collect())
}

/// Relies on `regex::Regex::new` to compile `pattern` and on
/// `Regex::captures_iter` for the successive leftmost-first matches in `text`,
/// of which it keeps capture group 1.
#[verifier::external_body]
pub(crate) fn capture_first_groups(pattern: &str, text: &str) -> (r: Option<Vec<Option<String>>>)
    ensures
        groups_view(r) == first_groups(pattern@, text@),
{
    let re = regex::Regex::new(pattern).ok()?;
    Some(re.captures_iter(text).map(|c| c.get(1).map(|m| m.as_str().to_owned())).collect())
}

/// Relies on `chrono::DateTime::parse_from_rfc2822` and `DateTime::timestamp`:
/// the UTC instant of an RFC 2822 date, in whole seconds.
#[verifier::external_body]
pub(crate) fn parse_rfc2822(text: &str) -> (r: Option<i64>)
    ensures
        r == rfc2822_seconds(text@),
{
    chrono::DateTime::parse_from_rfc2822(text).ok().map(|d| d.timestamp())
}

/// Relies on `chrono::Utc::now` for the current time, in seconds since the
/// Unix epoch; nothing is known of the value.
#[verifier::external_body]
pub(crate) fn now_seconds() -> (r: i64)
{
    chrono::Utc::now().timestamp()
}

/// Relies on `chrono::DateTime::from_timestamp` to read an instant and on
/// `DateTime::format` with `%Y-%m-%d` to write its UTC calendar date.
#[verifier::external_body]
pub(crate) fn format_ymd(seconds: i64) -> (r: Option<String>)
    ensures
        opt_text(r) == ymd_of(seconds),
{
    chrono::DateTime::from_timestamp(seconds, 0).map(|d| d.format("%Y-%m-%d").to_string())
}

/// Relies on `str::lines`: the text split at line ends, without them.
#[verifier::external_body]
pub(crate) fn split_lines(text: &str) -> (r: Vec<String>)
    ensures
        r@.map_values(|l: String| l@) == lines_of(text@),
{
    text.lines().map(str::to_owned).collect()
}

} // verus!
