//! Episode extraction from one source's document: structured items first,
//! with a pattern scan of item text as fallback, and a scan of the whole
//! document for media URLs.

use vstd::prelude::*;
use crate::episode::{Episode, EpisodeView, views, opt_view};
use crate::trusted::{
    feed_items_of, first_groups, rfc2822_seconds, opt_text, groups_view, read_feed_items,
    capture_first_groups, parse_rfc2822,
};

verus! {

/// An absolute HTTP(S) URL in double quotes that ends in `.mp3` or `.mp4`,
/// closed by a quote or the start of a query string; group 1 is the URL.
pub const MEDIA_PATTERN: &'static str = "\"(http\\S+?\\.(mp3|mp4))[\"?]";

/// The title given to an episode whose feed names none.
pub const UNKNOWN_TITLE: &'static str = "Unknown";

/// The fields of one structured feed item that extraction reads.
#[derive(Clone, Debug)]
pub struct FeedItem {
    pub enclosure_url: Option<String>,
    pub description: Option<String>,
    pub encoded_content: Option<String>,
    pub pub_date: Option<String>,
    pub title: Option<String>,
}

/// The mathematical content of a feed item.
pub ghost struct FeedItemView {
    pub enclosure_url: Option<Seq<char>>,
    pub description: Option<Seq<char>>,
    pub encoded_content: Option<Seq<char>>,
    pub pub_date: Option<Seq<char>>,
    pub title: Option<Seq<char>>,
}

impl View for FeedItem {
    type V = FeedItemView;

    open spec fn view(&self) -> FeedItemView {
        FeedItemView {
            enclosure_url: opt_text(self.enclosure_url),
            description: opt_text(self.description),
            encoded_content: opt_text(self.encoded_content),
            pub_date: opt_text(self.pub_date),
            title: opt_text(self.title),
        }
    }
}

/// The contents of a sequence of feed items.
pub open spec fn item_views(items: Seq<FeedItem>) -> Seq<FeedItemView> {
    items.map_values(|i: FeedItem| i@)
}

/// The contents of a sequence of strings.
pub open spec fn texts(v: Seq<String>) -> Seq<Seq<char>> {
    v.map_values(|s: String| s@)
}

/// An optional text, absent read as empty.
pub open spec fn or_empty(o: Option<Seq<char>>) -> Seq<char> {
    match o {
        Some(t) => t,
        None => Seq::empty(),
    }
}

/// The text searched when an item declares no enclosure: the description,
/// a space, then the encoded content.
pub open spec fn combined_text(item: FeedItemView) -> Seq<char> {
    or_empty(item.description) + seq![' '] + or_empty(item.encoded_content)
}

/// An enclosure URL that can serve as a media address.
pub open spec fn usable_enclosure(item: FeedItemView) -> bool {
    item.enclosure_url is Some && item.enclosure_url->0.len() > 0
}

/// The URL of the first match, when the pattern compiled and matched.
pub open spec fn first_url(groups: Option<Seq<Option<Seq<char>>>>) -> Option<Seq<char>> {
    match groups {
        Some(g) => if g.len() > 0 && g[0] is Some && g[0]->0.len() > 0 {
            g[0]
        } else {
            None
        },
        None => None,
    }
}

/// The media address of an item: its enclosure URL, else the first media URL
/// in its text.
pub open spec fn media_address_of(item: FeedItemView) -> Option<Seq<char>> {
    if usable_enclosure(item) {
        item.enclosure_url
    } else {
        first_url(first_groups(MEDIA_PATTERN@, combined_text(item)))
    }
}

/// The publication instant of an item; absent when missing or unreadable.
pub open spec fn date_of(item: FeedItemView) -> Option<i64> {
    match item.pub_date {
        Some(t) => rfc2822_seconds(t),
        None => None,
    }
}

/// The title of an item, "Unknown" when it has none.
pub open spec fn title_of(item: FeedItemView) -> Seq<char> {
    match item.title {
        Some(t) => t,
        None => UNKNOWN_TITLE@,
    }
}

/// The episode an item yields for `source`, if it has a media address.
pub open spec fn item_episode(source: Seq<char>, item: FeedItemView) -> Option<EpisodeView> {
    match media_address_of(item) {
        Some(u) => Some(EpisodeView {
            source_name: source,
            title: title_of(item),
            published_at: date_of(item),
            media_address: u,
        }),
        None => None,
    }
}

/// The episodes that a list of items yields, in item order.
pub open spec fn structured_episodes(source: Seq<char>, items: Seq<FeedItemView>) -> Seq<EpisodeView>
    decreases items.len(),
{
    if items.len() == 0 {
        Seq::empty()
    } else {
        let rest = structured_episodes(source, items.drop_last());
        match item_episode(source, items.last()) {
            Some(e) => rest.push(e),
            None => rest,
        }
    }
}

/// The structured episodes of a document; none when it is not a feed.
pub open spec fn document_episodes(source: Seq<char>, doc: Seq<char>) -> Seq<EpisodeView> {
    match feed_items_of(doc) {
        Some(items) => structured_episodes(source, items),
        None => Seq::empty(),
    }
}

/// The non-empty URLs among the capture results, in order.
pub open spec fn present_urls(groups: Seq<Option<Seq<char>>>) -> Seq<Seq<char>>
    decreases groups.len(),
{
    if groups.len() == 0 {
        Seq::empty()
    } else {
        let rest = present_urls(groups.drop_last());
        match groups.last() {
            Some(u) => if u.len() > 0 {
                rest.push(u)
            } else {
                rest
            },
            None => rest,
        }
    }
}

/// `s` with every repeat of an earlier entry removed.
pub open spec fn distinct_in_order(s: Seq<Seq<char>>) -> Seq<Seq<char>>
    decreases s.len(),
{
    if s.len() == 0 {
        Seq::empty()
    } else {
        let rest = distinct_in_order(s.drop_last());
        if rest.contains(s.last()) {
            rest
        } else {
            rest.push(s.last())
        }
    }
}

/// The distinct media URLs of a whole document, in order of first occurrence.
pub open spec fn scanned_urls(doc: Seq<char>) -> Seq<Seq<char>> {
    match first_groups(MEDIA_PATTERN@, doc) {
        Some(g) => distinct_in_order(present_urls(g)),
        None => Seq::empty(),
    }
}

/// The episode that a scanned URL yields: untitled and undated.
pub open spec fn url_episode(source: Seq<char>, url: Seq<char>) -> EpisodeView {
    EpisodeView { source_name: source, title: UNKNOWN_TITLE@, published_at: None, media_address: url }
}

/// The episodes that the whole-document scan yields.
pub open spec fn scan_episodes(source: Seq<char>, doc: Seq<char>) -> Seq<EpisodeView> {
    scanned_urls(doc).map_values(|u: Seq<char>| url_episode(source, u))
}

/// A copy of an optional text, empty when absent.
fn text_or_empty(o: &Option<String>) -> (r: String)
    ensures
        r@ == or_empty(opt_text(*o)),
{
    match o {
        Some(t) => t.clone(),
        None => String::new(),
    }
}

/// Group 1 of the first match among capture results, when it is non-empty.
pub fn first_capture(groups: &Option<Vec<Option<String>>>) -> (r: Option<String>)
    ensures
        opt_text(r) == first_url(groups_view(*groups)),
{
    match groups {
        Some(g) => {
            if g.len() > 0 {
                match &g[0] {
                    Some(u) => {
                        if u.as_str().unicode_len() > 0 {
                            Some(u.clone())
                        } else {
                            None
                        }
                    },
                    None => None,
                }
            } else {
                None
            }
        },
        None => None,
    }
}

/// The media address of an item: its non-empty enclosure URL, else the first
/// media URL found in its description and encoded content.
pub fn resolve_media_address(item: &FeedItem) -> (r: Option<String>)
    ensures
        opt_text(r) == media_address_of(item@),
{
    if let Some(u) = &item.enclosure_url {
        if u.as_str().unicode_len() > 0 {
            return Some(u.clone());
        }
    }
    let mut text = text_or_empty(&item.description);
    text.append(" ");
    let rest = text_or_empty(&item.encoded_content);
    text.append(rest.as_str());
    proof {
        reveal_strlit(" ");
        assert(text@ =~= combined_text(item@));
    }
    let groups = capture_first_groups(MEDIA_PATTERN, text.as_str());
    first_capture(&groups)
}

/// The publication instant of an item, absent when missing or unreadable.
pub fn published_at_of(item: &FeedItem) -> (r: Option<i64>)
    ensures
        r == date_of(item@),
{
    match &item.pub_date {
        Some(t) => parse_rfc2822(t.as_str()),
        None => None,
    }
}

/// The title of an item, or "Unknown".
pub fn title_or_unknown(item: &FeedItem) -> (r: String)
    ensures
        r@ == title_of(item@),
{
    match &item.title {
        Some(t) => t.clone(),
        None => String::from_str(UNKNOWN_TITLE),
    }
}

/// The episode that one item yields for `source`, if it has a media address.
pub fn extract_item(source: &String, item: &FeedItem) -> (r: Option<Episode>)
    ensures
        opt_view(r) == item_episode(source@, item@),
        r matches Some(e) ==> e@.media_address.len() > 0,
        r matches Some(e) ==> (source@.len() > 0 ==> e.wf()),
{
    match resolve_media_address(item) {
        Some(u) => Some(Episode {
            source_name: source.clone(),
            title: title_or_unknown(item),
            published_at: published_at_of(item),
            media_address: u,
        }),
        None => None,
    }
}

/// The episodes that a list of items yields for `source`, in item order.
pub fn extract_items(source: &String, items: &Vec<FeedItem>) -> (r: Vec<Episode>)
    ensures
        views(r@) == structured_episodes(source@, item_views(items@)),
{
    let mut r: Vec<Episode> = Vec::new();
    let mut i: usize = 0;
    while i < items.len()
        invariant
            i <= items@.len(),
            views(r@) == structured_episodes(source@, item_views(items@.subrange(0, i as int))),
        decreases items@.len() - i,
    {
        assert(item_views(items@.subrange(0, i as int + 1)).drop_last() =~= item_views(items@.subrange(0, i as int)));
        assert(item_views(items@.subrange(0, i as int + 1)).last() == items@[i as int]@);
        if let Some(e) = extract_item(source, &items[i]) {
            let ghost before = r@;
            r.push(e);
            assert(views(r@) =~= views(before).push(e@));
        }
        i = i + 1;
    }
    assert(items@.subrange(0, items@.len() as int) == items@);
    r
}

/// The structured episodes of one source's document; none when the document
/// cannot be read as a feed.
pub fn extract_structured(source: &String, doc: &String) -> (r: Vec<Episode>)
    ensures
        views(r@) == document_episodes(source@, doc@),
{
    match read_feed_items(doc.as_str()) {
        Some(items) => extract_items(source, &items),
        None => Vec::new(),
    }
}

/// Whether `urls` already holds `u`.
fn holds_url(urls: &Vec<String>, u: &String) -> (r: bool)
    ensures
        r == texts(urls@).contains(u@),
{
    let mut k: usize = 0;
    while k < urls.len()
        invariant
            k <= urls@.len(),
            forall|j: int| 0 <= j < k ==> texts(urls@)[j] != u@,
        decreases urls@.len() - k,
    {
        if urls[k] == *u {
            assert(texts(urls@)[k as int] == u@);
            return true;
        }
        k = k + 1;
    }
    false
}

/// The non-empty URLs among capture results, each kept at its first
/// occurrence only.
pub fn distinct_urls(groups: &Vec<Option<String>>) -> (r: Vec<String>)
    ensures
        texts(r@) == distinct_in_order(present_urls(groups@.map_values(|o: Option<String>| opt_text(o)))),
{
    let ghost gv = groups@.map_values(|o: Option<String>| opt_text(o));
    let mut r: Vec<String> = Vec::new();
    let mut i: usize = 0;
    while i < groups.len()
        invariant
            i <= groups@.len(),
            gv == groups@.map_values(|o: Option<String>| opt_text(o)),
            texts(r@) == distinct_in_order(present_urls(gv.subrange(0, i as int))),
        decreases groups@.len() - i,
    {
        let ghost prefix = gv.subrange(0, i as int + 1);
        assert(prefix.drop_last() == gv.subrange(0, i as int));
        assert(prefix.last() == opt_text(groups@[i as int]));
        if let Some(u) = &groups[i] {
            if u.as_str().unicode_len() > 0 {
                let ghost found = present_urls(prefix);
                assert(found.drop_last() == present_urls(gv.subrange(0, i as int)));
                if !holds_url(&r, u) {
                    let ghost before = r@;
                    r.push(u.clone());
                    assert(texts(r@) =~= texts(before).push(u@));
                }
            }
        }
        i = i + 1;
    }
    assert(gv.subrange(0, groups@.len() as int) == gv);
    r
}

/// The distinct media URLs of a whole document, in order of first occurrence.
pub fn scan_media_urls(doc: &str) -> (r: Vec<String>)
    ensures
        texts(r@) == scanned_urls(doc@),
{
    match capture_first_groups(MEDIA_PATTERN, doc) {
        Some(g) => distinct_urls(&g),
        None => Vec::new(),
    }
}

/// One untitled, undated episode for each distinct media URL of a whole
/// document.
pub fn scan_document(source: &String, doc: &String) -> (r: Vec<Episode>)
    ensures
        views(r@) == scan_episodes(source@, doc@),
{
    let urls = scan_media_urls(doc.as_str());
    let mut r: Vec<Episode> = Vec::new();
    let mut k: usize = 0;
    while k < urls.len()
        invariant
            k <= urls@.len(),
            texts(urls@) == scanned_urls(doc@),
            views(r@) == texts(urls@).subrange(0, k as int).map_values(|u: Seq<char>| url_episode(source@, u)),
        decreases urls@.len() - k,
    {
        let e = Episode {
            source_name: source.clone(),
            title: String::from_str(UNKNOWN_TITLE),
            published_at: None,
            media_address: urls[k].clone(),
        };
        let ghost before = r@;
        assert(e@ == url_episode(source@, texts(urls@)[k as int]));
        r.push(e);
        assert(views(r@) =~= views(before).push(e@));
        assert(views(r@) =~= texts(urls@).subrange(0, k as int + 1).map_values(|u: Seq<char>| url_episode(source@, u)));
        k = k + 1;
    }
    assert(texts(urls@).subrange(0, urls@.len() as int) == texts(urls@));
    r
}

/// No entry of `s` repeats an earlier one.
pub open spec fn no_repeats(s: Seq<Seq<char>>) -> bool {
    forall|a: int, b: int| 0 <= a < b < s.len() ==> s[a] != s[b]
}

/// Removing repeats keeps every entry and adds none, and leaves no repeat.
pub proof fn lemma_distinct_in_order(s: Seq<Seq<char>>)
    ensures
        no_repeats(distinct_in_order(s)),
        forall|x: Seq<char>| distinct_in_order(s).contains(x) <==> s.contains(x),
    decreases s.len(),
{
    if s.len() > 0 {
        let rest = s.drop_last();
        lemma_distinct_in_order(rest);
        let d = distinct_in_order(rest);
        if !d.contains(s.last()) {
            assert forall|a: int, b: int| 0 <= a < b < d.len() + 1 implies d.push(s.last())[a] != d.push(s.last())[b] by {
                if b == d.len() {
                    assert(d.push(s.last())[a] == d[a]);
                }
            }
        }
        assert forall|x: Seq<char>| distinct_in_order(s).contains(x) <==> s.contains(x) by {
            if s.contains(x) {
                let j = choose|j: int| 0 <= j < s.len() && s[j] == x;
                if j < s.len() - 1 {
                    assert(rest[j] == x);
                    assert(rest.contains(x));
                }
                if d.contains(x) {
                    let k = choose|k: int| 0 <= k < d.len() && d[k] == x;
                    assert(distinct_in_order(s)[k] == x);
                } else {
                    assert(x == s.last());
                    assert(distinct_in_order(s).last() == x);
                }
            }
            if distinct_in_order(s).contains(x) {
                if distinct_in_order(rest).contains(x) {
                    assert(rest.contains(x));
                    let j = choose|j: int| 0 <= j < rest.len() && rest[j] == x;
                    assert(s[j] == x);
                } else {
                    assert(x == s.last());
                    assert(s[s.len() - 1] == x);
                }
            }
        }
    }
}

/// A list without repeats is its own repeat-free form.
pub proof fn lemma_distinct_of_repeat_free(s: Seq<Seq<char>>)
    requires
        no_repeats(s),
    ensures
        distinct_in_order(s) == s,
    decreases s.len(),
{
    if s.len() > 0 {
        let rest = s.drop_last();
        lemma_distinct_of_repeat_free(rest);
        if rest.contains(s.last()) {
            let j = choose|j: int| 0 <= j < rest.len() && rest[j] == s.last();
            assert(s[j] == s[s.len() - 1]);
        }
        assert(rest.push(s.last()) =~= s);
    }
}

/// Scanning a document gives its media URLs without repeats, each present in
/// what the pattern found, in order of first occurrence; removing repeats
/// again changes nothing, so a second scan of the same document agrees.
pub proof fn lemma_scan_is_repeat_free_and_stable(doc: Seq<char>)
    ensures
        no_repeats(scanned_urls(doc)),
        distinct_in_order(scanned_urls(doc)) == scanned_urls(doc),
        first_groups(MEDIA_PATTERN@, doc) matches Some(g) ==> forall|x: Seq<char>|
            scanned_urls(doc).contains(x) <==> present_urls(g).contains(x),
{
    match first_groups(MEDIA_PATTERN@, doc) {
        Some(g) => {
            lemma_distinct_in_order(present_urls(g));
        },
        None => {},
    }
    lemma_distinct_of_repeat_free(scanned_urls(doc));
}

} // verus!
