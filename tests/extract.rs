use podcast_scraper::extract::{
    distinct_urls, extract_item, extract_items, extract_structured, first_capture,
    published_at_of, resolve_media_address, scan_document, scan_media_urls, title_or_unknown, FeedItem,
};

const FEED: &str = r#"<?xml version="1.0" encoding="UTF-8"?>
<rss version="2.0" xmlns:content="http://purl.org/rss/1.0/modules/content/">
<channel>
<title>Show</title>
<link>http://a.example/</link>
<description>A show</description>
<item>
<title>One</title>
<enclosure url="http://a.example/one.mp3" length="1" type="audio/mpeg"/>
<pubDate>Mon, 01 Jan 2024 00:00:00 GMT</pubDate>
</item>
<item>
<title>Two</title>
<description>listen "http://a.example/two.mp4" now</description>
<pubDate>not a date</pubDate>
</item>
<item>
<content:encoded><![CDATA[<a href="http://a.example/three.mp3?t=1">x</a>]]></content:encoded>
</item>
<item>
<title>Nothing</title>
<description>no media here</description>
</item>
</channel>
</rss>
"#;

fn item(enclosure: Option<&str>, description: Option<&str>, encoded: Option<&str>) -> FeedItem {
    FeedItem {
        enclosure_url: enclosure.map(|s| s.to_string()),
        description: description.map(|s| s.to_string()),
        encoded_content: encoded.map(|s| s.to_string()),
        pub_date: None,
        title: None,
    }
}

#[test]
fn enclosure_takes_precedence_over_description() {
    let it = item(Some("http://a.example/ep.mp3"), Some(r#"see "http://b.example/other.mp3""#), None);
    assert_eq!(resolve_media_address(&it), Some("http://a.example/ep.mp3".to_string()));
}

#[test]
fn description_url_used_without_enclosure() {
    let it = item(None, Some(r#"<a href="http://a.example/ep2.mp3">listen</a>"#), None);
    assert_eq!(resolve_media_address(&it), Some("http://a.example/ep2.mp3".to_string()));
}

#[test]
fn encoded_content_searched_and_query_string_dropped() {
    let it = item(None, Some("plain words"), Some(r#"<audio src="https://a.example/ep3.mp4?x=1"></audio>"#));
    assert_eq!(resolve_media_address(&it), Some("https://a.example/ep3.mp4".to_string()));
}

#[test]
fn first_match_in_text_wins() {
    let it = item(None, Some(r#""http://a.example/first.mp3" "http://a.example/second.mp3""#), None);
    assert_eq!(resolve_media_address(&it), Some("http://a.example/first.mp3".to_string()));
}

#[test]
fn empty_enclosure_falls_back_to_text() {
    let it = item(Some(""), Some(r#""http://a.example/text.mp3""#), None);
    assert_eq!(resolve_media_address(&it), Some("http://a.example/text.mp3".to_string()));
}

#[test]
fn item_without_media_is_skipped() {
    let it = item(None, Some("http://a.example/unquoted.mp3 and nothing else"), None);
    assert_eq!(resolve_media_address(&it), None);
    assert!(extract_item(&"S".to_string(), &it).is_none());
}

#[test]
fn first_capture_reads_the_first_capture() {
    assert_eq!(first_capture(&None), None);
    assert_eq!(first_capture(&Some(vec![])), None);
    assert_eq!(first_capture(&Some(vec![None, Some("u".to_string())])), None);
    assert_eq!(first_capture(&Some(vec![Some(String::new())])), None);
    assert_eq!(
        first_capture(&Some(vec![Some("http://x/a.mp3".to_string()), Some("http://x/b.mp3".to_string())])),
        Some("http://x/a.mp3".to_string())
    );
}

#[test]
fn date_parsed_as_rfc2822_in_utc() {
    let mut it = item(None, None, None);
    it.pub_date = Some("Mon, 01 Jan 2024 02:00:00 +0200".to_string());
    assert_eq!(published_at_of(&it), Some(1704067200));
    it.pub_date = Some("2024-01-01".to_string());
    assert_eq!(published_at_of(&it), None);
    it.pub_date = None;
    assert_eq!(published_at_of(&it), None);
}

#[test]
fn title_defaults_to_unknown() {
    let mut it = item(None, None, None);
    assert_eq!(title_or_unknown(&it), "Unknown");
    it.title = Some("Named".to_string());
    assert_eq!(title_or_unknown(&it), "Named");
}

#[test]
fn extract_item_fills_every_field() {
    let mut it = item(Some("http://a.example/ep.mp3"), None, None);
    it.title = Some("Ep".to_string());
    it.pub_date = Some("Mon, 01 Jan 2024 00:00:00 GMT".to_string());
    let e = extract_item(&"Show".to_string(), &it).unwrap();
    assert_eq!(e.source_name, "Show");
    assert_eq!(e.title, "Ep");
    assert_eq!(e.published_at, Some(1704067200));
    assert_eq!(e.media_address, "http://a.example/ep.mp3");
}

#[test]
fn extract_items_keeps_item_order_and_skips_misses() {
    let items = vec![
        item(Some("http://a.example/1.mp3"), None, None),
        item(None, Some("none"), None),
        item(None, Some(r#""http://a.example/2.mp3""#), None),
    ];
    let urls: Vec<String> = extract_items(&"S".to_string(), &items).into_iter().map(|e| e.media_address).collect();
    assert_eq!(urls, vec!["http://a.example/1.mp3", "http://a.example/2.mp3"]);
}

#[test]
fn structured_document_yields_episodes() {
    let eps = extract_structured(&"Show".to_string(), &FEED.to_string());
    assert_eq!(eps.len(), 3);
    assert_eq!(eps[0].title, "One");
    assert_eq!(eps[0].media_address, "http://a.example/one.mp3");
    assert_eq!(eps[0].published_at, Some(1704067200));
    assert_eq!(eps[1].title, "Two");
    assert_eq!(eps[1].media_address, "http://a.example/two.mp4");
    assert_eq!(eps[1].published_at, None);
    assert_eq!(eps[2].title, "Unknown");
    assert_eq!(eps[2].media_address, "http://a.example/three.mp3");
    assert!(eps.iter().all(|e| e.source_name == "Show"));
}

#[test]
fn malformed_document_yields_no_structured_episodes() {
    assert!(extract_structured(&"S".to_string(), &"<html><body>oops".to_string()).is_empty());
    assert!(extract_structured(&"S".to_string(), &String::new()).is_empty());
}

#[test]
fn whole_document_scan_finds_distinct_urls() {
    let urls = scan_media_urls(FEED);
    assert_eq!(urls, vec!["http://a.example/one.mp3", "http://a.example/two.mp4", "http://a.example/three.mp3"]);
}

#[test]
fn whole_document_scan_drops_repeats() {
    let doc = r#"<a href="http://x.example/b.mp3"></a> "http://x.example/a.mp4" "http://x.example/b.mp3" "http://x.example/a.mp4?q""#;
    let eps = scan_document(&"S".to_string(), &doc.to_string());
    let urls: Vec<&str> = eps.iter().map(|e| e.media_address.as_str()).collect();
    assert_eq!(urls, vec!["http://x.example/b.mp3", "http://x.example/a.mp4"]);
    assert!(eps.iter().all(|e| e.title == "Unknown" && e.published_at.is_none() && e.source_name == "S"));
}

#[test]
fn scanning_twice_gives_the_same_urls() {
    let doc = format!("{} {}", FEED, r#""http://a.example/two.mp4""#);
    let first = scan_media_urls(&doc);
    let second = scan_media_urls(&doc);
    assert_eq!(first, second);
    assert_eq!(first, vec!["http://a.example/one.mp3", "http://a.example/two.mp4", "http://a.example/three.mp3"]);
}

#[test]
fn distinct_urls_keeps_first_occurrences() {
    let groups = vec![
        Some("b".to_string()),
        None,
        Some("a".to_string()),
        Some(String::new()),
        Some("b".to_string()),
        Some("c".to_string()),
        Some("a".to_string()),
    ];
    assert_eq!(distinct_urls(&groups), vec!["b", "a", "c"]);
    assert!(distinct_urls(&vec![]).is_empty());
}
