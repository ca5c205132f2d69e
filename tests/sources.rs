use podcast_scraper::sources::{parse_line, parse_source_list};

const OUTLINE: &str = r#"<?xml version="1.0" encoding="UTF-8"?>
<opml version="1.0">
<body>
<outline text="My Subscriptions" xmlUrl="http://self.example/list.xml"/>
<outline text="First Show" type="rss" xmlUrl="http://one.example/feed.xml"/>
<outline type="rss" xmlUrl="http://nameless.example/feed.xml"/>
<outline text="Second Show" type="rss" xmlUrl="https://two.example/rss"/>
<outline text="Folder"/>
</body>
</opml>
"#;

#[test]
fn source_list_skips_the_first_declared_entry() {
    let sources = parse_source_list(OUTLINE);
    let pairs: Vec<(&str, &str)> = sources.iter().map(|s| (s.name.as_str(), s.address.as_str())).collect();
    assert_eq!(
        pairs,
        vec![("First Show", "http://one.example/feed.xml"), ("Second Show", "https://two.example/rss")]
    );
}

#[test]
fn source_list_of_empty_text_is_empty() {
    assert!(parse_source_list("").is_empty());
    assert!(parse_source_list(r#"<outline text="Only" xmlUrl="http://x/"/>"#).is_empty());
}

#[test]
fn line_needs_both_name_and_address() {
    let s = parse_line(r#"<outline text="A" xmlUrl="http://a/"/>"#).unwrap();
    assert_eq!(s.name, "A");
    assert_eq!(s.address, "http://a/");
    assert!(parse_line(r#"<outline text="A"/>"#).is_none());
    assert!(parse_line(r#"<outline xmlUrl="http://a/"/>"#).is_none());
    assert!(parse_line(r#"<outline text="" xmlUrl="http://a/"/>"#).is_none());
}

#[test]
fn source_list_handles_windows_line_ends() {
    let text = "<outline text=\"Self\" xmlUrl=\"http://s/\"/>\r\n<outline text=\"Next\" xmlUrl=\"http://n/\"/>\r\n";
    let sources = parse_source_list(text);
    assert_eq!(sources.len(), 1);
    assert_eq!(sources[0].address, "http://n/");
}
