use podcast_scraper::engine::{all_episodes, extract_all, newest_episodes};
use podcast_scraper::fetch::{accept_response, successful_results, FetchResult};
use podcast_scraper::selection::{cutoff_boundary, CutoffPolicy};

const JUN_1_2024: i64 = 1717200000;

fn feed(items: &[(&str, &str, &str)]) -> String {
    let mut s = String::from(r#"<?xml version="1.0"?><rss version="2.0"><channel><title>t</title><link>http://l/</link><description>d</description>"#);
    for (title, url, date) in items {
        s.push_str(&format!(
            r#"<item><title>{}</title><enclosure url="{}" length="1" type="audio/mpeg"/><pubDate>{}</pubDate></item>"#,
            title, url, date
        ));
    }
    s.push_str("</channel></rss>");
    s
}

fn sources() -> Vec<FetchResult> {
    let a = feed(&[
        ("a-jan", "http://a.example/jan.mp3", "Mon, 01 Jan 2024 00:00:00 GMT"),
        ("a-may", "http://a.example/may.mp3", "Mon, 20 May 2024 00:00:00 GMT"),
    ]);
    let b = feed(&[("b-old", "http://b.example/old.mp3", "Sun, 01 Jan 2023 00:00:00 GMT")]);
    vec![
        FetchResult { source_name: "A".to_string(), document: a },
        FetchResult { source_name: "B".to_string(), document: b },
    ]
}

fn policy(apply_cutoff: bool, apply_to_all_view: bool) -> CutoffPolicy {
    CutoffPolicy { apply_cutoff, cutoff_days: 30, apply_to_all_view }
}

fn titles(eps: &[podcast_scraper::episode::Episode]) -> Vec<String> {
    eps.iter().map(|e| e.title.clone()).collect()
}

#[test]
fn failed_source_does_not_block_others() {
    let good = sources().remove(0);
    let outcomes = vec![
        accept_response(&"Down".to_string(), 500, Some(feed(&[("x", "http://x.example/x.mp3", "")]))),
        Some(good),
        None,
    ];
    let results = successful_results(&outcomes);
    let eps = extract_all(&results, false);
    assert_eq!(titles(&eps), vec!["a-jan", "a-may"]);
    assert!(eps.iter().all(|e| e.source_name == "A"));
}

#[test]
fn extraction_with_scan_appends_scanned_episodes_per_source() {
    let eps = extract_all(&sources(), true);
    let urls: Vec<&str> = eps.iter().map(|e| e.media_address.as_str()).collect();
    assert_eq!(
        urls,
        vec![
            "http://a.example/jan.mp3",
            "http://a.example/may.mp3",
            "http://a.example/jan.mp3",
            "http://a.example/may.mp3",
            "http://b.example/old.mp3",
            "http://b.example/old.mp3",
        ]
    );
    assert_eq!(eps[2].title, "Unknown");
    assert_eq!(eps[2].published_at, None);
}

#[test]
fn newest_view_with_cutoff() {
    let b = cutoff_boundary(JUN_1_2024, 30);
    let newest = newest_episodes(&sources(), &policy(true, false), b);
    assert_eq!(titles(&newest), vec!["a-may"]);
}

#[test]
fn newest_view_without_cutoff() {
    let b = cutoff_boundary(JUN_1_2024, 30);
    let newest = newest_episodes(&sources(), &policy(false, false), b);
    assert_eq!(titles(&newest), vec!["a-may", "b-old"]);
}

#[test]
fn all_view_filtered_only_when_asked() {
    let b = cutoff_boundary(JUN_1_2024, 30);
    let unfiltered = all_episodes(&sources(), &policy(true, false), b, true);
    assert_eq!(titles(&unfiltered), vec!["b-old", "a-jan", "a-may"]);
    let filtered = all_episodes(&sources(), &policy(true, true), b, true);
    assert_eq!(titles(&filtered), vec!["a-may"]);
    let scanned = all_episodes(&sources(), &policy(true, true), b, false);
    assert_eq!(titles(&scanned), vec!["a-may"]);
    let scanned_all = all_episodes(&sources(), &policy(false, true), b, false);
    assert_eq!(scanned_all.len(), 6);
}
