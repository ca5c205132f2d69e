use podcast_scraper::episode::Episode;
use podcast_scraper::selection::{
    cutoff_boundary, cutoff_boundary_now, filter_current, newest_per_source, within_cutoff,
};

const JAN_1_2023: i64 = 1672531200;
const JAN_1_2024: i64 = 1704067200;
const MAY_20_2024: i64 = 1716163200;
const JUN_1_2024: i64 = 1717200000;

fn ep(source: &str, title: &str, date: Option<i64>) -> Episode {
    Episode {
        source_name: source.to_string(),
        title: title.to_string(),
        published_at: date,
        media_address: format!("http://a.example/{}.mp3", title),
    }
}

#[test]
fn newest_without_cutoff_picks_latest_date() {
    let eps = vec![ep("X", "old", Some(JAN_1_2023)), ep("X", "new", Some(JAN_1_2024))];
    let newest = newest_per_source(&eps);
    assert_eq!(newest.len(), 1);
    assert_eq!(newest[0].title, "new");
    assert_eq!(newest[0].published_at, Some(JAN_1_2024));
}

#[test]
fn newest_keeps_one_per_source_in_order_of_first_appearance() {
    let eps = vec![
        ep("B", "b1", Some(10)),
        ep("A", "a1", None),
        ep("B", "b2", Some(30)),
        ep("A", "a2", Some(5)),
        ep("B", "b3", Some(20)),
        ep("A", "a3", Some(5)),
    ];
    let titles: Vec<String> = newest_per_source(&eps).into_iter().map(|e| e.title).collect();
    assert_eq!(titles, vec!["b2", "a2"]);
}

#[test]
fn newest_of_nothing_is_nothing() {
    assert!(newest_per_source(&Vec::new()).is_empty());
}

#[test]
fn cutoff_thirty_days_before_june_first() {
    let boundary = cutoff_boundary(JUN_1_2024, 30);
    assert_eq!(boundary, (JUN_1_2024 - 30 * 86400) as i128);
    assert_eq!(boundary, 1714608000);
    let eps = vec![ep("X", "january", Some(JAN_1_2024)), ep("X", "may", Some(MAY_20_2024)), ep("X", "undated", None)];
    let kept = filter_current(&eps, boundary);
    let titles: Vec<String> = kept.iter().map(|e| e.title.clone()).collect();
    assert_eq!(titles, vec!["may"]);
    let newest = newest_per_source(&kept);
    assert_eq!(newest.len(), 1);
    assert_eq!(newest[0].title, "may");
}

#[test]
fn cutoff_boundary_is_inclusive() {
    let boundary = cutoff_boundary(JUN_1_2024, 30);
    assert!(within_cutoff(Some(1714608000), boundary));
    assert!(!within_cutoff(Some(1714607999), boundary));
    assert!(!within_cutoff(None, boundary));
}

#[test]
fn cutoff_boundary_at_the_extremes_does_not_overflow() {
    assert_eq!(cutoff_boundary(i64::MIN, i64::MAX), i64::MIN as i128 - i64::MAX as i128 * 86400);
    assert_eq!(cutoff_boundary(i64::MAX, i64::MIN), i64::MAX as i128 - i64::MIN as i128 * 86400);
    assert_eq!(cutoff_boundary(0, 0), 0);
}

#[test]
fn cutoff_boundary_now_is_in_the_past() {
    let b = cutoff_boundary_now(30);
    assert!(b > 1704067200 - 30 * 86400);
}
