use podcast_scraper::fetch::{accept_response, successful_results, FetchAdmission, FetchResult};

fn result(name: &str, doc: &str) -> FetchResult {
    FetchResult { source_name: name.to_string(), document: doc.to_string() }
}

#[test]
fn admission_never_admits_more_than_its_capacity() {
    for capacity in 1..5usize {
        let total = 9usize;
        let mut admission = FetchAdmission::new(capacity, total).unwrap();
        let mut high_water = 0usize;
        let mut started = Vec::new();
        let mut step = 0usize;
        while !admission.is_finished() {
            while let Some(k) = admission.try_admit() {
                started.push(k);
                high_water = high_water.max(admission.in_flight());
                assert!(admission.in_flight() <= capacity);
            }
            assert!(admission.complete());
            step += 1;
            assert!(step <= total);
        }
        assert_eq!(high_water, capacity);
        assert_eq!(started, (0..total).collect::<Vec<usize>>());
    }
}

#[test]
fn admission_with_zero_capacity_is_refused() {
    assert!(FetchAdmission::new(0, 3).is_none());
}

#[test]
fn admission_complete_without_flight_changes_nothing() {
    let mut admission = FetchAdmission::new(2, 1).unwrap();
    assert!(!admission.complete());
    assert_eq!(admission.try_admit(), Some(0));
    assert_eq!(admission.try_admit(), None);
    assert!(!admission.is_finished());
    assert!(admission.complete());
    assert!(admission.is_finished());
}

#[test]
fn admission_for_no_sources_is_finished() {
    let mut admission = FetchAdmission::new(20, 0).unwrap();
    assert!(admission.is_finished());
    assert_eq!(admission.try_admit(), None);
}

#[test]
fn failed_responses_yield_nothing() {
    let name = "S".to_string();
    assert!(accept_response(&name, 500, Some("body".to_string())).is_none());
    assert!(accept_response(&name, 404, Some("body".to_string())).is_none());
    assert!(accept_response(&name, 301, Some("body".to_string())).is_none());
    assert!(accept_response(&name, 200, None).is_none());
    let ok = accept_response(&name, 200, Some("body".to_string())).unwrap();
    assert_eq!(ok.source_name, "S");
    assert_eq!(ok.document, "body");
    assert!(accept_response(&name, 204, Some(String::new())).is_some());
    assert!(accept_response(&name, 299, Some(String::new())).is_some());
}

#[test]
fn successful_results_drop_failures_in_order() {
    let outcomes = vec![None, Some(result("A", "a")), None, Some(result("B", "b"))];
    let kept = successful_results(&outcomes);
    let names: Vec<&str> = kept.iter().map(|r| r.source_name.as_str()).collect();
    assert_eq!(names, vec!["A", "B"]);
    assert_eq!(kept[1].document, "b");
}
