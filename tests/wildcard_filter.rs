use subpeek::model::{SubdomainResult, WildcardProfile};
use subpeek::wildcard::{baseline_from, filter_false_positives, is_wildcard_match, wildcard_test_host};

fn result(ip: &str, status: Option<u16>, title: Option<&str>, len: Option<u64>) -> SubdomainResult {
    SubdomainResult {
        subdomain: "x.example.com".to_string(),
        ip: Some(ip.to_string()),
        status_code: status,
        title: title.map(|t| t.to_string()),
        server: None,
        content_length: len,
    }
}

fn profile(ip: &str, status: Option<u16>, title: Option<&str>, len: Option<u64>) -> WildcardProfile {
    WildcardProfile {
        ip: Some(ip.to_string()),
        status_code: status,
        title: title.map(|t| t.to_string()),
        content_length: len,
    }
}

#[test]
fn same_ip_same_title_matches() {
    let r = result("1.2.3.4", None, Some("Default Page"), None);
    let p = profile("1.2.3.4", None, Some("Default Page"), None);
    assert!(is_wildcard_match(&r, &p));
}

#[test]
fn different_ip_close_length_does_not_match() {
    let r = result("1.2.3.4", None, None, Some(1000));
    let p = profile("9.9.9.9", None, None, Some(1005));
    assert!(!is_wildcard_match(&r, &p));
}

#[test]
fn same_ip_length_within_tolerance_matches() {
    let r = result("5.5.5.5", None, None, Some(1000));
    let p = profile("5.5.5.5", None, None, Some(1030));
    assert!(is_wildcard_match(&r, &p));
}

#[test]
fn same_ip_length_beyond_tolerance_does_not_match() {
    let r = result("5.5.5.5", None, None, Some(1000));
    let p = profile("5.5.5.5", None, None, Some(1060));
    assert!(!is_wildcard_match(&r, &p));
}

#[test]
fn length_difference_of_exactly_tolerance_does_not_match() {
    let r = result("5.5.5.5", None, None, Some(1050));
    let p = profile("5.5.5.5", None, None, Some(1000));
    assert!(!is_wildcard_match(&r, &p));
    let r = result("5.5.5.5", None, None, Some(1049));
    assert!(is_wildcard_match(&r, &p));
}

#[test]
fn ip_mismatch_dominates_every_other_field() {
    let r = result("1.1.1.1", Some(200), Some("Same"), Some(10));
    let p = profile("2.2.2.2", Some(200), Some("Same"), Some(10));
    assert!(!is_wildcard_match(&r, &p));
}

#[test]
fn same_status_without_titles_matches() {
    let r = result("5.5.5.5", Some(404), None, Some(10));
    let p = profile("5.5.5.5", Some(404), None, Some(5000));
    assert!(is_wildcard_match(&r, &p));
    let r = result("5.5.5.5", Some(200), None, Some(10));
    assert!(!is_wildcard_match(&r, &p));
}

#[test]
fn different_titles_do_not_match() {
    let r = result("5.5.5.5", Some(200), Some("Shop"), Some(10));
    let p = profile("5.5.5.5", Some(200), Some("Coming soon"), Some(5000));
    assert!(!is_wildcard_match(&r, &p));
}

#[test]
fn filter_without_baseline_keeps_everything() {
    let rs = vec![result("1.1.1.1", None, None, None), result("2.2.2.2", None, None, None)];
    let out = filter_false_positives(rs, &None);
    assert_eq!(out.len(), 2);
}

#[test]
fn filter_drops_matches_and_keeps_order() {
    let mut a = result("5.5.5.5", Some(200), Some("Coming soon"), Some(300));
    a.subdomain = "a.example.com".to_string();
    let mut b = result("7.7.7.7", Some(200), Some("Coming soon"), Some(300));
    b.subdomain = "b.example.com".to_string();
    let mut c = result("5.5.5.5", Some(200), Some("Shop"), Some(9000));
    c.subdomain = "c.example.com".to_string();
    let p = profile("5.5.5.5", Some(200), Some("Coming soon"), Some(310));
    let out = filter_false_positives(vec![a, b, c], &Some(p));
    let names: Vec<String> = out.iter().map(|r| r.subdomain.clone()).collect();
    assert_eq!(names, vec!["b.example.com".to_string(), "c.example.com".to_string()]);
}

#[test]
fn baseline_copies_fingerprint_fields() {
    let r = result("5.5.5.5", Some(302), Some("Parked"), Some(77));
    let p = baseline_from(r);
    assert_eq!(p.ip.as_deref(), Some("5.5.5.5"));
    assert_eq!(p.status_code, Some(302));
    assert_eq!(p.title.as_deref(), Some("Parked"));
    assert_eq!(p.content_length, Some(77));
}

#[test]
fn test_host_carries_number_and_domain() {
    assert_eq!(wildcard_test_host(123456, "example.com"), "wildcard-test-123456.example.com");
    assert_eq!(wildcard_test_host(0, "a.org"), "wildcard-test-0.a.org");
    assert_eq!(wildcard_test_host(u32::MAX, "a.org"), "wildcard-test-4294967295.a.org");
}
