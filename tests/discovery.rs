use std::collections::HashSet;

use subpeek::discovery::{aggregate, filter_subs, is_candidate, normalize_host, top_subdomains};

fn strings(v: &[&str]) -> Vec<String> {
    v.iter().map(|s| s.to_string()).collect()
}

fn set(v: &[String]) -> HashSet<String> {
    v.iter().cloned().collect()
}

#[test]
fn normalize_trims_and_lowercases() {
    assert_eq!(normalize_host("  API.Example.COM \n", "example.com"), Some("api.example.com".to_string()));
    assert_eq!(normalize_host("Example.com", "example.com"), Some("example.com".to_string()));
}

#[test]
fn normalize_rejects_wildcards_and_foreign_names() {
    assert_eq!(normalize_host("*.example.com", "example.com"), None);
    assert_eq!(normalize_host("example.org", "example.com"), None);
    assert_eq!(normalize_host("badexample.com", "example.com"), None);
    assert_eq!(normalize_host("", "example.com"), None);
}

#[test]
fn candidate_check() {
    assert!(is_candidate("a.b.example.com", "example.com"));
    assert!(is_candidate("example.com", "example.com"));
    assert!(!is_candidate("xexample.com", "example.com"));
    assert!(!is_candidate("a*.example.com", "example.com"));
}

#[test]
fn filter_subs_dedups_case_variants() {
    let raw = strings(&["WWW.example.com", "www.example.com", " www.EXAMPLE.com", "*.example.com", "other.net"]);
    let out = filter_subs(raw, "example.com");
    assert_eq!(out, vec!["www.example.com".to_string()]);
}

#[test]
fn filtering_normalized_list_is_idempotent() {
    let raw = strings(&["Mail.Example.com ", "api.example.com", "*.example.com", "API.example.com", "example.com"]);
    let once = filter_subs(raw, "example.com");
    let twice = filter_subs(once.clone(), "example.com");
    assert_eq!(set(&once), set(&twice));
    assert_eq!(once.len(), 3);
}

#[test]
fn aggregate_output_is_valid_and_case_distinct() {
    let sources = vec![
        strings(&["Dev.Example.com", "*.example.com", "shop.example.com"]),
        vec![],
        strings(&["DEV.example.com", "intranet.example.com", "evil.com"]),
    ];
    let labels = strings(&["www", "shop"]);
    let out = aggregate("example.com", &sources, &labels);
    let got = set(&out);
    let want: HashSet<String> = strings(&[
        "dev.example.com",
        "shop.example.com",
        "intranet.example.com",
        "www.example.com",
    ])
    .into_iter()
    .collect();
    assert_eq!(got, want);
    assert_eq!(out.len(), 4);
    let lowered: HashSet<String> = out.iter().map(|s| s.to_lowercase()).collect();
    assert_eq!(lowered.len(), out.len());
    for c in &out {
        assert!(c == "example.com" || c.ends_with(".example.com"));
        assert!(!c.contains('*'));
    }
}

#[test]
fn aggregate_with_failed_sources_still_has_labels() {
    let out = aggregate("example.com", &vec![], &top_subdomains());
    assert_eq!(out.len(), 30);
    assert!(out.contains(&"www.example.com".to_string()));
    assert!(out.contains(&"autoconfig.example.com".to_string()));
}
