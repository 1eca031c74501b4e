use axum_subdomain_routing::extract::{
    extract_subdomain, generic_subdomain, known_host_subdomain, normalize_ipv4, split_labels,
    strip_port,
};
use axum_subdomain_routing::tlds::known_tlds;

fn b(s: &str) -> Vec<u8> {
    s.as_bytes().to_vec()
}

fn bl(ss: &[&str]) -> Vec<Vec<u8>> {
    ss.iter().map(|s| b(s)).collect()
}

fn extract(host: &str) -> Option<String> {
    let tlds = known_tlds();
    let none: Vec<Vec<u8>> = Vec::new();
    extract_subdomain(host.as_bytes(), &none, &tlds)
        .map(|v| String::from_utf8(v).unwrap())
}

fn extract_with(host: &str, known: &[&str]) -> Option<String> {
    let tlds = known_tlds();
    let khs = bl(known);
    extract_subdomain(host.as_bytes(), &khs, &tlds)
        .map(|v| String::from_utf8(v).unwrap())
}

#[test]
fn extracts_from_recognized_tld_domains() {
    assert_eq!(extract("example.com"), None);
    assert_eq!(extract("api.example.com"), Some("api".to_string()));
    assert_eq!(extract("sub.api.example.com"), Some("sub.api".to_string()));
}

#[test]
fn extracts_from_single_label_hosts() {
    assert_eq!(extract("localhost"), None);
    assert_eq!(extract("api.localhost"), Some("api".to_string()));
}

#[test]
fn extracts_from_ipv4_literals() {
    assert_eq!(extract("127.0.0.1"), None);
    assert_eq!(extract("api.127.0.0.1"), Some("api".to_string()));
}

#[test]
fn normalizes_ipv4_literals_only() {
    assert_eq!(normalize_ipv4(b"127.0.0.1"), b("127_0_0_1"));
    assert_eq!(normalize_ipv4(b"api.127.0.0.1"), b("api.127_0_0_1"));
    assert_eq!(normalize_ipv4(b"example.com"), b("example.com"));
    assert_eq!(normalize_ipv4(b""), b(""));
    // The longest literal starting earliest wins; the scan resumes past it.
    assert_eq!(normalize_ipv4(b"1.2.3.4.5"), b("1_2_3_4.5"));
    assert_eq!(normalize_ipv4(b"1.2.3.4.5.6.7.8"), b("1_2_3_4.5_6_7_8"));
    assert_eq!(normalize_ipv4(b"a12.3.4.56z"), b("a12_3_4_56z"));
    // Three dotted runs are not an IPv4 literal.
    assert_eq!(normalize_ipv4(b"1.2.3"), b("1.2.3"));
}

#[test]
fn splits_labels_like_a_textual_split() {
    let labels = split_labels(b"a..b.");
    let views: Vec<&[u8]> = labels.iter().map(|v| v.as_slice()).collect();
    assert_eq!(views, vec![&b"a"[..], &b""[..], &b"b"[..], &b""[..]]);
    assert_eq!(split_labels(b"").len(), 1);
}

#[test]
fn strips_the_port_before_the_first_colon() {
    assert_eq!(strip_port(b"example.com:8080"), b("example.com"));
    assert_eq!(strip_port(b"example.com"), b("example.com"));
    assert_eq!(strip_port(b":8080"), b(""));
    assert_eq!(strip_port(b"a:b:c"), b("a"));
}

#[test]
fn known_host_suffixes_pin_exact_apexes() {
    assert_eq!(
        extract_with("api.myapp.example.com", &["myapp.example.com"]),
        Some("api".to_string())
    );
    // The apex itself is no proper suffix match (nothing precedes a dot),
    // so it falls through to the generic rules.
    assert_eq!(
        extract_with("myapp.example.com", &["myapp.example.com"]),
        Some("myapp".to_string())
    );
    assert_eq!(extract_with("127.0.0.1", &["127.0.0.1"]), None);
    // Many labels before the suffix count as one subdomain key.
    assert_eq!(
        extract_with("a.b.c.localhost", &["localhost"]),
        Some("a.b.c".to_string())
    );
    assert_eq!(
        extract_with("api.127.0.0.1", &["127.0.0.1"]),
        Some("api".to_string())
    );
}

#[test]
fn known_host_matching_requires_a_preceding_dot() {
    // "xlocalhost" ends with the suffix but no dot precedes it.
    assert_eq!(extract_with("xlocalhost", &["localhost"]), None);
    // An equal host is not a proper suffix match either; generic rules run.
    assert_eq!(extract_with("localhost", &["localhost"]), None);
}

#[test]
fn known_host_order_decides_between_overlapping_suffixes() {
    // Both suffixes match; the one registered first wins.
    assert_eq!(
        extract_with("a.b.example.com", &["b.example.com", "example.com"]),
        Some("a".to_string())
    );
    assert_eq!(
        extract_with("a.b.example.com", &["example.com", "b.example.com"]),
        Some("a.b".to_string())
    );
}

#[test]
fn known_host_matching_precedes_generic_extraction() {
    // Generically "sub.api" would be extracted; the suffix pins "sub.api.example".
    assert_eq!(
        extract_with("sub.api.example.com", &["com"]),
        Some("sub.api.example".to_string())
    );
    let tlds = known_tlds();
    let khs = bl(&["example.com"]);
    assert_eq!(
        known_host_subdomain(b"api.example.com", &khs),
        Some(b("api"))
    );
    assert_eq!(generic_subdomain(b"api.example.com", &tlds), Some(b("api")));
}

#[test]
fn unrecognized_tlds_count_toward_the_subdomain() {
    // "invalid" is no recognized top-level domain, so it survives the trim
    // and "api.example" precedes the last surviving label.
    assert_eq!(extract("api.example.invalid"), Some("api.example".to_string()));
    assert_eq!(extract("example.invalid"), Some("example".to_string()));
}

#[test]
fn recognizes_the_fixed_tld_table() {
    let tlds = known_tlds();
    assert_eq!(tlds.len(), 46);
    assert!(tlds.contains(&b("com")));
    assert!(tlds.contains(&b("uk")));
    assert!(tlds.contains(&b("museum")));
    assert!(!tlds.contains(&b("invalid")));
    assert_eq!(extract("api.example.uk"), Some("api".to_string()));
}
