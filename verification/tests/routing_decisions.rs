use axum_subdomain_routing::routing::{Decision, SubdomainLayer, SubdomainService};

fn b(s: &str) -> Vec<u8> {
    s.as_bytes().to_vec()
}

/// Runs one request's dispatch against a table of named handlers and returns
/// what the client would observe: the chosen handler's greeting, or a 404.
fn dispatch(svc: &SubdomainService<&'static str>, host: Option<&str>) -> &'static str {
    match svc.decide(host.map(|h| h.as_bytes())) {
        Decision::Dispatched { index } => svc.handler_at(index).unwrap(),
        Decision::Rejected => "404",
        Decision::Fallback => "Hello from Main App!",
    }
}

#[test]
fn test_subdomain_routing() {
    let svc = SubdomainLayer::new()
        .register(b("api"), "Hello from API!")
        .register(b("admin"), "Hello from Admin!")
        .into_service();

    assert_eq!(dispatch(&svc, Some("127.0.0.1:8080")), "Hello from Main App!");
    assert_eq!(dispatch(&svc, Some("api.127.0.0.1:8080")), "Hello from API!");
    assert_eq!(dispatch(&svc, Some("admin.127.0.0.1:8080")), "Hello from Admin!");
    assert_eq!(dispatch(&svc, Some("unknown.127.0.0.1:8080")), "Hello from Main App!");
}

#[test]
fn test_subdomain_routing_strict() {
    let svc = SubdomainLayer::new()
        .register(b("api"), "Hello from API!")
        .register(b("admin"), "Hello from Admin!")
        .strict(true)
        .into_service();

    assert_eq!(dispatch(&svc, Some("127.0.0.1:8080")), "Hello from Main App!");
    assert_eq!(dispatch(&svc, Some("api.127.0.0.1:8080")), "Hello from API!");
    assert_eq!(dispatch(&svc, Some("admin.127.0.0.1:8080")), "Hello from Admin!");
    assert_eq!(dispatch(&svc, Some("unknown.127.0.0.1:8080")), "404");
}

#[test]
fn test_localhost_subdomains() {
    let svc = SubdomainLayer::new()
        .register(b("api"), "Hello from API!")
        .register(b("admin"), "Hello from Admin!")
        .into_service();

    assert_eq!(dispatch(&svc, Some("localhost:8080")), "Hello from Main App!");
    assert_eq!(dispatch(&svc, Some("api.localhost:8080")), "Hello from API!");
    assert_eq!(dispatch(&svc, Some("unknown.localhost:8080")), "Hello from Main App!");
}

#[test]
fn test_domain_subdomains() {
    let svc = SubdomainLayer::new()
        .register(b("api"), "Hello from API!")
        .into_service();

    assert_eq!(dispatch(&svc, Some("example.com:8080")), "Hello from Main App!");
    assert_eq!(dispatch(&svc, Some("api.example.com:8080")), "Hello from API!");
    assert_eq!(dispatch(&svc, Some("unknown.example.com:8080")), "Hello from Main App!");
}

#[test]
fn test_domain_subdomains_strict() {
    let svc = SubdomainLayer::new()
        .register(b("api"), "Hello from API!")
        .strict(true)
        .into_service();

    assert_eq!(dispatch(&svc, Some("example.com:8080")), "Hello from Main App!");
    assert_eq!(dispatch(&svc, Some("api.example.com:8080")), "Hello from API!");
    assert_eq!(dispatch(&svc, Some("unknown.example.com:8080")), "404");
}

#[test]
fn test_multiple_level_subdomains() {
    let svc = SubdomainLayer::new()
        .register(b("sub.api"), "Hello from Sub API!")
        .into_service();

    assert_eq!(dispatch(&svc, Some("127.0.0.1:8080")), "Hello from Main App!");
    assert_eq!(dispatch(&svc, Some("sub.api.127.0.0.1:8080")), "Hello from Sub API!");
}

#[test]
fn strict_mode_rejects_only_unmatched_subdomains() {
    let svc = SubdomainLayer::new()
        .register(b("api"), "Hello from API!")
        .strict(true)
        .into_service();

    // An unmatched subdomain is rejected with a not-found response.
    assert_eq!(svc.decide(Some(b"unknown.example.com")), Decision::Rejected);
    // A matched subdomain is dispatched.
    assert_eq!(svc.decide(Some(b"api.example.com")), Decision::Dispatched { index: 0 });
    // No subdomain at all is not "unmatched": it falls back even in strict mode.
    assert_eq!(svc.decide(Some(b"example.com")), Decision::Fallback);
}

#[test]
fn non_strict_mode_falls_back_on_unmatched_subdomains() {
    let svc = SubdomainLayer::new()
        .register(b("api"), "Hello from API!")
        .strict(false)
        .into_service();

    assert_eq!(svc.decide(Some(b"unknown.example.com")), Decision::Fallback);
    assert_eq!(dispatch(&svc, Some("unknown.example.com")), "Hello from Main App!");
}

#[test]
fn keys_match_exactly_not_by_prefix_or_suffix() {
    let svc = SubdomainLayer::new()
        .register(b("sub.api"), "Hello from Sub API!")
        .into_service();

    assert_eq!(svc.decide(Some(b"sub.api.example.com")), Decision::Dispatched { index: 0 });
    // "api" is not the key "sub.api": the lookup is exact, not a prefix match.
    assert_eq!(svc.decide(Some(b"api.example.com")), Decision::Fallback);
}

#[test]
fn a_missing_or_undecodable_host_falls_back() {
    let svc = SubdomainLayer::new()
        .register(b("api"), "Hello from API!")
        .strict(true)
        .into_service();

    assert_eq!(svc.decide(None), Decision::Fallback);
}

#[test]
fn the_same_host_always_yields_the_same_decision() {
    let svc = SubdomainLayer::new()
        .register(b("api"), "Hello from API!")
        .register(b("admin"), "Hello from Admin!")
        .strict(true)
        .into_service();

    for host in ["api.example.com", "admin.example.com:443", "nope.example.com", "example.com"] {
        let first = svc.decide(Some(host.as_bytes()));
        for _ in 0..3 {
            assert_eq!(svc.decide(Some(host.as_bytes())), first);
        }
    }
}

#[test]
fn the_last_registration_of_a_key_wins() {
    let svc = SubdomainLayer::new()
        .register(b("api"), "Hello from API!")
        .register(b("api"), "Hello from New API!")
        .into_service();

    assert_eq!(dispatch(&svc, Some("api.example.com")), "Hello from New API!");
}

#[test]
fn known_hosts_guide_the_dispatch() {
    let svc = SubdomainLayer::new()
        .register(b("a.b.c"), "Hello from Deep!")
        .known_hosts(vec![b("myapp.internal")])
        .into_service();

    assert_eq!(dispatch(&svc, Some("a.b.c.myapp.internal:9000")), "Hello from Deep!");
    assert_eq!(svc.decide(Some(b"myapp.internal")), Decision::Fallback);
}

#[test]
fn case_sensitive_matching_is_preserved() {
    // Matching is case-sensitive as configured; no folding happens anywhere.
    let svc = SubdomainLayer::new()
        .register(b("api"), "Hello from API!")
        .into_service();

    assert_eq!(svc.decide(Some(b"API.example.com")), Decision::Fallback);
}
