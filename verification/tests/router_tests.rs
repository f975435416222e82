use mediaflow_proxy_light::router::{ProxyRouteConfig, ProxyRouter};

fn rule(proxy: bool, proxy_url: Option<&str>, verify_ssl: bool) -> ProxyRouteConfig {
    ProxyRouteConfig {
        proxy,
        proxy_url: proxy_url.map(|s| s.to_string()),
        verify_ssl,
    }
}

#[test]
fn matching_rule_decides_proxy_and_tls() {
    let routes = vec![(
        "all://*.streaming.com".to_string(),
        rule(true, Some("socks5://p:1080"), false),
    )];
    let router = ProxyRouter::new(None, false, routes);

    let cfg = router
        .get_proxy_config("https://cdn.streaming.com/v")
        .expect("rule should match");
    assert!(cfg.proxy);
    assert_eq!(cfg.proxy_url.as_deref(), Some("socks5://p:1080"));
    assert!(!cfg.verify_ssl);

    // An unmatched URL without all_proxy gets no rule at all.
    assert!(router.get_proxy_config("https://other.com/v").is_none());
}

#[test]
fn all_scheme_accepts_both_schemes_and_star_stops_at_slash() {
    let routes = vec![(
        "all://*.streaming.com".to_string(),
        rule(true, None, true),
    )];
    let router = ProxyRouter::new(None, false, routes);
    assert!(router.get_proxy_config("http://a.streaming.com/x").is_some());
    assert!(router.get_proxy_config("https://b.streaming.com/x").is_some());
    // The wildcard does not cross a slash into the path.
    assert!(router
        .get_proxy_config("https://evil.com/a.streaming.com")
        .is_none());
}

#[test]
fn specificity_prefers_more_wildcards() {
    // Rule A has no wildcard, rule B one; B sorts first and wins on a URL
    // both match.
    let routes = vec![
        (
            "https://cdn.example.com".to_string(),
            rule(true, Some("socks5://a:1080"), true),
        ),
        (
            "https://*.example.com".to_string(),
            rule(true, Some("socks5://b:1080"), true),
        ),
    ];
    let router = ProxyRouter::new(None, false, routes);
    let cfg = router
        .get_proxy_config("https://cdn.example.com/v")
        .expect("both rules match");
    assert_eq!(cfg.proxy_url.as_deref(), Some("socks5://b:1080"));
}

#[test]
fn all_proxy_synthesizes_default_rule() {
    let router = ProxyRouter::new(Some("http://fallback:3128".to_string()), true, Vec::new());
    let cfg = router
        .get_proxy_config("https://anything.example/x")
        .expect("all_proxy must yield a rule");
    assert!(cfg.proxy);
    assert_eq!(cfg.proxy_url.as_deref(), Some("http://fallback:3128"));
    assert!(cfg.verify_ssl);
    assert_eq!(
        router.default_proxy().as_deref(),
        Some("http://fallback:3128")
    );
}

#[test]
fn unparsable_urls_match_nothing() {
    let router = ProxyRouter::new(None, true, Vec::new());
    assert!(router.get_proxy_config("not a url").is_none());
}

#[test]
fn normalization_applies_before_matching() {
    // The URL crate serializes a bare host with a trailing slash; a
    // pattern expecting it still matches the bare text.
    let routes = vec![("http://host.example/".to_string(), rule(true, None, true))];
    let router = ProxyRouter::new(None, false, routes);
    assert!(router.get_proxy_config("http://host.example").is_some());
}

#[test]
fn transport_routes_parse_from_json() {
    let routes_json = r#"{"all://*.streaming.com":{"proxy":true,"proxy_url":"socks5://test-proxy:1080","verify_ssl":true}}"#;
    let routes =
        mediaflow_proxy_light::config::parse_transport_routes(routes_json).expect("valid table");
    assert_eq!(routes.len(), 1);
    assert_eq!(routes[0].0, "all://*.streaming.com");
    let route = &routes[0].1;
    assert!(route.proxy, "Proxy should be enabled");
    assert_eq!(
        route.proxy_url.as_deref(),
        Some("socks5://test-proxy:1080"),
        "Proxy URL doesn't match"
    );
    assert!(route.verify_ssl, "SSL verification should be enabled");
}

#[test]
fn transport_routes_defaults_and_rejections() {
    let routes = mediaflow_proxy_light::config::parse_transport_routes(r#"{"p":{}}"#).unwrap();
    assert_eq!(routes.len(), 1);
    assert!(!routes[0].1.proxy);
    assert_eq!(routes[0].1.proxy_url, None);
    assert!(routes[0].1.verify_ssl, "verification defaults on");

    let many = mediaflow_proxy_light::config::parse_transport_routes(
        r#"{"a":{"proxy":false},"b":{"verify_ssl":false,"proxy":true}}"#,
    )
    .unwrap();
    assert_eq!(many.len(), 2);
    assert!(!many[1].1.verify_ssl && many[1].1.proxy);

    assert!(mediaflow_proxy_light::config::parse_transport_routes("{}").unwrap().is_empty());
    assert!(mediaflow_proxy_light::config::parse_transport_routes(" { } ").unwrap().is_empty());

    // Pretty-printed JSON, as a deployment may write the variable.
    let pretty = "{\n  \"all://*.streaming.com\": {\n    \"proxy\": true,\n    \"proxy_url\": \"socks5://test-proxy:1080\",\n    \"verify_ssl\": false\n  }\n}\n";
    let parsed = mediaflow_proxy_light::config::parse_transport_routes(pretty).unwrap();
    assert_eq!(parsed.len(), 1);
    assert_eq!(parsed[0].0, "all://*.streaming.com");
    assert!(parsed[0].1.proxy);
    assert_eq!(parsed[0].1.proxy_url.as_deref(), Some("socks5://test-proxy:1080"));
    assert!(!parsed[0].1.verify_ssl);

    assert!(mediaflow_proxy_light::config::parse_transport_routes("").is_none());
    assert!(mediaflow_proxy_light::config::parse_transport_routes(r#"{"p":{"unknown":true}}"#)
        .is_none());
    assert!(mediaflow_proxy_light::config::parse_transport_routes(r#"{"p":{"proxy":1}}"#)
        .is_none());
}
