use mediaflow_proxy_light::config::ProxyConfig;
use mediaflow_proxy_light::encryption::ProxyData;
use mediaflow_proxy_light::headers::{compose_request_headers, compose_response_headers};
use mediaflow_proxy_light::router::ProxyRouteConfig;
use mediaflow_proxy_light::stream::{
    check_status, content_length_of, decide_framing, plan_client, u64_to_string, BodyFraming,
    ProgressTracker, ResponseStream, StreamManager,
};

fn pairs(ps: &[(&str, &str)]) -> Vec<(Vec<u8>, Vec<u8>)> {
    ps.iter()
        .map(|(k, v)| (k.as_bytes().to_vec(), v.as_bytes().to_vec()))
        .collect()
}

fn bare_data() -> ProxyData {
    ProxyData {
        destination: "http://origin/a.mp4".to_string(),
        query_params: None,
        request_headers: None,
        response_headers: None,
        exp: None,
        ip: None,
    }
}

#[test]
fn request_headers_whitelist_and_overrides() {
    let incoming = pairs(&[
        ("Range", "bytes=0-99"),
        ("cookie", "secret"),
        ("If-Range", "etag-1"),
    ]);
    let mut data = bare_data();
    data.request_headers = Some(vec![("X-Custom".to_string(), "yes".to_string())]);
    let out = compose_request_headers(&incoming, &data).unwrap();
    let got: Vec<(String, String)> = out
        .iter()
        .map(|(k, v)| {
            (
                String::from_utf8(k.clone()).unwrap(),
                String::from_utf8(v.clone()).unwrap(),
            )
        })
        .collect();
    // The whitelist passes range and if-range in order; the cookie is
    // dropped; the override is appended under its lower-cased name.
    assert_eq!(
        got,
        vec![
            ("range".to_string(), "bytes=0-99".to_string()),
            ("if-range".to_string(), "etag-1".to_string()),
            ("x-custom".to_string(), "yes".to_string()),
        ]
    );
}

#[test]
fn request_override_beats_whitelisted_value() {
    let incoming = pairs(&[("range", "bytes=0-99")]);
    let mut data = bare_data();
    data.request_headers = Some(vec![("Range".to_string(), "bytes=5-9".to_string())]);
    let out = compose_request_headers(&incoming, &data).unwrap();
    assert_eq!(out.len(), 1);
    assert_eq!(out[0].0, b"range".to_vec());
    assert_eq!(out[0].1, b"bytes=5-9".to_vec());
}

#[test]
fn invalid_override_name_is_an_internal_error() {
    let incoming = pairs(&[]);
    let mut data = bare_data();
    data.request_headers = Some(vec![("bad name".to_string(), "v".to_string())]);
    let err = compose_request_headers(&incoming, &data).unwrap_err();
    assert_eq!(err.http_status(), 500);
    assert_eq!(err.message(), "Invalid header name");

    let mut data2 = bare_data();
    data2.request_headers = Some(vec![("ok".to_string(), "bad\nvalue".to_string())]);
    let err2 = compose_request_headers(&incoming, &data2).unwrap_err();
    assert_eq!(err2.message(), "Invalid header value");
}

#[test]
fn response_headers_whitelist_order_and_overrides() {
    let upstream = pairs(&[
        ("Server", "hidden"),
        ("Content-Length", "100"),
        ("Content-Type", "video/mp4"),
    ]);
    let mut data = bare_data();
    data.response_headers = Some(vec![("X-Extra".to_string(), "1".to_string())]);
    let out = compose_response_headers(&upstream, &data).unwrap();
    let got: Vec<(String, String)> = out
        .iter()
        .map(|(k, v)| {
            (
                String::from_utf8(k.clone()).unwrap(),
                String::from_utf8(v.clone()).unwrap(),
            )
        })
        .collect();
    assert_eq!(
        got,
        vec![
            ("content-type".to_string(), "video/mp4".to_string()),
            ("content-length".to_string(), "100".to_string()),
            ("x-extra".to_string(), "1".to_string()),
        ]
    );
}

#[test]
fn response_composition_is_idempotent_on_its_own_output() {
    let upstream = pairs(&[
        ("Content-Length", "10"),
        ("Content-Type", "text/plain"),
        ("Server", "hidden"),
    ]);
    let mut data = bare_data();
    data.response_headers = Some(vec![
        ("cache-control".to_string(), "no-store".to_string()),
        ("x-note".to_string(), "twice".to_string()),
    ]);
    let once = compose_response_headers(&upstream, &data).unwrap();
    let twice = compose_response_headers(&once, &data).unwrap();
    assert_eq!(once, twice);
}

#[test]
fn content_length_and_framing() {
    let hs = pairs(&[("Content-Type", "text/plain"), ("Content-Length", "10")]);
    assert_eq!(content_length_of(&hs), 10);
    let none = pairs(&[("Transfer-Encoding", "chunked")]);
    assert_eq!(content_length_of(&none), 0);
    let bad = pairs(&[("Content-Length", "12x")]);
    assert_eq!(content_length_of(&bad), 0);
    let huge = pairs(&[("Content-Length", "99999999999999999999999999")]);
    assert_eq!(content_length_of(&huge), 0);

    // A HEAD answer keeps the length and carries no body.
    assert_eq!(decide_framing(true, 10), BodyFraming::Head(10));
    // A sized GET streams exactly the announced bytes.
    assert_eq!(decide_framing(false, 100), BodyFraming::Sized(100));
    // Without a length the body is chunked.
    assert_eq!(decide_framing(false, 0), BodyFraming::Chunked);
}

#[test]
fn upstream_status_check() {
    assert!(check_status(200).is_ok());
    assert!(check_status(206).is_ok());
    let err = check_status(404).unwrap_err();
    assert_eq!(err.http_status(), 502);
    assert_eq!(err.message(), "Upstream returned error status: 404 Not Found");
    let err2 = check_status(503).unwrap_err();
    assert_eq!(
        err2.message(),
        "Upstream returned error status: 503 Service Unavailable"
    );
    let err4 = check_status(416).unwrap_err();
    assert_eq!(
        err4.message(),
        "Upstream returned error status: 416 Range Not Satisfiable"
    );
    let err3 = check_status(599).unwrap_err();
    assert_eq!(
        err3.message(),
        "Upstream returned error status: 599 <unknown status code>"
    );
    assert_eq!(u64_to_string(1234567890), "1234567890");
    assert_eq!(u64_to_string(0), "0");
}

fn proxy_config() -> ProxyConfig {
    ProxyConfig {
        connect_timeout: 30,
        buffer_size: 8192,
        follow_redirects: true,
        proxy_url: Some("http://default:3128".to_string()),
        all_proxy: false,
        transport_routes: vec![(
            "all://*.streaming.com".to_string(),
            ProxyRouteConfig {
                proxy: true,
                proxy_url: Some("socks5://p:1080".to_string()),
                verify_ssl: false,
            },
        )],
    }
}

#[test]
fn client_plans_follow_route_decisions() {
    let manager = StreamManager::new(proxy_config());

    // A matched route brings its own proxy and TLS policy.
    let plan = manager.plan_request("https://cdn.streaming.com/v");
    assert_eq!(plan.connect_timeout, 30);
    assert!(plan.follow_redirects);
    assert_eq!(plan.proxy_url.as_deref(), Some("socks5://p:1080"));
    assert!(plan.accept_invalid_certs);

    // An unmatched URL uses the baseline client with the default proxy.
    let plan2 = manager.plan_request("https://other.com/v");
    assert_eq!(plan2.proxy_url.as_deref(), Some("http://default:3128"));
    assert!(!plan2.accept_invalid_certs);

    // A rule that wants a proxy but names none falls back to the default.
    let fallback = Some(ProxyRouteConfig {
        proxy: true,
        proxy_url: None,
        verify_ssl: true,
    });
    let plan3 = plan_client(&proxy_config(), &fallback);
    assert_eq!(plan3.proxy_url.as_deref(), Some("http://default:3128"));

    // A rule that declines a proxy uses none at all.
    let none = Some(ProxyRouteConfig {
        proxy: false,
        proxy_url: Some("socks5://unused:1".to_string()),
        verify_ssl: true,
    });
    let plan4 = plan_client(&proxy_config(), &none);
    assert_eq!(plan4.proxy_url, None);
}

#[test]
fn progress_tracker_paces_logging() {
    let mut t = ProgressTracker::new(8192);
    assert!(!t.record(100));
    assert_eq!(t.total, 100);
    // Crossing exactly ten buffers logs.
    assert!(t.record(8192 * 10 - 100));
    assert_eq!(t.total, 8192 * 10);
    assert!(!t.record(1));

    // A zero buffer size never divides and never logs.
    let mut z = ProgressTracker::new(0);
    assert!(!z.record(0));
    assert!(!z.record(7));
}

#[test]
fn response_stream_wraps_its_source() {
    let chunks: Vec<Vec<u8>> = vec![b"A".to_vec(), b"B".to_vec(), b"C".to_vec()];
    let stream = ResponseStream::new(chunks.clone());
    assert_eq!(stream.into_inner(), chunks);
}
