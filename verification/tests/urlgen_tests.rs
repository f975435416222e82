use mediaflow_proxy_light::models::GenerateUrlRequest;
use mediaflow_proxy_light::query::{extract_query_params, percent_decode, percent_encode};
use mediaflow_proxy_light::urlgen::generate_url_at;

#[test]
fn signed_url_is_rendered_deterministically() {
    let req = GenerateUrlRequest {
        mediaflow_proxy_url: "http://proxy.local/".to_string(),
        endpoint: Some("/proxy/stream".to_string()),
        destination_url: "http://origin/a.mp4".to_string(),
        query_params: vec![("quality".to_string(), "hd".to_string())],
        request_headers: vec![("range".to_string(), "bytes=0-99".to_string())],
        response_headers: vec![("cache-control".to_string(), "no-store".to_string())],
        expiration: None,
        ip: None,
        api_password: None,
    };
    let url = generate_url_at(&req, 0).unwrap();
    assert_eq!(
        url,
        "http://proxy.local/proxy/stream?quality=hd&d=http%3A%2F%2Forigin%2Fa.mp4&h_range=bytes%3D0-99&r_cache-control=no-store"
    );
}

#[test]
fn signed_url_round_trips_through_the_query_parser() {
    let req = GenerateUrlRequest {
        mediaflow_proxy_url: "http://proxy.local".to_string(),
        endpoint: None,
        destination_url: "http://origin/a b?c=d&e=f".to_string(),
        query_params: Vec::new(),
        request_headers: Vec::new(),
        response_headers: Vec::new(),
        expiration: None,
        ip: None,
        api_password: None,
    };
    let url = generate_url_at(&req, 0).unwrap();
    let qs = url.split_once('?').unwrap().1;
    let params = extract_query_params(qs);
    assert_eq!(
        params,
        vec![("d".to_string(), "http://origin/a b?c=d&e=f".to_string())]
    );
}

#[test]
fn percent_coding_round_trips() {
    let raw: Vec<u8> = (0u8..=255).collect();
    let encoded = percent_encode(&raw);
    assert_eq!(percent_decode(&encoded), raw);
    assert_eq!(percent_encode(b"a b"), b"a%20b".to_vec());
    // A stray or malformed escape stays as it is.
    assert_eq!(percent_decode(b"100%"), b"100%".to_vec());
    assert_eq!(percent_decode(b"%zz"), b"%zz".to_vec());
    assert_eq!(percent_decode(b"%41"), b"A".to_vec());
}

#[test]
fn query_parser_drops_incomplete_pairs() {
    let params = extract_query_params("a=1&&b=&=2&c=3&d");
    assert_eq!(
        params,
        vec![
            ("a".to_string(), "1".to_string()),
            ("c".to_string(), "3".to_string()),
        ]
    );
}

#[test]
fn endpoint_joins_with_exactly_one_slash() {
    for (base, ep) in [
        ("http://p", "e"),
        ("http://p/", "e"),
        ("http://p", "/e"),
        ("http://p///", "///e"),
    ] {
        let req = GenerateUrlRequest {
            mediaflow_proxy_url: base.to_string(),
            endpoint: Some(ep.to_string()),
            destination_url: "http://o/x".to_string(),
            query_params: Vec::new(),
            request_headers: Vec::new(),
            response_headers: Vec::new(),
            expiration: None,
            ip: None,
            api_password: None,
        };
        let url = generate_url_at(&req, 0).unwrap();
        assert!(url.starts_with("http://p/e?"), "got {}", url);
    }
}
