use mediaflow_proxy_light::auth::AuthMiddleware;
use mediaflow_proxy_light::models::GenerateUrlRequest;
use mediaflow_proxy_light::urlgen::generate_url_at;

fn authorizer(password: &str) -> AuthMiddleware {
    AuthMiddleware::new(password.to_string())
}

#[test]
fn open_endpoints_bypass_the_authorizer() {
    let g = authorizer("pw");
    assert_eq!(g.authorize("/proxy/generate_url", "", None, 0).unwrap(), None);
    assert_eq!(g.authorize("/health", "", None, 0).unwrap(), None);
}

#[test]
fn empty_password_disables_the_authorizer() {
    let g = authorizer("");
    assert_eq!(g.authorize("/proxy/stream", "anything=1", None, 0).unwrap(), None);
}

#[test]
fn signed_query_materializes_proxy_data() {
    let g = authorizer("pw");
    let r = g
        .authorize(
            "/proxy/stream",
            "api_password=pw&d=http://origin/a.mp4&h_range=bytes%3D0-99&r_cache-control=no-store",
            None,
            0,
        )
        .unwrap()
        .expect("signed query must attach data");
    assert_eq!(r.destination, "http://origin/a.mp4");
    assert_eq!(
        r.request_headers,
        Some(vec![("range".to_string(), "bytes=0-99".to_string())])
    );
    assert_eq!(
        r.response_headers,
        Some(vec![("cache-control".to_string(), "no-store".to_string())])
    );
    assert_eq!(r.exp, None);
    assert_eq!(r.ip, None);
    let qp = r.query_params.unwrap();
    assert!(qp.contains(&("api_password".to_string(), "pw".to_string())));
    assert!(qp.contains(&("d".to_string(), "http://origin/a.mp4".to_string())));
}

#[test]
fn signed_query_without_destination_is_refused() {
    let g = authorizer("pw");
    let err = g
        .authorize("/proxy/stream", "api_password=pw", None, 0)
        .unwrap_err();
    assert_eq!(err.http_status(), 401);
    assert_eq!(err.message(), "Missing destination");
}

#[test]
fn wrong_password_and_missing_credentials_are_refused() {
    let g = authorizer("pw");
    let err = g
        .authorize("/proxy/stream", "api_password=nope&d=http://o/x", None, 0)
        .unwrap_err();
    assert_eq!(err.message(), "Invalid or missing authentication");
    let err2 = g.authorize("/proxy/stream", "d=http://o/x", None, 0).unwrap_err();
    assert_eq!(err2.message(), "Invalid or missing authentication");
}

fn token_request(expiration: Option<u64>, ip: Option<&str>) -> GenerateUrlRequest {
    GenerateUrlRequest {
        mediaflow_proxy_url: "http://proxy.local".to_string(),
        endpoint: Some("proxy/stream".to_string()),
        destination_url: "http://origin/x".to_string(),
        query_params: Vec::new(),
        request_headers: Vec::new(),
        response_headers: Vec::new(),
        expiration,
        ip: ip.map(|s| s.to_string()),
        api_password: Some("pw".to_string()),
    }
}

fn token_of(url: &str) -> String {
    let marker = "?token=";
    let at = url.find(marker).expect("token URL");
    url[at + marker.len()..].to_string()
}

#[test]
fn token_mode_round_trip_through_the_authorizer() {
    let now = 1_700_000_000;
    let url = generate_url_at(&token_request(Some(3600), Some("1.2.3.4")), now).unwrap();
    assert!(url.starts_with("http://proxy.local/proxy/stream?token="));
    let token = token_of(&url);
    let g = authorizer("pw");
    let query = format!("token={}", token);

    // From the bound address the request passes and the descriptor is handed on.
    let d = g
        .authorize("/proxy/stream", &query, Some("1.2.3.4"), now + 10)
        .unwrap()
        .expect("token must attach data");
    assert_eq!(d.destination, "http://origin/x");
    assert_eq!(d.exp, Some(now + 3600));
    assert_eq!(d.ip, Some("1.2.3.4".to_string()));

    // From another address the binding is enforced.
    let err = g
        .authorize("/proxy/stream", &query, Some("5.6.7.8"), now + 10)
        .unwrap_err();
    assert_eq!(err.http_status(), 401);
    assert_eq!(err.message(), "IP mismatch");
}

#[test]
fn expired_token_is_refused_by_the_authorizer() {
    let now = 1_700_000_000;
    let url = generate_url_at(&token_request(Some(1), None), now).unwrap();
    let token = token_of(&url);
    let g = authorizer("pw");
    let query = format!("token={}", token);
    let err = g
        .authorize("/proxy/stream", &query, None, now + 2)
        .unwrap_err();
    assert_eq!(err.http_status(), 401);
    assert_eq!(err.message(), "Token has expired");
}

#[test]
fn token_for_another_password_is_refused() {
    let now = 1_700_000_000;
    let mut req = token_request(None, None);
    req.api_password = Some("other".to_string());
    let url = generate_url_at(&req, now).unwrap();
    let token = token_of(&url);
    let g = authorizer("pw");
    let query = format!("token={}", token);
    assert!(g.authorize("/proxy/stream", &query, None, now).is_err());
}
