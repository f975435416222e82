use mediaflow_proxy_light::encryption::{pad_data, unpad_data, EncryptionHandler, ProxyData, TokenError};
use mediaflow_proxy_light::token::{TokenData, TokenHandler};

fn sample_data() -> ProxyData {
    ProxyData {
        destination: "http://origin/x".to_string(),
        query_params: Some(vec![
            ("api_password".to_string(), "pw".to_string()),
            ("d".to_string(), "http://origin/x".to_string()),
        ]),
        request_headers: Some(vec![("range".to_string(), "bytes=0-99".to_string())]),
        response_headers: Some(vec![("x-served-by".to_string(), "relay".to_string())]),
        exp: Some(4102444800),
        ip: Some("1.2.3.4".to_string()),
    }
}

#[test]
fn round_trip_full_record() {
    let handler = EncryptionHandler::new(b"pw").unwrap();
    let data = sample_data();
    let token = handler.encrypt(&data).unwrap();
    let got = handler
        .decrypt_at(&token, Some("1.2.3.4"), 1_700_000_000)
        .unwrap();
    assert_eq!(got.destination, data.destination);
    assert_eq!(got.query_params, data.query_params);
    assert_eq!(got.request_headers, data.request_headers);
    assert_eq!(got.response_headers, data.response_headers);
    assert_eq!(got.exp, data.exp);
    assert_eq!(got.ip, data.ip);
}

#[test]
fn round_trip_escaped_and_unicode_text() {
    let handler = EncryptionHandler::new(b"secret").unwrap();
    let data = ProxyData {
        destination: "http://origin/path?q=\"a\\b\"\tünïcødé".to_string(),
        query_params: None,
        request_headers: None,
        response_headers: None,
        exp: None,
        ip: None,
    };
    let token = handler.encrypt(&data).unwrap();
    let got = handler.decrypt_at(&token, None, 0).unwrap();
    assert_eq!(got.destination, data.destination);
    assert_eq!(got.exp, None);
    assert_eq!(got.ip, None);
}

#[test]
fn expired_token_is_rejected() {
    let handler = EncryptionHandler::new(b"pw").unwrap();
    let mut data = sample_data();
    data.ip = None;
    data.exp = Some(100);
    let token = handler.encrypt(&data).unwrap();
    assert_eq!(
        handler.decrypt_at(&token, None, 101),
        Err(TokenError::Expired)
    );
    // The boundary moment itself is still valid.
    assert!(handler.decrypt_at(&token, None, 100).is_ok());
    let err = handler.decrypt(&token, None).unwrap_err();
    assert_eq!(err.message(), "Token has expired");
    assert_eq!(err.http_status(), 401);
}

#[test]
fn ip_binding() {
    let handler = EncryptionHandler::new(b"pw").unwrap();
    let data = sample_data();
    let token = handler.encrypt(&data).unwrap();
    let now = 1_700_000_000;
    // A different observed address is turned away.
    assert_eq!(
        handler.decrypt_at(&token, Some("5.6.7.8"), now),
        Err(TokenError::IpMismatch)
    );
    // Without an observed address the binding is not checked.
    assert!(handler.decrypt_at(&token, None, now).is_ok());
    // The bound address passes.
    assert!(handler.decrypt_at(&token, Some("1.2.3.4"), now).is_ok());
}

#[test]
fn tampered_ciphertext_is_detected() {
    let handler = EncryptionHandler::new(b"pw").unwrap();
    let mut data = sample_data();
    data.ip = None;
    let token = handler.encrypt(&data).unwrap();
    let raw = base64::Engine::decode(&base64::engine::general_purpose::URL_SAFE, &token).unwrap();
    // Flip one bit of every byte of the ciphertext region in turn.
    for i in 16..raw.len() {
        let mut tampered = raw.clone();
        tampered[i] ^= 0x01;
        let tampered_token =
            base64::Engine::encode(&base64::engine::general_purpose::URL_SAFE, &tampered);
        let result = handler.decrypt_at(&tampered_token, None, 1_700_000_000);
        match result {
            Err(TokenError::InvalidPadding) | Err(TokenError::InvalidPayload) => {}
            other => panic!("byte {} not detected: {:?}", i, other),
        }
    }
}

#[test]
fn malformed_tokens_are_rejected() {
    let handler = EncryptionHandler::new(b"pw").unwrap();
    assert_eq!(
        handler.decrypt_at("not base64 at all!!", None, 0),
        Err(TokenError::InvalidFormat)
    );
    let short = base64::Engine::encode(&base64::engine::general_purpose::URL_SAFE, [1u8; 8]);
    assert_eq!(
        handler.decrypt_at(&short, None, 0),
        Err(TokenError::TooShort)
    );
    let ragged = base64::Engine::encode(&base64::engine::general_purpose::URL_SAFE, [1u8; 21]);
    assert_eq!(
        handler.decrypt_at(&ragged, None, 0),
        Err(TokenError::InvalidPadding)
    );
}

#[test]
fn padding_round_trip_and_rejections() {
    for len in 0..64usize {
        let data: Vec<u8> = (0..len).map(|i| (i * 7) as u8).collect();
        let padded = pad_data(&data);
        assert_eq!(padded.len() % 16, 0);
        assert!(padded.len() > data.len());
        assert_eq!(unpad_data(&padded), Some(data));
    }
    // A zero trailer, an oversized trailer and an inconsistent tail are
    // all rejected.
    assert_eq!(unpad_data(&[]), None);
    assert_eq!(unpad_data(&[5, 5, 5, 0]), None);
    assert_eq!(unpad_data(&[1, 2, 17]), None);
    assert_eq!(unpad_data(&[9, 9, 200]), None);
    assert_eq!(unpad_data(&[1, 2, 3, 2, 4]), None);
    let ok = unpad_data(&[7, 8, 2, 2]);
    assert_eq!(ok, Some(vec![7, 8]));
}

#[test]
fn token_handler_matches_encryption_handler() {
    let th = TokenHandler::new(b"legacy_secret").unwrap();
    let data = TokenData {
        destination: "https://example.com/a".to_string(),
        query_params: None,
        request_headers: None,
        response_headers: None,
        exp: None,
        ip: None,
    };
    let token = th.encrypt(&data).unwrap();
    let eh = EncryptionHandler::new(b"legacy_secret").unwrap();
    let got = eh.decrypt_at(&token, None, 0).unwrap();
    assert_eq!(got.destination, data.destination);
    let again = th.decrypt(&token, None).unwrap();
    assert_eq!(again.destination, data.destination);
}

#[test]
fn key_derivation_is_shared_between_password_lengths() {
    // A password longer than 32 bytes is truncated: the first 32 bytes
    // alone decide the key.
    let long = b"0123456789abcdef0123456789abcdefEXTRA";
    let trunc = b"0123456789abcdef0123456789abcdef";
    let h1 = EncryptionHandler::new(long).unwrap();
    let h2 = EncryptionHandler::new(trunc).unwrap();
    let data = ProxyData {
        destination: "http://origin/z".to_string(),
        query_params: None,
        request_headers: None,
        response_headers: None,
        exp: None,
        ip: None,
    };
    let token = h1.encrypt(&data).unwrap();
    assert!(h2.decrypt_at(&token, None, 0).is_ok());
}

#[test]
fn ciphertext_region_is_deterministic_per_key_and_data() {
    // Two encryptions of the same record differ only in the random
    // 16-byte initialization vector; the ciphertext region is a function
    // of the key and the payload alone.
    let handler = EncryptionHandler::new(b"pw").unwrap();
    let data = sample_data();
    let t1 = handler.encrypt(&data).unwrap();
    let t2 = handler.encrypt(&data).unwrap();
    let r1 = base64::Engine::decode(&base64::engine::general_purpose::URL_SAFE, &t1).unwrap();
    let r2 = base64::Engine::decode(&base64::engine::general_purpose::URL_SAFE, &t2).unwrap();
    assert_eq!(r1.len(), r2.len());
    assert_eq!(r1[16..], r2[16..]);
    assert!(r1.len() >= 32 && r1.len() % 16 == 0);
}
