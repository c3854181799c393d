use mediaflow_proxy::auth::encryption::{EncryptionHandler, ProxyData};
use mediaflow_proxy::error::AppError;
use mediaflow_proxy::proxy::urls::{
    base64_check, base64_decode, base64_encode, build_proxy_url, generate_url, generate_urls,
    Base64Query, GenerateMultiUrlRequest, GenerateUrlRequest, MultiUrlRequestItem,
};
use mediaflow_proxy::string_map::StringMap;
use mediaflow_proxy::utils::base64_url::{decode_base64_url, encode_url_to_base64, is_base64_url};
use mediaflow_proxy::utils::url::{resolve_url, segment_extension};

fn map(pairs: &[(&str, &str)]) -> StringMap {
    let mut m = StringMap::new();
    for (k, v) in pairs {
        m.insert(k, v);
    }
    m
}

fn request() -> GenerateUrlRequest {
    GenerateUrlRequest {
        mediaflow_proxy_url: "https://p.example/base//".to_string(),
        endpoint: Some("//proxy/stream".to_string()),
        destination_url: "https://c.example/a b?x=1".to_string(),
        query_params: map(&[("q", "1"), ("empty", "")]),
        request_headers: map(&[("Range", "bytes=0-"), ("h_if-range", "x"), ("Referer", "r"), ("h_origin", "o")]),
        response_headers: map(&[("r_a", "1"), ("b", "2")]),
        propagate_response_headers: map(&[("rp_c", "3"), ("d", "4")]),
        remove_response_headers: vec!["x".to_string(), "y".to_string()],
        stream_transformer: Some("t".to_string()),
        filename: Some("f 1.mkv".to_string()),
        api_password: None,
        expiration: None,
        ip: None,
        base64_encode_destination: false,
    }
}

#[test]
fn flat_url_is_exact() {
    assert_eq!(
        generate_url(&request(), 0).unwrap(),
        "https://p.example/base/proxy/stream/f%201.mkv?d=https%3A%2F%2Fc.example%2Fa%20b%3Fx%3D1\
         &q=1&h_Referer=r&h_origin=o&r_a=1&r_b=2&rp_c=3&rp_d=4&x_headers=x%2Cy&transformer=t"
    );
}

#[test]
fn flat_url_with_base64_destination() {
    let mut r = request();
    r.base64_encode_destination = true;
    r.query_params = StringMap::new();
    r.request_headers = StringMap::new();
    r.response_headers = StringMap::new();
    r.propagate_response_headers = StringMap::new();
    r.remove_response_headers = vec![];
    r.stream_transformer = None;
    r.destination_url = "http://a.b/?".to_string();
    r.endpoint = None;
    assert_eq!(
        generate_url(&r, 0).unwrap(),
        "https://p.example/base/aHR0cDovL2EuYi8_"
    );
}

#[test]
fn encrypted_url_carries_the_request() {
    let mut r = request();
    r.api_password = Some("pw".to_string());
    r.expiration = Some(60);
    r.ip = Some("1.2.3.4".to_string());
    let url = generate_url(&r, 1000).unwrap();
    let rest = url
        .strip_prefix("https://p.example/base/_token_")
        .unwrap();
    let (token, path) = rest.split_once('/').unwrap();
    assert_eq!(path, "proxy/stream/f%201.mkv");
    let h = EncryptionHandler::new(b"pw").unwrap();
    let d = h.decrypt(token, Some("1.2.3.4")).unwrap();
    assert_eq!(d.destination, "https://c.example/a b?x=1");
    assert_eq!(d.exp, Some(1060));
    assert!(!d.is_expired(1060));
    assert!(d.is_expired(1061));
    assert_eq!(d.ip.as_deref(), Some("1.2.3.4"));
    assert_eq!(d.query_params.as_ref().unwrap().get("empty"), Some(""));
    assert_eq!(d.request_headers.as_ref().unwrap().get("Range"), Some("bytes=0-"));
    assert_eq!(d.response_headers.as_ref().unwrap().len(), 2);
    assert!(matches!(h.decrypt(token, Some("9.9.9.9")), Err(AppError::Forbidden(_))));
    assert!(h.decrypt(token, None).is_ok());
    let other = EncryptionHandler::new(b"px").unwrap();
    assert!(matches!(other.decrypt(token, None), Err(AppError::BadRequest(_))));
}

#[test]
fn tokens_round_trip_and_differ() {
    let h = EncryptionHandler::new("a rather long secret of over thirty-two bytes".as_bytes()).unwrap();
    let d = ProxyData {
        destination: "https://c.example/\"quoted\"/\u{e4}\u{1f600}".to_string(),
        query_params: Some(map(&[("a/b~c", "1\n2")])),
        request_headers: None,
        response_headers: Some(StringMap::new()),
        exp: Some(u64::MAX),
        ip: None,
    };
    let a = h.encrypt(&d).unwrap();
    let b = h.encrypt(&d).unwrap();
    assert_ne!(a, b);
    assert!(a.bytes().all(|c| c.is_ascii_alphanumeric() || c == b'-' || c == b'_'));
    let e = h.decrypt(&a, None).unwrap();
    assert_eq!(e.destination, d.destination);
    assert_eq!(e.query_params.as_ref().unwrap().get("a/b~c"), Some("1\n2"));
    assert!(e.request_headers.is_none());
    assert_eq!(e.response_headers.as_ref().map(|m| m.len()), Some(0));
    assert_eq!(e.exp, Some(u64::MAX));
}

#[test]
fn broken_tokens_are_refused() {
    let h = EncryptionHandler::new(b"s").unwrap();
    for t in ["", "AAAA", "*", "AAAAAAAAAAAAAAAAAAAAAAAAAAAAAAAAAAAAAAAA"] {
        match h.decrypt(t, None) {
            Err(AppError::BadRequest(m)) => assert_eq!(m, "invalid token"),
            _ => panic!("accepted {t}"),
        }
    }
    assert!(matches!(EncryptionHandler::new(b""), Err(AppError::Internal(_))));
}

#[test]
fn an_empty_password_is_none() {
    let url = build_proxy_url(
        "http://p",
        Some(""),
        "http://d",
        &StringMap::new(),
        &StringMap::new(),
        &StringMap::new(),
        &StringMap::new(),
        &vec![],
        None,
        None,
        Some(""),
        None,
        None,
        false,
        0,
    )
    .unwrap();
    assert_eq!(url, "http://p?d=http%3A%2F%2Fd");
}

#[test]
fn several_urls_share_base_and_password() {
    let item = |d: &str| MultiUrlRequestItem {
        endpoint: Some("/e".to_string()),
        destination_url: d.to_string(),
        query_params: StringMap::new(),
        request_headers: StringMap::new(),
        response_headers: StringMap::new(),
        propagate_response_headers: StringMap::new(),
        remove_response_headers: vec![],
        stream_transformer: None,
        filename: None,
        base64_encode_destination: false,
    };
    let req = GenerateMultiUrlRequest {
        mediaflow_proxy_url: "http://p".to_string(),
        api_password: Some(String::new()),
        expiration: None,
        ip: None,
        urls: vec![item("a"), item("b")],
    };
    assert_eq!(
        generate_urls(&req, 0).unwrap(),
        vec!["http://p/e?d=a".to_string(), "http://p/e?d=b".to_string()]
    );
}

#[test]
fn base64_endpoints() {
    let q = |url: Option<&str>, enc: Option<&str>| Base64Query {
        url: url.map(String::from),
        encoded_url: enc.map(String::from),
    };
    assert_eq!(base64_encode(&q(Some("http://a.b/?"), None)).unwrap(), "aHR0cDovL2EuYi8_");
    assert_eq!(base64_decode(&q(None, Some("aHR0cDovL2EuYi8_"))).unwrap(), "http://a.b/?");
    assert_eq!(
        base64_check(&q(Some("aHR0cDovL2EuYi8_"), None)).unwrap().as_deref(),
        Some("http://a.b/?")
    );
    assert!(base64_check(&q(Some("http://a.b/?"), None)).unwrap().is_none());
    match base64_encode(&q(None, None)) {
        Err(AppError::BadRequest(m)) => assert_eq!(m, "missing `url` query param"),
        _ => panic!("accepted"),
    }
    match base64_decode(&q(None, None)) {
        Err(AppError::BadRequest(m)) => assert_eq!(m, "missing `encoded_url` query param"),
        _ => panic!("accepted"),
    }
    match base64_decode(&q(None, Some("%%%"))) {
        Err(AppError::BadRequest(m)) => assert_eq!(m, "invalid base64 URL"),
        _ => panic!("accepted"),
    }
}

#[test]
fn base64_urls_take_padding_and_need_a_web_scheme() {
    assert_eq!(encode_url_to_base64("https://x.y"), "aHR0cHM6Ly94Lnk");
    assert_eq!(decode_base64_url("aHR0cHM6Ly94Lnk=").as_deref(), Some("https://x.y"));
    assert!(!is_base64_url("ZnRwOi8veA"));
    assert!(!is_base64_url("_____w"));
}

#[test]
fn references_resolve_against_pages() {
    assert_eq!(resolve_url("https://c.example/a/b?q", "../c"), "https://c.example/c");
    assert_eq!(resolve_url("https://c.example/a/b", "//d/e"), "https://d/e");
    assert_eq!(resolve_url("nonsense", "c"), "c");
}

#[test]
fn extensions_of_segments() {
    assert_eq!(segment_extension("https://c.example/a.b/s.m4s?x=.ts#f"), "m4s");
    assert_eq!(segment_extension("https://c.example/a.b/seg"), "ts");
    assert_eq!(segment_extension("https://c.example/seg."), "ts");
    assert_eq!(segment_extension("https://c.example/seg.a-b"), "ts");
}

#[test]
fn string_maps_keep_order_and_replace() {
    let mut m = map(&[("a", "1"), ("b", "2")]);
    m.insert("a", "3");
    assert_eq!(
        m.to_pairs(),
        vec![("a".to_string(), "3".to_string()), ("b".to_string(), "2".to_string())]
    );
    assert_eq!(m.get("c"), None);
}
