use mediaflow_proxy::auth::encryption::ProxyData;
use mediaflow_proxy::config::{ForwardConfig, ProxyConfig, ProxyRouteConfig, ProxyRouter};
use mediaflow_proxy::error::AppError;
use mediaflow_proxy::proxy::forward::{
    check_forward_destination, check_response_size, is_inner_ip, keep_response_header,
    plan_forward, public_ip_step, read_public_ip, substitute_body, substitute_destination,
    PublicIpStep,
};
use mediaflow_proxy::proxy::handler::{
    choose_destination, content_length, plan_body, resolve_stream_destination, response_headers,
    upstream_headers, BodyPlan,
};
use mediaflow_proxy::proxy::stream::{
    body_timeout_error, check_status, client_cache_key, get_proxy_url_for, header_timeout_error,
    header_timeout_secs, host_limit, plan_route_client, url_host_key,
};
use mediaflow_proxy::string_map::StringMap;

fn data(destination: &str) -> ProxyData {
    ProxyData {
        destination: destination.to_string(),
        query_params: None,
        request_headers: None,
        response_headers: None,
        exp: None,
        ip: None,
    }
}

fn refusal(url: &str, cfg: &ForwardConfig) -> String {
    match check_forward_destination(url, cfg) {
        Ok(()) => String::new(),
        Err(AppError::BadRequest(m)) => format!("400 {m}"),
        Err(AppError::Forbidden(m)) => format!("403 {m}"),
        Err(_) => panic!("unexpected error"),
    }
}

#[test]
fn destinations_are_checked() {
    let cfg = ForwardConfig::default();
    assert_eq!(refusal("https://api.example/x", &cfg), "");
    assert_eq!(refusal("http://8.8.8.8/", &cfg), "");
    assert_eq!(refusal("nope", &cfg), "400 Invalid destination URL: nope");
    assert_eq!(
        refusal("ftp://a/", &cfg),
        "400 Invalid URL scheme 'ftp'. Only http and https are allowed."
    );
    assert_eq!(refusal("http://LOCALHOST/", &cfg), "403 Forwarding to localhost is not allowed");
    let private = "403 Forwarding to private/loopback addresses is not allowed";
    for url in [
        "http://127.0.0.1/", "http://10.1.2.3/", "http://172.31.0.1/", "http://192.168.1.1/",
        "http://169.254.1.1/", "http://0.0.0.0/", "http://224.0.0.1/", "http://[::1]/",
        "http://[fd00::1]/", "http://[fe80::1]/", "http://[ff02::1]/", "http://[::]/",
    ] {
        assert_eq!(refusal(url, &cfg), private, "{url}");
    }
    assert_eq!(refusal("http://172.32.0.1/", &cfg), "");
    assert_eq!(refusal("http://[2001:db8::1]/", &cfg), "");
}

#[test]
fn host_lists_are_case_insensitive() {
    let cfg = ForwardConfig {
        allowed_hosts: vec!["API.example".to_string()],
        denied_hosts: vec!["Bad.example".to_string()],
        ..Default::default()
    };
    assert_eq!(refusal("http://api.EXAMPLE/", &cfg), "");
    assert_eq!(
        refusal("http://x.example/", &cfg),
        "403 Host 'x.example' is not in forward_allowed_hosts"
    );
    let cfg = ForwardConfig {
        denied_hosts: vec!["Bad.example".to_string()],
        ..Default::default()
    };
    assert_eq!(refusal("http://bad.example/", &cfg), "403 Host 'bad.example' is denied");
}

#[test]
fn allowed_inner_hosts_are_still_refused() {
    let cfg = ForwardConfig {
        allowed_hosts: vec!["127.0.0.1".to_string(), "localhost".to_string()],
        ..Default::default()
    };
    assert_eq!(
        refusal("http://127.0.0.1/", &cfg),
        "403 Forwarding to private/loopback addresses is not allowed"
    );
    assert_eq!(refusal("http://localhost/", &cfg), "403 Forwarding to localhost is not allowed");
}

#[test]
fn inner_addresses() {
    assert!(is_inner_ip(&vec![127, 9, 9, 9]));
    assert!(!is_inner_ip(&vec![1, 1, 1, 1]));
}

#[test]
fn placeholders_are_replaced() {
    assert_eq!(
        substitute_destination("http://a/?ip={mediaflow_ip}&{mediaflow_ip", "9.9.9.9"),
        "http://a/?ip=9.9.9.9&{mediaflow_ip"
    );
    let mut body = vec![0xff, 0x00];
    body.extend_from_slice(b"{{mediaflow_ip}{mediaflow_ip}");
    body.push(0xfe);
    let mut want = vec![0xff, 0x00];
    want.extend_from_slice(b"{7.7.7.77.7.7.7");
    want.push(0xfe);
    assert_eq!(substitute_body(&body, "7.7.7.7"), want);
    let plain = vec![1, 2, 3, 255];
    assert_eq!(substitute_body(&plain, "x"), plain);
}

#[test]
fn forward_plans() {
    let mut d = data("aHR0cHM6Ly94Lnk");
    let mut h = StringMap::new();
    for k in ["X-Forwarded-For", "Connection", "Host", "Transfer-Encoding", "Accept"] {
        h.insert(k, "v");
    }
    d.request_headers = Some(h);
    let cfg = ForwardConfig {
        public_ip: Some("5.5.5.5".to_string()),
        max_request_body_bytes: 10,
        ..Default::default()
    };
    let plan = plan_forward(&d, &cfg, b"{mediaflow_ip}".to_vec()).ok().unwrap();
    assert_eq!(plan.destination, "https://x.y");
    assert_eq!(plan.body, b"5.5.5.5".to_vec());
    assert_eq!(plan.headers, vec![("Accept".to_string(), "v".to_string())]);
    match plan_forward(&d, &cfg, vec![0; 11]) {
        Err(AppError::BadRequest(m)) => assert_eq!(m, "Request body too large"),
        _ => panic!("accepted"),
    }
    match plan_forward(&data(""), &cfg, vec![]) {
        Err(AppError::BadRequest(m)) => assert!(m.starts_with("Missing destination URL")),
        _ => panic!("accepted"),
    }
    assert!(matches!(
        plan_forward(&data("http://localhost"), &cfg, vec![]),
        Err(AppError::Forbidden(_))
    ));
}

#[test]
fn answers_of_forwarded_requests() {
    let cfg = ForwardConfig::default();
    assert!(check_response_size(cfg.max_response_body_bytes, &cfg).is_ok());
    match check_response_size(cfg.max_response_body_bytes + 1, &cfg) {
        Err(AppError::Proxy(m)) => assert_eq!(m, "Upstream response too large"),
        _ => panic!("accepted"),
    }
    assert!(!keep_response_header("Keep-Alive"));
    assert!(keep_response_header("Content-Type"));
}

#[test]
fn public_address_lookup() {
    let mut cfg = ForwardConfig::default();
    let urls = [
        ("https://api.ipify.org?format=json", "ip"),
        ("https://ipinfo.io/json", "ip"),
        ("https://httpbin.org/ip", "origin"),
    ];
    for (i, want) in urls.iter().enumerate() {
        match public_ip_step(&cfg, i) {
            Ok(PublicIpStep::Ask { url, key }) => assert_eq!((url, key), *want),
            _ => panic!("expected a question"),
        }
    }
    match public_ip_step(&cfg, 3) {
        Err(AppError::Upstream(m)) => {
            assert_eq!(m, "Failed to retrieve public IP from all services")
        }
        _ => panic!("expected an end"),
    }
    cfg.public_ip = Some("1.1.1.1".to_string());
    assert!(matches!(public_ip_step(&cfg, 0), Ok(PublicIpStep::Known(ip)) if ip == "1.1.1.1"));
    assert_eq!(read_public_ip(b"{\"ip\":\" 2.2.2.2 \"}", "ip").as_deref(), Some("2.2.2.2"));
    assert_eq!(read_public_ip(b"{\"ip\":\"  \"}", "ip"), None);
    assert_eq!(read_public_ip(b"{\"origin\":1}", "origin"), None);
    assert_eq!(read_public_ip(b"no json", "ip"), None);
}

#[test]
fn stream_destinations() {
    assert_eq!(
        resolve_stream_destination(&data("aHR0cHM6Ly94Lnk"), None).as_deref(),
        Some("https://x.y")
    );
    assert_eq!(resolve_stream_destination(&data("http://p"), Some("f")).as_deref(), Some("http://p"));
    assert_eq!(
        resolve_stream_destination(&data(""), Some("aHR0cHM6Ly94Lnk")).as_deref(),
        Some("https://x.y")
    );
    assert_eq!(resolve_stream_destination(&data(""), Some("movie.mkv")), None);
    assert_eq!(resolve_stream_destination(&data(""), Some("")), None);
    assert_eq!(choose_destination(Some(String::new()), &data("d")).unwrap(), "d");
    assert_eq!(choose_destination(Some("o".to_string()), &data("d")).unwrap(), "o");
    assert!(matches!(choose_destination(None, &data("")), Err(AppError::BadRequest(_))));
}

#[test]
fn stream_bodies() {
    assert_eq!(content_length(Some("12")), 12);
    assert_eq!(content_length(Some("x")), 0);
    assert_eq!(content_length(None), 0);
    assert!(matches!(plan_body(true, false, Some("5")), Ok(BodyPlan::Empty(5))));
    assert!(matches!(plan_body(false, true, Some("5")), Ok(BodyPlan::Sized(5))));
    assert!(matches!(plan_body(false, true, None), Ok(BodyPlan::Chunked)));
    match plan_body(false, false, None) {
        Err(AppError::Internal(m)) => assert_eq!(m, "Stream not available"),
        _ => panic!("accepted"),
    }
}

#[test]
fn upstream_headers_come_in_order() {
    let mut d = data("x");
    let mut h = StringMap::new();
    h.insert("Range", "bytes=5-");
    d.request_headers = Some(h);
    assert_eq!(
        upstream_headers(Some(b"bytes=0-".to_vec()), None, &d),
        vec![
            ("range".to_string(), b"bytes=0-".to_vec()),
            ("Range".to_string(), b"bytes=5-".to_vec())
        ]
    );
}

#[test]
fn answer_headers_are_chosen_and_overridden() {
    let pair = |k: &str, v: &str| (k.to_string(), v.to_string());
    let upstream = vec![
        pair("etag", "e"),
        pair("set-cookie", "c"),
        pair("content-type", "video/mp4"),
        pair("content-type", "text/plain"),
        pair("content-range", "bytes 0-1/2"),
    ];
    let mut d = data("x");
    assert_eq!(
        response_headers(&upstream, &d),
        vec![
            pair("content-type", "video/mp4"),
            pair("content-range", "bytes 0-1/2"),
            pair("etag", "e")
        ]
    );
    let mut h = StringMap::new();
    h.insert("content-type", "video/webm");
    d.response_headers = Some(h);
    assert_eq!(response_headers(&upstream, &d)[3], pair("content-type", "video/webm"));
    assert_eq!(response_headers(&vec![], &data("x")), vec![]);
}

#[test]
fn upstream_connections() {
    assert_eq!(url_host_key("https://h.example/x"), "h.example");
    assert_eq!(url_host_key("https://h.example:8443/x"), "h.example:8443");
    assert_eq!(url_host_key("https://h.example:443/x"), "h.example");
    assert_eq!(url_host_key("data:x"), "_unknown_");
    assert_eq!(url_host_key("x"), "_unknown_");
    let mut cfg = ProxyConfig::default();
    assert_eq!(host_limit(&cfg), Some(10));
    cfg.max_concurrent_per_host = 0;
    assert_eq!(host_limit(&cfg), None);
    assert_eq!(header_timeout_secs(&cfg), 240);
    match header_timeout_error(240, "http://u") {
        AppError::Proxy(m) => assert_eq!(
            m,
            "Request timed out after 240 s waiting for response headers from http://u"
        ),
        _ => panic!("wrong error"),
    }
    match body_timeout_error(&cfg) {
        AppError::Proxy(m) => assert_eq!(m, "Body read timeout after 60 s"),
        _ => panic!("wrong error"),
    }
    assert!(check_status(206, "206 Partial Content").is_ok());
    assert!(check_status(600, "600").is_ok());
    match check_status(404, "404 Not Found") {
        Err(AppError::Upstream(m)) => {
            assert_eq!(m, "Upstream returned error status: 404 Not Found")
        }
        _ => panic!("accepted"),
    }
}

#[test]
fn route_clients() {
    let a = ProxyRouteConfig {
        proxy: true,
        proxy_url: Some("socks5://p".to_string()),
        verify_ssl: false,
    };
    assert_eq!(client_cache_key(&a), "true|socks5://p|false");
    let b = ProxyRouteConfig {
        proxy: true,
        proxy_url: None,
        verify_ssl: true,
    };
    assert_eq!(client_cache_key(&b), "true||true");
    let plan = plan_route_client(&a);
    assert_eq!(plan.proxy.as_deref(), Some("socks5://p"));
    assert!(plan.accept_invalid_certs);
    let cfg = ProxyConfig {
        proxy_url: Some("http://d".to_string()),
        transport_routes: vec![
            ("all://a.example".to_string(), a),
            ("all://b.example".to_string(), b),
        ],
        ..Default::default()
    };
    let router = ProxyRouter::from_config(&cfg);
    assert_eq!(get_proxy_url_for(&router, &cfg, "http://a.example/").as_deref(), Some("socks5://p"));
    assert_eq!(get_proxy_url_for(&router, &cfg, "http://b.example/").as_deref(), Some("http://d"));
    assert_eq!(get_proxy_url_for(&router, &cfg, "http://c.example/"), None);
}
