use mediaflow_proxy::config::{
    normalize_server_path, Config, ForwardConfig, ProxyConfig, ProxyRouteConfig, ProxyRouter,
    RedisConfig,
};

fn route(proxy: bool) -> ProxyRouteConfig {
    ProxyRouteConfig {
        proxy,
        proxy_url: None,
        verify_ssl: true,
    }
}

#[test]
fn normalize_server_path_collapses_repeated_slashes() {
    assert_eq!(
        normalize_server_path("/foo//bar///baz").unwrap(),
        "/foo/bar/baz"
    );
    assert_eq!(normalize_server_path("////").unwrap(), "");
}

#[test]
fn normalize_server_path_rejects_whitespace() {
    assert!(normalize_server_path(" /mediaflow ").is_err());
}

#[test]
fn normalize_server_path_keeps_normal_paths() {
    assert_eq!(normalize_server_path("/a/b").unwrap(), "/a/b");
    assert_eq!(normalize_server_path("a/b/").unwrap(), "/a/b");
    assert_eq!(normalize_server_path("").unwrap(), "");
    assert_eq!(normalize_server_path("/ä").unwrap(), "/ä");
}

#[test]
fn normalize_server_path_rejects_query_and_control_characters() {
    for bad in ["/a?b", "/a#b", "/a\\b", "/a\tb", "/a\u{7f}", "/a\u{85}", "/a\u{a0}b", "/\u{2003}"] {
        assert_eq!(
            normalize_server_path(bad).unwrap_err(),
            "server.path must be empty or a URL path prefix like /mediaflow/prefix"
        );
    }
}

#[test]
fn routes_match_by_pattern() {
    let router = ProxyRouter::new(
        None,
        false,
        &vec![
            ("all://*.streaming.com".to_string(), route(true)),
            ("https://internal.com".to_string(), route(false)),
        ],
    );
    assert!(router.get_proxy_config("http://a.streaming.com/x").unwrap().proxy);
    assert!(router.get_proxy_config("https://b.streaming.com/x").unwrap().proxy);
    assert!(!router.get_proxy_config("https://internal.com/x").unwrap().proxy);
    assert!(router.get_proxy_config("http://internal.com/x").is_none());
    assert!(router.get_proxy_config("https://internalXcom/x").is_none());
    assert!(router.get_proxy_config("not a url").is_none());
}

#[test]
fn specific_routes_come_first() {
    let router = ProxyRouter::new(
        None,
        false,
        &vec![
            ("all://*.*.com".to_string(), route(false)),
            ("all://a.*.com".to_string(), route(true)),
        ],
    );
    assert!(router.get_proxy_config("http://a.b.com/").unwrap().proxy);
    assert!(!router.get_proxy_config("http://x.b.com/").unwrap().proxy);
}

#[test]
fn all_proxy_uses_the_default() {
    let config = ProxyConfig {
        all_proxy: true,
        proxy_url: Some("socks5://p:1080".to_string()),
        transport_routes: vec![("https://([".to_string(), route(false))],
        ..Default::default()
    };
    let router = ProxyRouter::from_config(&config);
    let c = router.get_proxy_config("http://any.example/").unwrap();
    assert!(c.proxy && c.verify_ssl);
    assert_eq!(c.proxy_url.as_deref(), Some("socks5://p:1080"));
    assert_eq!(router.default_proxy().as_deref(), Some("socks5://p:1080"));
}

#[test]
fn defaults_are_those_of_an_empty_configuration() {
    let c = Config::default();
    assert_eq!(c.server.port, 8888);
    assert_eq!(c.auth.api_password, "changeme");
    assert_eq!(c.hls.prebuffer_segments, 5);
    assert_eq!(c.mpd.live_playlist_depth, 8);
    assert_eq!(c.telegram.max_connections, 8);
    assert_eq!(c.acestream.port, 6878);
    assert_eq!(c.transcode.video_bitrate, "4M");
    assert_eq!(c.extractor.byparr_timeout, 60);
    assert_eq!(ForwardConfig::default().max_response_body_bytes, 10 * 1024 * 1024);
    assert!(!RedisConfig::default().is_enabled());
    let r = RedisConfig {
        url: "redis://x".to_string(),
        cache_namespace: String::new(),
    };
    assert!(r.is_enabled());
}
