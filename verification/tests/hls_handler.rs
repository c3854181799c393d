use mediaflow_proxy::auth::encryption::{EncryptionHandler, ProxyData};
use mediaflow_proxy::config::Config;
use mediaflow_proxy::hls::handler::{
    extract_proxy_params, manifest_options, manifest_reply, prebuffer_urls, processed_reply,
    unavailable_reply,
};
use mediaflow_proxy::hls::manifest::{ManifestOptions, ProxyParams};
use mediaflow_proxy::string_map::StringMap;

const PLAYLIST: &[u8] = b"#EXTM3U\n#EXT-X-TARGETDURATION:6\n#EXTINF:6.0,\nsegments/seg001.ts\n#EXTINF:6.0,\nsegments/seg002.ts\n#EXT-X-ENDLIST\n";

fn data() -> ProxyData {
    let mut headers = StringMap::new();
    headers.insert("referer", "https://r.example");
    ProxyData {
        destination: "https://o.example/manifest.m3u8".to_string(),
        query_params: None,
        request_headers: Some(headers),
        response_headers: None,
        exp: None,
        ip: None,
    }
}

#[test]
fn the_password_comes_from_the_query() {
    let mut config = Config::default();
    config.auth.api_password = "B".to_string();
    assert_eq!(extract_proxy_params(&data(), &config).api_password, "B");
    let mut query = StringMap::new();
    query.insert("other", "x");
    let mut d = data();
    d.query_params = Some(query.clone());
    assert_eq!(extract_proxy_params(&d, &config).api_password, "B");
    query.insert("api_password", "A");
    d.query_params = Some(query);
    let params = extract_proxy_params(&d, &config);
    assert_eq!(params.api_password, "A");
    assert!(params.playlist_url.is_none());
}

#[test]
fn manifest_rewrite_uses_the_effective_url() {
    let mut config = Config::default();
    config.auth.api_password = "secret".to_string();
    let params = extract_proxy_params(&data(), &config);
    assert_eq!(params.pass_headers.get("referer"), Some("https://r.example"));
    let effective = "http://edge.example/live/manifest.m3u8";
    let reply = manifest_reply(
        "http://proxy",
        params,
        ManifestOptions::default(),
        Some((PLAYLIST.to_vec(), effective.to_string())),
    );
    assert!(reply.no_store);
    let line = reply
        .body
        .lines()
        .find(|l| !l.is_empty() && !l.starts_with('#'))
        .unwrap();
    let token = line.split_once("/_token_").unwrap().1;
    let token = &token[..token.find('/').unwrap()];
    let pd = EncryptionHandler::new(b"secret")
        .unwrap()
        .decrypt(token, None)
        .unwrap();
    assert_eq!(pd.destination, "http://edge.example/live/segments/seg001.ts");
    assert_eq!(
        pd.query_params.as_ref().and_then(|q| q.get("playlist_url")),
        Some(effective)
    );
    assert_eq!(
        pd.request_headers.as_ref().and_then(|q| q.get("referer")),
        Some("https://r.example")
    );
}

#[test]
fn unavailable_upstreams_end_the_stream() {
    let reply = manifest_reply(
        "http://proxy",
        ProxyParams::new("", StringMap::new()),
        ManifestOptions::default(),
        None,
    );
    assert_eq!(reply.body, unavailable_reply().body);
    assert!(reply.body.contains("# Stream unavailable\n"));
    assert!(!reply.no_store);
}

#[test]
fn what_is_no_playlist_is_answered_with_an_error() {
    let reply = processed_reply("<html>".to_string());
    assert!(reply.body.contains("# Error: Invalid upstream response\n"));
    assert!(!reply.no_store);
    let reply = processed_reply("x #EXTM3U".to_string());
    assert_eq!(reply.body, "x #EXTM3U");
    assert!(reply.no_store);
}

#[test]
fn options_are_read_from_the_query() {
    let mut q = StringMap::new();
    q.insert("key_only_proxy", "1");
    q.insert("no_proxy", "true");
    q.insert("force_playlist_proxy", "yes");
    q.insert("start_offset", "abc");
    let o = manifest_options(&q, None);
    assert!(o.key_only_proxy && o.no_proxy && !o.force_playlist_proxy);
    assert!(o.force_start_offset);
    assert!(o.start_offset.is_none());
}

#[test]
fn prebuffering_takes_the_first_segments() {
    let opts = ManifestOptions::default();
    let url = "http://edge.example/live/manifest.m3u8";
    assert_eq!(
        prebuffer_urls(true, &opts, PLAYLIST, url, 1),
        vec!["http://edge.example/live/segments/seg001.ts".to_string()]
    );
    assert_eq!(prebuffer_urls(true, &opts, PLAYLIST, url, 9).len(), 2);
    assert!(prebuffer_urls(false, &opts, PLAYLIST, url, 9).is_empty());
    let direct = ManifestOptions {
        no_proxy: true,
        ..Default::default()
    };
    assert!(prebuffer_urls(true, &direct, PLAYLIST, url, 9).is_empty());
}
