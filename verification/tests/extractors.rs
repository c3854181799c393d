use aes_gcm::aead::{Aead, KeyInit};
use base64::Engine;
use mediaflow_proxy::extractor::base::{check_page_status, ExtractorError, ExtractorResult};
use mediaflow_proxy::extractor::factory::{get_extractor, HostKind};
use mediaflow_proxy::extractor::hosts::filemoon::{base64url_decode, FileMoonExtractor};
use mediaflow_proxy::extractor::hosts::maxstream::{
    chain_page, chain_step, parse_uprot_html, url_host, ChainStep, MaxstreamExtractor,
};
use mediaflow_proxy::extractor::hosts::streamhg::StreamHGExtractor;
use mediaflow_proxy::extractor::hosts::vidmoly::VidmolyExtractor;
use mediaflow_proxy::extractor::packed::{is_packed, unpack_packed_js};
use mediaflow_proxy::string_map::StringMap;

fn message(r: Result<ExtractorResult, ExtractorError>) -> String {
    match r {
        Err(ExtractorError::Extract(m)) => m,
        _ => panic!("expected an extraction error"),
    }
}

fn headers() -> StringMap {
    let mut h = StringMap::new();
    h.insert("user-agent", "ua");
    h
}

#[test]
fn hosts_are_found_by_name() {
    let c = get_extractor("FileMoon", headers(), Some("p".to_string()), None, 60).ok().unwrap();
    assert!(c.kind == HostKind::FileMoon && c.byparr.is_none());
    assert_eq!(c.proxy_url.as_deref(), Some("p"));
    let c = get_extractor("doodstream", headers(), None, Some("b".to_string()), 7).ok().unwrap();
    assert!(c.kind == HostKind::DoodStream);
    let b = c.byparr.unwrap();
    assert_eq!((b.url.as_deref(), b.timeout), (Some("b"), 7));
    for name in [
        "city", "filelions", "f16px", "gupload", "uqload", "mixdrop", "streamtape", "streamwish",
        "supervideo", "turbovidplay", "vixcloud", "okru", "maxstream", "livetv", "lulustream",
        "vavoo", "vidmoly", "vidoza", "fastream", "voe", "sportsonline", "streamhg", "vidfast",
    ] {
        assert!(get_extractor(name, headers(), None, None, 0).is_ok(), "{name}");
    }
    match get_extractor("Nope", headers(), None, None, 0) {
        Err(ExtractorError::Extract(m)) => assert_eq!(m, "Unsupported host: Nope"),
        _ => panic!("found"),
    }
}

#[test]
fn page_statuses() {
    assert!(check_page_status(399, "u").is_ok());
    match check_page_status(503, "http://u") {
        Err(ExtractorError::Http { status, message }) => {
            assert_eq!((status, message.as_str()), (503, "HTTP 503 from http://u"))
        }
        _ => panic!("accepted"),
    }
}

#[test]
fn packed_scripts_are_unpacked() {
    let html = "<script>eval(function(p,a,c,k,e,d){}('0 1=\"2\";A',36,3,'var|x|http||||||||z'.split('|'),0,{}))</script>";
    assert!(is_packed(html));
    assert_eq!(unpack_packed_js(html).as_deref(), Some("var x=\"http\";A"));
    assert!(!is_packed("eval(1)"));
    assert_eq!(unpack_packed_js("nothing"), None);
}

#[test]
fn streamhg_pages() {
    let e = StreamHGExtractor::new(headers(), None);
    assert_eq!(e.host_name(), "StreamHG");
    let r = e.extract_page("x {\"hls2\":\"https:\\/\\/c\\/m.m3u8\"}").ok().unwrap();
    assert_eq!(r.destination_url, "https://c/m.m3u8");
    assert_eq!(r.mediaflow_endpoint, "hls_manifest_proxy");
    assert_eq!(r.request_headers.get("user-agent"), Some("ua"));
    let packed = "eval(function(p,a,c,k,e,d){}('{\"0\":\"1\"}',36,2,'hls2|u'.split('|'),0,{}))";
    assert_eq!(e.extract_page(packed).ok().unwrap().destination_url, "u");
    assert_eq!(message(e.extract_page("none")), "StreamHG: hls2 URL not found");
    assert_eq!(
        message(e.extract_page("eval(function(p,a,c,k,e,d)")),
        "StreamHG: failed to unpack JS"
    );
    let other = "eval(function(p,a,c,k,e,d){}('0',36,1,'x'.split('|'),0,{}))";
    assert_eq!(message(e.extract_page(other)), "StreamHG: hls2 URL not found after unpack");
}

#[test]
fn vidmoly_pages() {
    let e = VidmolyExtractor::new(headers(), None);
    assert_eq!(e.host_name(), "Vidmoly");
    let url = "https://vidmoly.to/embed-ab12.html";
    let h = e.request_headers(url).ok().unwrap();
    assert_eq!(h.get("cookie"), Some("cf_turnstile_demo_pass_ab12=1"));
    assert_eq!(h.get("referer"), Some(url));
    assert_eq!(h.len(), 9);
    let r = e.extract_page(h, "sources: [{file: 'https://c/m.m3u8'}]").ok().unwrap();
    assert_eq!(r.destination_url, "https://c/m.m3u8");
    assert_eq!(r.request_headers.get("sec-fetch-site"), Some("same-origin"));
    assert_eq!(message(e.extract_page(headers(), "x")), "Vidmoly: stream URL not found");
    let long = format!("sources:[{{file:\"{}\"", "ä".repeat(70));
    assert_eq!(
        message(e.extract_page(headers(), &long)),
        format!("Vidmoly: unexpected stream URL: {}", "ä".repeat(60))
    );
    match e.request_headers("https://vidmoly.to/x") {
        Err(ExtractorError::Extract(m)) => assert_eq!(m, "Vidmoly: embed ID not found in URL"),
        _ => panic!("found"),
    }
}

fn b64(b: &[u8]) -> String {
    base64::engine::general_purpose::URL_SAFE.encode(b)
}

fn filemoon_answer(plain: &[u8], key: &[u8], iv: &[u8]) -> String {
    let cipher = aes_gcm::Aes256Gcm::new_from_slice(&[7u8; 32]).unwrap();
    let sealed = cipher
        .encrypt(aes_gcm::Nonce::from_slice(&[9u8; 12]), plain)
        .unwrap();
    let (a, b) = key.split_at(key.len() / 2);
    format!(
        "{{\"playback\":{{\"key_parts\":[\"{}\",\"{}\"],\"iv\":\"{}\",\"payload\":\"{}\"}}}}",
        b64(a),
        b64(b),
        b64(iv),
        b64(&sealed)
    )
}

#[test]
fn filemoon_requests() {
    let e = FileMoonExtractor::new(headers(), None);
    assert_eq!(e.host_name(), "FileMoon");
    assert_eq!(
        e.request_url("https://filemoon.sx/e/abc/").ok().unwrap(),
        "https://filemoon.sx/api/videos/abc"
    );
    let m = |u: &str| match e.request_url(u) {
        Err(ExtractorError::Extract(m)) => m,
        _ => panic!("accepted"),
    };
    assert_eq!(
        m("https://filemoon.sx/e/"),
        "could not extract video code from URL: https://filemoon.sx/e/"
    );
    assert!(m("nope").starts_with("invalid URL: "));
    assert_eq!(m("data:x"), "URL has no host");
}

#[test]
fn filemoon_answers() {
    let e = FileMoonExtractor::new(headers(), None);
    let good = b"{\"sources\":[{\"mime_type\":\"video/mp4\",\"url\":\"no\"},{\"mime_type\":\"application/vnd.apple.mpegurl\",\"url\":\"https://c/m.m3u8\"}]}";
    let url = "https://filemoon.sx/e/abc";
    let r = e.extract_answer(url, &filemoon_answer(good, &[7; 32], &[9; 12])).ok().unwrap();
    assert_eq!(r.destination_url, "https://c/m.m3u8");
    assert_eq!(r.request_headers.get("referer"), Some(url));
    assert_eq!(r.request_headers.get("user-agent"), Some("ua"));
    let m = |a: &str| message(e.extract_answer(url, a));
    assert!(m("{").starts_with("FileMoon API JSON parse failed: "));
    assert_eq!(m("{\"error\":\"gone\"}"), "FileMoon API error: \"gone\"");
    assert_eq!(m("{}"), "FileMoon: no playback field in API response");
    assert_eq!(
        m("{\"playback\":{\"payload\":1}}"),
        "FileMoon: playback data is incomplete (missing key_parts or payload)"
    );
    assert_eq!(
        m("{\"playback\":{\"payload\":1,\"key_parts\":2}}"),
        "playback.key_parts missing or not an array"
    );
    assert_eq!(
        m("{\"playback\":{\"payload\":1,\"key_parts\":[2]}}"),
        "key_part is not a string"
    );
    assert_eq!(m("{\"playback\":{\"payload\":1,\"key_parts\":[]}}"), "playback.iv missing");
    assert_eq!(
        m("{\"playback\":{\"payload\":1,\"key_parts\":[],\"iv\":\"AA\"}}"),
        "playback.payload missing"
    );
    assert!(m("{\"playback\":{\"payload\":1,\"key_parts\":[\"*\"]}}")
        .starts_with("base64url decode failed: "));
    assert_eq!(
        m(&filemoon_answer(good, &[7; 16], &[9; 12])),
        "AES-256-GCM key init failed: Invalid Length"
    );
    assert_eq!(
        m(&filemoon_answer(good, &[7; 32], &[9; 11])),
        "unexpected IV length: 11 (expected 12)"
    );
    assert_eq!(m(&filemoon_answer(good, &[8; 32], &[9; 12])), "AES-256-GCM decryption failed");
    assert!(m(&filemoon_answer(b"x", &[7; 32], &[9; 12]))
        .starts_with("JSON parse of decrypted payload failed: "));
    assert_eq!(
        m(&filemoon_answer(b"{}", &[7; 32], &[9; 12])),
        "FileMoon: decrypted payload has no sources"
    );
    assert_eq!(
        m(&filemoon_answer(b"{\"sources\":[]}", &[7; 32], &[9; 12])),
        "FileMoon: no HLS source found in decrypted playback"
    );
    assert_eq!(
        m(&filemoon_answer(
            b"{\"sources\":[{\"mime_type\":\"application/vnd.apple.mpegurl\"}]}",
            &[7; 32],
            &[9; 12]
        )),
        "FileMoon: HLS source has no url field"
    );
}

#[test]
fn base64_takes_either_alphabet_and_padding() {
    assert_eq!(base64url_decode("_-8").unwrap(), vec![0xff, 0xef]);
    assert_eq!(base64url_decode("/+8=").unwrap(), vec![0xff, 0xef]);
    assert!(base64url_decode("a").is_err());
}

#[test]
fn redirect_pages_lead_on() {
    let next = |h: &str| parse_uprot_html(h);
    assert_eq!(
        next("<!-- <a href=\"https://trap\"><button id=\"buttok\"> --><a href=\"https:\\/\\/go\"> <button class=x id='buttok'>").as_deref(),
        Some("https://go")
    );
    assert_eq!(
        next("<a href='https://go2'><button> C o N tinue").as_deref(),
        Some("https://go2")
    );
    assert_eq!(
        next("<a href=\"https://h/uprots/1\"> <a href=\"https://h/uprots/2\"> <a href=\"https://h/uprots/1\">").as_deref(),
        Some("https://h/uprots/2")
    );
    assert_eq!(
        next("<div style=\"display:none\"><a href='https://h/uprots/9'></div> see https://maxstream.video/x<").as_deref(),
        Some("https://maxstream.video/x")
    );
    assert_eq!(
        next("https://stayonline.pro/uprots/123456789012 window.location = 'https://w'").as_deref(),
        Some("https://w")
    );
    assert_eq!(
        next("<meta content=\"0; url=https://m\">").as_deref(),
        Some("https://m")
    );
    assert_eq!(next("nothing"), None);
}

#[test]
fn redirect_chains_end() {
    let stop = |s: ChainStep| match s {
        ChainStep::Stop(u) => u,
        ChainStep::Fetch(u) => panic!("fetches {u}"),
    };
    let fetch = |s: ChainStep| match s {
        ChainStep::Fetch(u) => u,
        ChainStep::Stop(u) => panic!("stops at {u}"),
    };
    assert_eq!(
        stop(chain_step("https://maxstream.video/emvvv/1".to_string(), 0)),
        "https://maxstream.video/emvvv/1"
    );
    assert_eq!(
        stop(chain_step("https://maxsun12.online/watchfree/1".to_string(), 0)),
        "https://maxsun12.online/emvvv/1"
    );
    assert_eq!(fetch(chain_step("https://x/1".to_string(), 9)), "https://x/1");
    assert_eq!(stop(chain_step("https://x/1".to_string(), 10)), "https://x/1");
    let page = "window.location='https://x/2'";
    assert_eq!(fetch(chain_page("https://x/1".to_string(), page, 0)), "https://x/2");
    assert_eq!(stop(chain_page("https://x/1".to_string(), page, 9)), "https://x/2");
    assert_eq!(stop(chain_page("https://x/2".to_string(), page, 0)), "https://x/2");
    assert_eq!(stop(chain_page("https://x/1".to_string(), "none", 0)), "https://x/1");
    assert_eq!(url_host("https://a.b/c"), "a.b");
    assert_eq!(url_host("http://http://https://a"), "a");
}

#[test]
fn maxstream_players() {
    let e = MaxstreamExtractor::new(headers(), None);
    assert_eq!(e.host_name(), "Maxstream");
    assert_eq!(MaxstreamExtractor::start_url("https://u/msf/a/msf/msf"), "https://u/mse/a/msf/msf");
    assert!(MaxstreamExtractor::first_hop("none").is_err());
    assert_eq!(
        MaxstreamExtractor::first_hop("window.location='https://w'").ok().unwrap(),
        "https://w"
    );
    let r = e.extract_player("https://p", "sources: [{src: \"https://c/m.m3u8\"").ok().unwrap();
    assert_eq!(r.destination_url, "https://c/m.m3u8");
    assert_eq!(r.request_headers.get("referer"), Some("https://p"));
    let js = |words: &str| format!("}}('p',36,2,'{words}'.split");
    let u = |words: &str| MaxstreamExtractor::unpack_player_js(&js(words)).ok().unwrap();
    assert_eq!(
        u("a|urlset|one|hls|s10|be|sources"),
        "https://be-s10.host-cdn.net/hls/,one.urlset/master.m3u8"
    );
    assert_eq!(
        u("urlset|one|two|hls|s10|sources"),
        "https://s10.host-cdn.net/hls/two,one,.urlset/master.m3u8"
    );
    assert_eq!(u("urlset|hls|s10|sources"), "https://s10.host-cdn.net/hls/");
    let m = |h: &str| message(e.extract_player("https://p", h));
    assert_eq!(m("x"), "Maxstream: packed JS not found");
    assert_eq!(m(&js("a|b")), "Maxstream: urlset not found");
    assert_eq!(m(&js("urlset|b")), "Maxstream: hls not found");
    assert_eq!(m(&js("urlset|hls")), "Maxstream: sources not found");
    assert_eq!(m(&js("hls|urlset|sources")), "Maxstream: player terms out of order");
}
