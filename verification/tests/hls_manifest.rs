use mediaflow_proxy::auth::encryption::EncryptionHandler;
use mediaflow_proxy::hls::manifest::{
    error_playlist, graceful_end_playlist, inject_ext_x_start, is_iptv_playlist, is_playlist_url,
    parse_extinf_duration, proxy_key_url, proxy_manifest_url, proxy_segment_url,
    segment_durations, ManifestOptions, ManifestProcessor, ProxyParams, SegmentDurations,
};
use mediaflow_proxy::string_map::StringMap;

fn extract_token_from_url(url: &str) -> &str {
    let (_, rest) = url
        .split_once("/_token_")
        .unwrap_or_else(|| panic!("expected tokenized URL, got: {url}"));
    let end = rest.find('/').unwrap_or(rest.len());
    &rest[..end]
}

fn extract_uri_value(line: &str) -> Option<&str> {
    let start = line.find("URI=\"")? + 5;
    let end = line[start..].find('"')?;
    Some(&line[start..start + end])
}

fn default_processor(proxy_base: &str) -> ManifestProcessor {
    ManifestProcessor::new(
        proxy_base,
        ProxyParams::new("secret", StringMap::new()),
        ManifestOptions::default(),
    )
}

fn open_processor(opts: ManifestOptions) -> ManifestProcessor {
    ManifestProcessor::new("http://p", ProxyParams::new("", StringMap::new()), opts)
}

#[test]
fn test_proxy_segment_url_ts() {
    let params = ProxyParams::new("pass", StringMap::new());
    let url = proxy_segment_url(
        "http://proxy:8888",
        "https://cdn.example.com/seg001.ts",
        &params,
    );
    assert!(url.starts_with("http://proxy:8888/_token_"));
    assert!(url.ends_with("/proxy/hls/segment.ts"));

    let token = extract_token_from_url(&url);
    let pd = EncryptionHandler::new(b"pass")
        .unwrap()
        .decrypt(token, None)
        .unwrap();
    assert_eq!(pd.destination, "https://cdn.example.com/seg001.ts");
}

#[test]
fn test_proxy_segment_url_includes_playlist_url() {
    let params = ProxyParams::new("pass", StringMap::new())
        .with_playlist_url("https://cdn.example.com/live.m3u8");
    let url = proxy_segment_url(
        "http://proxy:8888",
        "https://cdn.example.com/seg001.ts",
        &params,
    );
    let token = extract_token_from_url(&url);
    let pd = EncryptionHandler::new(b"pass")
        .unwrap()
        .decrypt(token, None)
        .unwrap();

    assert_eq!(pd.destination, "https://cdn.example.com/seg001.ts");
    assert_eq!(
        pd.query_params.as_ref().and_then(|v| v.get("playlist_url")),
        Some("https://cdn.example.com/live.m3u8")
    );
}

#[test]
fn test_proxy_manifest_url() {
    let params = ProxyParams::new("pass", StringMap::new());
    let url = proxy_manifest_url(
        "http://proxy:8888",
        "https://cdn.example.com/playlist.m3u8",
        &params,
    );
    assert!(url.starts_with("http://proxy:8888/_token_"));
    assert!(url.ends_with("/proxy/hls/manifest"));
}

#[test]
fn test_proxy_urls_preserve_public_path_prefix() {
    let params = ProxyParams::new("pass", StringMap::new());
    let base = "https://proxy.example.test/mediaflow/prefix";

    let manifest = proxy_manifest_url(base, "https://cdn.example.com/master.m3u8", &params);
    let segment = proxy_segment_url(base, "https://cdn.example.com/seg001.ts", &params);
    let key = proxy_key_url(base, "https://cdn.example.com/key.bin", &params);

    assert!(manifest.starts_with("https://proxy.example.test/mediaflow/prefix/_token_"));
    assert!(manifest.ends_with("/proxy/hls/manifest"));
    assert!(segment.starts_with("https://proxy.example.test/mediaflow/prefix/_token_"));
    assert!(segment.ends_with("/proxy/hls/segment.ts"));
    assert!(key.starts_with("https://proxy.example.test/mediaflow/prefix/_token_"));
    assert!(key.ends_with("/proxy/hls/segment"));
}

#[test]
fn test_process_media_playlist() {
    let processor = default_processor("http://proxy:8888");
    let m3u8 = b"#EXTM3U\n#EXT-X-VERSION:3\n#EXT-X-TARGETDURATION:10\n\
        #EXTINF:10.0,\nseg001.ts\n#EXTINF:10.0,\nseg002.ts\n#EXT-X-ENDLIST\n";

    let result = processor.process(m3u8, "https://cdn.example.com/playlist.m3u8");
    let segment_url = result
        .lines()
        .find(|line| !line.is_empty() && !line.starts_with('#'))
        .expect("expected segment URL");

    assert!(segment_url.starts_with("http://proxy:8888/_token_"));
    assert!(segment_url.ends_with("/proxy/hls/segment.ts"));

    let token = extract_token_from_url(segment_url);
    let pd = EncryptionHandler::new(b"secret")
        .unwrap()
        .decrypt(token, None)
        .unwrap();
    assert_eq!(pd.destination, "https://cdn.example.com/seg001.ts");
    // Should NOT contain original relative URLs
    assert!(!result.contains("\nseg001.ts\n"));
}

#[test]
fn test_process_master_playlist() {
    let processor = default_processor("http://proxy:8888");
    let m3u8 = b"#EXTM3U\n#EXT-X-VERSION:3\n\
        #EXT-X-STREAM-INF:BANDWIDTH=1400000\nhigh/playlist.m3u8\n\
        #EXT-X-STREAM-INF:BANDWIDTH=400000\nlow/playlist.m3u8\n";

    let result = processor.process(m3u8, "https://cdn.example.com/master.m3u8");
    let variant_url = result
        .lines()
        .find(|line| !line.is_empty() && !line.starts_with('#'))
        .expect("expected variant URL");

    assert!(variant_url.starts_with("http://proxy:8888/_token_"));
    assert!(variant_url.ends_with("/proxy/hls/manifest"));
}

#[test]
fn test_process_master_playlist_resolves_relative_variants_against_effective_url() {
    let processor = default_processor("http://proxy:8888");
    let m3u8 = b"#EXTM3U\n#EXT-X-VERSION:3\n\
        #EXT-X-STREAM-INF:BANDWIDTH=1400000\nhigh/playlist.m3u8\n";

    let result = processor.process(m3u8, "https://edge.example.com/live/master.m3u8");
    let variant_url = result
        .lines()
        .find(|line| !line.is_empty() && !line.starts_with('#'))
        .expect("expected variant URL");
    let token = extract_token_from_url(variant_url);
    let pd = EncryptionHandler::new(b"secret")
        .unwrap()
        .decrypt(token, None)
        .unwrap();

    assert_eq!(
        pd.destination,
        "https://edge.example.com/live/high/playlist.m3u8"
    );
}

#[test]
fn test_media_segment_urls_extracts_only_media_segments() {
    let media = b"#EXTM3U\n#EXT-X-TARGETDURATION:10\n\
        #EXTINF:10.0,\nseg001.ts\n#EXTINF:10.0,\nhttps://cdn.example.com/seg002.ts\n\
        #EXT-X-ENDLIST\n";
    let urls =
        ManifestProcessor::media_segment_urls(media, "https://cdn.example.com/path/live.m3u8");

    assert_eq!(
        urls,
        vec![
            "https://cdn.example.com/path/seg001.ts".to_string(),
            "https://cdn.example.com/seg002.ts".to_string(),
        ]
    );

    let master = b"#EXTM3U\n#EXT-X-STREAM-INF:BANDWIDTH=1\nvariant.m3u8\n";
    assert!(ManifestProcessor::media_segment_urls(
        master,
        "https://cdn.example.com/master.m3u8"
    )
    .is_empty());
}

#[test]
fn test_media_segment_urls_use_effective_manifest_url_as_base() {
    let media = b"#EXTM3U\n#EXT-X-TARGETDURATION:10\n\
        #EXTINF:10.0,\nsegments/seg001.ts\n#EXT-X-ENDLIST\n";
    let urls = ManifestProcessor::media_segment_urls(
        media,
        "https://edge.example.com/live/redirected/manifest.m3u8",
    );

    assert_eq!(
        urls,
        vec!["https://edge.example.com/live/redirected/segments/seg001.ts".to_string()]
    );
}

#[test]
fn test_no_proxy_mode() {
    let processor = ManifestProcessor::new(
        "http://proxy:8888",
        ProxyParams::new("pass", StringMap::new()),
        ManifestOptions {
            no_proxy: true,
            ..Default::default()
        },
    );
    let m3u8 = b"#EXTM3U\n#EXT-X-TARGETDURATION:10\n\
        #EXTINF:10.0,\nseg001.ts\n#EXT-X-ENDLIST\n";

    let result = processor.process(m3u8, "https://cdn.example.com/playlist.m3u8");

    // Should contain the absolute URL but NOT the proxy path
    assert!(result.contains("cdn.example.com"));
    assert!(!result.contains("/proxy/hls/segment"));
}

#[test]
fn test_inject_ext_x_start() {
    let content = "#EXTM3U\n#EXT-X-VERSION:3\n#EXT-X-TARGETDURATION:10\n";
    let result = inject_ext_x_start(content, &format!("{:.1}", -30.0));
    assert!(result.contains("#EXT-X-START:TIME-OFFSET=-30.0,PRECISE=YES"));
    // Must appear after #EXTM3U line
    let extm3u_pos = result.find("#EXTM3U").unwrap();
    let start_pos = result.find("#EXT-X-START").unwrap();
    assert!(start_pos > extm3u_pos);
}

/// When a video sub-playlist embeds #EXT-X-MEDIA audio references inline, the
/// URI goes through the manifest proxy.
#[test]
fn test_process_media_with_embedded_ext_x_media() {
    let processor = default_processor("http://proxy:8888");
    let m3u8 = [
        "#EXTM3U\n",
        "#EXT-X-VERSION:3\n",
        "#EXT-X-TARGETDURATION:6\n",
        "#EXT-X-MEDIA-SEQUENCE:0\n",
        "#EXT-X-MEDIA:TYPE=AUDIO,GROUP-ID=\"audio-0\",NAME=\"lang\",DEFAULT=YES,",
        "URI=\"https://upstream.example.com/playlist?type=audio&rendition=lang&token=TOK\"\n",
        "#EXT-X-KEY:METHOD=AES-128,URI=\"https://upstream.example.com/enc.key\",IV=0x0000\n",
        "#EXTINF:6.0,\n",
        "https://cdn.example.com/seg001.ts\n",
        "#EXT-X-ENDLIST\n",
    ]
    .concat();
    let result = processor.process(
        m3u8.as_bytes(),
        "https://upstream.example.com/playlist?type=video&rendition=hd",
    );
    let tokenized_uri = result
        .lines()
        .find(|line| line.starts_with("#EXT-X-MEDIA"))
        .and_then(extract_uri_value)
        .expect("expected tokenized media URI");

    assert!(tokenized_uri.contains("/_token_"));
    assert!(tokenized_uri.ends_with("/proxy/hls/manifest"));
    // Must NOT contain the bare audio URL
    assert!(
        !result.contains("URI=\"https://upstream.example.com/playlist?type=audio"),
        "Audio URI is still bare. Got:\n{}",
        result
    );
}

/// FORCED=NO on an audio rendition makes the whole tag an unknown one.
#[test]
fn test_process_master_audio_forced_no_proxied() {
    let processor = default_processor("http://proxy:8888");
    let m3u8 = [
        "#EXTM3U\n",
        "#EXT-X-VERSION:3\n",
        "#EXT-X-MEDIA:TYPE=AUDIO,GROUP-ID=\"audio\",NAME=\"lang1\",",
        "DEFAULT=YES,AUTOSELECT=YES,FORCED=NO,LANGUAGE=\"ita\",",
        "URI=\"https://upstream.example.com/playlist?type=audio&rendition=ita&token=TOK\"\n",
        "#EXT-X-STREAM-INF:BANDWIDTH=3000000,AUDIO=\"audio\"\n",
        "https://upstream.example.com/playlist?type=video&rendition=hd&token=VID\n",
    ]
    .concat();
    let result = processor.process(m3u8.as_bytes(), "https://upstream.example.com/master.m3u8");
    let tokenized_uri = result
        .lines()
        .find_map(extract_uri_value)
        .expect("expected tokenized URI");

    assert!(tokenized_uri.contains("/_token_"));
    assert!(tokenized_uri.ends_with("/proxy/hls/manifest"));
    assert!(
        !result.contains("URI=\"https://upstream.example.com/playlist?type=audio"),
        "Audio URI is still bare. Got:\n{}",
        result
    );
}

/// IPTV playlists keep their EXTINF attributes.
#[test]
fn test_iptv_playlist_preserves_extinf_attributes() {
    let processor = ManifestProcessor::new(
        "http://proxy:8888",
        ProxyParams::new("secret", StringMap::new()),
        ManifestOptions {
            force_playlist_proxy: true,
            ..Default::default()
        },
    );
    let m3u8 = [
        "#EXTM3U x-tvg-url=\"http://epg.example.com/epg.xml\"\n",
        "#EXTINF:-1 tvg-id=\"ch1\" tvg-name=\"Channel 1\" tvg-logo=\"http://logo.example.com/ch1.png\" group-title=\"Sports\",Channel 1\n",
        "http://stream.example.com/ch1\n",
        "#EXTINF:-1 tvg-id=\"ch2\" tvg-name=\"Channel 2\" tvg-logo=\"http://logo.example.com/ch2.png\" group-title=\"News\",Channel 2\n",
        "http://stream.example.com/ch2\n",
    ]
    .concat();

    let result = processor.process(m3u8.as_bytes(), "http://upstream.example.com/playlist.m3u8");

    assert!(result.contains("group-title=\"Sports\""), "group-title stripped:\n{result}");
    assert!(result.contains("group-title=\"News\""), "group-title stripped:\n{result}");
    assert!(result.contains("tvg-id=\"ch1\""), "tvg-id stripped:\n{result}");
    assert!(result.contains("tvg-name=\"Channel 1\""), "tvg-name stripped:\n{result}");
    assert!(result.contains("tvg-logo="), "tvg-logo stripped:\n{result}");
    // Channel URLs must be proxied through manifest endpoint
    assert!(result.contains("/proxy/hls/manifest"), "URLs not proxied:\n{result}");
    // Must not contain bare stream URLs
    assert!(
        !result.contains("http://stream.example.com/ch1\n"),
        "bare stream URL present:\n{result}"
    );
}

#[test]
fn test_process_master_ext_x_media_proxied() {
    let processor = default_processor("http://proxy:8888");
    // Master playlist with EXT-X-MEDIA whose URI contains & in the query string
    let m3u8 = [
        "#EXTM3U\n",
        "#EXT-X-VERSION:3\n",
        "#EXT-X-MEDIA:TYPE=AUDIO,GROUP-ID=\"audio-0\",NAME=\"lang1\",DEFAULT=YES,AUTOSELECT=YES,",
        "URI=\"https://upstream.example.com/playlist?type=audio&rendition=lang1&token=TOK\"\n",
        "#EXT-X-MEDIA:TYPE=AUDIO,GROUP-ID=\"audio-0\",NAME=\"lang2\",DEFAULT=NO,AUTOSELECT=YES,",
        "URI=\"https://upstream.example.com/playlist?type=audio&rendition=lang2&token=TOK\"\n",
        "#EXT-X-STREAM-INF:BANDWIDTH=3000000,AUDIO=\"audio-0\"\n",
        "https://upstream.example.com/playlist?type=video&rendition=hd&token=VID\n",
    ]
    .concat();
    let result = processor.process(m3u8.as_bytes(), "https://upstream.example.com/master.m3u8");
    let tokenized_uri = result
        .lines()
        .find_map(extract_uri_value)
        .expect("expected tokenized URI");

    assert!(tokenized_uri.contains("/_token_"));
    assert!(tokenized_uri.ends_with("/proxy/hls/manifest"));
    // The audio URI must NOT appear bare
    assert!(
        !result.contains("URI=\"https://upstream.example.com/playlist?type=audio"),
        "Audio sub-playlist URI is still bare (unproxied). Got:\n{}",
        result
    );
}

#[test]
fn test_process_media_playlist_resolves_relative_key_map_and_segment_against_effective_url() {
    let processor = default_processor("http://proxy:8888");
    let m3u8 = [
        "#EXTM3U\n",
        "#EXT-X-VERSION:7\n",
        "#EXT-X-TARGETDURATION:6\n",
        "#EXT-X-KEY:METHOD=AES-128,URI=\"keys/key.bin\"\n",
        "#EXT-X-MAP:URI=\"init/init.mp4\"\n",
        "#EXTINF:6.0,\n",
        "segments/seg001.ts\n",
        "#EXT-X-ENDLIST\n",
    ]
    .concat();

    let result = processor.process(
        m3u8.as_bytes(),
        "https://edge.example.com/live/redirected/playlist.m3u8",
    );
    let mut token_destinations = Vec::new();
    let decrypt = EncryptionHandler::new(b"secret").unwrap();
    for line in result.lines() {
        if let Some(url) = extract_uri_value(line) {
            let token = extract_token_from_url(url);
            let pd = decrypt.decrypt(token, None).unwrap();
            token_destinations.push(pd.destination);
        } else if !line.is_empty() && !line.starts_with('#') {
            let token = extract_token_from_url(line);
            let pd = decrypt.decrypt(token, None).unwrap();
            token_destinations.push(pd.destination);
        }
    }

    assert!(token_destinations
        .contains(&"https://edge.example.com/live/redirected/keys/key.bin".to_string()));
    assert!(token_destinations
        .contains(&"https://edge.example.com/live/redirected/init/init.mp4".to_string()));
    assert!(token_destinations
        .contains(&"https://edge.example.com/live/redirected/segments/seg001.ts".to_string()));
}

#[test]
fn open_media_playlist_is_exact() {
    let p = open_processor(ManifestOptions::default());
    let m3u8 = b"#EXTM3U\n#EXT-X-VERSION:3\n#EXT-X-TARGETDURATION:10\n#EXTINF:10,\nseg001.ts\n#EXT-X-ENDLIST\n";
    assert_eq!(
        p.process(m3u8, "https://c.example/a/p.m3u8"),
        "#EXTM3U\n#EXT-X-VERSION:3\n#EXT-X-TARGETDURATION:10\n#EXTINF:10,\n\
         http://p/proxy/hls/segment.ts?d=https%3A%2F%2Fc.example%2Fa%2Fseg001.ts\n#EXT-X-ENDLIST\n"
    );
}

#[test]
fn start_offset_goes_into_live_playlists_only() {
    let live = b"#EXTM3U\n#EXT-X-TARGETDURATION:4\n#EXTINF:4,\na.ts\n";
    let vod = b"#EXTM3U\n#EXT-X-TARGETDURATION:4\n#EXT-X-PLAYLIST-TYPE:VOD\n#EXTINF:4,\na.ts\n";
    let tag = "#EXT-X-START:TIME-OFFSET=-18.0,PRECISE=YES\n";
    let opts = |force: bool| ManifestOptions {
        start_offset: Some("-18.0".to_string()),
        force_start_offset: force,
        ..Default::default()
    };
    let out = open_processor(opts(false)).process(live, "https://c.example/p.m3u8");
    assert!(out.starts_with(&format!("#EXTM3U\n{tag}")));
    let out = open_processor(opts(false)).process(vod, "https://c.example/p.m3u8");
    assert!(!out.contains(tag));
    let out = open_processor(opts(true)).process(vod, "https://c.example/p.m3u8");
    assert!(out.contains(tag));
}

#[test]
fn skipped_segments_leave_a_discontinuity() {
    let m3u8 =
        b"#EXTM3U\n#EXT-X-TARGETDURATION:4\n#EXTINF:4,\na.ts\n#EXTINF:4,\nb.ts\n#EXTINF:4,\nc.ts\n";
    let p = open_processor(ManifestOptions {
        no_proxy: true,
        skips: Some(vec![false, true, false]),
        ..Default::default()
    });
    assert_eq!(
        p.process(m3u8, "https://c.example/p.m3u8"),
        "#EXTM3U\n#EXT-X-TARGETDURATION:4\n#EXTINF:4,\nhttps://c.example/a.ts\n\
         #EXT-X-DISCONTINUITY\n#EXTINF:4,\nhttps://c.example/c.ts\n"
    );
}

#[test]
fn line_fallback_handles_tags_skips_and_offset() {
    let p = open_processor(ManifestOptions {
        no_proxy: true,
        skips: Some(vec![false, true, false]),
        start_offset: Some("5.0".to_string()),
        ..Default::default()
    });
    let text = "#EXTM3U\n#EXT-X-KEY:METHOD=AES-128,URI=\"k.bin\"\n#EXTINF:4,\na.ts\n#EXTINF:4,\nb.ts\n\n#EXTINF:4,\nc.ts\n";
    assert_eq!(
        p.process_lines(text, "https://c.example/x/p.m3u8"),
        "#EXTM3U\n#EXT-X-START:TIME-OFFSET=5.0,PRECISE=YES\n\
         #EXT-X-KEY:METHOD=AES-128,URI=\"https://c.example/x/k.bin\"\n\
         #EXTINF:4,\nhttps://c.example/x/a.ts\n\n\
         #EXT-X-DISCONTINUITY\n#EXTINF:4,\nhttps://c.example/x/c.ts\n"
    );
}

#[test]
fn the_offset_is_put_in_once() {
    let p = open_processor(ManifestOptions {
        no_proxy: true,
        start_offset: Some("5.0".to_string()),
        ..Default::default()
    });
    let text = "#EXTM3U\n#EXTM3U\n#EXTINF:4,\na.ts\n";
    let out = p.process_lines(text, "https://c.example/p.m3u8");
    assert_eq!(out.matches("#EXT-X-START:").count(), 1);
}

#[test]
fn tag_lines_go_to_their_endpoints() {
    let p = open_processor(ManifestOptions::default());
    let base = "https://c.example/p.m3u8";
    assert_eq!(
        p.process_tag_with_uri("#EXT-X-MAP:URI=\"i.mp4\"", base),
        "#EXT-X-MAP:URI=\"http://p/proxy/hls/segment.mp4?d=https%3A%2F%2Fc.example%2Fi.mp4\""
    );
    assert_eq!(
        p.process_tag_with_uri("#EXT-X-MEDIA:URI=\"a.m3u8\",X=1", base),
        "#EXT-X-MEDIA:URI=\"http://p/proxy/hls/manifest?d=https%3A%2F%2Fc.example%2Fa.m3u8\",X=1"
    );
    assert_eq!(
        p.process_tag_with_uri("#EXT-X-KEY:URI=\"k\"", base),
        "#EXT-X-KEY:URI=\"http://p/proxy/hls/segment?d=https%3A%2F%2Fc.example%2Fk\""
    );
    assert_eq!(p.process_tag_with_uri("#X:URI=\"open", base), "#X:URI=\"open");
}

#[test]
fn key_only_proxy_returns_segments_direct() {
    let p = open_processor(ManifestOptions {
        key_only_proxy: true,
        ..Default::default()
    });
    assert_eq!(
        p.rewrite_segment_or_playlist_uri("a.ts", "https://c.example/p.m3u8"),
        "https://c.example/a.ts"
    );
    assert_eq!(
        p.rewrite_tag_rest_uri("URI=\"k\"", "https://c.example/p.m3u8", false),
        "URI=\"http://p/proxy/hls/segment?d=https%3A%2F%2Fc.example%2Fk\""
    );
    assert_eq!(
        p.process_tag_with_uri("#EXT-X-MAP:URI=\"init.mp4\"", "https://c.example/p.m3u8"),
        "#EXT-X-MAP:URI=\"https://c.example/init.mp4\""
    );
}

#[test]
fn key_only_proxy_leaves_initialization_sections_direct() {
    let p = open_processor(ManifestOptions {
        key_only_proxy: true,
        ..Default::default()
    });
    let m3u8 = b"#EXTM3U\n#EXT-X-TARGETDURATION:6\n#EXT-X-MAP:URI=\"init.mp4\"\n\
        #EXT-X-KEY:METHOD=AES-128,URI=\"k.bin\"\n#EXTINF:6,\ns.ts\n#EXT-X-ENDLIST\n";
    assert_eq!(
        p.process(m3u8, "https://h/p/x.m3u8"),
        "#EXTM3U\n#EXT-X-TARGETDURATION:6\n#EXT-X-MAP:URI=\"https://h/p/init.mp4\"\n\
         #EXT-X-KEY:METHOD=AES-128,URI=\"http://p/proxy/hls/segment?d=https%3A%2F%2Fh%2Fp%2Fk.bin\"\n\
         #EXTINF:6,\nhttps://h/p/s.ts\n#EXT-X-ENDLIST\n"
    );
}

#[test]
fn line_fallback_keeps_the_offset_out_of_finished_streams() {
    let opts = |force: bool| ManifestOptions {
        no_proxy: true,
        start_offset: Some("-30.0".to_string()),
        force_start_offset: force,
        ..Default::default()
    };
    let head = "#EXTM3U\n#EXTINF:6.0 tvg-id=\"a\",A\nhttp://h/a.ts\n";
    for end in ["#EXT-X-ENDLIST\n", "#EXT-X-PLAYLIST-TYPE:VOD\n"] {
        let text = format!("{head}{end}");
        let out = open_processor(opts(false)).process_lines(&text, "http://h/x.m3u8");
        assert_eq!(out, text);
        let out = open_processor(opts(true)).process_lines(&text, "http://h/x.m3u8");
        assert!(out.contains("#EXT-X-START:TIME-OFFSET=-30.0,PRECISE=YES"));
    }
    let out = open_processor(opts(false)).process_lines(head, "http://h/x.m3u8");
    assert!(out.contains("#EXT-X-START:"));
}

fn bare(text: &str) -> Vec<&str> {
    text.split('\n').filter(|l| !l.is_empty() && !l.starts_with('#')).collect()
}

#[test]
fn master_playlists_are_exact() {
    let p = open_processor(ManifestOptions::default());
    let m3u8 = b"#EXTM3U\n#EXT-X-VERSION:4\n\
        #EXT-X-MEDIA:TYPE=AUDIO,GROUP-ID=\"a\",NAME=\"n\",URI=\"a.m3u8\",X-OWN=1\n\
        #EXT-X-STREAM-INF:BANDWIDTH=5,CODECS=\"c\",X-OWN=\"2\",AUDIO=\"a\"\nv.m3u8\n\
        #EXT-X-I-FRAME-STREAM-INF:BANDWIDTH=3,URI=\"i.m3u8\"\n\
        #EXT-X-SESSION-DATA:DATA-ID=\"d\",VALUE=\"w\",X-OWN=3\n\
        #EXT-X-START:TIME-OFFSET=2\n#EXT-X-OTHER:Z\n";
    let out = p.process(m3u8, "https://c/m.m3u8");
    let link = |n: &str| format!("http://p/proxy/hls/manifest?d=https%3A%2F%2Fc%2F{n}.m3u8");
    assert_eq!(
        out,
        format!(
            "#EXTM3U\n#EXT-X-VERSION:4\n\
             #EXT-X-MEDIA:TYPE=AUDIO,URI=\"{}\",GROUP-ID=\"a\",NAME=\"n\",X-OWN=1\n\
             #EXT-X-STREAM-INF:BANDWIDTH=5,CODECS=\"c\",X-OWN=\"2\",AUDIO=\"a\"\n{}\n\
             #EXT-X-I-FRAME-STREAM-INF:BANDWIDTH=3,URI=\"{}\"\n\
             #EXT-X-SESSION-DATA:DATA-ID=\"d\",VALUE=\"w\",X-OWN=3\n\
             #EXT-X-START:TIME-OFFSET=2\n#EXT-X-OTHER:Z\n",
            link("a"),
            link("v"),
            link("i")
        )
    );
    assert_eq!(bare(&out), [link("v")]);
}

#[test]
fn media_playlists_are_exact() {
    let p = open_processor(ManifestOptions {
        no_proxy: true,
        start_offset: Some("-9.5".to_string()),
        ..Default::default()
    });
    let m3u8 = b"#EXTM3U\n#EXT-X-TARGETDURATION:6\n#EXT-X-MEDIA-SEQUENCE:7\n\
        #EXT-X-MAP:URI=\"i.mp4\",BYTERANGE=\"5@1\"\n#EXT-X-BYTERANGE:9@2\n\
        #EXT-X-KEY:METHOD=AES-128,URI=\"k\",IV=0x1,KEYFORMAT=\"f\"\n\
        #EXT-X-PROGRAM-DATE-TIME:2020-01-02T03:04:05Z\n\
        #EXT-X-DATERANGE:ID=\"r\",START-DATE=\"2020-01-02T03:04:05Z\",X-A=1,END-ON-NEXT=YES,B=2\n\
        #EXT-X-OTHER:Z\n#EXTINF:5.5,t\ns.ts\n";
    let out = p.process(m3u8, "https://c/x/m.m3u8");
    assert_eq!(
        out,
        "#EXTM3U\n#EXT-X-START:TIME-OFFSET=-9.5,PRECISE=YES\n\
         #EXT-X-TARGETDURATION:6\n#EXT-X-MEDIA-SEQUENCE:7\n\
         #EXT-X-MAP:URI=\"https://c/x/i.mp4\",BYTERANGE=\"5@1\"\n#EXT-X-BYTERANGE:9@2\n\
         #EXT-X-KEY:METHOD=AES-128,URI=\"https://c/x/k\",IV=0x1,KEYFORMAT=\"f\"\n\
         #EXT-X-PROGRAM-DATE-TIME:2020-01-02T03:04:05.000Z\n\
         #EXT-X-DATERANGE:ID=\"r\",START-DATE=\"2020-01-02T03:04:05+00:00\",X-A=1,END-ON-NEXT=YES,B=2\n\
         #EXT-X-OTHER:Z\n#EXTINF:5.5,t\nhttps://c/x/s.ts\n"
    );
    assert_eq!(bare(&out), ["https://c/x/s.ts"]);
}

#[test]
fn sub_playlists_are_recognised_by_their_extension() {
    assert!(is_playlist_url("https://c.example/A.M3U8?x=1"));
    assert!(is_playlist_url("https://c.example/a.m3u#f"));
    assert!(!is_playlist_url("https://c.example/a.ts?x=.m3u8"));
}

#[test]
fn durations_come_in_the_order_of_the_segments() {
    let media = b"#EXTM3U\n#EXT-X-TARGETDURATION:4\n#EXTINF:4,\na.ts\n#EXTINF:2.5,\nb.ts\n";
    match segment_durations(media) {
        SegmentDurations::Bits(b) => {
            assert_eq!(b, vec![4.0f32.to_bits(), 2.5f32.to_bits()]);
        }
        SegmentDurations::Texts(_) => panic!("expected bits"),
    }
    let iptv = b"#EXTM3U\n#EXTINF: -1 ,tvg-id=\"a\"\nhttp://x\n#EXTINF:7\nhttp://y\n";
    assert!(is_iptv_playlist(iptv));
    match segment_durations(iptv) {
        SegmentDurations::Texts(t) => assert_eq!(t, vec!["-1".to_string(), "7".to_string()]),
        SegmentDurations::Bits(_) => panic!("expected texts"),
    }
    assert_eq!(parse_extinf_duration("#EXTINF:9.5,t"), Some("9.5".to_string()));
    assert_eq!(parse_extinf_duration("#EXT"), None);
}

#[test]
fn closing_playlists_are_exact() {
    assert_eq!(
        graceful_end_playlist("bye"),
        "#EXTM3U\n#EXT-X-VERSION:3\n#EXT-X-TARGETDURATION:1\n#EXT-X-PLAYLIST-TYPE:VOD\n# bye\n#EXT-X-ENDLIST\n"
    );
    assert_eq!(
        error_playlist("bad"),
        "#EXTM3U\n#EXT-X-VERSION:3\n#EXT-X-TARGETDURATION:1\n#EXT-X-PLAYLIST-TYPE:VOD\n# Error: bad\n#EXT-X-ENDLIST\n"
    );
}

#[test]
fn unparsed_playlists_fall_back_to_their_lines() {
    let text = b"#EXTINF:4,\nseg.ts\n#EXTINF:4,\nsub.m3u8\nloose.ts\n";
    assert_eq!(
        ManifestProcessor::media_segment_urls_from_lines(
            std::str::from_utf8(text).unwrap(),
            "https://c.example/p"
        ),
        vec!["https://c.example/seg.ts".to_string()]
    );
}

/// A quoted attribute may hold a line feed; it is written back as it was read.
#[test]
fn attributes_may_reach_over_a_line() {
    let p = open_processor(ManifestOptions {
        no_proxy: true,
        ..Default::default()
    });
    let m3u8 = b"#EXTM3U\n#EXT-X-STREAM-INF:BANDWIDTH=5,CODECS=\"c\nd\"\nv.m3u8\n";
    let out = p.process(m3u8, "https://c/m.m3u8");
    assert_eq!(
        out,
        "#EXTM3U\n#EXT-X-STREAM-INF:BANDWIDTH=5,CODECS=\"c\nd\"\nhttps://c/v.m3u8\n"
    );
    assert_eq!(bare(&out), ["d\"", "https://c/v.m3u8"]);
}

#[test]
fn direct_renditions_are_absolute() {
    let p = open_processor(ManifestOptions {
        no_proxy: true,
        ..Default::default()
    });
    let m3u8 = b"#EXTM3U\n#EXT-X-MEDIA:TYPE=AUDIO,GROUP-ID=\"a\",NAME=\"n\",FORCED=NO,URI=\"a.m3u8\"\n\
        #EXT-X-STREAM-INF:BANDWIDTH=5,AUDIO=\"a\"\nv.m3u8\n";
    assert_eq!(
        p.process(m3u8, "https://c/m.m3u8"),
        "#EXTM3U\n#EXT-X-STREAM-INF:BANDWIDTH=5,AUDIO=\"a\"\nhttps://c/v.m3u8\n\
         #EXT-X-MEDIA:TYPE=AUDIO,GROUP-ID=\"a\",NAME=\"n\",FORCED=NO,URI=\"https://c/a.m3u8\"\n"
    );
}
