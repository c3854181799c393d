use mediaflow_proxy::auth::encryption::ProxyData;
use mediaflow_proxy::config::Config;
use mediaflow_proxy::error::AppError;
use mediaflow_proxy::mpd::handler::{
    build_proxy_params, expand_segment_base_segments, init_request, matching_profiles,
    mime_type_to_content_type, plain_segment_body, plan_sidx, playlist_profile, range_header,
    segment_request, SegmentMode,
};
use mediaflow_proxy::mpd::playlist::{
    build_hls_master, build_hls_media_playlist, duration_keys, window_start,
};
use mediaflow_proxy::mpd::processor::{
    compute_live_media_sequence, compute_live_playlist_depth, generate_from_base,
    generate_from_entries, generate_from_list, generate_segments, median, median_low,
    parse_mpd_document, resolve_nominal_duration, DrmInfo, ParsedMpd, SegmentPlan, SegmentTiming,
    TimelineEntry,
};
use mediaflow_proxy::mpd::sidx::parse_sidx_fragments;
use mediaflow_proxy::mpd::template::expand_template;
use mediaflow_proxy::mpd::types::{
    AdaptationSet, ContentProtection, Extinf, Initialization, MpdDocument, MpdProfile, MpdSegment,
    Period, Representation, SegmentBase, SegmentList, SegmentTemplate, SegmentUrl, TimelinePoint,
};
use mediaflow_proxy::mpd::urls::{
    build_init_url, build_playlist_url, build_segment_url, MpdProxyParams,
};
use mediaflow_proxy::string_map::StringMap;

fn s(t: &str) -> Option<String> {
    Some(t.to_string())
}

fn params() -> MpdProxyParams {
    MpdProxyParams {
        api_password: "pass".to_string(),
        ..Default::default()
    }
}

fn extinf(d: f64) -> Extinf {
    Extinf {
        text: format!("{d:.3}"),
        positive: d > 0.0,
        ceil: d.ceil() as u64,
        key: d.to_bits(),
    }
}

fn template() -> SegmentTemplate {
    SegmentTemplate {
        media: s("$RepresentationID$/$Number%05d$.m4s"),
        initialization: s("init-$RepresentationID$-$Bandwidth$.mp4"),
        start_number: s("7"),
        timescale: s("1000"),
        duration: s("4000"),
        presentation_time_offset: None,
        segment_timeline: None,
    }
}

fn set() -> AdaptationSet {
    AdaptationSet {
        id: s("A"),
        mime_type: None,
        codecs: s("avc1"),
        bandwidth: s("999"),
        lang: s("en"),
        width: s("1920"),
        height: s("1080"),
        frame_rate: s("25"),
        max_frame_rate: None,
        audio_sampling_rate: None,
        segment_template: Some(template()),
        segment_list: None,
        content_protection: vec![],
        representations: vec![],
    }
}

fn rep() -> Representation {
    Representation {
        id: s("r1"),
        mime_type: None,
        codecs: None,
        bandwidth: s("5000"),
        lang: None,
        width: None,
        height: s("720"),
        frame_rate: None,
        sar: None,
        audio_sampling_rate: None,
        audio_channels: None,
        base_url: s("base/"),
        segment_template: None,
        segment_list: None,
        segment_base: None,
        content_protection: vec![],
    }
}

fn doc(kind: &str, sets: Vec<AdaptationSet>) -> MpdDocument {
    MpdDocument {
        stream_type: s(kind),
        media_presentation_duration: None,
        minimum_update_period: None,
        time_shift_buffer_depth: None,
        availability_start_time: None,
        periods: vec![Period {
            start: None,
            adaptation_sets: sets,
        }],
    }
}

fn one(set: AdaptationSet, rep: Representation) -> MpdDocument {
    let mut set = set;
    set.representations = vec![rep];
    doc("static", vec![set])
}

fn segment(media: &str, number: u64, d: f64) -> MpdSegment {
    MpdSegment {
        media: media.to_string(),
        number,
        extinf: extinf(d),
        time: None,
        duration_mpd_timescale: None,
        program_date_time: None,
        media_range: None,
        init_range: None,
        index_range: None,
    }
}

fn profile(id: &str, mime: &str, bandwidth: u64, height: u32) -> MpdProfile {
    MpdProfile {
        id: id.to_string(),
        rep_id: id.to_string(),
        mime_type: mime.to_string(),
        codecs: "c".to_string(),
        bandwidth,
        lang: None,
        width: 10,
        height,
        frame_rate: "25".to_string(),
        frame_rate_text: "25.000".to_string(),
        sar: "1:1".to_string(),
        audio_sampling_rate: None,
        channels: "2".to_string(),
        init_url: s("http://c/i"),
        init_range: None,
        segments: vec![],
        segment_template_start_number: 1,
        segment_template_start_number_explicit: false,
        segment_template_timescale: 1,
        nominal_duration_mpd_timescale: None,
    }
}

fn parsed(is_live: bool, profiles: Vec<MpdProfile>) -> ParsedMpd {
    ParsedMpd {
        is_live,
        profiles,
        origins: vec![],
        drm_info: DrmInfo::default(),
    }
}

#[test]
fn mpd_urls_preserve_public_path_prefix() {
    let base = "https://proxy.example.test/mediaflow/prefix";
    let params = params();

    let playlist = build_playlist_url(
        base,
        "https://cdn.example.test/manifest.mpd",
        "video_1080",
        &params,
    );
    let segment = build_segment_url(
        base,
        "https://cdn.example.test/init.mp4",
        "https://cdn.example.test/seg-1.m4s",
        "video/mp4",
        false,
        false,
        None,
        None,
        None,
        &params,
    );
    let init = build_init_url(
        base,
        "https://cdn.example.test/init.mp4",
        "video/mp4",
        None,
        &params,
    );

    assert!(
        playlist.starts_with("https://proxy.example.test/mediaflow/prefix/proxy/mpd/playlist?")
    );
    assert!(segment
        .starts_with("https://proxy.example.test/mediaflow/prefix/proxy/mpd/segment.mp4?"));
    assert!(init.starts_with("https://proxy.example.test/mediaflow/prefix/proxy/mpd/init?"));
}

#[test]
fn urls_are_exact() {
    let mut p = params();
    p.key_id = s("k1");
    p.key = s("k,2");
    p.skip = s("0-1");
    p.remux_to_ts = true;
    p.pass_headers.insert("a b", "c/d");
    assert_eq!(
        build_playlist_url("http://p", "http://m?x", "id_1", &p),
        "http://p/proxy/mpd/playlist?d=http%3A%2F%2Fm%3Fx&profile_id=id_1&api_password=pass&key_id=k1&key=k%2C2&skip=0-1&remux_to_ts=1&h_a%20b=c%2Fd"
    );
    assert_eq!(
        build_segment_url("http://p", "i", "g", "video/mp4", true, true, Some("0-1"), Some("2-3"), Some("4-"), &p),
        "http://p/proxy/mpd/segment.ts?init_url=i&segment_url=g&mime_type=video%2Fmp4&is_live=true&api_password=pass&use_map=true&init_range=2-3&segment_range=4-&key_id=k1&key=k%2C2&h_a%20b=c%2Fd"
    );
    assert_eq!(
        build_init_url("http://p", "i", "video/mp4", Some("0-1"), &p),
        "http://p/proxy/mpd/init?init_url=i&mime_type=video%2Fmp4&api_password=pass&init_range=0-1&key_id=k1&key=k%2C2&h_a%20b=c%2Fd"
    );
}

#[test]
fn templates_expand() {
    let e = |t: &str, time| expand_template(t, "R", 123, 7, time);
    assert_eq!(e("$RepresentationID$-$Bandwidth$-$Number$.m4s", None), "R-123-7.m4s");
    assert_eq!(e("$Number%03d$/$Time$", Some(90)), "007/90");
    assert_eq!(e("$Time$", None), "0");
    assert_eq!(e("$$x$Unknown$", None), "$x$Unknown$");
    assert_eq!(e("$Number%d$", None), "$Number%d$");
    assert_eq!(e("a$Number", None), "a$Number");
    assert_eq!(e("$Bandwidth%02d$", None), "123");
}

#[test]
fn profiles_are_read() {
    let p = parse_mpd_document(&one(set(), rep()), "https://c.example/x/m.mpd", None);
    assert!(!p.is_live);
    let f = &p.profiles[0];
    assert_eq!(f.id, "A_r1_5000");
    assert_eq!(f.mime_type, "video/mp4");
    assert_eq!((f.bandwidth, f.width, f.height), (5000, 1920, 720));
    assert_eq!(f.frame_rate, "25");
    assert_eq!(f.lang.as_deref(), Some("en"));
    assert_eq!((f.segment_template_start_number, f.segment_template_timescale), (7, 1000));
    assert!(f.segment_template_start_number_explicit);
    assert_eq!(
        f.init_url.as_deref(),
        Some("https://c.example/x/base/init-r1-5000.mp4")
    );
    assert_eq!((f.sar.as_str(), f.channels.as_str()), ("1:1", "2"));
    assert!(matches!(
        p.origins[0].plan,
        SegmentPlan::Vod { start_number: 7, timescale: 1000, duration: 4000 }
    ));
}

#[test]
fn profile_fallbacks() {
    let mut r = rep();
    r.id = None;
    r.bandwidth = None;
    r.codecs = s("mp4a");
    let mut a = set();
    a.id = None;
    a.frame_rate = None;
    a.segment_template = None;
    let p = parse_mpd_document(&one(a, r), "https://c.example/m.mpd", None);
    let f = &p.profiles[0];
    assert_eq!(f.id, "0_0_999");
    assert_eq!(f.mime_type, "audio/mp4");
    assert_eq!(f.bandwidth, 999);
    assert_eq!(f.frame_rate, "30000/1001");
    assert_eq!(f.init_url.as_deref(), Some("https://c.example/base/"));
    assert!(matches!(p.origins[0].plan, SegmentPlan::Nothing));
    let mut r = rep();
    r.mime_type = s("text/vtt");
    assert!(parse_mpd_document(&one(set(), r), "u", None).profiles.is_empty());
}

#[test]
fn segment_plans() {
    let plan = |f: &dyn Fn(&mut SegmentTemplate), kind: &str| {
        let mut t = template();
        f(&mut t);
        let mut a = set();
        a.segment_template = Some(t);
        a.representations = vec![rep()];
        parse_mpd_document(&doc(kind, vec![a]), "u", None).origins[0].plan
    };
    assert!(matches!(
        plan(&|_| {}, "DYNAMIC"),
        SegmentPlan::Live { start_number: 7, timescale: 1000, presentation_time_offset: 0, duration: 4000 }
    ));
    assert!(matches!(plan(&|t| t.media = None, "static"), SegmentPlan::Nothing));
    assert!(matches!(plan(&|t| t.duration = s("x"), "static"), SegmentPlan::Nothing));
    assert!(matches!(
        plan(
            &|t| {
                t.segment_timeline = Some(vec![TimelinePoint { t: None, d: 1, r: None }]);
                t.presentation_time_offset = s("9");
            },
            "static"
        ),
        SegmentPlan::Timeline { start_number: 7, timescale: 1000, presentation_time_offset: 9 }
    ));
    let p = parse_mpd_document(&one(set(), rep()), "u", Some("other"));
    assert!(matches!(p.origins[0].plan, SegmentPlan::Nothing));
    let p = parse_mpd_document(&one(set(), rep()), "u", Some("A_r1_5000"));
    assert!(matches!(p.origins[0].plan, SegmentPlan::Vod { .. }));
}

#[test]
fn timeline_entries_become_segments() {
    let a = set();
    let r = rep();
    let p = parse_mpd_document(&one(set(), rep()), "https://c.example/x/m.mpd", None);
    let entries = vec![
        TimelineEntry { number: 7, time: 0, duration: 4000, start_secs: Some(0), extinf: extinf(4.0) },
        TimelineEntry { number: 8, time: 4000, duration: 0, start_secs: None, extinf: extinf(4.0) },
    ];
    let v = generate_from_entries(&p.profiles[0], &r, &a, "https://c.example/x/m.mpd", &entries);
    assert_eq!(v[0].media, "https://c.example/x/base/r1/00007.m4s");
    assert_eq!(v[0].program_date_time.as_deref(), Some("1970-01-01T00:00:00Z"));
    assert_eq!((v[0].time, v[0].duration_mpd_timescale), (None, Some(4000)));
    assert_eq!((v[1].time, v[1].duration_mpd_timescale), (Some(4000), None));
    assert_eq!(v[1].program_date_time, None);
    let far = TimelineEntry { number: 1, time: 0, duration: 1, start_secs: Some(i64::MAX), extinf: extinf(1.0) };
    let v = generate_from_entries(&p.profiles[0], &r, &a, "https://c.example/", &vec![far]);
    assert_eq!(v[0].program_date_time, None);
}

#[test]
fn lists_and_single_files_become_segments() {
    let list = SegmentList {
        timescale: None,
        duration: s("10"),
        initialization: Some(Initialization { source_url: None, range: s("0-9") }),
        segment_urls: vec![
            SegmentUrl { media: s("a.m4s"), media_range: None },
            SegmentUrl { media: None, media_range: s("10-20") },
        ],
    };
    let mut r = rep();
    let v = generate_from_list(&list, &r, "https://c.example/m.mpd", &extinf(10.0));
    assert_eq!(v[0].media, "https://c.example/a.m4s");
    assert_eq!(v[1].media, "https://c.example/base/");
    assert_eq!((v[1].number, v[1].media_range.as_deref()), (2, Some("10-20")));
    r.base_url = None;
    let v = generate_from_list(&list, &r, "https://c.example/m.mpd", &extinf(10.0));
    assert_eq!(v.len(), 1);
    let base = SegmentBase {
        initialization: Some(Initialization { source_url: None, range: s("0-657") }),
        index_range: s("658-1000"),
    };
    let v = generate_from_base(&base, &rep(), "https://c.example/m.mpd", extinf(60.0));
    assert_eq!(v[0].media_range.as_deref(), Some("658-"));
    assert_eq!(v[0].init_range.as_deref(), Some("0-657"));
    assert_eq!(v[0].index_range.as_deref(), Some("658-1000"));
}

#[test]
fn plans_become_segments() {
    let timing = || SegmentTiming {
        entries: vec![TimelineEntry {
            number: 7,
            time: 0,
            duration: 4000,
            start_secs: None,
            extinf: extinf(4.0),
        }],
        extinf: extinf(9.0),
    };
    let url = "https://c.example/x/m.mpd";
    let p = parse_mpd_document(&one(set(), rep()), url, None);
    let made = |plan: &SegmentPlan, r: &Representation, a: &AdaptationSet| {
        generate_segments(plan, &p.profiles[0], r, a, url, &timing())
    };
    let v = made(&p.origins[0].plan, &rep(), &set());
    assert_eq!((v.len(), v[0].media.as_str()), (1, "https://c.example/x/base/r1/00007.m4s"));
    assert!(made(&SegmentPlan::Nothing, &rep(), &set()).is_empty());
    let list = SegmentPlan::List { duration: 9, timescale: 1 };
    assert!(made(&list, &rep(), &set()).is_empty());
    let mut a = set();
    a.segment_list = Some(SegmentList {
        timescale: None,
        duration: s("9"),
        initialization: None,
        segment_urls: vec![SegmentUrl { media: s("a.m4s"), media_range: None }],
    });
    let v = made(&list, &rep(), &a);
    assert_eq!((v[0].media.as_str(), v[0].extinf.text.as_str()), ("https://c.example/x/a.m4s", "9.000"));
    let mut r = rep();
    r.segment_base = Some(SegmentBase { initialization: None, index_range: s("1-2") });
    let v = made(&SegmentPlan::Single, &r, &set());
    assert_eq!((v[0].number, v[0].index_range.as_deref()), (1, Some("1-2")));
}

#[test]
fn one_profile_leaves_the_others() {
    let manifest = || {
        let mut other = rep();
        other.id = s("r2");
        let mut a = set();
        a.representations = vec![rep(), other];
        doc("static", vec![a])
    };
    let all = parse_mpd_document(&manifest(), "u", None);
    let one = parse_mpd_document(&manifest(), "u", Some("A_r2_5000"));
    assert_eq!(all.profiles.len(), 2);
    for i in 0..2 {
        assert_eq!(one.profiles[i].id, all.profiles[i].id);
        assert_eq!(one.profiles[i].init_url, all.profiles[i].init_url);
    }
    assert!(matches!(one.origins[0].plan, SegmentPlan::Nothing));
    assert!(matches!(one.origins[1].plan, SegmentPlan::Vod { .. }));
    assert!(matches!(all.origins[0].plan, SegmentPlan::Vod { .. }));
}

#[test]
fn two_periods_are_written_as_one() {
    let with = |from: u64, to: u64| {
        let mut p = profile("v", "video/mp4", 1, 1);
        p.segments = (from..=to).map(|i| segment("http://c/a", i, 2.0)).collect();
        p
    };
    let (p, q, r) = (with(1, 3), with(4, 5), with(1, 5));
    let m = parsed(false, vec![]);
    let written =
        |v: &Vec<&MpdProfile>| build_hls_media_playlist(&m, v, "http://p", &params(), None, None, None, 8);
    let whole = written(&vec![&r]);
    assert_eq!(whole.matches("#EXTINF").count(), 5);
    assert_eq!(written(&vec![&p, &q]), whole);
}

#[test]
fn initialization_of_lists_and_files() {
    let mut a = set();
    a.segment_template = None;
    let mut r = rep();
    r.segment_list = Some(SegmentList {
        timescale: None,
        duration: None,
        initialization: Some(Initialization { source_url: s("i.mp4"), range: s("0-1") }),
        segment_urls: vec![],
    });
    let p = parse_mpd_document(&one(a, r), "https://c.example/m.mpd", None);
    assert_eq!(p.profiles[0].init_url.as_deref(), Some("https://c.example/i.mp4"));
    assert!(matches!(p.origins[0].plan, SegmentPlan::List { duration: 0, timescale: 1 }));
    let mut a = set();
    a.segment_template = None;
    let mut r = rep();
    r.segment_base = Some(SegmentBase {
        initialization: Some(Initialization { source_url: None, range: s("0-1") }),
        index_range: None,
    });
    let p = parse_mpd_document(&one(a, r), "https://c.example/m.mpd", None);
    assert_eq!(p.profiles[0].init_url.as_deref(), Some("https://c.example/base/"));
    assert_eq!(p.profiles[0].init_range.as_deref(), Some("0-1"));
    assert!(matches!(p.origins[0].plan, SegmentPlan::Single));
}

fn protection(scheme: &str) -> ContentProtection {
    ContentProtection {
        scheme_id_uri: s(scheme),
        clearkey_laurl: None,
        cenc_pssh: None,
        ms_license_url: None,
        cenc_default_kid: None,
    }
}

#[test]
fn content_protection_keeps_the_first_details() {
    let mut w = protection("urn:uuid:EDEF8BA9-79D6-4ACE-A3C8-27DCD51D21ED");
    w.cenc_pssh = s("P1");
    w.cenc_default_kid = s("ab-cd");
    let mut c = protection("org.w3.ClearKey");
    c.clearkey_laurl = s("/license");
    c.cenc_default_kid = s("ef");
    let mut r = protection("playready");
    r.ms_license_url = s("https://other");
    let mut a = set();
    a.content_protection = vec![protection("urn:mpeg"), w];
    let mut rp = rep();
    rp.content_protection = vec![c, r];
    let p = parse_mpd_document(&one(a, rp), "https://c.example/x/m.mpd", None);
    let d = &p.drm_info;
    assert!(d.is_drm_protected);
    assert_eq!(d.drm_system.as_deref(), Some("widevine"));
    assert_eq!(d.key_id.as_deref(), Some("abcd"));
    assert_eq!(d.pssh.as_deref(), Some("P1"));
    assert_eq!(d.la_url.as_deref(), Some("https://c.example/license"));
    let p = parse_mpd_document(&one(set(), rep()), "u", None);
    assert!(!p.drm_info.is_drm_protected);
}

#[test]
fn medians_and_sequences() {
    assert_eq!(median(&vec![]), None);
    assert_eq!(median(&vec![5, 1, 3]), Some(3));
    assert_eq!(median(&vec![4, 1, 3, 2]), Some(3));
    assert_eq!(median_low(&vec![]), None);
    assert_eq!(median_low(&vec![5, 1, 3]), Some(3));
    assert_eq!(median_low(&vec![4, 1, 3, 2]), Some(2));
    let mut p = profile("v", "video/mp4", 1, 1);
    let mut a = segment("a", 0, 4.0);
    assert_eq!(compute_live_media_sequence(&a, &p, &p.segments), 1);
    a.number = 12;
    assert_eq!(compute_live_media_sequence(&a, &p, &p.segments), 12);
    a.time = Some(4000);
    let mut b = segment("b", 2, 4.0);
    b.duration_mpd_timescale = Some(40);
    let mut c = segment("c", 3, 2.0);
    c.duration_mpd_timescale = Some(20);
    let mut d = segment("d", 4, 2.0);
    d.duration_mpd_timescale = Some(40);
    assert_eq!(resolve_nominal_duration(&vec![d, c]), Some(20));
    let others = vec![b];
    assert_eq!(compute_live_media_sequence(&a, &p, &others), 100);
    p.fill_segments(others);
    assert_eq!(p.nominal_duration_mpd_timescale, Some(40));
    assert_eq!(compute_live_media_sequence(&a, &p, &p.segments), 100);
    p.segment_template_start_number_explicit = true;
    assert_eq!(compute_live_media_sequence(&a, &p, &p.segments), 12);
}

#[test]
fn live_depths_and_windows() {
    assert_eq!(compute_live_playlist_depth(false, None, 8), 15);
    assert_eq!(compute_live_playlist_depth(true, None, 8), 20);
    assert_eq!(compute_live_playlist_depth(false, None, 30), 30);
    assert_eq!(compute_live_playlist_depth(false, Some(8), 8), 20);
    assert_eq!(compute_live_playlist_depth(true, Some(30), 8), 40);
    assert_eq!(window_start(100, true, false, None, 8), 85);
    assert_eq!(window_start(10, true, false, None, 8), 0);
    assert_eq!(window_start(100, false, false, None, 8), 0);
}

#[test]
fn master_playlist_is_exact() {
    let mut a = profile("a", "audio/mp4", 64, 0);
    a.lang = s("de");
    let mut b = profile("b", "audio/mp4", 32, 0);
    b.lang = s("en-GB");
    b.codecs = "mp4a".to_string();
    let p = parsed(false, vec![profile("v", "video/mp4", 100, 720), a, b, profile("w", "video/mp4", 200, 1080)]);
    let out = build_hls_master(&p, "http://p", "http://m", &params());
    let url = |id: &str| format!("http://p/proxy/mpd/playlist?d=http%3A%2F%2Fm&profile_id={id}&api_password=pass");
    assert_eq!(
        out,
        [
            "#EXTM3U".to_string(),
            "#EXT-X-VERSION:6".to_string(),
            format!("#EXT-X-MEDIA:TYPE=AUDIO,GROUP-ID=\"audio\",NAME=\"Audio en-GB (32)\",DEFAULT=YES,AUTOSELECT=YES,LANGUAGE=\"en-GB\",URI=\"{}\"", url("b")),
            format!("#EXT-X-MEDIA:TYPE=AUDIO,GROUP-ID=\"audio\",NAME=\"Audio de (64)\",DEFAULT=NO,AUTOSELECT=NO,LANGUAGE=\"de\",URI=\"{}\"", url("a")),
            "#EXT-X-STREAM-INF:BANDWIDTH=200,RESOLUTION=10x1080,CODECS=\"c,mp4a\",FRAME-RATE=25.000,AUDIO=\"audio\"".to_string(),
            url("w"),
            "#EXT-X-STREAM-INF:BANDWIDTH=100,RESOLUTION=10x720,CODECS=\"c,mp4a\",FRAME-RATE=25.000,AUDIO=\"audio\"".to_string(),
            url("v"),
        ]
        .join("\n")
    );
}

fn heights(p: &ParsedMpd, params: &MpdProxyParams) -> Vec<u32> {
    build_hls_master(p, "http://p", "http://m", params)
        .lines()
        .filter(|l| l.starts_with("#EXT-X-STREAM-INF"))
        .map(|l| {
            let r = l.split("RESOLUTION=10x").nth(1).unwrap();
            r.split(',').next().unwrap().parse().unwrap()
        })
        .collect()
}

#[test]
fn master_playlist_selects_variants() {
    let mut v: Vec<MpdProfile> = Vec::new();
    for (i, h) in [144, 240, 360, 480, 720, 1080, 1080].iter().enumerate() {
        v.push(profile(&format!("v{i}"), "video/mp4", 100 * (i as u64 + 1), *h));
    }
    let p = parsed(false, v);
    assert_eq!(heights(&p, &params()), vec![1080, 720, 480, 360, 240]);
    let mut q = params();
    q.resolution = s("500p");
    assert_eq!(heights(&p, &q), vec![480]);
    q.resolution = s("100p");
    assert_eq!(heights(&p, &q), vec![144]);
    q.resolution = s("nonsense");
    assert_eq!(heights(&p, &q), vec![1080]);
    let mut q = params();
    q.remux_to_ts = true;
    assert_eq!(heights(&p, &q), vec![1080]);
    let out = build_hls_master(&p, "http://p", "http://m", &q);
    assert!(out.starts_with("#EXTM3U\n#EXT-X-VERSION:3\n"));
    assert!(!out.contains("FRAME-RATE"));
}

#[test]
fn master_playlist_keeps_one_track_per_language() {
    let mut v = vec![];
    for (i, l) in ["fr", "fr", "de", "it", "es", "pt"].iter().enumerate() {
        let mut a = profile(&format!("a{i}"), "audio/mp4", 10 * (i as u64 + 1), 0);
        a.lang = s(l);
        v.push(a);
    }
    let p = parsed(false, v);
    let out = build_hls_master(&p, "http://p", "http://m", &params());
    let langs: Vec<&str> = out
        .lines()
        .filter_map(|l| l.split("LANGUAGE=\"").nth(1))
        .map(|l| l.split('"').next().unwrap())
        .collect();
    assert_eq!(langs, vec!["pt", "es", "it", "de"]);
}

#[test]
fn media_playlist_is_exact() {
    let mut p = profile("v", "video/mp4", 1, 1);
    p.init_range = s("0-9");
    let mut a = segment("http://c/1", 3, 4.0);
    a.program_date_time = s("2024-01-01T00:00:00Z");
    p.segments = vec![a, segment("http://c/2", 4, 3.2), segment("http://c/3", 5, 4.0)];
    let all = parsed(false, vec![p]);
    let v = matching_profiles(&all, "v").ok().unwrap();
    let skips = vec![false, true, false];
    let out = build_hls_media_playlist(&all, &v, "http://p", &params(), Some(&skips), None, None, 8);
    let seg = |n: u32| format!("http://p/proxy/mpd/segment.mp4?init_url=http%3A%2F%2Fc%2Fi&segment_url=http%3A%2F%2Fc%2F{n}&mime_type=video%2Fmp4&is_live=false&api_password=pass&use_map=true&init_range=0-9");
    assert_eq!(
        out,
        [
            "#EXTM3U".to_string(),
            "#EXT-X-VERSION:6".to_string(),
            "#EXT-X-TARGETDURATION:4".to_string(),
            "#EXT-X-MEDIA-SEQUENCE:3".to_string(),
            "#EXT-X-PLAYLIST-TYPE:VOD".to_string(),
            "#EXT-X-MAP:URI=\"http://p/proxy/mpd/init?init_url=http%3A%2F%2Fc%2Fi&mime_type=video%2Fmp4&api_password=pass&init_range=0-9\"".to_string(),
            "#EXT-X-PROGRAM-DATE-TIME:2024-01-01T00:00:00Z".to_string(),
            "#EXTINF:4.000,".to_string(),
            seg(1),
            "#EXT-X-DISCONTINUITY".to_string(),
            "#EXTINF:4.000,".to_string(),
            seg(3),
            "#EXT-X-ENDLIST".to_string(),
        ]
        .join("\n")
    );
}

#[test]
fn live_playlist_merges_periods_and_trims() {
    let mut a = profile("v", "video/mp4", 1, 1);
    a.segments = (1..=10).map(|i| segment("http://c/a", i, 2.0)).collect();
    let mut b = profile("v", "video/mp4", 1, 1);
    b.init_url = s("http://c/j");
    b.segments = (11..=20).map(|i| segment("http://c/b", i, 2.5)).collect();
    let all = parsed(true, vec![a, b]);
    let v = matching_profiles(&all, "v").ok().unwrap();
    assert_eq!(v.len(), 2);
    assert_eq!(duration_keys(&v).len(), 20);
    assert_eq!(f64::from_bits(median(&duration_keys(&v)).unwrap()), 2.5);
    let out = build_hls_media_playlist(&all, &v, "http://p", &params(), None, None, None, 8);
    assert_eq!(out.matches("#EXTINF").count(), 15);
    assert!(out.contains("#EXT-X-START:TIME-OFFSET=-30.0,PRECISE=YES"));
    assert!(out.contains("#EXT-X-MEDIA-SEQUENCE:6"));
    assert!(out.contains("#EXT-X-TARGETDURATION:3"));
    assert_eq!(out.matches("#EXT-X-DISCONTINUITY").count(), 1);
    assert_eq!(out.matches("#EXT-X-MAP").count(), 2);
    assert!(!out.contains("ENDLIST"));
    let mut q = params();
    q.remux_to_ts = true;
    let out = build_hls_media_playlist(&all, &v, "http://p", &q, None, Some("-6.0"), Some(3), 8);
    assert!(out.contains("#EXT-X-START:TIME-OFFSET=-6.0,PRECISE=NO"));
    assert!(out.contains("#EXT-X-TARGETDURATION:4"));
    assert!(!out.contains("#EXT-X-MAP"));
    assert_eq!(out.matches("#EXTINF").count(), 20);
}

#[test]
fn empty_playlists_and_unknown_profiles() {
    let all = parsed(false, vec![profile("v", "video/mp4", 1, 1)]);
    let v = matching_profiles(&all, "v").ok().unwrap();
    assert_eq!(
        build_hls_media_playlist(&all, &v, "http://p", &params(), None, None, None, 8),
        "#EXTM3U\n#EXT-X-VERSION:6"
    );
    match matching_profiles(&all, "x") {
        Err(AppError::Mpd(m)) => assert_eq!(m, "Profile x not found in MPD"),
        _ => panic!("found"),
    }
}

fn sidx(version: u8, refs: &[(u32, u32)]) -> Vec<u8> {
    let mut body = vec![version, 0, 0, 0, 0, 0, 0, 1];
    body.extend(1000u32.to_be_bytes());
    if version == 0 {
        body.extend(0u32.to_be_bytes());
        body.extend(10u32.to_be_bytes());
    } else {
        body.extend(0u64.to_be_bytes());
        body.extend(10u64.to_be_bytes());
    }
    body.extend([0, 0]);
    body.extend((refs.len() as u16).to_be_bytes());
    for (size, duration) in refs {
        body.extend(size.to_be_bytes());
        body.extend(duration.to_be_bytes());
        body.extend([0; 4]);
    }
    let mut out = ((body.len() + 8) as u32).to_be_bytes().to_vec();
    out.extend(b"sidx");
    out.extend(body);
    out
}

#[test]
fn segment_indexes_are_read() {
    for version in [0u8, 1] {
        let mut data = vec![0, 0, 0, 12];
        data.extend(b"stypabcd");
        let b = sidx(version, &[(100, 2000), (0x8000_0032, 1), (50, 1000)]);
        let end = 500 + 12 + b.len() as u64 + 10;
        data.extend(b);
        let f = parse_sidx_fragments(&data, 500);
        assert_eq!(f.len(), 2);
        assert_eq!((f[0].start, f[0].end), (end, end + 99));
        assert_eq!((f[1].start, f[1].end), (end + 150, end + 199));
        assert_eq!((f[0].duration_timescale, f[0].timescale), (2000, 1000));
    }
    assert!(parse_sidx_fragments(b"", 0).is_empty());
    assert!(parse_sidx_fragments(&[0, 0, 0, 4, 115, 105, 100, 120], 0).is_empty());
    assert!(parse_sidx_fragments(&sidx(0, &[(1, 1)]), u64::MAX - 5).is_empty());
    let mut cut = sidx(0, &[(100, 1), (100, 1)]);
    cut.truncate(cut.len() - 1);
    assert_eq!(parse_sidx_fragments(&cut, 0).len(), 1);
}

#[test]
fn single_files_are_cut_into_fragments() {
    let mut p = profile("v", "video/mp4", 1, 1);
    let mut whole = segment("http://c/f", 1, 60.0);
    whole.index_range = s("40-90");
    whole.init_range = s("0-39");
    p.segments = vec![whole];
    let plan = plan_sidx(&p).unwrap();
    assert_eq!((plan.media.as_str(), plan.index_range.as_str(), plan.start), ("http://c/f", "40-90", 40));
    let f = parse_sidx_fragments(&sidx(0, &[(100, 2000), (50, 1000)]), 40);
    let e = vec![extinf(2.0), extinf(1.0)];
    expand_segment_base_segments(&mut p, &f, &e);
    assert_eq!(p.segments.len(), 2);
    assert_eq!(p.segments[1].number, 2);
    assert_eq!(
        p.segments[0].media_range,
        Some(format!("{}-{}", f[0].start, f[0].end))
    );
    assert_eq!(p.segments[0].init_range.as_deref(), Some("0-39"));
    assert!(plan_sidx(&p).is_none());
}

fn query(pairs: &[(&str, &str)]) -> StringMap {
    let mut m = StringMap::new();
    for (k, v) in pairs {
        m.insert(k, v);
    }
    m
}

#[test]
fn keys_may_come_in_pairs() {
    let data = ProxyData {
        destination: String::new(),
        query_params: None,
        request_headers: Some(query(&[("referer", "r")])),
        response_headers: None,
        exp: None,
        ip: None,
    };
    let mut c = Config::default();
    c.mpd.remux_to_ts = true;
    let p = build_proxy_params(&data, &query(&[("key", "k1:v1,k2:v2:x")]), &c);
    assert_eq!(p.key_id.as_deref(), Some("k1,k2"));
    assert_eq!(p.key.as_deref(), Some("v1,v2:x"));
    assert!(p.remux_to_ts);
    assert_eq!(p.pass_headers.get("referer"), Some("r"));
    let p = build_proxy_params(&data, &query(&[("key", "a:b,c"), ("remux_to_ts", "0")]), &c);
    assert_eq!((p.key_id, p.key.as_deref()), (None, Some("a:b,c")));
    assert!(!p.remux_to_ts);
    let p = build_proxy_params(&data, &query(&[("key", "a:b"), ("key_id", "z")]), &c);
    assert_eq!((p.key_id.as_deref(), p.key.as_deref()), (Some("z"), Some("a:b")));
}

#[test]
fn segment_requests() {
    let q = query(&[("init_url", "i"), ("segment_url", "g"), ("use_map", "1"), ("key_id", "k"), ("key", "v")]);
    let r = segment_request(&q).ok().unwrap();
    assert!(r.use_map && r.mode == SegmentMode::Decrypt);
    assert_eq!(r.init.keys, Some(("k".to_string(), "v".to_string())));
    assert_eq!(r.init.content_type, "video/mp4");
    let q = query(&[("init_url", "i"), ("segment_url", "g"), ("key_id", "k"), ("key", "v"), ("segment_range", "1-")]);
    assert!(segment_request(&q).ok().unwrap().mode == SegmentMode::DecryptStream);
    let q = query(&[("init_url", "i"), ("segment_url", "g"), ("key", "v"), ("segment_range", "")]);
    let r = segment_request(&q).ok().unwrap();
    assert!(r.mode == SegmentMode::Plain && r.segment_range.is_none());
    assert!(matches!(segment_request(&query(&[])), Err(AppError::BadRequest(m)) if m == "Missing init_url"));
    assert!(matches!(segment_request(&query(&[("init_url", "i")])), Err(AppError::BadRequest(m)) if m == "Missing segment_url"));
    assert!(matches!(init_request(&query(&[])), Err(AppError::BadRequest(_))));
    assert!(matches!(playlist_profile(&query(&[])), Err(AppError::BadRequest(m)) if m == "Missing profile_id"));
    assert_eq!(playlist_profile(&query(&[("profile_id", "x")])).unwrap(), "x");
    assert_eq!(range_header("0-9"), "bytes=0-9");
    assert_eq!(mime_type_to_content_type("video/mp2t", &query(&[])), "video/mp2t");
    assert_eq!(mime_type_to_content_type("audio/mp4", &query(&[])), "video/mp4");
    assert_eq!(mime_type_to_content_type("audio/mp4", &query(&[("remux_to_ts", "true")])), "video/mp2t");
    assert_eq!(plain_segment_body(vec![1], vec![2], true), vec![2]);
    assert_eq!(plain_segment_body(vec![1], vec![2], false), vec![1, 2]);
}
