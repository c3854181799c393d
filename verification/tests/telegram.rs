use base64::Engine;
use mediaflow_proxy::config::TelegramConfig;
use mediaflow_proxy::error::AppError;
use mediaflow_proxy::string_map::StringMap;
use mediaflow_proxy::telegram::handler::{
    check_configured, media_info, parse_range, plan_lookup, settle_lookup, status_word,
    stream_params, stream_reply, Lookup, MediaFile, MediaParams,
};
use mediaflow_proxy::telegram::media_ref::{
    decode_file_id, parse_telegram_url, TelegramChat, TelegramMediaRef,
};
use mediaflow_proxy::telegram::session::{
    access_hash_of, align_up, chunk_step, extract_doc_info_from_msgs,
    extract_file_location_from_msgs, home_dc, parse_telethon_session, plan_peer,
    uses_home_connection, ChannelCache, ChatMessage, ChunkAction, ChunkEvent, FreshFileLocation,
    HistoryScan, MessageDocument, PeerPlan, RangeStream, ScanAction, ScanEvent,
    TelegramSessionManager, VideoInfo,
};

fn query(pairs: &[(&str, &str)]) -> StringMap {
    let mut m = StringMap::new();
    for (k, v) in pairs {
        m.insert(k, v);
    }
    m
}

fn message(id: i32, doc: Option<i64>) -> ChatMessage {
    ChatMessage {
        id: Some(id),
        document: doc.map(|d| MessageDocument {
            id: d,
            access_hash: d + 1,
            file_reference: vec![1, 2],
            dc_id: 4,
            size: 100,
            mime_type: "video/mp4".to_string(),
            names: vec![None, Some("a.mp4".to_string()), Some("b.mp4".to_string())],
            videos: vec![
                None,
                None,
                Some(VideoInfo {
                    duration: 90,
                    width: 1920,
                    height: 1080,
                }),
            ],
        }),
    }
}

fn location() -> FreshFileLocation {
    FreshFileLocation {
        document_id: 5,
        access_hash: 6,
        file_reference: vec![7],
        dc_id: 2,
        file_size: 1000,
        mime_type: "video/x-matroska".to_string(),
        file_name: Some("m.mkv".to_string()),
        video: None,
    }
}

/// A file identifier of version 4 with a file reference of three bytes.
fn file_id() -> String {
    let mut raw: Vec<u8> = Vec::new();
    raw.extend_from_slice(&(5i32 | 1 << 25).to_le_bytes());
    raw.extend_from_slice(&4i32.to_le_bytes());
    raw.extend_from_slice(&[3, 9, 8, 7]);
    raw.extend_from_slice(&(-77i64).to_le_bytes());
    raw.extend_from_slice(&1234567890123i64.to_le_bytes());
    raw.extend_from_slice(&[30, 4]);
    let mut packed: Vec<u8> = Vec::new();
    let mut i = 0;
    while i < raw.len() {
        if raw[i] == 0 {
            let mut n = 0u8;
            while i < raw.len() && raw[i] == 0 {
                n += 1;
                i += 1;
            }
            packed.extend_from_slice(&[0, n]);
        } else {
            packed.push(raw[i]);
            i += 1;
        }
    }
    base64::engine::general_purpose::URL_SAFE_NO_PAD.encode(packed)
}

#[test]
fn ranges_are_clamped_to_the_file() {
    assert_eq!(parse_range(None, 1000), (0, 999));
    assert_eq!(parse_range(Some("bytes=0-"), 1000), (0, 999));
    assert_eq!(parse_range(Some("bytes=100-199"), 1000), (100, 199));
    assert_eq!(parse_range(Some("bytes=100-99999"), 1000), (100, 999));
    assert_eq!(parse_range(Some("bytes=-10"), 1000), (990, 999));
    assert_eq!(parse_range(Some("bytes=-5000"), 1000), (0, 999));
    assert_eq!(parse_range(Some("bytes=-0"), 1000), (999, 999));
    assert_eq!(parse_range(Some("bytes=2000-"), 1000), (0, 999));
    assert_eq!(parse_range(Some("bytes=5-3"), 1000), (0, 999));
    assert_eq!(parse_range(Some("nonsense"), 1000), (0, 999));
    assert_eq!(parse_range(Some("7-9"), 1000), (7, 9));
    assert_eq!(parse_range(Some("bytes=x-y"), 1000), (0, 999));
    assert_eq!(parse_range(None, 0), (0, 0));
}

#[test]
fn links_are_read() {
    assert!(matches!(
        parse_telegram_url("https://t.me/channel/123"),
        Some(TelegramMediaRef::Message { chat: TelegramChat::Username(u), message_id: 123 }) if u == "channel"
    ));
    assert!(matches!(
        parse_telegram_url("https://t.me/c/123456789/456?single"),
        Some(TelegramMediaRef::Message { chat: TelegramChat::Id(123456789), message_id: 456 })
    ));
    assert!(parse_telegram_url("https://t.me/channel").is_none());
    assert!(parse_telegram_url("https://example.com/channel/1").is_none());
    assert!(parse_telegram_url("https://t.me/c/x/1").is_none());
}

#[test]
fn file_ids_are_decoded() {
    let d = decode_file_id(&file_id()).unwrap();
    assert_eq!(d.id, -77);
    assert_eq!(d.access_hash, 1234567890123);
    assert_eq!(d.dc_id, 4);
    assert_eq!(d.file_reference, vec![9, 8, 7]);
    assert!(decode_file_id("***").is_none());
    assert!(decode_file_id("AQID").is_none());
}

#[test]
fn the_link_takes_priority() {
    let p = stream_params(&query(&[
        ("d", "https://t.me/c/55/66"),
        ("chat_id", "@other"),
        ("message_id", "1"),
        ("file_size", "10"),
    ]))
    .ok()
    .unwrap();
    assert_eq!(p.chat_id.as_deref(), Some("-10055"));
    assert_eq!(p.message_id, Some(66));
    assert_eq!(p.file_size, Some(10));
    let p = stream_params(&query(&[("chat_id", "@c"), ("message_id", "x"), ("document_id", "-9")]))
        .ok()
        .unwrap();
    assert_eq!(p.message_id, None);
    assert_eq!(p.document_id, Some(-9));
    match stream_params(&query(&[("url", "bad")])) {
        Err(AppError::BadRequest(m)) => assert_eq!(m, "Cannot parse Telegram URL: bad"),
        _ => panic!("accepted"),
    }
}

fn params(chat: bool, msg: bool, doc: bool, file: bool, size: Option<u64>) -> MediaParams {
    MediaParams {
        chat_id: chat.then_some("c".to_string()),
        message_id: msg.then_some(3),
        document_id: doc.then_some(4),
        file_id: file.then_some(file_id()),
        file_size: size,
    }
}

fn bad_request(r: Result<Lookup, AppError>) -> String {
    match r {
        Err(AppError::BadRequest(m)) => m,
        _ => panic!("expected a bad request"),
    }
}

#[test]
fn lookups_are_chosen_in_order() {
    assert!(matches!(
        plan_lookup(params(true, true, true, true, None)),
        Ok(Lookup::Message { message_id: 3, .. })
    ));
    assert!(matches!(
        plan_lookup(params(true, false, true, true, None)),
        Ok(Lookup::History { document_id: 4, .. })
    ));
    assert!(matches!(
        plan_lookup(params(true, false, false, true, None)),
        Ok(Lookup::HistoryOrFile { file_size: None, .. })
    ));
    assert!(matches!(
        plan_lookup(params(false, true, true, true, Some(9))),
        Ok(Lookup::Direct { file_size: 9, .. })
    ));
    assert_eq!(
        bad_request(plan_lookup(params(false, false, false, true, None))),
        "file_size is required when using file_id without chat_id"
    );
    assert_eq!(
        bad_request(plan_lookup(params(false, false, false, true, Some(0)))),
        "file_size must be > 0"
    );
    assert!(bad_request(plan_lookup(params(true, false, false, false, None)))
        .starts_with("No resolvable parameters provided."));
    let mut p = params(true, false, false, true, None);
    p.file_id = Some("*".to_string());
    assert_eq!(bad_request(plan_lookup(p)), "Cannot decode file_id");
}

#[test]
fn lookups_are_settled() {
    let l = plan_lookup(params(true, true, false, false, None)).ok().unwrap();
    match settle_lookup(l, None) {
        Err(AppError::NotFound(m)) => assert_eq!(m, "No document found in message_id=3 chat=c"),
        _ => panic!("found"),
    }
    let l = plan_lookup(params(true, false, true, false, None)).ok().unwrap();
    match settle_lookup(l, None) {
        Err(AppError::NotFound(m)) => assert_eq!(m, "document_id=4 not found in chat=c"),
        _ => panic!("found"),
    }
    let l = plan_lookup(params(true, false, false, true, None)).ok().unwrap();
    match settle_lookup(l, None) {
        Err(AppError::BadRequest(m)) => assert_eq!(
            m,
            "document not found in chat history and file_size not provided for file_id fallback"
        ),
        _ => panic!("found"),
    }
    let l = plan_lookup(params(true, false, false, true, Some(0))).ok().unwrap();
    assert!(matches!(settle_lookup(l, None), Err(AppError::BadRequest(_))));
    let l = plan_lookup(params(true, false, false, true, Some(50))).ok().unwrap();
    let f = settle_lookup(l, None).ok().unwrap();
    assert_eq!((f.document_id, f.file_size, f.dc_id), (-77, 50, 4));
    let l = plan_lookup(params(true, false, false, true, Some(50))).ok().unwrap();
    let f = settle_lookup(l, Some(location())).ok().unwrap();
    assert_eq!((f.document_id, f.file_size), (5, 1000));
}

fn media_file(mime: Option<&str>, name: Option<&str>) -> MediaFile {
    MediaFile {
        document_id: 1,
        access_hash: 2,
        file_reference: vec![],
        dc_id: 2,
        file_size: 1000,
        mime_type: mime.map(String::from),
        file_name: name.map(String::from),
        video: None,
    }
}

#[test]
fn replies_report_their_range() {
    let r = stream_reply(&media_file(Some("a/b"), None), None, Some("bytes=10-19"));
    assert_eq!((r.status, r.start, r.end, r.content_length), (206, 10, 19, 10));
    assert_eq!(r.content_range.as_deref(), Some("bytes 10-19/1000"));
    assert_eq!(r.content_type, "a/b");
    let r = stream_reply(&media_file(None, Some("x.mp4")), Some("y.webm"), None);
    assert_eq!((r.status, r.content_length), (200, 1000));
    assert_eq!(r.content_range, None);
    assert_eq!(r.content_type, "video/mp4");
    let r = stream_reply(&media_file(None, None), Some("y.webm"), None);
    assert_eq!(r.content_type, "video/webm");
    let r = stream_reply(&media_file(None, None), None, None);
    assert_eq!(r.content_type, "video/x-matroska");
    let r = stream_reply(&media_file(None, Some("noextension")), None, None);
    assert_eq!(r.content_type, "application/octet-stream");
}

#[test]
fn configuration_and_status() {
    let mut c = TelegramConfig::default();
    assert!(matches!(check_configured(&c), Err(AppError::Telegram(_))));
    assert!(!TelegramSessionManager::is_configured(&c));
    c.api_id = -1;
    c.api_hash = "h".to_string();
    c.session_string = "s".to_string();
    assert!(check_configured(&c).is_ok());
    assert!(!TelegramSessionManager::is_configured(&c));
    c.api_id = 1;
    assert!(TelegramSessionManager::is_configured(&c));
    let m = TelegramSessionManager::new("telegram.session");
    assert_eq!(m.session_file, "telegram.session");
    assert!(!m.is_connected && !m.is_authorized(None) && m.is_authorized(Some(true)));
    assert_eq!(status_word(false, true), "disabled");
    assert_eq!(status_word(true, true), "connected");
    assert_eq!(status_word(true, false), "not_connected");
}

#[test]
fn info_tells_of_the_file() {
    let l = extract_doc_info_from_msgs(&vec![message(1, Some(5))], 5);
    let lookup = plan_lookup(params(true, false, true, false, None)).ok().unwrap();
    let i = media_info(&settle_lookup(lookup, l).ok().unwrap());
    assert_eq!((i.file_size, i.dc_id), (100, 4));
    assert_eq!(i.mime_type, "video/mp4");
    assert_eq!(i.file_name.as_deref(), Some("a.mp4"));
    assert_eq!((i.duration, i.width, i.height), (Some(90), Some(1920), Some(1080)));
    let i = media_info(&media_file(None, Some("x.webm")));
    assert_eq!(i.mime_type, "video/webm");
    assert_eq!((i.duration, i.width, i.height), (None, None, None));
}

#[test]
fn private_links_reach_their_channel() {
    let p = stream_params(&query(&[("d", "https://t.me/c/1234567890/42")])).ok().unwrap();
    assert_eq!(p.chat_id.as_deref(), Some("-1001234567890"));
    assert!(matches!(
        plan_peer(p.chat_id.as_deref().unwrap()),
        Some(PeerPlan::Channel(1234567890))
    ));
}

#[test]
fn private_links_of_other_lengths() {
    let peer = |id: &str| {
        let link = format!("https://t.me/c/{id}/42");
        let p = stream_params(&query(&[("d", link.as_str())])).ok().unwrap();
        plan_peer(p.chat_id.as_deref().unwrap())
    };
    assert!(matches!(peer("1000000"), Some(PeerPlan::Channel(1000000))));
    assert!(matches!(peer("9999999999999999"), Some(PeerPlan::Channel(9999999999999999))));
    assert!(matches!(peer("999999"), Some(PeerPlan::Chat(100999999))));
    assert!(matches!(
        peer("10000000000000000"),
        Some(PeerPlan::Username(u)) if u == "-10010000000000000000"
    ));
}

#[test]
fn session_strings_are_read() {
    let mut raw = vec![2u8, 149, 154, 167, 51, 1, 187];
    raw.extend((0..256).map(|i| i as u8));
    let bare = format!("1{}", base64::engine::general_purpose::URL_SAFE_NO_PAD.encode(&raw));
    let padded = format!("1{}", base64::engine::general_purpose::URL_SAFE.encode(&raw));
    assert_ne!(bare, padded);
    for s in [&bare, &padded] {
        let t = parse_telethon_session(s).unwrap();
        assert_eq!((t.dc_id, t.port), (2, 443));
        assert_eq!(t.ip, vec![149, 154, 167, 51]);
        assert_eq!(t.auth_key.len(), 256);
        assert_eq!(t.auth_key[255], 255);
        assert_eq!(home_dc(s), 2);
    }
    assert!(parse_telethon_session(&bare[1..]).is_none());
    assert!(parse_telethon_session("1AAAA").is_none());
    assert_eq!(home_dc(""), -1);
    assert!(uses_home_connection(2, 2) && !uses_home_connection(2, -1));
}

#[test]
fn peers_are_told_apart() {
    assert!(matches!(plan_peer("-1001234567890"), Some(PeerPlan::Channel(1234567890))));
    assert!(matches!(plan_peer("-123456"), Some(PeerPlan::Chat(123456))));
    assert!(matches!(plan_peer("777"), Some(PeerPlan::User(777))));
    assert!(matches!(plan_peer("@name"), Some(PeerPlan::Username(u)) if u == "name"));
    assert!(plan_peer("-9223372036854775808").is_none());
    assert_eq!(access_hash_of(&vec![(1, Some(10)), (2, None), (2, Some(20)), (2, Some(30))], 2), 20);
    assert_eq!(access_hash_of(&vec![(1, Some(10))], 3), 0);
}

#[test]
fn channel_hashes_are_cached() {
    let mut c = ChannelCache::new();
    assert_eq!(c.get(5), None);
    assert_eq!(c.absorb(&vec![(5, Some(50)), (6, None), (7, Some(70)), (5, Some(51))], 5), Some(51));
    assert_eq!(c.get(5), Some(51));
    assert_eq!(c.get(6), None);
    assert_eq!(c.absorb(&vec![(8, Some(80))], 9), None);
    assert_eq!(c.get(7), Some(70));
}

#[test]
fn documents_are_found_in_messages() {
    let ms = vec![message(10, None), message(11, Some(5)), message(12, Some(6))];
    let l = extract_doc_info_from_msgs(&ms, 6).unwrap();
    assert_eq!((l.document_id, l.access_hash, l.dc_id, l.file_size), (6, 7, 4, 100));
    assert_eq!(l.file_name.as_deref(), Some("a.mp4"));
    assert_eq!(extract_file_location_from_msgs(&ms).unwrap().document_id, 5);
    assert!(extract_doc_info_from_msgs(&ms, 9).is_none());
}

fn page(first: i32, n: i32) -> Vec<ChatMessage> {
    (0..n).map(|i| message(first - i, None)).collect()
}

#[test]
fn history_scans_page_backwards() {
    let (mut s, a) = HistoryScan::start(9, None, 200);
    assert!(matches!(a, ScanAction::Ask { delay_ms: 0, offset_id: 0 }));
    assert_eq!(s.messages_left, 200);
    assert!(matches!(
        s.step(ScanEvent::Page(page(500, 100))),
        ScanAction::Ask { delay_ms: 0, offset_id: 401 }
    ));
    assert!(matches!(s.step(ScanEvent::Page(page(400, 100))), ScanAction::NotFound));
    let (mut s, _) = HistoryScan::start(9, None, 200);
    assert!(matches!(s.step(ScanEvent::Page(page(50, 99))), ScanAction::NotFound));
    let (mut s, _) = HistoryScan::start(9, None, 150);
    let mut ms = page(500, 100);
    ms.push(message(1, Some(9)));
    assert!(matches!(s.step(ScanEvent::Page(ms)), ScanAction::Found(l) if l.document_id == 9));
    assert!(matches!(HistoryScan::start(9, None, 0).1, ScanAction::NotFound));
}

#[test]
fn history_scans_stop_at_their_limit() {
    let last_page = |at: usize| {
        let mut ms = page(400, 100);
        ms[at] = message(400 - at as i32, Some(9));
        ms
    };
    let (mut s, _) = HistoryScan::start(9, None, 150);
    assert!(matches!(s.step(ScanEvent::Page(page(500, 100))), ScanAction::Ask { .. }));
    assert_eq!(s.messages_left, 50);
    assert!(matches!(s.step(ScanEvent::Page(last_page(60))), ScanAction::NotFound));
    let (mut s, _) = HistoryScan::start(9, None, 150);
    s.step(ScanEvent::Page(page(500, 100)));
    assert!(matches!(s.step(ScanEvent::Page(last_page(49))), ScanAction::Found(_)));
}

#[test]
fn history_scans_retry_three_times() {
    let (mut s, _) = HistoryScan::start(9, None, 200);
    for want in [600, 1200, 2400] {
        match s.step(ScanEvent::Disconnected) {
            ScanAction::Ask { delay_ms, offset_id: 0 } => assert_eq!(delay_ms, want),
            _ => panic!("gave up"),
        }
    }
    assert!(matches!(s.step(ScanEvent::Disconnected), ScanAction::NotFound));
    let (mut s, _) = HistoryScan::start(9, None, 200);
    assert!(matches!(s.step(ScanEvent::Failed), ScanAction::NotFound));
    assert!(matches!(s.step(ScanEvent::NotModified), ScanAction::NotFound));
}

#[test]
fn history_scans_look_at_a_known_message_first() {
    let (mut s, a) = HistoryScan::start(9, Some(44), 100);
    assert!(matches!(a, ScanAction::AskMessage(44)));
    assert!(matches!(
        s.step(ScanEvent::Page(vec![message(44, Some(9))])),
        ScanAction::Found(l) if l.document_id == 9
    ));
    let (mut s, _) = HistoryScan::start(9, Some(44), 100);
    assert!(matches!(
        s.step(ScanEvent::Failed),
        ScanAction::Ask { delay_ms: 0, offset_id: 0 }
    ));
    assert!(matches!(s.step(ScanEvent::Page(page(500, 100))), ScanAction::NotFound));
    let (mut s, _) = HistoryScan::start(9, Some(44), 0);
    assert!(matches!(s.step(ScanEvent::Page(vec![])), ScanAction::NotFound));
}

#[test]
fn chunks_reconnect_six_times() {
    let mut n = 0u32;
    for _ in 0..6 {
        assert!(matches!(
            chunk_step(&mut n, 7, ChunkEvent::Dropped),
            ChunkAction::Reconnect { delay_ms: 1500 }
        ));
    }
    match chunk_step(&mut n, 7, ChunkEvent::Dropped) {
        ChunkAction::Fail(AppError::Telegram(m)) => {
            assert_eq!(m, "Too many DC reconnects (6) at offset 7")
        }
        _ => panic!("reconnects"),
    }
    assert!(matches!(chunk_step(&mut n, 7, ChunkEvent::File(vec![])), ChunkAction::Done(None)));
    assert!(matches!(
        chunk_step(&mut n, 7, ChunkEvent::File(vec![1])),
        ChunkAction::Done(Some(b)) if b == vec![1]
    ));
    assert!(matches!(
        chunk_step(&mut n, 7, ChunkEvent::CdnRedirect),
        ChunkAction::Fail(AppError::Telegram(m)) if m == "CDN redirect not supported"
    ));
    assert!(matches!(
        chunk_step(&mut n, 7, ChunkEvent::Failed("x".to_string())),
        ChunkAction::Fail(AppError::Telegram(m)) if m == "x"
    ));
    assert_eq!(n, 6);
}

#[test]
fn streams_emit_exactly_their_range() {
    const CHUNK: usize = 524288;
    let file: Vec<u8> = (0..CHUNK * 2 + 100).map(|i| (i % 251) as u8).collect();
    for (start, end) in [
        (0usize, 0usize),
        (5, 10),
        (CHUNK - 1, CHUNK),
        (CHUNK, CHUNK * 2 + 99),
        (3, CHUNK * 2 + 50),
    ] {
        let mut s = RangeStream::new(start as u64, end as u64);
        let mut out: Vec<u8> = Vec::new();
        while let Some(o) = s.next_offset() {
            let o = o as usize;
            let chunk = file[o..file.len().min(o + CHUNK)].to_vec();
            let (part, done) = s.accept(&chunk);
            out.extend(part);
            if done {
                break;
            }
        }
        assert_eq!(out, file[start..=end].to_vec());
    }
}

#[test]
fn alignment_rounds_up() {
    assert_eq!(align_up(0, 4096), 0);
    assert_eq!(align_up(1, 4096), 4096);
    assert_eq!(align_up(4096, 4096), 4096);
    assert_eq!(align_up(-5, 4), -4);
}
