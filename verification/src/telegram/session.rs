//! Telegram sessions, peers, history scans and ranged downloads.
//!
//! The network client is outside the library: it performs the actions that the
//! state machines here ask for and hands back what came of them.

use vstd::prelude::*;

use crate::codec::{
    base64url_decode_exact, base64url_decode_padded, base64url_decoded, base64url_padded_decoded,
};
use crate::config::TelegramConfig;
use crate::error::{AppError, AppErrorView};
use crate::text::{
    all_digits, begins, chars, copy_opt, decimal, decimal_text, magnitude, opt_text, parse_i64,
    parse_signed, parse_unsigned, strip_prefix, strip_prefix_text, trim_start_char, trim_start_of,
};

verus! {

// ---------------------------------------------------------------------------
// Session strings
// ---------------------------------------------------------------------------

/// What a session string holds.
pub struct TelethonSession {
    /// The data centre.
    pub dc_id: i32,
    /// Its IPv4 address, four octets.
    pub ip: Vec<u8>,
    pub port: u16,
    /// The authorization key, 256 bytes.
    pub auth_key: Vec<u8>,
}

/// What a session string holds, by its bytes.
pub struct SessionView {
    pub dc_id: int,
    pub ip: Seq<u8>,
    pub port: int,
    pub auth_key: Seq<u8>,
}

impl View for TelethonSession {
    type V = SessionView;

    open spec fn view(&self) -> SessionView {
        SessionView {
            dc_id: self.dc_id as int,
            ip: self.ip@,
            port: self.port as int,
            auth_key: self.auth_key@,
        }
    }
}

/// The view of an optional session.
pub open spec fn opt_session(s: Option<TelethonSession>) -> Option<SessionView> {
    match s {
        Some(s) => Some(s@),
        None => None,
    }
}

/// The bytes of a base64 text, without padding or else with it.
pub open spec fn either_decoded(s: Seq<char>) -> Option<Seq<u8>> {
    match base64url_decoded(s) {
        Ok(b) => Some(b),
        Err(_) => base64url_padded_decoded(s),
    }
}

/// The session of a byte string: data centre, address, port (most significant
/// byte first) and key.
pub open spec fn session_of_bytes(b: Seq<u8>) -> Option<SessionView> {
    if b.len() < 263 {
        None
    } else {
        Some(
            SessionView {
                dc_id: b[0] as int,
                ip: b.subrange(1, 5),
                port: b[5] * 256 + b[6],
                auth_key: b.subrange(7, 263),
            },
        )
    }
}

/// The session of a session string: `1` and a base64 text.
pub open spec fn session_of(s: Seq<char>) -> Option<SessionView> {
    match strip_prefix_text(s, "1"@) {
        None => None,
        Some(rest) => match either_decoded(rest) {
            None => None,
            Some(b) => session_of_bytes(b),
        },
    }
}

/// A part of a byte string.
fn byte_range(b: &Vec<u8>, from: usize, to: usize) -> (r: Vec<u8>)
    requires
        from <= to <= b.len(),
    ensures
        r@ == b@.subrange(from as int, to as int),
{
    let mut r: Vec<u8> = Vec::new();
    let mut i: usize = from;
    while i < to
        invariant
            from <= i <= to <= b.len(),
            r@ == b@.subrange(from as int, i as int),
        decreases to - i,
    {
        r.push(b[i]);
        i += 1;
        assert(r@ =~= b@.subrange(from as int, i as int));
    }
    r
}

/// Reads a Telethon session string.
pub fn parse_telethon_session(s: &str) -> (r: Option<TelethonSession>)
    ensures
        opt_session(r) == session_of(s@),
{
    let rest = match strip_prefix(s, "1") {
        Some(rest) => rest,
        None => {
            return None;
        },
    };
    let data = match base64url_decode_exact(rest.as_str()) {
        Ok(b) => b,
        Err(_) => match base64url_decode_padded(rest.as_str()) {
            Some(b) => b,
            None => {
                return None;
            },
        },
    };
    if data.len() < 263 {
        return None;
    }
    Some(
        TelethonSession {
            dc_id: data[0] as i32,
            ip: byte_range(&data, 1, 5),
            port: data[5] as u16 * 256 + data[6] as u16,
            auth_key: byte_range(&data, 7, 263),
        },
    )
}

/// The data centre of a session string, or -1 where it is none.
pub fn home_dc(s: &str) -> (r: i32)
    ensures
        r == match session_of(s@) {
            Some(v) => v.dc_id,
            None => -1,
        },
{
    match parse_telethon_session(s) {
        Some(v) => v.dc_id,
        None => -1,
    }
}

// ---------------------------------------------------------------------------
// Peers
// ---------------------------------------------------------------------------

/// Whom a chat name refers to.
pub enum PeerPlan {
    /// A channel or supergroup, by its number without the `-100` prefix; its
    /// access hash is still to be found.
    Channel(i64),
    /// A legacy group.
    Chat(i64),
    /// A user.
    User(i64),
    /// A name that is still to be resolved.
    Username(String),
}

/// Whom a chat name refers to, by its text.
pub enum PeerView {
    Channel(int),
    Chat(int),
    User(int),
    Username(Seq<char>),
}

impl View for PeerPlan {
    type V = PeerView;

    open spec fn view(&self) -> PeerView {
        match self {
            PeerPlan::Channel(id) => PeerView::Channel(*id as int),
            PeerPlan::Chat(id) => PeerView::Chat(*id as int),
            PeerPlan::User(id) => PeerView::User(*id as int),
            PeerPlan::Username(u) => PeerView::Username(u@),
        }
    }
}

/// The channel number behind a `-100` prefix, where the whole number is below
/// minus one billion.
pub open spec fn channel_number(s: Seq<char>, id: int) -> Option<int> {
    if id < -1_000_000_000 {
        match strip_prefix_text(s, "-100"@) {
            Some(rest) => magnitude(rest, i64::MAX as int),
            None => None,
        }
    } else {
        None
    }
}

/// Whom a chat name refers to: a number is a channel (`-100` and its number), a
/// legacy group (negative) or a user; all else is a name, with or without `@`.
/// The least number there is refers to nobody.
pub open spec fn peer_of(chat_id: Seq<char>) -> Option<PeerView> {
    let s = trim_start_char(chat_id, '@');
    match parse_signed(s, i64::MIN as int, i64::MAX as int) {
        Some(id) => if id == i64::MIN {
            None
        } else if id >= 0 {
            Some(PeerView::User(id))
        } else if channel_number(s, id) is Some {
            Some(PeerView::Channel(channel_number(s, id)->0))
        } else {
            Some(PeerView::Chat(-id))
        },
        None => Some(PeerView::Username(s)),
    }
}

/// The view of an optional peer.
pub open spec fn opt_peer(p: Option<PeerPlan>) -> Option<PeerView> {
    match p {
        Some(p) => Some(p@),
        None => None,
    }
}

/// A run of digits behind a sign is a number.
proof fn lemma_unsigned_digits(s: Seq<char>, max: int)
    ensures
        all_digits(s) ==> parse_unsigned(s, max) == magnitude(s, max),
{
    if s.len() > 0 && s[0] == '+' && all_digits(s) {
        assert(crate::text::is_digit(s[0]));
    }
}

/// Finds out whom a chat name refers to.
pub fn plan_peer(chat_id: &str) -> (r: Option<PeerPlan>)
    ensures
        opt_peer(r) == peer_of(chat_id@),
{
    let s = trim_start_of(chat_id, '@');
    match parse_i64(s.as_str()) {
        Some(id) => if id == i64::MIN {
            None
        } else if id >= 0 {
            Some(PeerPlan::User(id))
        } else {
            if id < -1_000_000_000 {
                if let Some(rest) = strip_prefix(s.as_str(), "-100") {
                    proof {
                        reveal_strlit("-100");
                        let d = s@.skip(1);
                        assert(s@[0] == '-') by {
                            assert(s@.subrange(0, 4)[0] == '-');
                        }
                        assert(all_digits(d));
                        assert forall|i: int| 0 <= i < rest@.len() implies crate::text::is_digit(
                            #[trigger] rest@[i],
                        ) by {
                            assert(rest@[i] == d[i + 3]);
                        }
                        lemma_unsigned_digits(rest@, i64::MAX as int);
                    }
                    if let Some(n) = parse_i64(rest.as_str()) {
                        proof {
                            if rest@.len() > 0 {
                                assert(crate::text::is_digit(rest@[0]));
                            }
                        }
                        return Some(PeerPlan::Channel(n));
                    }
                    proof {
                        if rest@.len() > 0 {
                            assert(crate::text::is_digit(rest@[0]));
                        }
                    }
                }
            }
            Some(PeerPlan::Chat(-id))
        },
        None => Some(PeerPlan::Username(s)),
    }
}

/// The access hash of the first entry with an identity that has one, or 0.
pub open spec fn hash_of(entries: Seq<(i64, Option<i64>)>, id: i64, i: int) -> i64
    decreases entries.len() - i,
{
    if i < 0 || i >= entries.len() {
        0
    } else if entries[i].0 == id && entries[i].1 is Some {
        entries[i].1->0
    } else {
        hash_of(entries, id, i + 1)
    }
}

/// The access hash of an identity in a list of users or chats, or 0.
pub fn access_hash_of(entries: &Vec<(i64, Option<i64>)>, id: i64) -> (r: i64)
    ensures
        r == hash_of(entries@, id, 0),
{
    let mut i: usize = 0;
    while i < entries.len()
        invariant
            i <= entries.len(),
            hash_of(entries@, id, 0) == hash_of(entries@, id, i as int),
        decreases entries.len() - i,
    {
        if entries[i].0 == id {
            if let Some(h) = entries[i].1 {
                return h;
            }
        }
        i += 1;
    }
    0
}

/// A cache of channels' access hashes.
pub struct ChannelCache {
    hashes: std::collections::HashMap<i64, i64>,
}

/// What a cache holds after the first `n` channels of a list were put in.
pub open spec fn with_channels(
    m: Map<i64, i64>,
    channels: Seq<(i64, Option<i64>)>,
    n: int,
) -> Map<i64, i64>
    decreases n,
{
    if n <= 0 {
        m
    } else {
        let before = with_channels(m, channels, n - 1);
        match channels[n - 1].1 {
            Some(h) => before.insert(channels[n - 1].0, h),
            None => before,
        }
    }
}

/// The last access hash of a channel among the first `n` of a list.
pub open spec fn last_hash(channels: Seq<(i64, Option<i64>)>, id: i64, n: int) -> Option<i64>
    decreases n,
{
    if n <= 0 {
        None
    } else if channels[n - 1].0 == id && channels[n - 1].1 is Some {
        channels[n - 1].1
    } else {
        last_hash(channels, id, n - 1)
    }
}

impl View for ChannelCache {
    type V = Map<i64, i64>;

    closed spec fn view(&self) -> Map<i64, i64> {
        self.hashes@
    }
}

impl ChannelCache {
    /// An empty cache.
    pub fn new() -> (r: Self)
        ensures
            r@ == Map::<i64, i64>::empty(),
    {
        ChannelCache { hashes: std::collections::HashMap::new() }
    }

    /// The access hash of a channel, where it is cached.
    pub fn get(&self, channel_id: i64) -> (r: Option<i64>)
        ensures
            match r {
                Some(h) => self@.contains_key(channel_id) && self@[channel_id] == h,
                None => !self@.contains_key(channel_id),
            },
    {
        broadcast use vstd::std_specs::hash::group_hash_axioms;

        match self.hashes.get(&channel_id) {
            Some(h) => Some(*h),
            None => None,
        }
    }

    /// Puts in the channels of a dialog list that have an access hash, and finds
    /// the one of `target`.
    pub fn absorb(&mut self, channels: &Vec<(i64, Option<i64>)>, target: i64) -> (r: Option<i64>)
        ensures
            final(self)@ == with_channels(old(self)@, channels@, channels@.len() as int),
            r == last_hash(channels@, target, channels@.len() as int),
    {
        broadcast use vstd::std_specs::hash::group_hash_axioms;

        let mut found: Option<i64> = None;
        let mut i: usize = 0;
        while i < channels.len()
            invariant
                i <= channels.len(),
                self@ == with_channels(old(self)@, channels@, i as int),
                found == last_hash(channels@, target, i as int),
            decreases channels.len() - i,
        {
            let id: i64 = channels[i].0;
            if let Some(h) = channels[i].1 {
                self.hashes.insert(id, h);
                if id == target {
                    found = Some(h);
                }
            }
            i += 1;
        }
        found
    }
}

/// A channel that a dialog list names with an access hash is found in the cache
/// afterwards, with the hash that the list was searched for.
pub proof fn law_absorbed_hash_is_cached(
    m: Map<i64, i64>,
    channels: Seq<(i64, Option<i64>)>,
    id: i64,
    n: int,
)
    requires
        0 <= n <= channels.len(),
        last_hash(channels, id, n) is Some,
    ensures
        with_channels(m, channels, n).contains_key(id),
        with_channels(m, channels, n)[id] == last_hash(channels, id, n)->0,
    decreases n,
{
    if n > 0 && !(channels[n - 1].0 == id && channels[n - 1].1 is Some) {
        law_absorbed_hash_is_cached(m, channels, id, n - 1);
    }
}

// ---------------------------------------------------------------------------
// Documents in messages
// ---------------------------------------------------------------------------

/// What a document says of its video.
#[derive(Clone, Copy, PartialEq, Eq, Structural, Debug)]
pub struct VideoInfo {
    /// Whole seconds.
    pub duration: u64,
    pub width: i32,
    pub height: i32,
}

/// A fresh file location. All fields come from the same document.
pub struct FreshFileLocation {
    pub document_id: i64,
    pub access_hash: i64,
    pub file_reference: Vec<u8>,
    pub dc_id: i32,
    pub file_size: u64,
    pub mime_type: String,
    pub file_name: Option<String>,
    pub video: Option<VideoInfo>,
}

/// A file location, by its texts and bytes.
pub struct LocationView {
    pub document_id: i64,
    pub access_hash: i64,
    pub file_reference: Seq<u8>,
    pub dc_id: i32,
    pub file_size: u64,
    pub mime_type: Seq<char>,
    pub file_name: Option<Seq<char>>,
    pub video: Option<VideoInfo>,
}

impl View for FreshFileLocation {
    type V = LocationView;

    open spec fn view(&self) -> LocationView {
        LocationView {
            document_id: self.document_id,
            access_hash: self.access_hash,
            file_reference: self.file_reference@,
            dc_id: self.dc_id,
            file_size: self.file_size,
            mime_type: self.mime_type@,
            file_name: opt_text(self.file_name),
            video: self.video,
        }
    }
}

/// The view of an optional location.
pub open spec fn opt_location(l: Option<FreshFileLocation>) -> Option<LocationView> {
    match l {
        Some(l) => Some(l@),
        None => None,
    }
}

/// A document of a message.
pub struct MessageDocument {
    pub id: i64,
    pub access_hash: i64,
    pub file_reference: Vec<u8>,
    pub dc_id: i32,
    pub size: i64,
    pub mime_type: String,
    /// For each attribute the file name that it gives, if any.
    pub names: Vec<Option<String>>,
    /// For each attribute what it says of a video, if anything.
    pub videos: Vec<Option<VideoInfo>>,
}

/// A message of a chat.
pub struct ChatMessage {
    /// The number of an ordinary message.
    pub id: Option<i32>,
    /// The document that it carries.
    pub document: Option<MessageDocument>,
}

/// The first name from `i` on.
pub open spec fn first_name(names: Seq<Option<String>>, i: int) -> Option<Seq<char>>
    decreases names.len() - i,
{
    if i < 0 || i >= names.len() {
        None
    } else if names[i] is Some {
        opt_text(names[i])
    } else {
        first_name(names, i + 1)
    }
}

/// The first video from `i` on.
pub open spec fn first_video(videos: Seq<Option<VideoInfo>>, i: int) -> Option<VideoInfo>
    decreases videos.len() - i,
{
    if i < 0 || i >= videos.len() {
        None
    } else if videos[i] is Some {
        videos[i]
    } else {
        first_video(videos, i + 1)
    }
}

/// The location of a document.
pub open spec fn location_of(d: MessageDocument) -> LocationView {
    LocationView {
        document_id: d.id,
        access_hash: d.access_hash,
        file_reference: d.file_reference@,
        dc_id: d.dc_id,
        file_size: d.size as u64,
        mime_type: d.mime_type@,
        file_name: first_name(d.names@, 0),
        video: first_video(d.videos@, 0),
    }
}

/// The first document from message `i` on that has the wanted number; any
/// document where none is wanted.
pub open spec fn document_from(
    messages: Seq<ChatMessage>,
    wanted: Option<i64>,
    i: int,
) -> Option<LocationView>
    decreases messages.len() - i,
{
    if i < 0 || i >= messages.len() {
        None
    } else if messages[i].document matches Some(d) && (wanted is None || wanted == Some(d.id)) {
        Some(location_of(messages[i].document->0))
    } else {
        document_from(messages, wanted, i + 1)
    }
}

/// A copy of a byte string.
fn copy_bytes(b: &Vec<u8>) -> (r: Vec<u8>)
    ensures
        r@ == b@,
{
    let r = byte_range(b, 0, b.len());
    assert(r@ =~= b@);
    r
}

/// The location of a document.
fn document_location(d: &MessageDocument) -> (r: FreshFileLocation)
    ensures
        r@ == location_of(*d),
{
    let mut file_name: Option<String> = None;
    let mut i: usize = 0;
    while i < d.names.len() && file_name.is_none()
        invariant
            i <= d.names.len(),
            first_name(d.names@, 0) == if file_name is Some {
                opt_text(file_name)
            } else {
                first_name(d.names@, i as int)
            },
        decreases d.names.len() - i,
    {
        file_name = copy_opt(&d.names[i]);
        i += 1;
    }
    let mut video: Option<VideoInfo> = None;
    i = 0;
    while i < d.videos.len() && video.is_none()
        invariant
            i <= d.videos.len(),
            first_video(d.videos@, 0) == if video is Some {
                video
            } else {
                first_video(d.videos@, i as int)
            },
        decreases d.videos.len() - i,
    {
        video = d.videos[i];
        i += 1;
    }
    FreshFileLocation {
        document_id: d.id,
        access_hash: d.access_hash,
        file_reference: copy_bytes(&d.file_reference),
        dc_id: d.dc_id,
        file_size: d.size as u64,
        mime_type: d.mime_type.clone(),
        file_name,
        video,
    }
}

/// The location of the first document that is wanted.
fn find_location(messages: &Vec<ChatMessage>, wanted: Option<i64>) -> (r: Option<
    FreshFileLocation,
>)
    ensures
        opt_location(r) == document_from(messages@, wanted, 0),
{
    let mut i: usize = 0;
    while i < messages.len()
        invariant
            i <= messages.len(),
            document_from(messages@, wanted, 0) == document_from(messages@, wanted, i as int),
        decreases messages.len() - i,
    {
        if let Some(d) = &messages[i].document {
            let hit: bool = match wanted {
                Some(id) => id == d.id,
                None => true,
            };
            if hit {
                return Some(document_location(d));
            }
        }
        i += 1;
    }
    None
}

/// The location of the document with a number among messages.
pub fn extract_doc_info_from_msgs(messages: &Vec<ChatMessage>, document_id: i64) -> (r: Option<
    FreshFileLocation,
>)
    ensures
        opt_location(r) == document_from(messages@, Some(document_id), 0),
{
    find_location(messages, Some(document_id))
}

/// The location of the first document among messages.
pub fn extract_file_location_from_msgs(messages: &Vec<ChatMessage>) -> (r: Option<
    FreshFileLocation,
>)
    ensures
        opt_location(r) == document_from(messages@, None, 0),
{
    find_location(messages, None)
}

// ---------------------------------------------------------------------------
// History scans
// ---------------------------------------------------------------------------

/// How many messages a page of a chat's history holds.
pub const PAGE: usize = 100;

/// How often a page is asked for again after the connection broke.
pub const MAX_RETRIES: u32 = 3;

/// A scan of a chat's history for a document.
pub struct HistoryScan {
    /// The document.
    pub document_id: i64,
    /// How many messages may still be looked at, those of the current page
    /// included.
    pub messages_left: usize,
    /// The page begins before the message with this number; 0 for the newest.
    pub offset_id: i32,
    /// How often the current page was asked for again.
    pub attempt: u32,
    /// A single message is looked at before the history.
    pub direct: bool,
}

/// What came of a request for a page.
pub enum ScanEvent {
    /// The connection broke.
    Disconnected,
    /// The request failed.
    Failed,
    /// The history has not changed.
    NotModified,
    /// The page.
    Page(Vec<ChatMessage>),
}

/// What a scan does next.
pub enum ScanAction {
    /// Ask for the message with this number.
    AskMessage(i32),
    /// Wait for some milliseconds, then ask for the page before `offset_id`.
    Ask {
        /// How long to wait.
        delay_ms: u64,
        /// The page.
        offset_id: i32,
    },
    /// The document is found.
    Found(FreshFileLocation),
    /// It is not.
    NotFound,
}

/// The least number of the ordinary messages from `i` on.
pub open spec fn least_id(messages: Seq<ChatMessage>, i: int) -> Option<i32>
    decreases messages.len() - i,
{
    if i < 0 || i >= messages.len() {
        None
    } else {
        match (messages[i].id, least_id(messages, i + 1)) {
            (Some(a), Some(b)) => Some(
                if a <= b {
                    a
                } else {
                    b
                },
            ),
            (Some(a), None) => Some(a),
            (None, rest) => rest,
        }
    }
}

/// Where the page behind a page begins; 0 where there is none: a page that is
/// not full is the last.
pub open spec fn next_offset(messages: Seq<ChatMessage>) -> i32 {
    if messages.len() < PAGE {
        0
    } else {
        match least_id(messages, 0) {
            Some(id) => id,
            None => 0,
        }
    }
}

/// How long to wait before asking again for the `n`-th time.
pub open spec fn retry_delay(n: u32) -> u64 {
    if n <= 1 {
        600
    } else if n == 2 {
        1200
    } else {
        2400
    }
}

/// How many pages a number of messages fills.
pub open spec fn page_count(limit: int) -> int {
    (limit + PAGE - 1) / (PAGE as int)
}

/// The messages of a page that a limit admits: the first ones.
pub open spec fn within_limit(messages: Seq<ChatMessage>, limit: usize) -> Seq<ChatMessage> {
    if messages.len() > limit {
        messages.take(limit as int)
    } else {
        messages
    }
}

/// The first request of a scan's history.
pub open spec fn is_first_ask(s: HistoryScan, r: ScanAction) -> bool {
    if s.messages_left > 0 {
        r == (ScanAction::Ask { delay_ms: 0, offset_id: s.offset_id })
    } else {
        r is NotFound
    }
}

/// What follows the request for a single message: the document where the message
/// carries it, else the history.
pub open spec fn is_direct_step(
    before: HistoryScan,
    event: ScanEvent,
    after: HistoryScan,
    r: ScanAction,
) -> bool {
    let found = match event {
        ScanEvent::Page(m) => document_from(m@, Some(before.document_id), 0),
        _ => None,
    };
    match found {
        Some(l) => after == before && (r matches ScanAction::Found(f) && f@ == l),
        None => after == (HistoryScan { direct: false, ..before }) && is_first_ask(after, r),
    }
}

/// What follows the request for a page of the history. A broken connection has
/// the page asked for again, up to three times and with growing delays. A page
/// with the document ends the scan; so do a failure, the last page, and the limit:
/// no more messages of the page are looked at than the limit leaves.
pub open spec fn is_history_step(
    before: HistoryScan,
    event: ScanEvent,
    after: HistoryScan,
    r: ScanAction,
) -> bool {
    match event {
        ScanEvent::Disconnected => if before.attempt < MAX_RETRIES {
            &&& after == (HistoryScan { attempt: (before.attempt + 1) as u32, ..before })
            &&& r == (ScanAction::Ask {
                delay_ms: retry_delay(after.attempt),
                offset_id: before.offset_id,
            })
        } else {
            after == before && r is NotFound
        },
        ScanEvent::Failed => after == before && r is NotFound,
        ScanEvent::NotModified => after == before && r is NotFound,
        ScanEvent::Page(m) => match document_from(
            within_limit(m@, before.messages_left),
            Some(before.document_id),
            0,
        ) {
            Some(l) => after == before && (r matches ScanAction::Found(f) && f@ == l),
            None => {
                &&& after == (HistoryScan {
                    messages_left: (before.messages_left - within_limit(
                        m@,
                        before.messages_left,
                    ).len()) as usize,
                    offset_id: next_offset(m@),
                    attempt: 0,
                    ..before
                })
                &&& if next_offset(m@) != 0 {
                    is_first_ask(after, r)
                } else {
                    r is NotFound
                }
            },
        },
    }
}

impl HistoryScan {
    /// Begins a scan of up to `scan_limit` messages. Where the number of the
    /// document's message is known, that message is looked at first.
    pub fn start(document_id: i64, message_id: Option<i32>, scan_limit: usize) -> (r: (
        Self,
        ScanAction,
    ))
        ensures
            r.0 == (HistoryScan {
                document_id,
                messages_left: scan_limit,
                offset_id: 0,
                attempt: 0,
                direct: message_id is Some,
            }),
            match message_id {
                Some(id) => r.1 == ScanAction::AskMessage(id),
                None => is_first_ask(r.0, r.1),
            },
    {
        let scan = HistoryScan {
            document_id,
            messages_left: scan_limit,
            offset_id: 0,
            attempt: 0,
            direct: message_id.is_some(),
        };
        match message_id {
            Some(id) => (scan, ScanAction::AskMessage(id)),
            None => {
                let first = scan.first_ask();
                (scan, first)
            },
        }
    }

    /// The first request of the history.
    fn first_ask(&self) -> (r: ScanAction)
        ensures
            is_first_ask(*self, r),
    {
        if self.messages_left > 0 {
            ScanAction::Ask { delay_ms: 0, offset_id: self.offset_id }
        } else {
            ScanAction::NotFound
        }
    }

    /// What follows a request, by what came of it. Each further request brings
    /// the scan closer to its end.
    pub fn step(&mut self, event: ScanEvent) -> (r: ScanAction)
        requires
            old(self).direct || old(self).messages_left > 0,
            old(self).attempt <= MAX_RETRIES,
        ensures
            if old(self).direct {
                is_direct_step(*old(self), event, *final(self), r)
            } else {
                is_history_step(*old(self), event, *final(self), r)
            },
            final(self).attempt <= MAX_RETRIES,
            !(r is AskMessage),
            r is Ask ==> !final(self).direct && final(self).messages_left > 0,
            r is Ask ==> scan_measure(*final(self)) < scan_measure(*old(self)),
    {
        if self.direct {
            if let ScanEvent::Page(messages) = &event {
                if let Some(l) = extract_doc_info_from_msgs(messages, self.document_id) {
                    return ScanAction::Found(l);
                }
            }
            self.direct = false;
            return self.first_ask();
        }
        match event {
            ScanEvent::Disconnected => {
                if self.attempt >= MAX_RETRIES {
                    return ScanAction::NotFound;
                }
                self.attempt += 1;
                let delay_ms: u64 = if self.attempt <= 1 {
                    600
                } else if self.attempt == 2 {
                    1200
                } else {
                    2400
                };
                ScanAction::Ask { delay_ms, offset_id: self.offset_id }
            },
            ScanEvent::Failed => ScanAction::NotFound,
            ScanEvent::NotModified => ScanAction::NotFound,
            ScanEvent::Page(messages) => {
                let next: i32 = if messages.len() < PAGE {
                    0
                } else {
                    smallest_id(&messages)
                };
                let ghost page = messages@;
                let mut looked = messages;
                if looked.len() > self.messages_left {
                    looked.truncate(self.messages_left);
                }
                assert(looked@ =~= within_limit(page, self.messages_left));
                if let Some(l) = extract_doc_info_from_msgs(&looked, self.document_id) {
                    return ScanAction::Found(l);
                }
                self.messages_left -= looked.len();
                self.offset_id = next;
                self.attempt = 0;
                if next != 0 {
                    self.first_ask()
                } else {
                    ScanAction::NotFound
                }
            },
        }
    }
}

/// How many more requests a scan makes at most. It falls with every request.
pub open spec fn scan_measure(s: HistoryScan) -> int {
    page_count(s.messages_left as int) * 4 - s.attempt + if s.direct {
        1int
    } else {
        0
    }
}

/// A scan makes at most four requests for each page, and one for a message.
pub proof fn law_scan_is_bounded(s: HistoryScan, scan_limit: int)
    requires
        s.messages_left <= scan_limit,
        s.attempt <= MAX_RETRIES,
        s.direct || s.messages_left > 0,
        s.attempt == 0 || s.messages_left > 0,
    ensures
        0 < scan_measure(s) <= 4 * page_count(scan_limit) + 1,
{
}

/// The least number of the ordinary messages, or 0.
fn smallest_id(messages: &Vec<ChatMessage>) -> (r: i32)
    ensures
        r == match least_id(messages@, 0) {
            Some(id) => id,
            None => 0,
        },
{
    let mut least: Option<i32> = None;
    let mut i: usize = messages.len();
    while i > 0
        invariant
            i <= messages.len(),
            least == least_id(messages@, i as int),
        decreases i,
    {
        i -= 1;
        if let Some(id) = messages[i].id {
            least = match least {
                Some(b) => if id <= b {
                    Some(id)
                } else {
                    Some(b)
                },
                None => Some(id),
            };
        }
    }
    match least {
        Some(id) => id,
        None => 0,
    }
}

// ---------------------------------------------------------------------------
// Chunks
// ---------------------------------------------------------------------------

/// The alignment of a chunk, 4 KiB.
pub const MIN_CHUNK: i32 = 4096;

/// The size of a chunk, 512 KiB.
pub const MAX_CHUNK: u64 = 524288;

/// How often a stream reconnects.
pub const MAX_RECONNECTS: u32 = 6;

/// Rounds `n` up to the nearest multiple of `align`.
pub fn align_up(n: i32, align: i32) -> (r: i32)
    requires
        align > 0,
        n + align - 1 <= i32::MAX,
    ensures
        r as int % align as int == 0,
        n <= r < n + align,
{
    let a: u64 = align as u64;
    if n >= 0 {
        let u: u64 = n as u64;
        let q: u64 = (u + a - 1) / a;
        proof {
            vstd::arithmetic::div_mod::lemma_fundamental_div_mod(u + a - 1, a as int);
            vstd::arithmetic::div_mod::lemma_mod_multiples_basic(q as int, a as int);
            vstd::arithmetic::mul::lemma_mul_is_commutative(q as int, a as int);
        }
        (q * a) as i32
    } else {
        let u: u64 = (-(n as i64)) as u64;
        let q: u64 = u / a;
        proof {
            vstd::arithmetic::div_mod::lemma_fundamental_div_mod(u as int, a as int);
            vstd::arithmetic::div_mod::lemma_mod_multiples_basic(-(q as int), a as int);
            vstd::arithmetic::mul::lemma_mul_is_commutative(q as int, a as int);
            vstd::arithmetic::mul::lemma_mul_unary_negation(q as int, a as int);
        }
        (-((q * a) as i64)) as i32
    }
}

/// What came of a request for a chunk.
pub enum ChunkEvent {
    /// The connection broke.
    Dropped,
    /// The bytes.
    File(Vec<u8>),
    /// The server refers to another network.
    CdnRedirect,
    /// The request failed, with a message.
    Failed(String),
}

/// What follows a request for a chunk.
pub enum ChunkAction {
    /// Reconnect after some milliseconds and ask again.
    Reconnect {
        /// How long to wait.
        delay_ms: u64,
    },
    /// The chunk; `None` at the end of the file.
    Done(Option<Vec<u8>>),
    /// The stream fails.
    Fail(AppError),
}

/// Whether a file on a data centre is asked for on the session's own
/// connection.
pub fn uses_home_connection(dc_id: i32, home_dc_id: i32) -> (r: bool)
    ensures
        r == (dc_id == home_dc_id),
{
    dc_id == home_dc_id
}

/// What follows a request for the chunk at `chunk_offset`. A broken connection
/// is replaced, up to six times in a stream.
pub fn chunk_step(reconnects: &mut u32, chunk_offset: u64, event: ChunkEvent) -> (r: ChunkAction)
    requires
        *old(reconnects) <= MAX_RECONNECTS,
    ensures
        *final(reconnects) <= MAX_RECONNECTS,
        r is Reconnect ==> *final(reconnects) == *old(reconnects) + 1,
        !(r is Reconnect) ==> *final(reconnects) == *old(reconnects),
        match event {
            ChunkEvent::Dropped => if *old(reconnects) < MAX_RECONNECTS {
                r == (ChunkAction::Reconnect { delay_ms: 1500 })
            } else {
                r matches ChunkAction::Fail(e) && e@ == AppErrorView::Telegram(
                    "Too many DC reconnects ("@ + decimal(MAX_RECONNECTS as int) + ") at offset "@
                        + decimal(chunk_offset as int),
                )
            },
            ChunkEvent::File(b) => r matches ChunkAction::Done(d) && if b@.len() == 0 {
                d is None
            } else {
                d == Some(b)
            },
            ChunkEvent::CdnRedirect => r matches ChunkAction::Fail(e) && e@
                == AppErrorView::Telegram("CDN redirect not supported"@),
            ChunkEvent::Failed(m) => r matches ChunkAction::Fail(e) && e@
                == AppErrorView::Telegram(m@),
        },
{
    match event {
        ChunkEvent::Dropped => {
            if *reconnects >= MAX_RECONNECTS {
                let mut m = "Too many DC reconnects (".to_owned();
                m.push_str(decimal_text(MAX_RECONNECTS as u64).as_str());
                m.push_str(") at offset ");
                m.push_str(decimal_text(chunk_offset).as_str());
                return ChunkAction::Fail(AppError::Telegram(m));
            }
            *reconnects += 1;
            ChunkAction::Reconnect { delay_ms: 1500 }
        },
        ChunkEvent::File(bytes) => if bytes.len() == 0 {
            ChunkAction::Done(None)
        } else {
            ChunkAction::Done(Some(bytes))
        },
        ChunkEvent::CdnRedirect => ChunkAction::Fail(
            AppError::Telegram("CDN redirect not supported".to_owned()),
        ),
        ChunkEvent::Failed(m) => ChunkAction::Fail(AppError::Telegram(m)),
    }
}

/// A stream of the bytes `start..=end` of a file, fetched in chunks.
pub struct RangeStream {
    start: u64,
    end: u64,
    offset: u64,
    emitted: u64,
}

/// A stream's position.
pub struct RangeView {
    pub start: int,
    pub end: int,
    /// Where the next chunk begins.
    pub offset: int,
    pub emitted: int,
}

/// Up to where the range is covered when all before `offset` was read.
pub open spec fn covered(start: int, end: int, offset: int) -> int {
    if offset <= start {
        start
    } else if offset <= end + 1 {
        offset
    } else {
        end + 1
    }
}

/// The part of a chunk that is in the range.
pub open spec fn chunk_part(v: RangeView, chunk: Seq<u8>) -> Seq<u8> {
    let from = covered(v.start, v.end, v.offset) - v.offset;
    let to = covered(v.start, v.end, v.offset + chunk.len()) - v.offset;
    if from < to {
        chunk.subrange(from, to)
    } else {
        Seq::empty()
    }
}

impl View for RangeStream {
    type V = RangeView;

    closed spec fn view(&self) -> RangeView {
        RangeView {
            start: self.start as int,
            end: self.end as int,
            offset: self.offset as int,
            emitted: self.emitted as int,
        }
    }
}

impl RangeStream {
    /// The range is not empty, the first chunk holds its start, and what was
    /// emitted is what is covered.
    pub closed spec fn wf(&self) -> bool {
        &&& self.start <= self.end < u64::MAX
        &&& self.emitted == covered(self.start as int, self.end as int, self.offset as int)
            - self.start
    }

    /// A stream at its beginning: the first chunk is the one that holds `start`.
    pub fn new(start: u64, end: u64) -> (r: Self)
        requires
            start <= end < u64::MAX,
        ensures
            r.wf(),
            r@ == (RangeView {
                start: start as int,
                end: end as int,
                offset: start as int / MAX_CHUNK as int * MAX_CHUNK,
                emitted: 0,
            }),
    {
        assert(start as int / MAX_CHUNK as int * MAX_CHUNK <= start);
        RangeStream { start, end, offset: (start / MAX_CHUNK) * MAX_CHUNK, emitted: 0 }
    }

    /// Where the next chunk begins; `None` when the range is covered.
    pub fn next_offset(&self) -> (r: Option<u64>)
        requires
            self.wf(),
        ensures
            match r {
                Some(o) => o == self@.offset && self@.emitted < self@.end - self@.start + 1,
                None => self@.emitted == self@.end - self@.start + 1,
            },
    {
        if self.emitted >= self.end - self.start + 1 {
            None
        } else {
            Some(self.offset)
        }
    }

    /// Takes the chunk at the current offset. The first result is the part of it
    /// that is in the range, the second whether the stream ends with it: behind
    /// a short chunk or the end of the range.
    pub fn accept(&mut self, chunk: &Vec<u8>) -> (r: (Vec<u8>, bool))
        requires
            old(self).wf(),
            chunk@.len() > 0,
            old(self)@.offset + chunk@.len() <= u64::MAX,
        ensures
            final(self).wf(),
            r.0@ == chunk_part(old(self)@, chunk@),
            final(self)@ == (RangeView {
                offset: old(self)@.offset + chunk@.len(),
                emitted: old(self)@.emitted + r.0@.len(),
                ..old(self)@
            }),
            r.1 == (chunk@.len() < MAX_CHUNK || final(self)@.offset > old(self)@.end),
    {
        let n: u64 = chunk.len() as u64;
        let first: u64 = if self.start > self.offset {
            self.start
        } else {
            self.offset
        };
        let last: u64 = if self.end < self.offset + n - 1 {
            self.end
        } else {
            self.offset + n - 1
        };
        let mut part: Vec<u8> = Vec::new();
        if first <= last {
            let from: usize = (first - self.offset) as usize;
            let to: usize = (last - self.offset + 1) as usize;
            part = byte_range(chunk, from, to);
            assert(part@ =~= chunk_part(self@, chunk@));
        } else {
            assert(part@ =~= chunk_part(self@, chunk@));
        }
        self.emitted = self.emitted + part.len() as u64;
        self.offset = self.offset + n;
        let done: bool = n < MAX_CHUNK || self.offset > self.end;
        (part, done)
    }
}

/// A chunk of a file extends what is emitted from one covered position to the
/// next.
proof fn lemma_chunk_part(file: Seq<u8>, v: RangeView, chunk: Seq<u8>)
    requires
        0 <= v.start <= v.end < file.len(),
        0 <= v.offset <= v.offset + chunk.len() <= file.len(),
        chunk == file.subrange(v.offset, v.offset + chunk.len()),
    ensures
        file.subrange(v.start, covered(v.start, v.end, v.offset)) + chunk_part(v, chunk)
            == file.subrange(v.start, covered(v.start, v.end, v.offset + chunk.len())),
{
    let a = covered(v.start, v.end, v.offset);
    let b = covered(v.start, v.end, v.offset + chunk.len());
    assert(file.subrange(v.start, a) + chunk_part(v, chunk) =~= file.subrange(v.start, b));
}

/// How many bytes there are in chunks.
pub open spec fn total_len(chunks: Seq<Seq<u8>>) -> nat
    decreases chunks.len(),
{
    if chunks.len() == 0 {
        0
    } else {
        total_len(chunks.drop_last()) + chunks.last().len()
    }
}

/// The chunks are those of a file from `offset` on, one behind the other.
pub open spec fn are_file_chunks(file: Seq<u8>, offset: int, chunks: Seq<Seq<u8>>) -> bool
    decreases chunks.len(),
{
    chunks.len() == 0 || {
        let at = offset + total_len(chunks.drop_last());
        &&& are_file_chunks(file, offset, chunks.drop_last())
        &&& at + chunks.last().len() <= file.len()
        &&& chunks.last() == file.subrange(at, at + chunks.last().len())
    }
}

/// What a stream emits for chunks, all together.
pub open spec fn all_parts(v: RangeView, chunks: Seq<Seq<u8>>) -> Seq<u8>
    decreases chunks.len(),
{
    if chunks.len() == 0 {
        Seq::empty()
    } else {
        let init = chunks.drop_last();
        all_parts(v, init) + chunk_part(
            RangeView { offset: v.offset + total_len(init), ..v },
            chunks.last(),
        )
    }
}

/// A stream that begins at or before the start of its range and is fed the
/// chunks of a file emits exactly the file's bytes from the start of the range
/// up to where the chunks cover it: all of the range once they reach its end.
pub proof fn law_stream_emits_the_range(file: Seq<u8>, v: RangeView, chunks: Seq<Seq<u8>>)
    requires
        0 <= v.start <= v.end < file.len(),
        0 <= v.offset <= v.start,
        are_file_chunks(file, v.offset, chunks),
    ensures
        all_parts(v, chunks) == file.subrange(
            v.start,
            covered(v.start, v.end, v.offset + total_len(chunks)),
        ),
        v.offset + total_len(chunks) > v.end ==> all_parts(v, chunks) == file.subrange(
            v.start,
            v.end + 1,
        ),
    decreases chunks.len(),
{
    if chunks.len() == 0 {
        assert(file.subrange(v.start, v.start) =~= Seq::<u8>::empty());
    } else {
        let init = chunks.drop_last();
        law_stream_emits_the_range(file, v, init);
        lemma_chunk_part(
            file,
            RangeView { offset: v.offset + total_len(init), ..v },
            chunks.last(),
        );
    }
}

// ---------------------------------------------------------------------------
// The session manager
// ---------------------------------------------------------------------------

/// What the status endpoint reports of.
pub struct TelegramSessionManager {
    pub session_file: String,
    pub is_connected: bool,
}

impl TelegramSessionManager {
    /// A manager that is not connected.
    pub fn new(session_file: &str) -> (r: Self)
        ensures
            r.session_file@ == session_file@ && !r.is_connected,
    {
        TelegramSessionManager { session_file: session_file.to_owned(), is_connected: false }
    }

    /// Whether there is a client. `client_ready` is whether the shared slot
    /// holds one; `None` where the slot is not made yet or in use.
    pub fn is_authorized(&self, client_ready: Option<bool>) -> (r: bool)
        ensures
            r == (client_ready == Some(true)),
    {
        match client_ready {
            Some(b) => b,
            None => false,
        }
    }

    /// Whether all that a connection needs is configured.
    pub fn is_configured(cfg: &TelegramConfig) -> (r: bool)
        ensures
            r == (cfg.api_id > 0 && cfg.api_hash@.len() > 0 && cfg.session_string@.len() > 0),
    {
        cfg.api_id > 0 && chars(cfg.api_hash.as_str()).len() > 0 && chars(
            cfg.session_string.as_str(),
        ).len() > 0
    }
}

} // verus!
