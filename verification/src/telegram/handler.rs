//! The rules of the Telegram endpoints.

use vstd::prelude::*;

use crate::config::TelegramConfig;
use crate::error::{AppError, AppErrorView, AppResult};
use crate::string_map::{lookup, Pairs, StringMap};
use crate::telegram::media_ref::{
    decode_file_id, decoded_file_id, linked_media, message_number, parse_i32, parse_telegram_url,
    ChatView, DecodedFileId, FileIdView, MediaRefView, TelegramChat, TelegramMediaRef,
};
use crate::telegram::session::{peer_of, FreshFileLocation, LocationView, PeerView, VideoInfo};
use crate::text::{
    after, after_char, all_digits, before, before_char, chars, concat, copy_opt, decimal,
    decimal_signed, decimal_signed_text, decimal_text, digits_value, is_digit, lemma_decimal,
    lemma_digits_concat, lemma_digits_prefix, lemma_pow10_monotone, opt_str, opt_text, parse_i64,
    parse_signed, parse_u64, parse_unsigned, pow10, strip_prefix, strip_prefix_text,
    trim_start_char,
};

verus! {

// ---------------------------------------------------------------------------
// Ranges
// ---------------------------------------------------------------------------

/// The last position of a file; 0 for an empty one.
pub open spec fn last_position(file_size: u64) -> u64 {
    if file_size == 0 {
        0
    } else {
        (file_size - 1) as u64
    }
}

/// The smaller of two numbers.
pub open spec fn lesser(a: u64, b: u64) -> u64 {
    if a <= b {
        a
    } else {
        b
    }
}

/// A number, or a fallback where the text is none.
pub open spec fn number_or(s: Seq<char>, fallback: u64) -> u64 {
    match parse_unsigned(s, u64::MAX as int) {
        Some(n) => n as u64,
        None => fallback,
    }
}

/// The positions `start..=end` that a range header asks for, within the file.
/// `-n` asks for the last `n` bytes. Without a header, and where it makes no
/// sense, they are those of the whole file.
pub open spec fn range_of(header: Option<Seq<char>>, file_size: u64) -> (u64, u64) {
    let last = last_position(file_size);
    match header {
        None => (0, last),
        Some(h) => {
            let spec = match strip_prefix_text(h, "bytes="@) {
                Some(rest) => rest,
                None => h,
            };
            match after_char(spec, '-') {
                None => (0, last),
                Some(to) => {
                    let from = before_char(spec, '-');
                    if from.len() == 0 {
                        let n = lesser(number_or(to, 0), file_size);
                        (lesser((file_size - n) as u64, last), last)
                    } else {
                        let start = number_or(from, 0);
                        let end = if to.len() == 0 {
                            last
                        } else {
                            lesser(number_or(to, last), last)
                        };
                        if start > end {
                            (0, last)
                        } else {
                            (start, end)
                        }
                    }
                },
            }
        },
    }
}

/// Reads a number, or takes a fallback where the text is none.
fn read_number_or(s: &str, fallback: u64) -> (r: u64)
    ensures
        r == number_or(s@, fallback),
{
    match parse_u64(s) {
        Some(n) => n,
        None => fallback,
    }
}

/// Reads a `Range` header. Both positions are inclusive and within the file.
pub fn parse_range(header: Option<&str>, file_size: u64) -> (r: (u64, u64))
    ensures
        r == range_of(opt_str(header), file_size),
        r.0 <= r.1,
        file_size > 0 ==> r.1 < file_size,
{
    let last: u64 = if file_size == 0 {
        0
    } else {
        file_size - 1
    };
    let h = match header {
        Some(h) => h,
        None => {
            return (0, last);
        },
    };
    let spec_text = match strip_prefix(h, "bytes=") {
        Some(rest) => rest,
        None => h.to_owned(),
    };
    let to = match after(spec_text.as_str(), '-') {
        Some(to) => to,
        None => {
            return (0, last);
        },
    };
    let from = before(spec_text.as_str(), '-');
    if chars(from.as_str()).len() == 0 {
        let asked: u64 = read_number_or(to.as_str(), 0);
        let n: u64 = if asked <= file_size {
            asked
        } else {
            file_size
        };
        let start: u64 = if file_size - n <= last {
            file_size - n
        } else {
            last
        };
        return (start, last);
    }
    let start: u64 = read_number_or(from.as_str(), 0);
    let end: u64 = if chars(to.as_str()).len() == 0 {
        last
    } else {
        let asked: u64 = read_number_or(to.as_str(), last);
        if asked <= last {
            asked
        } else {
            last
        }
    };
    if start > end {
        (0, last)
    } else {
        (start, end)
    }
}

/// A well-formed range within the file is what is sent.
pub proof fn law_plain_range_is_kept(h: Seq<char>, file_size: u64, a: u64, b: u64)
    requires
        strip_prefix_text(h, "bytes="@) matches Some(s) && {
            &&& after_char(s, '-') matches Some(t) && parse_unsigned(t, u64::MAX as int) == Some(
                b as int,
            )
            &&& before_char(s, '-').len() > 0
            &&& parse_unsigned(before_char(s, '-'), u64::MAX as int) == Some(a as int)
        },
        a <= b < file_size,
    ensures
        range_of(Some(h), file_size) == (a, b),
{
}

// ---------------------------------------------------------------------------
// Parameters
// ---------------------------------------------------------------------------

/// How a request names its media.
pub struct MediaParams {
    pub chat_id: Option<String>,
    pub message_id: Option<i32>,
    pub document_id: Option<i64>,
    pub file_id: Option<String>,
    pub file_size: Option<u64>,
}

/// How a request names its media, by its texts.
pub struct MediaParamsView {
    pub chat_id: Option<Seq<char>>,
    pub message_id: Option<i32>,
    pub document_id: Option<i64>,
    pub file_id: Option<Seq<char>>,
    pub file_size: Option<u64>,
}

impl View for MediaParams {
    type V = MediaParamsView;

    open spec fn view(&self) -> MediaParamsView {
        MediaParamsView {
            chat_id: opt_text(self.chat_id),
            message_id: self.message_id,
            document_id: self.document_id,
            file_id: opt_text(self.file_id),
            file_size: self.file_size,
        }
    }
}

/// The first of two parameters that is there.
pub open spec fn either_param(query: Pairs, a: Seq<char>, b: Seq<char>) -> Option<Seq<char>> {
    match lookup(query, a) {
        Some(v) => Some(v),
        None => lookup(query, b),
    }
}

/// The parameters of a query. Numbers that cannot be read count as absent.
pub open spec fn query_media(query: Pairs) -> MediaParamsView {
    MediaParamsView {
        chat_id: lookup(query, "chat_id"@),
        message_id: match lookup(query, "message_id"@) {
            Some(v) => message_number(v),
            None => None,
        },
        document_id: match lookup(query, "document_id"@) {
            Some(v) => match parse_signed(v, i64::MIN as int, i64::MAX as int) {
                Some(n) => Some(n as i64),
                None => None,
            },
            None => None,
        },
        file_id: lookup(query, "file_id"@),
        file_size: match lookup(query, "file_size"@) {
            Some(v) => match parse_unsigned(v, u64::MAX as int) {
                Some(n) => Some(n as u64),
                None => None,
            },
            None => None,
        },
    }
}

/// The name of a linked chat: private chats are channels, whose numbers get the
/// prefix `-100`.
pub open spec fn chat_name(chat: ChatView) -> Seq<char> {
    match chat {
        ChatView::Id(id) => if id > 0 {
            "-100"@ + decimal_signed(id as int)
        } else {
            decimal_signed(id as int)
        },
        ChatView::Username(u) => u,
    }
}

/// The channel that a private link names is the one that its chat name leads to,
/// exactly for channel numbers of seven to sixteen digits. With fewer digits the
/// chat name is that of a legacy group, with more it is no number any more, and a
/// number that is not positive is no channel's.
pub proof fn law_private_link_reaches_its_channel(id: i64)
    ensures
        peer_of(chat_name(ChatView::Id(id))) == Some(PeerView::Channel(id as int)) <==> 1_000_000
            <= id < 10_000_000_000_000_000,
        0 < id < 1_000_000 ==> peer_of(chat_name(ChatView::Id(id))) == Some(
            PeerView::Chat(100 * pow10(decimal(id as int).len()) + id),
        ),
        id >= 10_000_000_000_000_000 ==> peer_of(chat_name(ChatView::Id(id))) == Some(
            PeerView::Username(chat_name(ChatView::Id(id))),
        ),
{
    if id > 0 {
        lemma_prefixed_number(id as int);
    } else {
        let s = chat_name(ChatView::Id(id));
        lemma_decimal(-(id as int));
        assert(is_digit(decimal(-(id as int))[0]));
        assert(trim_start_char(s, '@') == s);
        if id < 0 {
            assert(s.skip(1) =~= decimal(-(id as int)));
            if let Some(rest) = strip_prefix_text(s, "-100"@) {
                if all_digits(rest) {
                    lemma_digits_prefix(rest, 0);
                }
            }
        }
    }
}

/// Whom a number behind the prefix `-100` refers to.
proof fn lemma_prefixed_number(id: int)
    requires
        0 < id <= i64::MAX,
    ensures
        peer_of("-100"@ + decimal(id)) == Some(
            if id < 1_000_000 {
                PeerView::Chat(100 * pow10(decimal(id).len()) + id)
            } else if id < 10_000_000_000_000_000 {
                PeerView::Channel(id)
            } else {
                PeerView::Username("-100"@ + decimal(id))
            },
        ),
{
    reveal_strlit("-100");
    let d = decimal(id);
    let s = "-100"@ + d;
    let n = d.len();
    lemma_decimal(id);
    assert(trim_start_char(s, '@') == s);
    reveal_with_fuel(pow10, 18);
    assert(pow10(6) == 1_000_000 && pow10(7) == 10_000_000);
    assert(pow10(16) == 10_000_000_000_000_000 && pow10(17) == 100_000_000_000_000_000);
    if n >= 17 {
        lemma_pow10_monotone(16, (n - 1) as nat);
        lemma_pow10_monotone(17, n);
    } else {
        lemma_pow10_monotone(n, 16);
    }
    if n <= 6 {
        lemma_pow10_monotone(n, 6);
    } else {
        lemma_pow10_monotone(6, (n - 1) as nat);
        lemma_pow10_monotone(7, n);
    }
    let hundred = seq!['1', '0', '0'];
    assert(s.skip(1) =~= hundred + d);
    assert(hundred.drop_last() =~= seq!['1', '0']);
    assert(seq!['1', '0'].drop_last() =~= seq!['1']);
    assert(seq!['1'].drop_last() =~= Seq::<char>::empty());
    reveal_with_fuel(digits_value, 4);
    assert(digits_value(hundred) == 100);
    lemma_digits_concat(hundred, d);
    assert forall|i: int| 0 <= i < s.skip(1).len() implies is_digit(#[trigger] s.skip(1)[i]) by {
        if i >= 3 {
            assert(s.skip(1)[i] == d[i - 3]);
        }
    }
    assert(s.subrange(0, 4) =~= "-100"@);
    assert(s.skip(4) =~= d);
}

/// The parameters with what a link says put in: the link takes priority.
pub open spec fn with_link(p: MediaParamsView, link: MediaRefView) -> MediaParamsView {
    match link {
        MediaRefView::Message { chat, message_id } => MediaParamsView {
            chat_id: Some(chat_name(chat)),
            message_id: Some(message_id),
            ..p
        },
        MediaRefView::FileId(f) => MediaParamsView { file_id: Some(f), ..p },
    }
}

/// An optional string of a map.
fn owned(v: Option<&str>) -> (r: Option<String>)
    ensures
        opt_text(r) == opt_str(v),
{
    match v {
        Some(t) => Some(t.to_owned()),
        None => None,
    }
}

/// Reads the parameters of a query.
fn read_query(query: &StringMap) -> (r: MediaParams)
    ensures
        r@ == query_media(query@),
{
    MediaParams {
        chat_id: owned(query.get("chat_id")),
        message_id: match query.get("message_id") {
            Some(v) => parse_i32(v),
            None => None,
        },
        document_id: match query.get("document_id") {
            Some(v) => parse_i64(v),
            None => None,
        },
        file_id: owned(query.get("file_id")),
        file_size: match query.get("file_size") {
            Some(v) => parse_u64(v),
            None => None,
        },
    }
}

/// How a stream request names its media: by the link in `d` or `url`, which
/// must be readable and takes priority, and by the other parameters.
pub fn stream_params(query: &StringMap) -> (r: AppResult<MediaParams>)
    ensures
        match either_param(query@, "d"@, "url"@) {
            None => r matches Ok(p) && p@ == query_media(query@),
            Some(url) => match linked_media(url) {
                Some(link) => r matches Ok(p) && p@ == with_link(query_media(query@), link),
                None => r matches Err(e) && e@ == AppErrorView::BadRequest(
                    "Cannot parse Telegram URL: "@ + url,
                ),
            },
        },
{
    let p = read_query(query);
    let url = match query.get("d") {
        Some(u) => Some(u),
        None => query.get("url"),
    };
    let url = match url {
        Some(u) => u,
        None => {
            return Ok(p);
        },
    };
    match parse_telegram_url(url) {
        None => Err(AppError::BadRequest(concat("Cannot parse Telegram URL: ", url))),
        Some(TelegramMediaRef::Message { chat, message_id }) => {
            let name = match chat {
                TelegramChat::Id(id) => if id > 0 {
                    concat("-100", decimal_signed_text(id).as_str())
                } else {
                    decimal_signed_text(id)
                },
                TelegramChat::Username(u) => u,
            };
            Ok(
                MediaParams {
                    chat_id: Some(name),
                    message_id: Some(message_id),
                    document_id: p.document_id,
                    file_id: p.file_id,
                    file_size: p.file_size,
                },
            )
        },
        Some(TelegramMediaRef::FileId(f)) => Ok(
            MediaParams {
                chat_id: p.chat_id,
                message_id: p.message_id,
                document_id: p.document_id,
                file_id: Some(f),
                file_size: p.file_size,
            },
        ),
    }
}

/// Whether Telegram can be used at all.
pub fn check_configured(cfg: &TelegramConfig) -> (r: AppResult<()>)
    ensures
        match r {
            Ok(_) => cfg.api_id != 0 && cfg.api_hash@.len() > 0 && cfg.session_string@.len() > 0,
            Err(e) => (cfg.api_id == 0 || cfg.api_hash@.len() == 0 || cfg.session_string@.len()
                == 0) && e@ == AppErrorView::Telegram(
                "Telegram not configured. Set APP__TELEGRAM__API_ID, APP__TELEGRAM__API_HASH and APP__TELEGRAM__SESSION_STRING."@,
            ),
        },
{
    if cfg.api_id == 0 || chars(cfg.api_hash.as_str()).len() == 0 || chars(
        cfg.session_string.as_str(),
    ).len() == 0 {
        return Err(
            AppError::Telegram(
                "Telegram not configured. Set APP__TELEGRAM__API_ID, APP__TELEGRAM__API_HASH and APP__TELEGRAM__SESSION_STRING.".to_owned(),
            ),
        );
    }
    Ok(())
}

// ---------------------------------------------------------------------------
// Finding the file
// ---------------------------------------------------------------------------

/// How the file is looked for.
#[allow(inconsistent_fields)]
pub enum Lookup {
    /// In a message of a chat.
    Message {
        /// The chat.
        chat_id: String,
        /// The message.
        message_id: i32,
    },
    /// In the history of a chat.
    History {
        /// The chat.
        chat_id: String,
        /// The document.
        document_id: i64,
    },
    /// In the history of a chat, or else by what the file identifier carries.
    HistoryOrFile {
        /// The chat.
        chat_id: String,
        /// The file identifier.
        file: DecodedFileId,
        /// The size that the caller gives.
        file_size: Option<u64>,
    },
    /// By what the file identifier carries.
    Direct {
        /// The file identifier.
        file: DecodedFileId,
        /// The size that the caller gives.
        file_size: u64,
    },
}

/// How the file is looked for, by its texts.
#[allow(inconsistent_fields)]
pub enum LookupView {
    Message { chat_id: Seq<char>, message_id: i32 },
    History { chat_id: Seq<char>, document_id: i64 },
    HistoryOrFile { chat_id: Seq<char>, file: FileIdView, file_size: Option<u64> },
    Direct { file: FileIdView, file_size: u64 },
}

impl View for Lookup {
    type V = LookupView;

    open spec fn view(&self) -> LookupView {
        match self {
            Lookup::Message { chat_id, message_id } => LookupView::Message {
                chat_id: chat_id@,
                message_id: *message_id,
            },
            Lookup::History { chat_id, document_id } => LookupView::History {
                chat_id: chat_id@,
                document_id: *document_id,
            },
            Lookup::HistoryOrFile { chat_id, file, file_size } => LookupView::HistoryOrFile {
                chat_id: chat_id@,
                file: file@,
                file_size: *file_size,
            },
            Lookup::Direct { file, file_size } => LookupView::Direct {
                file: file@,
                file_size: *file_size,
            },
        }
    }
}

/// The message of a request that names no media.
pub open spec fn no_media() -> Seq<char> {
    "No resolvable parameters provided. Supported modes: (1) d/url=<t.me URL>, (2) chat_id + message_id, (3) chat_id + document_id, (4) chat_id + file_id, (5) file_id + file_size"@
}

/// How a file is looked for, in order of preference: by message, by document
/// number, by file identifier in a chat, and by file identifier alone, for
/// which the size must be given.
pub open spec fn lookup_of(p: MediaParamsView) -> Result<LookupView, AppErrorView> {
    if p.chat_id is Some && p.message_id is Some {
        Ok(LookupView::Message { chat_id: p.chat_id->0, message_id: p.message_id->0 })
    } else if p.chat_id is Some && p.document_id is Some {
        Ok(LookupView::History { chat_id: p.chat_id->0, document_id: p.document_id->0 })
    } else if p.chat_id is Some && p.file_id is Some {
        match decoded_file_id(p.file_id->0) {
            Some(file) => Ok(
                LookupView::HistoryOrFile { chat_id: p.chat_id->0, file, file_size: p.file_size },
            ),
            None => Err(AppErrorView::BadRequest("Cannot decode file_id"@)),
        }
    } else if p.file_id is Some {
        match p.file_size {
            None => Err(
                AppErrorView::BadRequest(
                    "file_size is required when using file_id without chat_id"@,
                ),
            ),
            Some(file_size) => if file_size == 0 {
                Err(AppErrorView::BadRequest("file_size must be > 0"@))
            } else {
                match decoded_file_id(p.file_id->0) {
                    Some(file) => Ok(LookupView::Direct { file, file_size }),
                    None => Err(AppErrorView::BadRequest("Cannot decode file_id"@)),
                }
            },
        }
    } else {
        Err(AppErrorView::BadRequest(no_media()))
    }
}

/// Decides how the file is looked for.
pub fn plan_lookup(p: MediaParams) -> (r: AppResult<Lookup>)
    ensures
        match r {
            Ok(l) => lookup_of(p@) matches Ok(v) && l@ == v,
            Err(e) => lookup_of(p@) matches Err(v) && e@ == v,
        },
{
    match p.chat_id {
        Some(chat_id) => {
            if let Some(message_id) = p.message_id {
                return Ok(Lookup::Message { chat_id, message_id });
            }
            if let Some(document_id) = p.document_id {
                return Ok(Lookup::History { chat_id, document_id });
            }
            if let Some(fid) = p.file_id {
                return match decode_file_id(fid.as_str()) {
                    Some(file) => Ok(
                        Lookup::HistoryOrFile { chat_id, file, file_size: p.file_size },
                    ),
                    None => Err(AppError::BadRequest("Cannot decode file_id".to_owned())),
                };
            }
        },
        None => {
            if let Some(fid) = p.file_id {
                let file_size: u64 = match p.file_size {
                    Some(n) => n,
                    None => {
                        return Err(
                            AppError::BadRequest(
                                "file_size is required when using file_id without chat_id".to_owned(),
                            ),
                        );
                    },
                };
                if file_size == 0 {
                    return Err(AppError::BadRequest("file_size must be > 0".to_owned()));
                }
                return match decode_file_id(fid.as_str()) {
                    Some(file) => Ok(Lookup::Direct { file, file_size }),
                    None => Err(AppError::BadRequest("Cannot decode file_id".to_owned())),
                };
            }
        },
    }
    Err(
        AppError::BadRequest(
            "No resolvable parameters provided. Supported modes: (1) d/url=<t.me URL>, (2) chat_id + message_id, (3) chat_id + document_id, (4) chat_id + file_id, (5) file_id + file_size".to_owned(),
        ),
    )
}

/// A file that can be streamed.
pub struct MediaFile {
    pub document_id: i64,
    pub access_hash: i64,
    pub file_reference: Vec<u8>,
    pub dc_id: i32,
    pub file_size: u64,
    pub mime_type: Option<String>,
    pub file_name: Option<String>,
    pub video: Option<VideoInfo>,
}

/// A file that can be streamed, by its texts and bytes.
pub struct MediaFileView {
    pub document_id: i64,
    pub access_hash: i64,
    pub file_reference: Seq<u8>,
    pub dc_id: i32,
    pub file_size: u64,
    pub mime_type: Option<Seq<char>>,
    pub file_name: Option<Seq<char>>,
    pub video: Option<VideoInfo>,
}

impl View for MediaFile {
    type V = MediaFileView;

    open spec fn view(&self) -> MediaFileView {
        MediaFileView {
            document_id: self.document_id,
            access_hash: self.access_hash,
            file_reference: self.file_reference@,
            dc_id: self.dc_id,
            file_size: self.file_size,
            mime_type: opt_text(self.mime_type),
            file_name: opt_text(self.file_name),
            video: self.video,
        }
    }
}

/// A file found in a message.
pub open spec fn found_file(l: LocationView) -> MediaFileView {
    MediaFileView {
        document_id: l.document_id,
        access_hash: l.access_hash,
        file_reference: l.file_reference,
        dc_id: l.dc_id,
        file_size: l.file_size,
        mime_type: Some(l.mime_type),
        file_name: l.file_name,
        video: l.video,
    }
}

/// A file by its identifier.
pub open spec fn direct_file(f: FileIdView, file_size: u64) -> MediaFileView {
    MediaFileView {
        document_id: f.id,
        access_hash: f.access_hash,
        file_reference: f.file_reference,
        dc_id: f.dc_id,
        file_size,
        mime_type: None,
        file_name: None,
        video: None,
    }
}

/// The file of a lookup: what was found; else what the file identifier carries
/// where there is one and the size is given.
pub open spec fn settled_file(l: LookupView, found: Option<LocationView>) -> Result<
    MediaFileView,
    AppErrorView,
> {
    match l {
        LookupView::Message { chat_id, message_id } => match found {
            Some(f) => Ok(found_file(f)),
            None => Err(
                AppErrorView::NotFound(
                    "No document found in message_id="@ + decimal_signed(message_id as int)
                        + " chat="@ + chat_id,
                ),
            ),
        },
        LookupView::History { chat_id, document_id } => match found {
            Some(f) => Ok(found_file(f)),
            None => Err(
                AppErrorView::NotFound(
                    "document_id="@ + decimal_signed(document_id as int) + " not found in chat="@
                        + chat_id,
                ),
            ),
        },
        LookupView::HistoryOrFile { chat_id, file, file_size } => match found {
            Some(f) => Ok(found_file(f)),
            None => match file_size {
                None => Err(
                    AppErrorView::BadRequest(
                        "document not found in chat history and file_size not provided for file_id fallback"@,
                    ),
                ),
                Some(n) => if n == 0 {
                    Err(AppErrorView::BadRequest("file_size must be > 0"@))
                } else {
                    Ok(direct_file(file, n))
                },
            },
        },
        LookupView::Direct { file, file_size } => Ok(direct_file(file, file_size)),
    }
}

/// The file of a location.
fn file_of_location(l: FreshFileLocation) -> (r: MediaFile)
    ensures
        r@ == found_file(l@),
{
    MediaFile {
        document_id: l.document_id,
        access_hash: l.access_hash,
        file_reference: l.file_reference,
        dc_id: l.dc_id,
        file_size: l.file_size,
        mime_type: Some(l.mime_type),
        file_name: l.file_name,
        video: l.video,
    }
}

/// The file of an identifier.
fn file_of_id(f: DecodedFileId, file_size: u64) -> (r: MediaFile)
    ensures
        r@ == direct_file(f@, file_size),
{
    MediaFile {
        document_id: f.id,
        access_hash: f.access_hash,
        file_reference: f.file_reference,
        dc_id: f.dc_id,
        file_size,
        mime_type: None,
        file_name: None,
        video: None,
    }
}

/// Settles a lookup with what was found.
pub fn settle_lookup(l: Lookup, found: Option<FreshFileLocation>) -> (r: AppResult<MediaFile>)
    ensures
        match r {
            Ok(f) => settled_file(l@, crate::telegram::session::opt_location(found)) matches Ok(v)
                && f@ == v,
            Err(e) => settled_file(l@, crate::telegram::session::opt_location(found)) matches Err(v)
                && e@ == v,
        },
{
    match l {
        Lookup::Message { chat_id, message_id } => match found {
            Some(f) => Ok(file_of_location(f)),
            None => {
                let mut m = "No document found in message_id=".to_owned();
                m.push_str(decimal_signed_text(message_id as i64).as_str());
                m.push_str(" chat=");
                m.push_str(chat_id.as_str());
                Err(AppError::NotFound(m))
            },
        },
        Lookup::History { chat_id, document_id } => match found {
            Some(f) => Ok(file_of_location(f)),
            None => {
                let mut m = "document_id=".to_owned();
                m.push_str(decimal_signed_text(document_id).as_str());
                m.push_str(" not found in chat=");
                m.push_str(chat_id.as_str());
                Err(AppError::NotFound(m))
            },
        },
        Lookup::HistoryOrFile { chat_id, file, file_size } => match found {
            Some(f) => Ok(file_of_location(f)),
            None => match file_size {
                None => Err(
                    AppError::BadRequest(
                        "document not found in chat history and file_size not provided for file_id fallback".to_owned(),
                    ),
                ),
                Some(n) => if n == 0 {
                    Err(AppError::BadRequest("file_size must be > 0".to_owned()))
                } else {
                    Ok(file_of_id(file, n))
                },
            },
        },
        Lookup::Direct { file, file_size } => Ok(file_of_id(file, file_size)),
    }
}

// ---------------------------------------------------------------------------
// Answers
// ---------------------------------------------------------------------------

/// The media type that a file name's extension stands for.
pub uninterp spec fn guessed_mime(file_name: Seq<char>) -> Seq<char>;

/// `mime_guess::from_path` and `first_or_octet_stream`, as a text.
#[verifier::external_body]
fn guess_mime(file_name: &str) -> (r: String)
    ensures
        r@ == guessed_mime(file_name@),
{
    mime_guess::from_path(file_name).first_or_octet_stream().to_string()
}

/// The head of a stream's answer, and the positions of the file that it holds.
pub struct StreamReply {
    pub status: u16,
    pub content_type: String,
    pub content_length: u64,
    pub content_range: Option<String>,
    pub start: u64,
    pub end: u64,
}

/// The media type of a file: its own, or else the one that its name, or the
/// name in the path, stands for.
pub open spec fn media_type(file: MediaFileView, path_name: Option<Seq<char>>) -> Seq<char> {
    match file.mime_type {
        Some(m) => m,
        None => guessed_mime(
            match file.file_name {
                Some(n) => n,
                None => match path_name {
                    Some(n) => n,
                    None => "stream.mkv"@,
                },
            },
        ),
    }
}

/// The range that an answer reports.
pub open spec fn range_text(start: u64, end: u64, file_size: u64) -> Seq<char> {
    "bytes "@ + decimal(start as int) + "-"@ + decimal(end as int) + "/"@ + decimal(
        file_size as int,
    )
}

/// Finds the media type of a file.
fn find_media_type(file: &MediaFile, path_name: Option<&str>) -> (r: String)
    ensures
        r@ == media_type(file@, opt_str(path_name)),
{
    match &file.mime_type {
        Some(m) => m.clone(),
        None => match &file.file_name {
            Some(n) => guess_mime(n.as_str()),
            None => match path_name {
                Some(n) => guess_mime(n),
                None => guess_mime("stream.mkv"),
            },
        },
    }
}

/// Answers a stream request: in full, or with the part that a range header asks
/// for.
pub fn stream_reply(file: &MediaFile, path_name: Option<&str>, range: Option<&str>) -> (r:
    StreamReply)
    ensures
        (r.start, r.end) == range_of(opt_str(range), file.file_size),
        r.content_length == r.end - r.start + 1,
        r.content_type@ == media_type(file@, opt_str(path_name)),
        match range {
            Some(_) => r.status == 206 && (r.content_range matches Some(t) && t@ == range_text(
                r.start,
                r.end,
                file.file_size,
            )),
            None => r.status == 200 && r.content_range is None,
        },
{
    let content_type = find_media_type(file, path_name);
    let (start, end) = parse_range(range, file.file_size);
    let content_length: u64 = end - start + 1;
    if range.is_some() {
        let mut t = "bytes ".to_owned();
        t.push_str(decimal_text(start).as_str());
        t.push_str("-");
        t.push_str(decimal_text(end).as_str());
        t.push_str("/");
        t.push_str(decimal_text(file.file_size).as_str());
        StreamReply {
            status: 206,
            content_type,
            content_length,
            content_range: Some(t),
            start,
            end,
        }
    } else {
        StreamReply { status: 200, content_type, content_length, content_range: None, start, end }
    }
}

/// What the info endpoint tells of a file.
pub struct MediaInfo {
    pub file_size: u64,
    pub mime_type: String,
    pub file_name: Option<String>,
    /// Whole seconds.
    pub duration: Option<u64>,
    pub width: Option<i32>,
    pub height: Option<i32>,
    pub dc_id: i32,
}

/// Answers an info request, which names its media as a stream request does.
pub fn media_info(file: &MediaFile) -> (r: MediaInfo)
    ensures
        r.file_size == file.file_size,
        r.mime_type@ == media_type(file@, None),
        r.file_name == file.file_name,
        r.dc_id == file.dc_id,
        match file.video {
            Some(v) => r.duration == Some(v.duration) && r.width == Some(v.width) && r.height
                == Some(v.height),
            None => r.duration is None && r.width is None && r.height is None,
        },
{
    let (duration, width, height) = match file.video {
        Some(v) => (Some(v.duration), Some(v.width), Some(v.height)),
        None => (None, None, None),
    };
    MediaInfo {
        file_size: file.file_size,
        mime_type: find_media_type(file, None),
        file_name: copy_opt(&file.file_name),
        duration,
        width,
        height,
        dc_id: file.dc_id,
    }
}

/// The word for a session's state.
pub fn status_word(configured: bool, connected: bool) -> (r: &'static str)
    ensures
        r@ == if !configured {
            "disabled"@
        } else if connected {
            "connected"@
        } else {
            "not_connected"@
        },
{
    if !configured {
        "disabled"
    } else if connected {
        "connected"
    } else {
        "not_connected"
    }
}

} // verus!
