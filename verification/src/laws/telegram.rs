//! Laws on the Telegram endpoints.

use vstd::prelude::*;

use crate::codec::base64url_decoded;
use crate::error::{AppError, AppResult};
use crate::laws::texts::{lemma_cut, lemma_digits_only, lemma_prefix, lemma_trim_start, lemma_uncut};
use crate::string_map::{lookup, StringMap};
use crate::telegram::handler::{
    guessed_mime, media_info, parse_range, plan_lookup, settle_lookup, stream_params, stream_reply,
    Lookup, MediaFile, MediaInfo, MediaParams, StreamReply,
};
use crate::telegram::media_ref::decoded_file_id;
use crate::telegram::session::{
    document_from, extract_doc_info_from_msgs, extract_file_location_from_msgs, home_dc, least_id,
    location_of, parse_telethon_session, plan_peer, ChatMessage, FreshFileLocation, HistoryScan,
    MessageDocument, PeerPlan, RangeStream, ScanAction, ScanEvent, TelethonSession,
};
use crate::text::{
    before_char, decimal, is_digit, law_decimal_round_trip, lemma_decimal, opt_text, parse_signed,
    split_text, strip_prefix_text, trim_end_char,
};

verus! {

/// The header asks for the positions from `a` to `b`.
pub open spec fn asks_for(header: Seq<char>, a: u64, b: u64) -> bool {
    header == "bytes="@ + decimal(a as int) + "-"@ + decimal(b as int)
}

/// The header asks for all from position `a` on.
pub open spec fn asks_from(header: Seq<char>, a: u64) -> bool {
    header == "bytes="@ + decimal(a as int) + "-"@
}

/// The header asks for the last `n` positions.
pub open spec fn asks_for_last(header: Seq<char>, n: u64) -> bool {
    header == "bytes=-"@ + decimal(n as int)
}

/// How a header is cut.
proof fn lemma_header(from: Seq<char>, to: Seq<char>)
    requires
        !from.contains('-'),
    ensures
        crate::text::strip_prefix_text("bytes="@ + from + "-"@ + to, "bytes="@) == Some(
            from + seq!['-'] + to,
        ),
        crate::text::before_char(from + seq!['-'] + to, '-') == from,
        crate::text::after_char(from + seq!['-'] + to, '-') == Some(to),
{
    reveal_strlit("-");
    assert("-"@ =~= seq!['-']);
    assert("bytes="@ + from + "-"@ + to =~= "bytes="@ + (from + seq!['-'] + to));
    lemma_prefix("bytes="@, from + seq!['-'] + to);
    lemma_cut(from, '-', to);
}

/// A range with both ends is kept where it lies within the file, and cut at the end
/// of the file where it reaches over it.
pub proof fn law_closed_range(header: &str, file_size: u64, a: u64, b: u64, r: (u64, u64))
    requires
        call_ensures(parse_range, (Some(header), file_size), r),
        asks_for(header@, a, b),
        a <= b,
        a < file_size,
    ensures
        r.0 == a,
        r.1 == if b < file_size {
            b as int
        } else {
            file_size - 1
        },
{
    lemma_digits_only(a as int, '-');
    lemma_digits_only(b as int, '-');
    lemma_header(decimal(a as int), decimal(b as int));
    law_decimal_round_trip(a as int, u64::MAX as int);
    law_decimal_round_trip(b as int, u64::MAX as int);
}

/// An open-ended range goes from its start to the end of the file.
pub proof fn law_open_range(header: &str, file_size: u64, a: u64, r: (u64, u64))
    requires
        call_ensures(parse_range, (Some(header), file_size), r),
        asks_from(header@, a),
        a < file_size,
    ensures
        r == (a, (file_size - 1) as u64),
{
    lemma_digits_only(a as int, '-');
    lemma_header(decimal(a as int), Seq::empty());
    assert("bytes="@ + decimal(a as int) + "-"@ + Seq::<char>::empty() =~= header@);
    law_decimal_round_trip(a as int, u64::MAX as int);
}

/// A suffix range is the end of the file: its last `n` bytes, or all of it where it
/// has no more.
pub proof fn law_suffix_range(header: &str, file_size: u64, n: u64, r: (u64, u64))
    requires
        call_ensures(parse_range, (Some(header), file_size), r),
        asks_for_last(header@, n),
        0 < n,
        0 < file_size,
    ensures
        r.0 == if n <= file_size {
            file_size - n
        } else {
            0
        },
        r.1 == file_size - 1,
{
    let none = Seq::<char>::empty();
    reveal_strlit("bytes=-");
    reveal_strlit("bytes=");
    reveal_strlit("-");
    lemma_digits_only(n as int, '-');
    lemma_header(none, decimal(n as int));
    assert("bytes="@ + none + "-"@ + decimal(n as int) =~= header@);
    law_decimal_round_trip(n as int, u64::MAX as int);
}

/// Without a range all of the file is sent; so it is where the range begins behind
/// its end.
pub proof fn law_whole_file(header: Option<&str>, file_size: u64, a: u64, r: (u64, u64))
    requires
        call_ensures(parse_range, (header, file_size), r),
        0 < file_size,
        header matches Some(h) ==> asks_from(h@, a) && file_size <= a,
    ensures
        r == (0u64, (file_size - 1) as u64),
{
    if let Some(h) = header {
        lemma_digits_only(a as int, '-');
        lemma_header(decimal(a as int), Seq::empty());
        assert("bytes="@ + decimal(a as int) + "-"@ + Seq::<char>::empty() =~= h@);
        law_decimal_round_trip(a as int, u64::MAX as int);
    }
}

/// A reply says what it sends: the part that the range asks for, its length, and
/// where it stands in the file.
pub proof fn law_reply_to_open_range(
    file: &MediaFile,
    path_name: Option<&str>,
    header: &str,
    a: u64,
    r: StreamReply,
)
    requires
        call_ensures(stream_reply, (file, path_name, Some(header)), r),
        asks_from(header@, a),
        a < file.file_size,
    ensures
        r.status == 206,
        r.start == a,
        r.end == file.file_size - 1,
        r.content_length == file.file_size - a,
        r.content_range matches Some(t) && t@ == "bytes "@ + decimal(a as int) + "-"@ + decimal(
            file.file_size - 1,
        ) + "/"@ + decimal(file.file_size as int),
{
    lemma_digits_only(a as int, '-');
    lemma_header(decimal(a as int), Seq::empty());
    assert("bytes="@ + decimal(a as int) + "-"@ + Seq::<char>::empty() =~= header@);
    law_decimal_round_trip(a as int, u64::MAX as int);
}

/// A reply to a range with both ends, within the file.
pub proof fn law_reply_to_closed_range(
    file: &MediaFile,
    path_name: Option<&str>,
    header: &str,
    a: u64,
    b: u64,
    r: StreamReply,
)
    requires
        call_ensures(stream_reply, (file, path_name, Some(header)), r),
        asks_for(header@, a, b),
        a <= b < file.file_size,
    ensures
        r.status == 206,
        r.start == a,
        r.end == b,
        r.content_length == b - a + 1,
        r.content_range matches Some(t) && t@ == "bytes "@ + decimal(a as int) + "-"@ + decimal(
            b as int,
        ) + "/"@ + decimal(file.file_size as int),
{
    lemma_digits_only(a as int, '-');
    lemma_digits_only(b as int, '-');
    lemma_header(decimal(a as int), decimal(b as int));
    law_decimal_round_trip(a as int, u64::MAX as int);
    law_decimal_round_trip(b as int, u64::MAX as int);
}

/// A reply without a range is the whole file.
pub proof fn law_reply_without_range(file: &MediaFile, path_name: Option<&str>, r: StreamReply)
    requires
        call_ensures(stream_reply, (file, path_name, None::<&str>), r),
        0 < file.file_size,
    ensures
        r.status == 200,
        r.start == 0,
        r.end == file.file_size - 1,
        r.content_length == file.file_size,
        r.content_range is None,
{
}

/// The type of a file is its own, or else is guessed from its name, or else from the
/// name in the path.
pub proof fn law_media_types(
    file: &MediaFile,
    path_name: Option<&str>,
    header: Option<&str>,
    r: StreamReply,
    info: MediaInfo,
)
    requires
        call_ensures(stream_reply, (file, path_name, header), r),
        call_ensures(media_info, (file,), info),
    ensures
        file.mime_type matches Some(m) ==> r.content_type@ == m@ && info.mime_type@ == m@,
        file.mime_type is None && file.file_name is Some ==> r.content_type@ == guessed_mime(
            file.file_name->0@,
        ),
        file.mime_type is None && file.file_name is None && path_name is Some ==> r.content_type@
            == guessed_mime(path_name->0@),
        file.mime_type is None && file.file_name is None && path_name is None ==> r.content_type@
            == guessed_mime("stream.mkv"@),
        file.mime_type is None && file.file_name is Some ==> info.mime_type@ == guessed_mime(
            file.file_name->0@,
        ),
        file.mime_type is None && file.file_name is None ==> info.mime_type@ == guessed_mime(
            "stream.mkv"@,
        ),
        file.video is None ==> info.duration is None && info.width is None && info.height is None,
        info.file_size == file.file_size,
        info.dc_id == file.dc_id,
        opt_text(info.file_name) == opt_text(file.file_name),
        file.video matches Some(v) ==> info.duration == Some(v.duration) && info.width == Some(
            v.width,
        ) && info.height == Some(v.height),
{
}

// ---------------------------------------------------------------------------
// What a request names
// ---------------------------------------------------------------------------

/// A link to a message of a public chat.
pub open spec fn is_public_link(url: Seq<char>, name: Seq<char>, message: i32) -> bool {
    url == "https://t.me/"@ + name + "/"@ + decimal(message as int)
}

/// A link to a message of a private chat.
pub open spec fn is_private_link(url: Seq<char>, channel: i64, message: i32) -> bool {
    url == "https://t.me/c/"@ + decimal(channel as int) + "/"@ + decimal(message as int)
}

/// A path without query, fragment and slash at its end stays.
proof fn lemma_plain_path(rest: Seq<char>)
    requires
        !rest.contains('?'),
        !rest.contains('#'),
        rest.len() > 0 ==> rest.last() != '/',
    ensures
        trim_end_char(before_char(before_char(rest, '?'), '#'), '/') == rest,
{
    lemma_uncut(rest, '?');
    lemma_uncut(rest, '#');
}

/// Two parts behind a slash.
proof fn lemma_two_parts(a: Seq<char>, b: Seq<char>)
    requires
        !a.contains('/'),
        !b.contains('/'),
    ensures
        split_text(a + seq!['/'] + b, '/') == seq![a, b],
{
    crate::text::lemma_split_concat_from(a, '/', b, 0);
    lemma_uncut(a, '/');
    lemma_uncut(b, '/');
    assert(seq![a] + seq![b] =~= seq![a, b]);
}

/// The number of a message is read as it is written.
proof fn lemma_message(n: i32)
    requires
        0 <= n,
    ensures
        crate::telegram::media_ref::message_number(decimal(n as int)) == Some(n),
        !decimal(n as int).contains('/') && !decimal(n as int).contains('?') && !decimal(
            n as int,
        ).contains('#'),
        decimal(n as int).len() > 0 && decimal(n as int).last() != '/',
{
    lemma_digits_only(n as int, '-');
    lemma_digits_only(n as int, '/');
    lemma_digits_only(n as int, '?');
    lemma_digits_only(n as int, '#');
    law_decimal_round_trip(n as int, i32::MAX as int);
    assert(decimal(n as int).contains(decimal(n as int).last()));
}

/// A text without some character has none with another behind it.
proof fn lemma_none_in_both(a: Seq<char>, b: Seq<char>, c: char)
    requires
        !a.contains(c),
        !b.contains(c),
    ensures
        !(a + b).contains(c),
{
    if (a + b).contains(c) {
        let i = choose|i: int| 0 <= i < (a + b).len() && (a + b)[i] == c;
        if i < a.len() {
            assert(a[i] == c);
        } else {
            assert(b[i - a.len()] == c);
        }
    }
}

/// A link to a message of a public chat names the chat and the message, whatever the
/// query names besides.
pub proof fn law_public_links(
    query: &StringMap,
    r: AppResult<MediaParams>,
    url: Seq<char>,
    name: Seq<char>,
    message: i32,
)
    requires
        call_ensures(stream_params, (query,), r),
        lookup(query@, "d"@) == Some(url) || (lookup(query@, "d"@) is None && lookup(
            query@,
            "url"@,
        ) == Some(url)),
        is_public_link(url, name, message),
        0 <= message,
        name.len() > 0,
        !name.contains('/') && !name.contains('?') && !name.contains('#'),
    ensures
        r matches Ok(p) && opt_text(p.chat_id) == Some(name) && p.message_id == Some(message)
            && opt_text(p.file_id) == lookup(query@, "file_id"@),
{
    let m = decimal(message as int);
    lemma_message(message);
    reveal_strlit("/");
    assert("/"@ =~= seq!['/']);
    let rest = name + seq!['/'] + m;
    assert(url =~= "https://t.me/"@ + rest);
    lemma_prefix("https://t.me/"@, rest);
    lemma_none_in_both(name, seq!['/'], '?');
    lemma_none_in_both(name, seq!['/'], '#');
    lemma_none_in_both(name + seq!['/'], m, '?');
    lemma_none_in_both(name + seq!['/'], m, '#');
    assert(rest.last() == m.last());
    lemma_plain_path(rest);
    lemma_two_parts(name, m);
}

/// A link to a message of a private chat names the channel behind the prefix `-100`,
/// and the message.
pub proof fn law_private_links(
    query: &StringMap,
    r: AppResult<MediaParams>,
    url: Seq<char>,
    channel: i64,
    message: i32,
)
    requires
        call_ensures(stream_params, (query,), r),
        lookup(query@, "d"@) == Some(url) || (lookup(query@, "d"@) is None && lookup(
            query@,
            "url"@,
        ) == Some(url)),
        is_private_link(url, channel, message),
        0 < channel,
        0 <= message,
    ensures
        r matches Ok(p) && opt_text(p.chat_id) == Some("-100"@ + decimal(channel as int))
            && p.message_id == Some(message),
{
    let m = decimal(message as int);
    let c = decimal(channel as int);
    lemma_message(message);
    lemma_digits_only(channel as int, '/');
    lemma_digits_only(channel as int, '?');
    lemma_digits_only(channel as int, '#');
    lemma_digits_only(channel as int, '-');
    law_decimal_round_trip(channel as int, i64::MAX as int);
    reveal_strlit("/");
    reveal_strlit("c");
    reveal_strlit("https://t.me/c/");
    reveal_strlit("https://t.me/");
    let tail = c + seq!['/'] + m;
    let rest = seq!['c'] + seq!['/'] + tail;
    assert(url =~= "https://t.me/"@ + rest);
    lemma_prefix("https://t.me/"@, rest);
    lemma_none_in_both(c, seq!['/'], '?');
    lemma_none_in_both(c, seq!['/'], '#');
    lemma_none_in_both(c + seq!['/'], m, '?');
    lemma_none_in_both(c + seq!['/'], m, '#');
    lemma_none_in_both(seq!['c'] + seq!['/'], tail, '?');
    lemma_none_in_both(seq!['c'] + seq!['/'], tail, '#');
    assert(rest.last() == m.last());
    lemma_plain_path(rest);
    lemma_two_parts(c, m);
    crate::text::lemma_split_concat_from(seq!['c'], '/', tail, 0);
    lemma_uncut(seq!['c'], '/');
    assert(split_text(rest, '/') =~= seq![seq!['c'], c, m]);
    assert("c"@ =~= seq!['c']);
}

/// Without a link, the parameters of the query are taken as they are.
pub proof fn law_plain_params(query: &StringMap, r: AppResult<MediaParams>)
    requires
        call_ensures(stream_params, (query,), r),
        lookup(query@, "d"@) is None,
        lookup(query@, "url"@) is None,
    ensures
        r matches Ok(p) && {
            &&& opt_text(p.chat_id) == lookup(query@, "chat_id"@)
            &&& opt_text(p.file_id) == lookup(query@, "file_id"@)
            &&& forall|n: i32| 0 <= n
                && lookup(query@, "message_id"@) == Some(#[trigger] decimal(n as int))
                    ==> p.message_id
                == Some(n)
            &&& forall|n: i64| 0 <= n
                && lookup(query@, "document_id"@) == Some(#[trigger] decimal(n as int))
                    ==> p.document_id
                == Some(n)
            &&& forall|n: u64| lookup(query@,
                "file_size"@) == Some(#[trigger] decimal(n as int)) ==> p.file_size == Some(n)
            &&& lookup(query@, "message_id"@) is None ==> p.message_id is None
            &&& lookup(query@, "document_id"@) is None ==> p.document_id is None
            &&& lookup(query@, "file_size"@) is None ==> p.file_size is None
        },
{
    if let Ok(p) = r {
        assert forall|n: i32| 0 <= n && lookup(query@, "message_id"@) == Some(
            #[trigger] decimal(n as int),
        ) implies p.message_id == Some(n) by {
            lemma_message(n);
        }
        assert forall|n: i64| 0 <= n && lookup(query@, "document_id"@) == Some(
            #[trigger] decimal(n as int),
        ) implies p.document_id == Some(n) by {
            lemma_digits_only(n as int, '-');
            law_decimal_round_trip(n as int, i64::MAX as int);
        }
        assert forall|n: u64| lookup(query@, "file_size"@) == Some(
            #[trigger] decimal(n as int),
        ) implies p.file_size == Some(n) by {
            law_decimal_round_trip(n as int, u64::MAX as int);
        }
    }
}

/// The ways to find a file, in order: a message, the history by the document, the
/// history by the file identifier, and the file identifier alone, which needs the
/// size.
pub proof fn law_lookups(p: MediaParams, r: AppResult<Lookup>)
    requires
        call_ensures(plan_lookup, (p,), r),
    ensures
        p.chat_id is Some && p.message_id is Some ==> (r matches Ok(Lookup::Message {
            chat_id,
            message_id,
        }) && chat_id@ == p.chat_id->0@ && message_id == p.message_id->0),
        p.chat_id is Some && p.message_id is None && p.document_id is Some ==> (
        r matches Ok(Lookup::History { chat_id, document_id }) && chat_id@ == p.chat_id->0@
            && document_id == p.document_id->0),
        p.chat_id is Some && p.message_id is None && p.document_id is None && p.file_id is Some
            && decoded_file_id(p.file_id->0@) is Some ==> (r matches Ok(
            Lookup::HistoryOrFile { chat_id, file, file_size },
        ) && chat_id@ == p.chat_id->0@ && file.id == decoded_file_id(p.file_id->0@)->0.id
            && file_size == p.file_size),
        p.chat_id is None && p.file_id is Some && (p.file_size matches Some(n) && n > 0)
            && decoded_file_id(p.file_id->0@) is Some ==> (r matches Ok(
            Lookup::Direct { file, file_size },
        ) && file.id == decoded_file_id(p.file_id->0@)->0.id && file.access_hash
            == decoded_file_id(p.file_id->0@)->0.access_hash && file.dc_id == decoded_file_id(
            p.file_id->0@,
        )->0.dc_id && file.file_reference@ == decoded_file_id(p.file_id->0@)->0.file_reference
            && file_size == p.file_size->0),
        p.chat_id is None && p.file_id is None ==> (r matches Err(AppError::BadRequest(_))),
        p.chat_id is None && p.file_id is Some && p.file_size is None ==> (r matches Err(
            AppError::BadRequest(_),
        )),
{
    if let Err(e) = r {
        assert(e@ is BadRequest);
    }
}

/// A file that was found is streamed by what was found of it; one that was not is an
/// error, unless its identifier and its size are known.
pub proof fn law_found_files(l: Lookup, found: Option<FreshFileLocation>, r: AppResult<MediaFile>)
    requires
        call_ensures(settle_lookup, (l, found), r),
    ensures
        found is Some && !(l is Direct) ==> (r matches Ok(f) && {
            &&& f.document_id == found->0.document_id
            &&& f.access_hash == found->0.access_hash
            &&& f.file_reference@ == found->0.file_reference@
            &&& f.dc_id == found->0.dc_id
            &&& f.file_size == found->0.file_size
            &&& opt_text(f.mime_type) == Some(found->0.mime_type@)
            &&& opt_text(f.file_name) == opt_text(found->0.file_name)
            &&& f.video == found->0.video
        }),
        found is None && (l is Message || l is History) ==> (r matches Err(
            AppError::NotFound(_),
        )),
        l matches Lookup::Direct { file, file_size } ==> (r matches Ok(f) && f.document_id
            == file.id && f.access_hash == file.access_hash && f.file_reference@
            == file.file_reference@ && f.dc_id == file.dc_id && f.file_size == file_size),
        found is None && (l matches Lookup::HistoryOrFile { file, file_size, .. } && (
        file_size matches Some(n) && n > 0)) ==> (r matches Ok(f) && f.document_id
            == l->HistoryOrFile_file.id && f.access_hash == l->HistoryOrFile_file.access_hash
            && f.file_reference@ == l->HistoryOrFile_file.file_reference@ && f.dc_id
            == l->HistoryOrFile_file.dc_id && f.file_size == l->HistoryOrFile_file_size->0),
        found is None && (l matches Lookup::HistoryOrFile { file_size, .. } && (file_size is None
            || file_size == Some(0u64))) ==> (r matches Err(AppError::BadRequest(_))),
{
    if let Err(e) = r {
        if l is Message || l is History {
            assert(e@ is NotFound);
        } else {
            assert(e@ is BadRequest);
        }
    }
}

// ---------------------------------------------------------------------------
// Chats
// ---------------------------------------------------------------------------

/// A name is resolved as a name, with or without an `@` before it; a number is a
/// user, a negative one a group.
pub proof fn law_peers(chat: &str, r: Option<PeerPlan>, name: Seq<char>, n: i64)
    requires
        call_ensures(plan_peer, (chat,), r),
        name.len() > 0 && name[0] != '@' && name[0] != '-' && name[0] != '+' && !is_digit(name[0]),
        0 <= n <= 1_000_000_000,
    ensures
        chat@ == name || chat@ == "@"@ + name ==> (r matches Some(PeerPlan::Username(u)) && u@
            == name),
        chat@ == decimal(n as int) ==> r == Some(PeerPlan::User(n)),
        chat@ == "-"@ + decimal(n as int) && n > 0 ==> r == Some(PeerPlan::Chat(n)),
{
    reveal_strlit("@");
    reveal_strlit("-");
    assert("@"@ =~= seq!['@']);
    lemma_trim_start(name, '@');
    lemma_digits_only(n as int, '@');
    lemma_digits_only(n as int, '-');
    lemma_digits_only(n as int, '+');
    let d = decimal(n as int);
    lemma_trim_start(d, '@');
    lemma_trim_start(seq!['-'] + d, '@');
    law_decimal_round_trip(n as int, i64::MAX as int);
    lemma_decimal(n as int);
    assert((seq!['-'] + d).skip(1) =~= d);
    assert("-"@ + d =~= seq!['-'] + d);
    if chat@ == name || chat@ == "@"@ + name {
        assert(parse_signed(name, i64::MIN as int, i64::MAX as int) is None);
    }
}

/// A session string holds the data centre, its address and port, and the key, one
/// behind the other.
pub proof fn law_sessions(
    s: &str,
    r: Option<TelethonSession>,
    dc: i32,
    body: Seq<char>,
    bytes: Seq<u8>,
)
    requires
        call_ensures(parse_telethon_session, (s,), r),
        call_ensures(home_dc, (s,), dc),
        s@ == "1"@ + body,
        base64url_decoded(body) == Ok::<Seq<u8>, Seq<char>>(bytes),
        bytes.len() == 263,
    ensures
        r matches Some(t) && {
            &&& t.dc_id == bytes[0]
            &&& t.ip@ == bytes.subrange(1, 5)
            &&& t.port == bytes[5] * 256 + bytes[6]
            &&& t.auth_key@ == bytes.subrange(7, 263)
        },
        dc == bytes[0],
{
    lemma_prefix("1"@, body);
}

// ---------------------------------------------------------------------------
// Documents
// ---------------------------------------------------------------------------

/// What is found among messages is the first document that is asked for.
proof fn lemma_document(messages: Seq<ChatMessage>, wanted: Option<i64>, i: int)
    requires
        0 <= i <= messages.len(),
    ensures
        match document_from(messages, wanted, i) {
            Some(l) => exists|k: int|
                i <= k < messages.len() && is_wanted(#[trigger] messages[k], wanted) && l
                    == location_of(messages[k].document->0) && forall|m: int|
                    i <= m < k ==> !is_wanted(#[trigger] messages[m], wanted),
            None => forall|k: int| i <= k < messages.len()
                ==> !is_wanted(#[trigger] messages[k], wanted),
        },
    decreases messages.len() - i,
{
    if i < messages.len() {
        lemma_document(messages, wanted, i + 1);
        if is_wanted(messages[i], wanted) {
            assert(document_from(messages, wanted, i) == Some(
                location_of(messages[i].document->0),
            ));
        } else if let Some(l) = document_from(messages, wanted, i + 1) {
            let k = choose|k: int|
                i + 1 <= k < messages.len() && is_wanted(#[trigger] messages[k], wanted) && l
                    == location_of(messages[k].document->0) && forall|m: int|
                    i + 1 <= m < k ==> !is_wanted(#[trigger] messages[m], wanted);
            assert(is_wanted(messages[k], wanted));
        }
    }
}

/// A message with the document that is asked for, or with any where none is.
pub open spec fn is_wanted(m: ChatMessage, wanted: Option<i64>) -> bool {
    m.document matches Some(d) && (wanted matches Some(id) ==> d.id == id)
}

/// What a document is streamed by.
pub open spec fn is_location(l: FreshFileLocation, d: MessageDocument) -> bool {
    &&& l.document_id == d.id
    &&& l.access_hash == d.access_hash
    &&& l.file_reference@ == d.file_reference@
    &&& l.dc_id == d.dc_id
    &&& l.file_size == d.size as u64
    &&& l.mime_type@ == d.mime_type@
}

/// A search for a document gives the first message's that carries it, with all of
/// its fields, and nothing where no message does.
pub proof fn law_document_search(
    messages: &Vec<ChatMessage>,
    id: i64,
    r: Option<FreshFileLocation>,
    any: Option<FreshFileLocation>,
)
    requires
        call_ensures(extract_doc_info_from_msgs, (messages, id), r),
        call_ensures(extract_file_location_from_msgs, (messages,), any),
    ensures
        match r {
            Some(l) => exists|k: int|
                0 <= k < messages@.len() && is_wanted(#[trigger] messages@[k], Some(id))
                    && is_location(l, messages@[k].document->0) && forall|m: int|
                    0 <= m < k ==> !is_wanted(#[trigger] messages@[m], Some(id)),
            None => forall|k: int|
                0 <= k < messages@.len() ==> !is_wanted(#[trigger] messages@[k], Some(id)),
        },
        match any {
            Some(l) => exists|k: int|
                0 <= k < messages@.len() && is_wanted(#[trigger] messages@[k], None) && is_location(
                    l,
                    messages@[k].document->0,
                ) && forall|m: int| 0 <= m < k ==> !is_wanted(#[trigger] messages@[m], None),
            None => forall|k: int|
                0 <= k < messages@.len() ==> !is_wanted(#[trigger] messages@[k], None),
        },
{
    lemma_document(messages@, Some(id), 0);
    lemma_document(messages@, None, 0);
    if let Some(l) = r {
        let k = choose|k: int|
            0 <= k < messages@.len() && is_wanted(#[trigger] messages@[k], Some(id)) && l@
                == location_of(messages@[k].document->0) && forall|m: int|
                0 <= m < k ==> !is_wanted(#[trigger] messages@[m], Some(id));
        assert(is_location(l, messages@[k].document->0));
    }
    if let Some(l) = any {
        let k = choose|k: int|
            0 <= k < messages@.len() && is_wanted(#[trigger] messages@[k], None) && l@
                == location_of(messages@[k].document->0) && forall|m: int|
                0 <= m < k ==> !is_wanted(#[trigger] messages@[m], None);
        assert(is_location(l, messages@[k].document->0));
    }
}

/// A page of a history scan: the document is found where one of the messages that
/// the limit still admits carries it; else the scan goes on before the oldest
/// message of a full page while the limit admits more.
pub proof fn law_history_pages(
    before: HistoryScan,
    page: Vec<ChatMessage>,
    after: HistoryScan,
    r: ScanAction,
)
    requires
        crate::telegram::session::is_history_step(before, ScanEvent::Page(page), after, r),
        before.messages_left > 0,
    ensures
        r is Found <==> exists|k: int|
            0 <= k < page@.len() && k < before.messages_left && is_wanted(
                #[trigger] page@[k],
                Some(before.document_id),
            ),
        r matches ScanAction::Found(l) ==> l.document_id == before.document_id,
        !(r is Found) ==> after.messages_left == if page@.len() < before.messages_left {
            before.messages_left - page@.len()
        } else {
            0
        },
        r matches ScanAction::Ask { delay_ms, offset_id } ==> delay_ms == 0 && page@.len() >= 100
            && after.messages_left > 0 && exists|k: int|
            0 <= k < page@.len() && (#[trigger] page@[k]).id == Some(offset_id),
{
    let looked = crate::telegram::session::within_limit(page@, before.messages_left);
    let wanted = Some(before.document_id);
    lemma_document(looked, wanted, 0);
    if let Some(l) = document_from(looked, wanted, 0) {
        let k = choose|k: int|
            0 <= k < looked.len() && is_wanted(#[trigger] looked[k], wanted) && l == location_of(
                looked[k].document->0,
            ) && forall|m: int| 0 <= m < k ==> !is_wanted(#[trigger] looked[m], wanted);
        assert(page@[k] == looked[k]);
    } else {
        assert forall|k: int| 0 <= k < page@.len() && k < before.messages_left implies !is_wanted(
            #[trigger] page@[k],
            wanted,
        ) by {
            assert(looked[k] == page@[k]);
        }
        lemma_least(page@, 0);
    }
}

/// The least number is that of a message.
proof fn lemma_least(messages: Seq<ChatMessage>, i: int)
    requires
        0 <= i <= messages.len(),
    ensures
        least_id(messages, i) matches Some(n) ==> exists|k: int|
            i <= k < messages.len() && (#[trigger] messages[k]).id == Some(n),
    decreases messages.len() - i,
{
    if i < messages.len() {
        lemma_least(messages, i + 1);
        if let Some(n) = least_id(messages, i) {
            if messages[i].id == Some(n) {
                assert(messages[i].id == Some(n));
            } else {
                let k = choose|k: int|
                    i + 1 <= k < messages.len() && (#[trigger] messages[k]).id == Some(n);
                assert(messages[k].id == Some(n));
            }
        }
    }
}

/// A range is streamed from the chunk that holds its start.
pub proof fn law_first_chunk(start: u64, end: u64, s: &RangeStream, next: Option<u64>)
    requires
        call_ensures(RangeStream::new, (start, end), *s),
        call_ensures(RangeStream::next_offset, (s,), next),
        start <= end < u64::MAX,
    ensures
        next matches Some(o) && o <= start && start - o < 524288 && o as int % 524288 == 0,
{
    let c = 524288int;
    vstd::arithmetic::div_mod::lemma_fundamental_div_mod(start as int, c);
    vstd::arithmetic::div_mod::lemma_mod_bound(start as int, c);
    vstd::arithmetic::div_mod::lemma_mod_multiples_basic(start as int / c, c);
    vstd::arithmetic::mul::lemma_mul_is_commutative(start as int / c, c);
}

} // verus!
