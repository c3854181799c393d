//! References to Telegram media: message links and Bot API file identifiers.

use vstd::prelude::*;

use crate::codec::{base64url_decode_exact, base64url_decoded};
use crate::text::{
    all_digits, before, before_char, chars, lemma_digits_prefix, parse_i64, parse_signed, split,
    split_text, same, strip_prefix, strip_prefix_text, texts, trim_end_char, trim_end_of,
};

verus! {

/// A chat.
#[derive(Debug)]
pub enum TelegramChat {
    /// A chat by its number.
    Id(i64),
    /// A public chat by its name.
    Username(String),
}

/// A chat, by its text.
pub enum ChatView {
    Id(i64),
    Username(Seq<char>),
}

impl View for TelegramChat {
    type V = ChatView;

    open spec fn view(&self) -> ChatView {
        match self {
            TelegramChat::Id(id) => ChatView::Id(*id),
            TelegramChat::Username(u) => ChatView::Username(u@),
        }
    }
}

/// What a link refers to.
#[derive(Debug)]
pub enum TelegramMediaRef {
    /// A message of a chat.
    Message {
        /// The chat.
        chat: TelegramChat,
        /// The message's number in it.
        message_id: i32,
    },
    /// A Bot API file identifier.
    FileId(String),
}

/// What a link refers to, by its texts.
pub enum MediaRefView {
    Message { chat: ChatView, message_id: i32 },
    FileId(Seq<char>),
}

impl View for TelegramMediaRef {
    type V = MediaRefView;

    open spec fn view(&self) -> MediaRefView {
        match self {
            TelegramMediaRef::Message { chat, message_id } => MediaRefView::Message {
                chat: chat@,
                message_id: *message_id,
            },
            TelegramMediaRef::FileId(f) => MediaRefView::FileId(f@),
        }
    }
}

/// The view of an optional reference.
pub open spec fn opt_ref(r: Option<TelegramMediaRef>) -> Option<MediaRefView> {
    match r {
        Some(m) => Some(m@),
        None => None,
    }
}

/// The path of a `t.me` link, without query, fragment and slashes at its end.
pub open spec fn link_path(url: Seq<char>) -> Option<Seq<char>> {
    let rest = match strip_prefix_text(url, "https://t.me/"@) {
        Some(r) => Some(r),
        None => match strip_prefix_text(url, "http://t.me/"@) {
            Some(r) => Some(r),
            None => strip_prefix_text(url, "t.me/"@),
        },
    };
    match rest {
        Some(r) => Some(trim_end_char(before_char(before_char(r, '?'), '#'), '/')),
        None => None,
    }
}

/// A message number: an `i32`.
pub open spec fn message_number(s: Seq<char>) -> Option<i32> {
    match parse_signed(s, i32::MIN as int, i32::MAX as int) {
        Some(n) => Some(n as i32),
        None => None,
    }
}

/// What a link refers to: `t.me/<name>/<message>` a message of a public chat,
/// `t.me/c/<chat>/<message>` one of a private chat.
pub open spec fn linked_media(url: Seq<char>) -> Option<MediaRefView> {
    match link_path(url) {
        None => None,
        Some(path) => {
            let parts = split_text(path, '/');
            if parts.len() == 3 && parts[0] == "c"@ {
                match (
                    parse_signed(parts[1], i64::MIN as int, i64::MAX as int),
                    message_number(parts[2]),
                ) {
                    (Some(id), Some(message_id)) => Some(
                        MediaRefView::Message { chat: ChatView::Id(id as i64), message_id },
                    ),
                    _ => None,
                }
            } else if parts.len() == 2 && parts[0].len() > 0 {
                match message_number(parts[1]) {
                    Some(message_id) => Some(
                        MediaRefView::Message { chat: ChatView::Username(parts[0]), message_id },
                    ),
                    None => None,
                }
            } else {
                None
            }
        },
    }
}

/// Reads an `i32`.
pub fn parse_i32(s: &str) -> (r: Option<i32>)
    ensures
        r == message_number(s@),
{
    proof {
        if s@.len() > 0 && all_digits(s@.skip(1)) {
            lemma_digits_prefix(s@.skip(1), 0);
        }
        if all_digits(s@) {
            lemma_digits_prefix(s@, 0);
        }
    }
    match parse_i64(s) {
        Some(n) => if -2147483648 <= n && n <= 2147483647 {
            Some(n as i32)
        } else {
            None
        },
        None => None,
    }
}

/// Reads a `t.me` link.
pub fn parse_telegram_url(url: &str) -> (r: Option<TelegramMediaRef>)
    ensures
        opt_ref(r) == linked_media(url@),
{
    let rest = match strip_prefix(url, "https://t.me/") {
        Some(rest) => rest,
        None => match strip_prefix(url, "http://t.me/") {
            Some(rest) => rest,
            None => match strip_prefix(url, "t.me/") {
                Some(rest) => rest,
                None => {
                    return None;
                },
            },
        },
    };
    let path = trim_end_of(before(before(rest.as_str(), '?').as_str(), '#').as_str(), '/');
    let parts = split(path.as_str(), '/');
    let ghost p = split_text(path@, '/');
    assert(p == texts(parts@));
    if parts.len() == 3 && same(parts[0].as_str(), "c") {
        assert(parts@[1]@ == p[1] && parts@[2]@ == p[2] && parts@[0]@ == p[0]);
        match (parse_i64(parts[1].as_str()), parse_i32(parts[2].as_str())) {
            (Some(id), Some(message_id)) => Some(
                TelegramMediaRef::Message { chat: TelegramChat::Id(id), message_id },
            ),
            _ => None,
        }
    } else if parts.len() == 2 && chars(parts[0].as_str()).len() > 0 {
        assert(parts@[0]@ == p[0] && parts@[1]@ == p[1]);
        match parse_i32(parts[1].as_str()) {
            Some(message_id) => Some(
                TelegramMediaRef::Message {
                    chat: TelegramChat::Username(parts[0].clone()),
                    message_id,
                },
            ),
            None => None,
        }
    } else {
        proof {
            if parts.len() > 0 {
                assert(parts@[0]@ == p[0]);
            }
        }
        None
    }
}

// ---------------------------------------------------------------------------
// File identifiers
// ---------------------------------------------------------------------------

/// What a file identifier carries.
pub struct DecodedFileId {
    pub id: i64,
    pub access_hash: i64,
    pub file_reference: Vec<u8>,
    pub dc_id: i32,
}

/// What a file identifier carries, by its bytes.
pub struct FileIdView {
    pub id: i64,
    pub access_hash: i64,
    pub file_reference: Seq<u8>,
    pub dc_id: i32,
}

impl View for DecodedFileId {
    type V = FileIdView;

    open spec fn view(&self) -> FileIdView {
        FileIdView {
            id: self.id,
            access_hash: self.access_hash,
            file_reference: self.file_reference@,
            dc_id: self.dc_id,
        }
    }
}

/// The view of an optional file identifier.
pub open spec fn opt_file_id(r: Option<DecodedFileId>) -> Option<FileIdView> {
    match r {
        Some(d) => Some(d@),
        None => None,
    }
}

/// Runs of zeros unpacked: a zero byte and the byte behind it stand for that
/// many zeros. A zero at the end stands for nothing.
pub open spec fn unpacked(s: Seq<u8>, i: int) -> Seq<u8>
    decreases s.len() - i,
{
    if i < 0 || i >= s.len() {
        Seq::empty()
    } else if s[i] != 0 {
        seq![s[i]] + unpacked(s, i + 1)
    } else if i + 1 >= s.len() {
        Seq::empty()
    } else if s[i + 1] == 0 {
        unpacked(s, i + 1)
    } else {
        Seq::new(s[i + 1] as nat, |k: int| 0u8) + unpacked(s, i + 2)
    }
}

/// The number in `n` bytes from `at` on, least significant byte first.
pub open spec fn little_endian(s: Seq<u8>, at: int, n: int) -> int
    decreases n,
{
    if n <= 0 {
        0
    } else {
        s[at] + 256 * little_endian(s, at + 1, n - 1)
    }
}

/// A number of 32 bits taken as signed.
pub open spec fn signed32(n: int) -> int {
    if n >= 0x8000_0000 {
        n - 0x1_0000_0000
    } else {
        n
    }
}

/// A number of 64 bits taken as signed.
pub open spec fn signed64(n: int) -> int {
    if n >= 0x8000_0000_0000_0000 {
        n - 0x1_0000_0000_0000_0000
    } else {
        n
    }
}

/// The body of a file identifier: its bytes without the version, which is one
/// byte before version 4 and two since.
pub open spec fn file_id_body(s: Seq<u8>) -> Option<Seq<u8>> {
    if s.len() == 0 {
        None
    } else if s.last() < 4 {
        Some(s.drop_last())
    } else if s.len() < 2 {
        None
    } else {
        Some(s.take(s.len() - 2))
    }
}

/// A byte string from `at` on: where its bytes begin, how many they are, and
/// where what follows begins. A length byte of up to 253 or 254 and three
/// length bytes stand before it, and it is filled up to a multiple of four.
pub open spec fn byte_string(s: Seq<u8>, at: int) -> Option<(int, int, int)> {
    if at >= s.len() {
        None
    } else if s[at] < 254 {
        let n = s[at] as int;
        Some((at + 1, n, at + (n + 4) / 4 * 4))
    } else if at + 4 > s.len() {
        None
    } else {
        let n = little_endian(s, at + 1, 3);
        Some((at + 4, n, at + 4 + (n + 3) / 4 * 4))
    }
}

/// What the body of a file identifier carries. Identifiers of web locations
/// carry no document.
pub open spec fn body_view(s: Seq<u8>) -> Option<FileIdView> {
    if s.len() < 8 {
        None
    } else {
        let kind = little_endian(s, 0, 4);
        let dc_id = signed32(little_endian(s, 4, 4)) as i32;
        let has_web = (kind / 0x100_0000) % 2 == 1;
        let has_reference = (kind / 0x200_0000) % 2 == 1;
        if has_web {
            None
        } else if has_reference {
            match byte_string(s, 8) {
                Some((from, n, next)) => if from + n <= s.len() && next + 16 <= s.len() {
                    Some(
                        FileIdView {
                            id: signed64(little_endian(s, next, 8)) as i64,
                            access_hash: signed64(little_endian(s, next + 8, 8)) as i64,
                            file_reference: s.subrange(from, from + n),
                            dc_id,
                        },
                    )
                } else {
                    None
                },
                None => None,
            }
        } else if s.len() < 24 {
            None
        } else {
            Some(
                FileIdView {
                    id: signed64(little_endian(s, 8, 8)) as i64,
                    access_hash: signed64(little_endian(s, 16, 8)) as i64,
                    file_reference: Seq::empty(),
                    dc_id,
                },
            )
        }
    }
}

/// What a file identifier carries.
pub open spec fn decoded_file_id(s: Seq<char>) -> Option<FileIdView> {
    match base64url_decoded(trim_end_char(s, '=')) {
        Err(_) => None,
        Ok(bytes) => match file_id_body(unpacked(bytes, 0)) {
            None => None,
            Some(body) => body_view(body),
        },
    }
}

/// Unpacks runs of zeros.
fn unpack(s: &Vec<u8>) -> (r: Vec<u8>)
    ensures
        r@ == unpacked(s@, 0),
{
    let mut out: Vec<u8> = Vec::new();
    let mut i: usize = 0;
    assert(out@ + unpacked(s@, 0) =~= unpacked(s@, 0));
    while i < s.len()
        invariant
            i <= s.len(),
            out@ + unpacked(s@, i as int) == unpacked(s@, 0),
        decreases s.len() - i,
    {
        let ghost before = out@;
        let ghost at = i as int;
        if s[i] != 0 {
            out.push(s[i]);
            i += 1;
            assert(out@ + unpacked(s@, i as int) =~= before + (seq![s@[at]] + unpacked(
                s@,
                i as int,
            )));
        } else if i + 1 >= s.len() {
            assert(before + Seq::<u8>::empty() =~= before);
            i += 1;
        } else if s[i + 1] == 0 {
            i += 1;
        } else {
            let n: u8 = s[i + 1];
            let mut k: u8 = 0;
            while k < n
                invariant
                    k <= n,
                    out@ == before + Seq::new(k as nat, |j: int| 0u8),
                decreases n - k,
            {
                out.push(0);
                k += 1;
                assert(out@ =~= before + Seq::new(k as nat, |j: int| 0u8));
            }
            i += 2;
            assert(out@ + unpacked(s@, i as int) =~= before + (Seq::new(n as nat, |j: int| 0u8)
                + unpacked(s@, i as int)));
        }
    }
    assert(out@ + Seq::<u8>::empty() =~= out@);
    out
}

/// A number of `n` bytes is below 256 to the power of `n`.
proof fn lemma_little_endian_bound(s: Seq<u8>, at: int, n: int)
    requires
        0 <= n <= 8,
    ensures
        0 <= little_endian(s, at, n) < vstd::arithmetic::power2::pow2((8 * n) as nat),
    decreases n,
{
    vstd::arithmetic::power2::lemma2_to64();
    if n > 0 {
        lemma_little_endian_bound(s, at + 1, n - 1);
        vstd::arithmetic::power2::lemma_pow2_adds((8 * (n - 1)) as nat, 8);
        let p = vstd::arithmetic::power2::pow2((8 * (n - 1)) as nat);
        let x = little_endian(s, at + 1, n - 1);
        assert(s[at] + 256 * x < p * 256) by (nonlinear_arith)
            requires
                0 <= s[at] < 256,
                0 <= x < p,
        ;
    }
}

/// Reads `n` bytes from `at` on, least significant byte first.
fn read_number(s: &Vec<u8>, at: usize, n: usize) -> (r: u64)
    requires
        n <= 8,
        at + n <= s.len(),
    ensures
        r == little_endian(s@, at as int, n as int),
        n <= 4 ==> r < 0x1_0000_0000,
        n <= 3 ==> r < 0x100_0000,
    decreases n,
{
    proof {
        lemma_little_endian_bound(s@, at as int, n as int);
        vstd::arithmetic::power2::lemma2_to64();
        vstd::arithmetic::power2::lemma2_to64_rest();
        if n < 4 {
            vstd::arithmetic::power2::lemma_pow2_strictly_increases((8 * n) as nat, 32);
        }
        if n < 3 {
            vstd::arithmetic::power2::lemma_pow2_strictly_increases((8 * n) as nat, 24);
        }
        if n < 8 {
            vstd::arithmetic::power2::lemma_pow2_strictly_increases((8 * n) as nat, 64);
        }
    }
    if n == 0 {
        return 0;
    }
    let high: u64 = read_number(s, at + 1, n - 1);
    assert(s@[at as int] + 256 * high == little_endian(s@, at as int, n as int));
    s[at] as u64 + 256 * high
}

/// Reads a signed number of four bytes.
fn read_i32(s: &Vec<u8>, at: usize) -> (r: i32)
    requires
        at + 4 <= s.len(),
    ensures
        r == signed32(little_endian(s@, at as int, 4)),
{
    let n: u64 = read_number(s, at, 4);
    if n >= 0x8000_0000 {
        (n as i64 - 0x1_0000_0000) as i32
    } else {
        n as i32
    }
}

/// Reads a signed number of eight bytes.
fn read_i64(s: &Vec<u8>, at: usize) -> (r: i64)
    requires
        at + 8 <= s.len(),
    ensures
        r == signed64(little_endian(s@, at as int, 8)),
{
    let n: u64 = read_number(s, at, 8);
    if n >= 0x8000_0000_0000_0000 {
        (n as i128 - 0x1_0000_0000_0000_0000) as i64
    } else {
        n as i64
    }
}

/// Reads the body of a file identifier.
fn read_body(s: &Vec<u8>) -> (r: Option<DecodedFileId>)
    ensures
        opt_file_id(r) == body_view(s@),
{
    if s.len() < 8 {
        return None;
    }
    let kind: u64 = read_number(s, 0, 4);
    let dc_id: i32 = read_i32(s, 4);
    if (kind / 0x100_0000) % 2 == 1 {
        return None;
    }
    if (kind / 0x200_0000) % 2 == 1 {
        if s.len() == 8 {
            return None;
        }
        let size: u64 = s.len() as u64;
        let from: u64;
        let n: u64;
        let next: u64;
        if s[8] < 254 {
            n = s[8] as u64;
            from = 9;
            next = 8 + (n + 4) / 4 * 4;
        } else {
            if s.len() < 12 {
                return None;
            }
            n = read_number(s, 9, 3);
            from = 12;
            next = 12 + (n + 3) / 4 * 4;
        }
        assert(byte_string(s@, 8) == Some((from as int, n as int, next as int)));
        if from + n > size || next + 16 > size {
            return None;
        }
        let at: usize = next as usize;
        let mut file_reference: Vec<u8> = Vec::new();
        let mut i: usize = from as usize;
        let end: usize = (from + n) as usize;
        while i < end
            invariant
                from <= i <= end <= s.len(),
                file_reference@ == s@.subrange(from as int, i as int),
            decreases end - i,
        {
            file_reference.push(s[i]);
            i += 1;
            assert(file_reference@ =~= s@.subrange(from as int, i as int));
        }
        return Some(
            DecodedFileId {
                id: read_i64(s, at),
                access_hash: read_i64(s, at + 8),
                file_reference,
                dc_id,
            },
        );
    }
    if s.len() < 24 {
        return None;
    }
    let file_reference: Vec<u8> = Vec::new();
    assert(file_reference@ =~= Seq::<u8>::empty());
    Some(
        DecodedFileId {
            id: read_i64(s, 8),
            access_hash: read_i64(s, 16),
            file_reference,
            dc_id,
        },
    )
}

/// Reads a Bot API file identifier.
pub fn decode_file_id(file_id: &str) -> (r: Option<DecodedFileId>)
    ensures
        opt_file_id(r) == decoded_file_id(file_id@),
{
    let bytes = match base64url_decode_exact(trim_end_of(file_id, '=').as_str()) {
        Ok(b) => b,
        Err(_) => {
            return None;
        },
    };
    let mut body = unpack(&bytes);
    let ghost all = body@;
    let n: usize = body.len();
    if n == 0 {
        return None;
    }
    if body[n - 1] < 4 {
        body.truncate(n - 1);
        assert(body@ =~= all.drop_last());
    } else if n < 2 {
        return None;
    } else {
        body.truncate(n - 2);
        assert(body@ =~= all.take(n - 2));
    }
    read_body(&body)
}

} // verus!
