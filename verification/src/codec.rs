//! Encodings that outside crates provide: percent-encoding, base64, JSON and
//! authenticated encryption.
//!
//! The wrappers in this file are believed, not proved. Each says which call it
//! makes and what is claimed of it.

use aes_gcm::aead::{Aead, AeadCore, KeyInit, OsRng};
use base64::Engine;
use vstd::prelude::*;

use crate::string_map::{lookup, pair_texts, unique_keys, Pairs};

verus! {

// ---------------------------------------------------------------------------
// Percent-encoding
// ---------------------------------------------------------------------------

/// The bytes that stand for themselves in a percent-encoded text.
pub open spec fn unreserved(b: u8) -> bool {
    ||| 48 <= b <= 57
    ||| 65 <= b <= 90
    ||| 97 <= b <= 122
    ||| b == 45
    ||| b == 46
    ||| b == 95
    ||| b == 126
}

/// A hexadecimal digit, in upper case.
pub open spec fn hex_digit(d: u8) -> char {
    if d < 10 {
        (48 + d) as u8 as char
    } else {
        (55 + d) as u8 as char
    }
}

/// One byte of a percent-encoded text.
pub open spec fn percent_byte(b: u8) -> Seq<char> {
    if unreserved(b) {
        seq![b as char]
    } else {
        seq!['%', hex_digit(b / 16), hex_digit(b % 16)]
    }
}

/// Bytes in percent-encoding.
pub open spec fn percent_bytes(bytes: Seq<u8>) -> Seq<char>
    decreases bytes.len(),
{
    if bytes.len() == 0 {
        Seq::empty()
    } else {
        percent_bytes(bytes.drop_last()) + percent_byte(bytes.last())
    }
}

/// The UTF-8 bytes of a text in percent-encoding.
pub open spec fn percent_encoded(s: Seq<char>) -> Seq<char> {
    percent_bytes(vstd::utf8::encode_utf8(s))
}

/// `urlencoding::encode`: every byte of the UTF-8 text but ASCII letters,
/// digits, `-`, `_`, `.` and `~` becomes `%` and two upper case hexadecimal
/// digits.
#[verifier::external_body]
pub(crate) fn percent_encode(s: &str) -> (r: String)
    ensures
        r@ == percent_encoded(s@),
{
    urlencoding::encode(s).into_owned()
}

// ---------------------------------------------------------------------------
// Text and bytes
// ---------------------------------------------------------------------------

/// `std::str::from_utf8`: the text that the bytes encode, where they are valid
/// UTF-8.
#[verifier::external_body]
pub(crate) fn utf8_text(bytes: &[u8]) -> (r: Option<String>)
    ensures
        r is Some <==> vstd::utf8::valid_utf8(bytes@),
        r matches Some(t) ==> t@ == vstd::utf8::decode_utf8(bytes@),
{
    std::str::from_utf8(bytes).ok().map(String::from)
}

/// The text that the bytes encode, or the empty text where they are not valid
/// UTF-8.
pub open spec fn text_or_empty(bytes: Seq<u8>) -> Seq<char> {
    if vstd::utf8::valid_utf8(bytes) {
        vstd::utf8::decode_utf8(bytes)
    } else {
        Seq::empty()
    }
}

/// The text that the bytes encode, or the empty text where they are not valid
/// UTF-8.
pub fn utf8_or_empty(bytes: &[u8]) -> (r: String)
    ensures
        r@ == text_or_empty(bytes@),
{
    match utf8_text(bytes) {
        Some(t) => t,
        None => {
            let r = String::new();
            assert(r@ =~= Seq::<char>::empty());
            r
        },
    }
}

/// The UTF-8 bytes of a text.
pub fn bytes_of(s: &str) -> (r: Vec<u8>)
    ensures
        r@ == vstd::utf8::encode_utf8(s@),
{
    broadcast use vstd::string::group_string_axioms;

    s.as_bytes_vec()
}

// ---------------------------------------------------------------------------
// Base64
// ---------------------------------------------------------------------------

/// Bytes in the URL-safe base64 alphabet, without padding.
pub uninterp spec fn base64url_encoded(bytes: Seq<u8>) -> Seq<char>;

/// The bytes that a URL-safe base64 text without padding stands for, or the
/// decoder's message on why it stands for none.
pub uninterp spec fn base64url_decoded(s: Seq<char>) -> Result<Seq<u8>, Seq<char>>;

/// The characters of the URL-safe base64 alphabet.
pub open spec fn is_base64url_char(c: char) -> bool {
    ||| 'a' <= c && c <= 'z'
    ||| 'A' <= c && c <= 'Z'
    ||| '0' <= c && c <= '9'
    ||| c == '-'
    ||| c == '_'
}

/// Every character is of the URL-safe base64 alphabet.
pub open spec fn all_base64url(s: Seq<char>) -> bool {
    forall|i: int| 0 <= i < s.len() ==> is_base64url_char(#[trigger] s[i])
}

/// The outcome of a decoder, by its texts.
pub open spec fn decoded_view(r: Result<Vec<u8>, String>) -> Result<Seq<u8>, Seq<char>> {
    match r {
        Ok(b) => Ok(b@),
        Err(e) => Err(e@),
    }
}

/// The outcome of a decoder that succeeds with `bytes`.
pub open spec fn decoded_to(bytes: Seq<u8>) -> Result<Seq<u8>, Seq<char>> {
    Ok(bytes)
}

/// `encode` of base64's `URL_SAFE_NO_PAD` engine. Claimed: the text is made of
/// the alphabet `A-Z a-z 0-9 - _` alone, and the same engine's `decode` gives
/// the bytes back.
#[verifier::external_body]
pub(crate) fn base64url_encode(bytes: &[u8]) -> (r: String)
    ensures
        r@ == base64url_encoded(bytes@),
        all_base64url(r@),
        base64url_decoded(r@) == decoded_to(bytes@),
{
    base64::engine::general_purpose::URL_SAFE_NO_PAD.encode(bytes)
}

/// `decode` of base64's `URL_SAFE_NO_PAD` engine, with the error by its text.
#[verifier::external_body]
pub(crate) fn base64url_decode_exact(s: &str) -> (r: Result<Vec<u8>, String>)
    ensures
        decoded_view(r) == base64url_decoded(s@),
{
    base64::engine::general_purpose::URL_SAFE_NO_PAD.decode(s).map_err(|e| e.to_string())
}

/// The bytes that a URL-safe base64 text with its padding stands for.
pub uninterp spec fn base64url_padded_decoded(s: Seq<char>) -> Option<Seq<u8>>;

/// The bytes of an optional vector.
pub open spec fn opt_bytes(r: Option<Vec<u8>>) -> Option<Seq<u8>> {
    match r {
        Some(b) => Some(b@),
        None => None,
    }
}

/// `decode` of base64's `URL_SAFE` engine, which takes canonical padding.
#[verifier::external_body]
pub(crate) fn base64url_decode_padded(s: &str) -> (r: Option<Vec<u8>>)
    ensures
        opt_bytes(r) == base64url_padded_decoded(s@),
{
    base64::engine::general_purpose::URL_SAFE.decode(s).ok()
}

// ---------------------------------------------------------------------------
// Authenticated encryption
// ---------------------------------------------------------------------------

/// AES-256-GCM: the ciphertext with its tag behind it.
pub uninterp spec fn gcm_sealed(key: Seq<u8>, nonce: Seq<u8>, plain: Seq<u8>) -> Option<Seq<u8>>;

/// AES-256-GCM: the plaintext of a ciphertext with its tag behind it, where the
/// tag is authentic.
pub uninterp spec fn gcm_opened(key: Seq<u8>, nonce: Seq<u8>, sealed: Seq<u8>) -> Option<Seq<u8>>;

/// `encrypt` of aes-gcm's `Aes256Gcm`. It fails on plaintexts of over 2^36
/// bytes alone. Claimed besides: what it returns is longer than the plaintext
/// by the 16 bytes of the tag, and `decrypt` opens it again.
#[verifier::external_body]
pub(crate) fn gcm_seal(key: &[u8], nonce: &[u8], plain: &[u8]) -> (r: Option<Vec<u8>>)
    requires
        key@.len() == 32,
        nonce@.len() == 12,
    ensures
        opt_bytes(r) == gcm_sealed(key@, nonce@, plain@),
        r is Some <==> plain@.len() <= 0x10_0000_0000,
        r matches Some(sealed) ==> sealed@.len() == plain@.len() + 16,
        r matches Some(sealed) ==> gcm_opened(key@, nonce@, sealed@) == Some(plain@),
{
    let cipher = aes_gcm::Aes256Gcm::new(aes_gcm::Key::<aes_gcm::Aes256Gcm>::from_slice(key));
    cipher.encrypt(aes_gcm::Nonce::from_slice(nonce), plain).ok()
}

/// `decrypt` of aes-gcm's `Aes256Gcm`.
#[verifier::external_body]
pub(crate) fn gcm_open(key: &[u8], nonce: &[u8], sealed: &[u8]) -> (r: Option<Vec<u8>>)
    requires
        key@.len() == 32,
        nonce@.len() == 12,
    ensures
        opt_bytes(r) == gcm_opened(key@, nonce@, sealed@),
{
    let cipher = aes_gcm::Aes256Gcm::new(aes_gcm::Key::<aes_gcm::Aes256Gcm>::from_slice(key));
    cipher.decrypt(aes_gcm::Nonce::from_slice(nonce), sealed).ok()
}

/// `generate_nonce` of aes-gcm's `Aes256Gcm`, from the system's random source:
/// twelve bytes, of which nothing else is known.
#[verifier::external_body]
pub(crate) fn gcm_nonce() -> (r: Vec<u8>)
    ensures
        r@.len() == 12,
{
    aes_gcm::Aes256Gcm::generate_nonce(&mut OsRng).to_vec()
}

// ---------------------------------------------------------------------------
// JSON
// ---------------------------------------------------------------------------

/// The parser's message on bytes that are no JSON document.
pub uninterp spec fn json_error(bytes: Seq<u8>) -> Option<Seq<char>>;

/// Whether a JSON document holds a value at a JSON pointer.
pub uninterp spec fn json_has_at(bytes: Seq<u8>, pointer: Seq<char>) -> bool;

/// The value at a JSON pointer, written as compact JSON.
pub uninterp spec fn json_text_at(bytes: Seq<u8>, pointer: Seq<char>) -> Option<Seq<char>>;

/// The string at a JSON pointer.
pub uninterp spec fn json_string_at(bytes: Seq<u8>, pointer: Seq<char>) -> Option<Seq<char>>;

/// The unsigned number at a JSON pointer.
pub uninterp spec fn json_u64_at(bytes: Seq<u8>, pointer: Seq<char>) -> Option<u64>;

/// The length of the array at a JSON pointer.
pub uninterp spec fn json_len_at(bytes: Seq<u8>, pointer: Seq<char>) -> Option<nat>;

/// The members of the object at a JSON pointer, each with its value where that
/// is a string.
pub uninterp spec fn json_entries_at(bytes: Seq<u8>, pointer: Seq<char>) -> Option<
    Map<Seq<char>, Option<Seq<char>>>,
>;

/// `serde_json::from_slice` into a `Value`: `None` where the bytes are a JSON
/// document, else the error by its text.
#[verifier::external_body]
pub(crate) fn json_check(bytes: &[u8]) -> (r: Option<String>)
    ensures
        crate::text::opt_text(r) == json_error(bytes@),
{
    serde_json::from_slice::<serde_json::Value>(bytes).err().map(|e| e.to_string())
}

/// `serde_json::Value::pointer` on the parsed document: whether it finds a
/// value.
#[verifier::external_body]
pub(crate) fn json_has(bytes: &[u8], pointer: &str) -> (r: bool)
    ensures
        r == json_has_at(bytes@, pointer@),
{
    serde_json::from_slice::<serde_json::Value>(bytes).is_ok_and(|v| v.pointer(pointer).is_some())
}

/// `to_string` of the `serde_json::Value` that `pointer` finds.
#[verifier::external_body]
pub(crate) fn json_text(bytes: &[u8], pointer: &str) -> (r: Option<String>)
    ensures
        crate::text::opt_text(r) == json_text_at(bytes@, pointer@),
{
    let value = serde_json::from_slice::<serde_json::Value>(bytes).ok()?;
    value.pointer(pointer).map(|v| v.to_string())
}

/// `as_str` of the `serde_json::Value` that `pointer` finds.
#[verifier::external_body]
pub(crate) fn json_string(bytes: &[u8], pointer: &str) -> (r: Option<String>)
    ensures
        crate::text::opt_text(r) == json_string_at(bytes@, pointer@),
{
    let value = serde_json::from_slice::<serde_json::Value>(bytes).ok()?;
    value.pointer(pointer)?.as_str().map(String::from)
}

/// `as_u64` of the `serde_json::Value` that `pointer` finds.
#[verifier::external_body]
pub(crate) fn json_u64(bytes: &[u8], pointer: &str) -> (r: Option<u64>)
    ensures
        r == json_u64_at(bytes@, pointer@),
{
    let value = serde_json::from_slice::<serde_json::Value>(bytes).ok()?;
    value.pointer(pointer)?.as_u64()
}

/// `as_array` of the `serde_json::Value` that `pointer` finds: its length.
#[verifier::external_body]
pub(crate) fn json_len(bytes: &[u8], pointer: &str) -> (r: Option<usize>)
    ensures
        match r {
            Some(n) => json_len_at(bytes@, pointer@) == Some(n as nat),
            None => json_len_at(bytes@, pointer@) is None,
        },
{
    let value = serde_json::from_slice::<serde_json::Value>(bytes).ok()?;
    value.pointer(pointer)?.as_array().map(|a| a.len())
}

/// A list of members, by their texts.
pub open spec fn entry_texts(v: Seq<(String, Option<String>)>) -> Seq<
    (Seq<char>, Option<Seq<char>>),
> {
    Seq::new(v.len(), |i: int| (v[i].0@, crate::text::opt_text(v[i].1)))
}

/// A map lists exactly the members of `s`, each once.
pub open spec fn lists_entries(
    s: Seq<(Seq<char>, Option<Seq<char>>)>,
    m: Map<Seq<char>, Option<Seq<char>>>,
) -> bool {
    &&& forall|i: int, j: int| 0 <= i < j < s.len() ==> (#[trigger] s[i]).0 != (#[trigger] s[j]).0
    &&& forall|i: int|
        0 <= i < s.len() ==> m.contains_key((#[trigger] s[i]).0) && m[s[i].0] == s[i].1
    &&& forall|k: Seq<char>| #[trigger]
        m.contains_key(k) ==> exists|i: int| 0 <= i < s.len() && (#[trigger] s[i]).0 == k
}

/// `as_object` of the `serde_json::Value` that `pointer` finds: its members,
/// each once, with `as_str` of each value. The order of the list is left open.
#[verifier::external_body]
pub(crate) fn json_entries(bytes: &[u8], pointer: &str) -> (r: Option<
    Vec<(String, Option<String>)>,
>)
    ensures
        match r {
            Some(v) => json_entries_at(bytes@, pointer@) matches Some(m) && lists_entries(
                entry_texts(v@),
                m,
            ),
            None => json_entries_at(bytes@, pointer@) is None,
        },
{
    let value = serde_json::from_slice::<serde_json::Value>(bytes).ok()?;
    let members = value.pointer(pointer)?.as_object()?;
    Some(members.iter().map(|(k, v)| (k.clone(), v.as_str().map(String::from))).collect())
}

/// The texts of a list of named objects.
pub open spec fn object_texts(v: Seq<(String, Vec<(String, String)>)>) -> Seq<
    (Seq<char>, Pairs),
> {
    Seq::new(v.len(), |i: int| (v[i].0@, pair_texts(v[i].1@)))
}

/// A name that stands for itself in a JSON pointer.
pub open spec fn plain_name(k: Seq<char>) -> bool {
    !k.contains('/') && !k.contains('~')
}

/// The pointer of a top level member.
pub open spec fn member(k: Seq<char>) -> Seq<char> {
    seq!['/'] + k
}

/// The object's members are the pairs.
pub open spec fn string_members(p: Pairs, m: Map<Seq<char>, Option<Seq<char>>>) -> bool {
    &&& forall|i: int|
        0 <= i < p.len() ==> m.contains_key((#[trigger] p[i]).0) && m[p[i].0] == Some(p[i].1)
    &&& forall|k: Seq<char>| #[trigger]
        m.contains_key(k) ==> exists|i: int| 0 <= i < p.len() && (#[trigger] p[i]).0 == k
}

/// No name stands twice among the members of an object that is to be written.
pub open spec fn unique_members(
    strings: Pairs,
    numbers: Seq<(Seq<char>, u64)>,
    objects: Seq<(Seq<char>, Pairs)>,
) -> bool {
    &&& unique_keys(strings)
    &&& forall|i: int, j: int| 0 <= i < j < numbers.len() ==> numbers[i].0 != numbers[j].0
    &&& forall|i: int, j: int| 0 <= i < j < objects.len() ==> objects[i].0 != objects[j].0
    &&& forall|i: int, j: int|
        0 <= i < strings.len() && 0 <= j < numbers.len() ==> strings[i].0 != numbers[j].0
    &&& forall|i: int, j: int|
        0 <= i < strings.len() && 0 <= j < objects.len() ==> strings[i].0 != objects[j].0
    &&& forall|i: int, j: int|
        0 <= i < numbers.len() && 0 <= j < objects.len() ==> numbers[i].0 != objects[j].0
    &&& forall|i: int| 0 <= i < objects.len() ==> unique_keys(#[trigger] objects[i].1)
}

/// The string members of a document are the given ones.
pub open spec fn reads_strings(bytes: Seq<u8>, strings: Pairs) -> bool {
    forall|k: Seq<char>|
        plain_name(k) ==> #[trigger] json_string_at(bytes, member(k)) == lookup(strings, k)
}

/// The number of the first pair with key `k`, from position `i` on.
pub open spec fn number_from(s: Seq<(Seq<char>, u64)>, k: Seq<char>, i: int) -> Option<u64>
    decreases s.len() - i,
{
    if i < 0 || i >= s.len() {
        None
    } else if s[i].0 == k {
        Some(s[i].1)
    } else {
        number_from(s, k, i + 1)
    }
}

/// The number members of a document are the given ones.
pub open spec fn reads_numbers(bytes: Seq<u8>, numbers: Seq<(Seq<char>, u64)>) -> bool {
    forall|k: Seq<char>|
        plain_name(k) ==> #[trigger] json_u64_at(bytes, member(k)) == number_from(numbers, k, 0)
}

/// The object of the first pair with key `k`, from position `i` on.
pub open spec fn object_from(s: Seq<(Seq<char>, Pairs)>, k: Seq<char>, i: int) -> Option<Pairs>
    decreases s.len() - i,
{
    if i < 0 || i >= s.len() {
        None
    } else if s[i].0 == k {
        Some(s[i].1)
    } else {
        object_from(s, k, i + 1)
    }
}

/// The object members of a document are the given ones.
pub open spec fn reads_objects(bytes: Seq<u8>, objects: Seq<(Seq<char>, Pairs)>) -> bool {
    forall|k: Seq<char>|
        plain_name(k) ==> match object_from(objects, k, 0) {
            Some(p) => (#[trigger] json_entries_at(bytes, member(k))) matches Some(m)
                && string_members(p, m),
            None => json_entries_at(bytes, member(k)) is None,
        }
}

/// The texts of a list of named numbers.
pub open spec fn number_texts(v: Seq<(String, u64)>) -> Seq<(Seq<char>, u64)> {
    Seq::new(v.len(), |i: int| (v[i].0@, v[i].1))
}

/// `serde_json::to_vec` of an object with the given string, number and object
/// members. Claimed: reading a member of it back by its pointer gives what was
/// put in, and a name that was not put in is absent.
#[verifier::external_body]
pub(crate) fn json_object(
    strings: &Vec<(String, String)>,
    numbers: &Vec<(String, u64)>,
    objects: &Vec<(String, Vec<(String, String)>)>,
) -> (r: Vec<u8>)
    requires
        unique_members(pair_texts(strings@), number_texts(numbers@), object_texts(objects@)),
    ensures
        reads_strings(r@, pair_texts(strings@)),
        reads_numbers(r@, number_texts(numbers@)),
        reads_objects(r@, object_texts(objects@)),
{
    let mut m = serde_json::Map::new();
    m.extend(strings.iter().map(|p| (p.0.clone(), serde_json::Value::from(p.1.clone()))));
    m.extend(numbers.iter().map(|p| (p.0.clone(), serde_json::Value::from(p.1))));
    m.extend(objects.iter().map(|o| (o.0.clone(), o.1.iter().cloned().collect())));
    serde_json::to_vec(&m).unwrap_or_default()
}

} // verus!
