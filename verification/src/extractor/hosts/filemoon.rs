//! FileMoon.

use vstd::prelude::*;

use crate::codec::{
    base64url_decode_exact, base64url_decoded, bytes_of, gcm_open, gcm_opened, json_check,
    json_error, json_has, json_has_at, json_len, json_len_at, json_string, json_string_at,
    json_text, json_text_at,
};
use crate::extractor::base::{
    extraction_failed, hls_stream, outcome, BaseExtractor, ExtractorError, ExtractorErrorView,
    ExtractorResult, ExtractorResultView,
};
use crate::string_map::{with_pair, Pairs, StringMap};
use crate::text::{
    after_last, after_last_char, chars, concat, decimal, decimal_text, replace, replace_text, same,
    trim_end_char, trim_end_of,
};
use crate::utils::url::{parse_url, parsed_url};

verus! {

/// The extractor of FileMoon.
pub struct FileMoonExtractor(pub BaseExtractor);

// ---------------------------------------------------------------------------
// The request
// ---------------------------------------------------------------------------

/// The video code of a page's path: its last segment, unless that is a kind of
/// page.
pub open spec fn video_code(path: Seq<char>) -> Option<Seq<char>> {
    let code = after_last_char(trim_end_char(path, '/'), '/');
    if code.len() == 0 || code == "e"@ || code == "d"@ {
        None
    } else {
        Some(code)
    }
}

/// The API URL of a page.
pub open spec fn api_url(url: Seq<char>) -> Result<Seq<char>, Seq<char>> {
    match parsed_url(url) {
        Err(e) => Err("invalid URL: "@ + e),
        Ok(parts) => match video_code(parts.path) {
            None => Err("could not extract video code from URL: "@ + url),
            Some(code) => match parts.host {
                None => Err("URL has no host"@),
                Some(host) => Ok(parts.scheme + "://"@ + host + "/api/videos/"@ + code),
            },
        },
    }
}

// ---------------------------------------------------------------------------
// The answer
// ---------------------------------------------------------------------------

/// A base64 text in the URL-safe alphabet and without padding.
pub open spec fn url_safe(s: Seq<char>) -> Seq<char> {
    trim_end_char(replace_text(replace_text(s, "+"@, "-"@), "/"@, "_"@), '=')
}

/// The bytes of a base64 text, with or without padding, or why there are none.
pub open spec fn decoded_bytes(s: Seq<char>) -> Result<Seq<u8>, Seq<char>> {
    match base64url_decoded(url_safe(s)) {
        Ok(b) => Ok(b),
        Err(e) => Err("base64url decode failed: "@ + e),
    }
}

/// The pointer of an element of an array.
pub open spec fn element(pointer: Seq<char>, i: int) -> Seq<char> {
    pointer + "/"@ + decimal(i)
}

/// The first `n` key parts, decoded and one behind the other.
pub open spec fn joined_key(doc: Seq<u8>, n: int) -> Result<Seq<u8>, Seq<char>>
    decreases n,
{
    if n <= 0 {
        Ok(Seq::empty())
    } else {
        match joined_key(doc, n - 1) {
            Err(e) => Err(e),
            Ok(rest) => match json_string_at(doc, element("/playback/key_parts"@, n - 1)) {
                None => Err("key_part is not a string"@),
                Some(part) => match decoded_bytes(part) {
                    Err(e) => Err(e),
                    Ok(b) => Ok(rest + b),
                },
            },
        }
    }
}

/// A decoded string of the playback object.
pub open spec fn playback_bytes(doc: Seq<u8>, pointer: Seq<char>, missing: Seq<char>) -> Result<
    Seq<u8>,
    Seq<char>,
> {
    match json_string_at(doc, pointer) {
        None => Err(missing),
        Some(s) => decoded_bytes(s),
    }
}

/// The plaintext of a playback object, or why there is none. The payload is the
/// ciphertext with its tag behind it.
pub open spec fn decrypted(doc: Seq<u8>) -> Result<Seq<u8>, Seq<char>> {
    match json_len_at(doc, "/playback/key_parts"@) {
        None => Err("playback.key_parts missing or not an array"@),
        Some(n) => match joined_key(doc, n as int) {
            Err(e) => Err(e),
            Ok(key) => match playback_bytes(doc, "/playback/iv"@, "playback.iv missing"@) {
                Err(e) => Err(e),
                Ok(iv) => match playback_bytes(
                    doc,
                    "/playback/payload"@,
                    "playback.payload missing"@,
                ) {
                    Err(e) => Err(e),
                    Ok(payload) => if key.len() != 32 {
                        Err("AES-256-GCM key init failed: Invalid Length"@)
                    } else if iv.len() != 12 {
                        Err(
                            "unexpected IV length: "@ + decimal(iv.len() as int)
                                + " (expected 12)"@,
                        )
                    } else {
                        match gcm_opened(key, iv, payload) {
                            None => Err("AES-256-GCM decryption failed"@),
                            Some(plain) => match json_error(plain) {
                                Some(e) => Err(
                                    "JSON parse of decrypted payload failed: "@ + e,
                                ),
                                None => Ok(plain),
                            },
                        }
                    },
                },
            },
        },
    }
}

/// The first source from `i` on that is an HLS playlist.
pub open spec fn hls_source(doc: Seq<u8>, n: int, i: int) -> Option<int>
    decreases n - i,
{
    if i >= n {
        None
    } else if json_string_at(doc, element("/sources"@, i) + "/mime_type"@) == Some(
        "application/vnd.apple.mpegurl"@,
    ) {
        Some(i)
    } else {
        hls_source(doc, n, i + 1)
    }
}

/// The stream URL of a decrypted document, or why there is none.
pub open spec fn source_url(doc: Seq<u8>) -> Result<Seq<char>, Seq<char>> {
    match json_len_at(doc, "/sources"@) {
        None => Err("FileMoon: decrypted payload has no sources"@),
        Some(n) => match hls_source(doc, n as int, 0) {
            None => Err("FileMoon: no HLS source found in decrypted playback"@),
            Some(i) => match json_string_at(doc, element("/sources"@, i) + "/url"@) {
                None => Err("FileMoon: HLS source has no url field"@),
                Some(u) => Ok(u),
            },
        },
    }
}

/// The stream URL of an API answer, or why there is none.
pub open spec fn answer_url(answer: Seq<u8>) -> Result<Seq<char>, Seq<char>> {
    match json_error(answer) {
        Some(e) => Err("FileMoon API JSON parse failed: "@ + e),
        None => match json_text_at(answer, "/error"@) {
            Some(e) => Err("FileMoon API error: "@ + e),
            None => if !json_has_at(answer, "/playback"@) {
                Err("FileMoon: no playback field in API response"@)
            } else if !json_has_at(answer, "/playback/key_parts"@) || !json_has_at(
                answer,
                "/playback/payload"@,
            ) {
                Err("FileMoon: playback data is incomplete (missing key_parts or payload)"@)
            } else {
                match decrypted(answer) {
                    Err(e) => Err(e),
                    Ok(doc) => source_url(doc),
                }
            },
        },
    }
}

/// What an API answer leads to.
pub open spec fn answer_stream(url: Seq<char>, answer: Seq<u8>, headers: Pairs) -> Result<
    ExtractorResultView,
    ExtractorErrorView,
> {
    match answer_url(answer) {
        Err(e) => extraction_failed(e),
        Ok(u) => hls_stream(u, with_pair(headers, "referer"@, url)),
    }
}

/// The outcome of a step, by its texts.
pub open spec fn bytes_view(r: Result<Vec<u8>, String>) -> Result<Seq<u8>, Seq<char>> {
    match r {
        Ok(b) => Ok(b@),
        Err(e) => Err(e@),
    }
}

/// The outcome of a step, by its texts.
pub open spec fn text_view(r: Result<String, String>) -> Result<Seq<char>, Seq<char>> {
    match r {
        Ok(t) => Ok(t@),
        Err(e) => Err(e@),
    }
}

/// Decodes base64 in the URL-safe or the standard alphabet, with or without
/// padding.
pub fn base64url_decode(input: &str) -> (r: Result<Vec<u8>, String>)
    ensures
        bytes_view(r) == decoded_bytes(input@),
{
    proof {
        reveal_strlit("+");
        reveal_strlit("/");
    }
    let plus = replace(input, "+", "-");
    let slash = replace(plus.as_str(), "/", "_");
    let stripped = trim_end_of(slash.as_str(), '=');
    match base64url_decode_exact(stripped.as_str()) {
        Ok(b) => Ok(b),
        Err(e) => Err(concat("base64url decode failed: ", e.as_str())),
    }
}

/// The pointer of an element of an array.
fn element_of(pointer: &str, i: usize) -> (r: String)
    ensures
        r@ == element(pointer@, i as int),
{
    let mut p = concat(pointer, "/");
    p.push_str(decimal_text(i as u64).as_str());
    p
}

/// A key part that cannot be decoded spoils the key.
proof fn lemma_spoiled_key(doc: Seq<u8>, i: int, n: int)
    requires
        0 <= i <= n,
        joined_key(doc, i) is Err,
    ensures
        joined_key(doc, n) == joined_key(doc, i),
    decreases n - i,
{
    if i < n {
        lemma_spoiled_key(doc, i, n - 1);
    }
}

/// Decodes the key parts and puts them one behind the other.
fn combine_key_parts(doc: &[u8], n: usize) -> (r: Result<Vec<u8>, String>)
    ensures
        bytes_view(r) == joined_key(doc@, n as int),
{
    let mut combined: Vec<u8> = Vec::new();
    let mut i: usize = 0;
    assert(combined@ =~= Seq::<u8>::empty());
    while i < n
        invariant
            i <= n,
            joined_key(doc@, i as int) matches Ok(k) && k == combined@,
        decreases n - i,
    {
        let part = match json_string(doc, element_of("/playback/key_parts", i).as_str()) {
            Some(p) => p,
            None => {
                proof {
                    lemma_spoiled_key(doc@, i + 1, n as int);
                }
                return Err("key_part is not a string".to_owned());
            },
        };
        match base64url_decode(part.as_str()) {
            Ok(b) => {
                let ghost before = combined@;
                combined.extend_from_slice(b.as_slice());
                assert(combined@ =~= before + b@);
            },
            Err(e) => {
                proof {
                    lemma_spoiled_key(doc@, i + 1, n as int);
                }
                return Err(e);
            },
        }
        i += 1;
    }
    Ok(combined)
}

/// Decodes a string of the playback object.
fn read_playback(doc: &[u8], pointer: &str, missing: &str) -> (r: Result<Vec<u8>, String>)
    ensures
        bytes_view(r) == playback_bytes(doc@, pointer@, missing@),
{
    match json_string(doc, pointer) {
        Some(s) => base64url_decode(s.as_str()),
        None => Err(missing.to_owned()),
    }
}

/// Decrypts the playback object of an API answer.
pub fn decrypt_playback(doc: &[u8]) -> (r: Result<Vec<u8>, String>)
    ensures
        bytes_view(r) == decrypted(doc@),
{
    let n: usize = match json_len(doc, "/playback/key_parts") {
        Some(n) => n,
        None => {
            return Err("playback.key_parts missing or not an array".to_owned());
        },
    };
    let key = match combine_key_parts(doc, n) {
        Ok(k) => k,
        Err(e) => {
            return Err(e);
        },
    };
    let iv = match read_playback(doc, "/playback/iv", "playback.iv missing") {
        Ok(b) => b,
        Err(e) => {
            return Err(e);
        },
    };
    let payload = match read_playback(doc, "/playback/payload", "playback.payload missing") {
        Ok(b) => b,
        Err(e) => {
            return Err(e);
        },
    };
    if key.len() != 32 {
        return Err("AES-256-GCM key init failed: Invalid Length".to_owned());
    }
    if iv.len() != 12 {
        let mut m = concat("unexpected IV length: ", decimal_text(iv.len() as u64).as_str());
        m.push_str(" (expected 12)");
        return Err(m);
    }
    match gcm_open(key.as_slice(), iv.as_slice(), payload.as_slice()) {
        None => Err("AES-256-GCM decryption failed".to_owned()),
        Some(plain) => match json_check(plain.as_slice()) {
            Some(e) => Err(concat("JSON parse of decrypted payload failed: ", e.as_str())),
            None => Ok(plain),
        },
    }
}

/// Finds the stream URL of a decrypted document.
fn find_source(doc: &[u8]) -> (r: Result<String, String>)
    ensures
        text_view(r) == source_url(doc@),
{
    let n: usize = match json_len(doc, "/sources") {
        Some(n) => n,
        None => {
            return Err("FileMoon: decrypted payload has no sources".to_owned());
        },
    };
    let mut i: usize = 0;
    while i < n
        invariant
            i <= n,
            json_len_at(doc@, "/sources"@) == Some(n as nat),
            hls_source(doc@, n as int, 0) == hls_source(doc@, n as int, i as int),
        decreases n - i,
    {
        let base = element_of("/sources", i);
        if let Some(mime) = json_string(doc, concat(base.as_str(), "/mime_type").as_str()) {
            if same(mime.as_str(), "application/vnd.apple.mpegurl") {
                return match json_string(doc, concat(base.as_str(), "/url").as_str()) {
                    Some(u) => Ok(u),
                    None => Err("FileMoon: HLS source has no url field".to_owned()),
                };
            }
        }
        i += 1;
    }
    Err("FileMoon: no HLS source found in decrypted playback".to_owned())
}

impl FileMoonExtractor {
    /// An extractor with headers for its results and a proxy for its requests.
    pub fn new(request_headers: StringMap, proxy_url: Option<String>) -> (r: Self)
        ensures
            r.0.base_headers == request_headers && r.0.proxy_url == proxy_url,
    {
        FileMoonExtractor(BaseExtractor::new(request_headers, proxy_url))
    }

    /// The host's name.
    pub fn host_name(&self) -> (r: &'static str)
        ensures
            r@ == "FileMoon"@,
    {
        "FileMoon"
    }

    /// The API URL of a page. It is requested with the page as referer.
    pub fn request_url(&self, url: &str) -> (r: Result<String, ExtractorError>)
        ensures
            match r {
                Ok(u) => api_url(url@) matches Ok(v) && u@ == v,
                Err(e) => api_url(url@) matches Err(v) && e@ == ExtractorErrorView::Extract(v),
            },
    {
        let parsed = match parse_url(url) {
            Ok(p) => p,
            Err(e) => {
                let m = concat("invalid URL: ", e.as_str());
                return Err(ExtractorError::extract(m.as_str()));
            },
        };
        let trimmed = trim_end_of(parsed.path.as_str(), '/');
        let code = after_last(trimmed.as_str(), '/');
        if chars(code.as_str()).len() == 0 || same(code.as_str(), "e") || same(
            code.as_str(),
            "d",
        ) {
            let m = concat("could not extract video code from URL: ", url);
            return Err(ExtractorError::extract(m.as_str()));
        }
        let host = match parsed.host {
            Some(h) => h,
            None => {
                return Err(ExtractorError::extract("URL has no host"));
            },
        };
        let mut api = parsed.scheme;
        api.push_str("://");
        api.push_str(host.as_str());
        api.push_str("/api/videos/");
        api.push_str(code.as_str());
        Ok(api)
    }

    /// What the API's answer for a page leads to.
    pub fn extract_answer(&self, url: &str, answer: &str) -> (r: Result<
        ExtractorResult,
        ExtractorError,
    >)
        ensures
            outcome(r) == answer_stream(
                url@,
                vstd::utf8::encode_utf8(answer@),
                self.0.base_headers@,
            ),
    {
        let bytes = bytes_of(answer);
        let data = bytes.as_slice();
        if let Some(e) = json_check(data) {
            let m = concat("FileMoon API JSON parse failed: ", e.as_str());
            return Err(ExtractorError::extract(m.as_str()));
        }
        if let Some(e) = json_text(data, "/error") {
            let m = concat("FileMoon API error: ", e.as_str());
            return Err(ExtractorError::extract(m.as_str()));
        }
        if !json_has(data, "/playback") {
            return Err(ExtractorError::extract("FileMoon: no playback field in API response"));
        }
        if !json_has(data, "/playback/key_parts") || !json_has(data, "/playback/payload") {
            return Err(
                ExtractorError::extract(
                    "FileMoon: playback data is incomplete (missing key_parts or payload)",
                ),
            );
        }
        let doc = match decrypt_playback(data) {
            Ok(d) => d,
            Err(e) => {
                return Err(ExtractorError::extract(e.as_str()));
            },
        };
        let stream = match find_source(doc.as_slice()) {
            Ok(u) => u,
            Err(e) => {
                return Err(ExtractorError::extract(e.as_str()));
            },
        };
        let mut headers = self.0.base_headers.clone();
        headers.insert("referer", url);
        Ok(
            ExtractorResult {
                destination_url: stream,
                request_headers: headers,
                mediaflow_endpoint: "hls_manifest_proxy",
            },
        )
    }
}

} // verus!
