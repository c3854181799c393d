//! Laws on the extraction of streams from the pages of video hosts.

use vstd::prelude::*;
use vstd::utf8::encode_utf8;

use crate::codec::{
    base64url_decoded, gcm_opened, json_error, json_has_at, json_len_at, json_string_at,
    json_text_at,
};
use crate::extractor::base::{check_page_status, ExtractorError, ExtractorResult};
use crate::extractor::factory::{get_extractor, ExtractorChoice, HostKind};
use crate::extractor::hosts::filemoon::{
    base64url_decode, decoded_bytes, decrypt_playback, hls_source, joined_key, url_safe,
    FileMoonExtractor,
};
use crate::extractor::hosts::maxstream::{
    chain_page, chain_step, comma_list, first_single, host_name_of, occurrences, parse_uprot_html,
    term_from, unpack_player_terms, url_host, ChainStep, MaxstreamExtractor,
};
use crate::extractor::hosts::streamhg::StreamHGExtractor;
use crate::extractor::hosts::vidmoly::VidmolyExtractor;
use crate::extractor::patterns::{all_groups, group_of, without_matches};
use crate::laws::texts::{
    lemma_cut, lemma_prefix, lemma_replaced_nowhere, lemma_replaced_once, lemma_uncut,
};
use crate::string_map::{lemma_with_pair, lookup, Pairs, StringMap};
use crate::text::{
    contains, decimal, ends_with, find_from, lemma_find_from, lowercase, matches_at, opt_text,
    replace_first_text, replace_from, replace_text, starts_with, texts, trim_end_char,
};
use crate::utils::url::{parsed_url, UrlParts};

verus! {

// ---------------------------------------------------------------------------
// The choice of an extractor
// ---------------------------------------------------------------------------

/// A host is chosen by its name, letter case aside, with the headers and the proxy
/// that are handed in.
pub proof fn law_extractor_choice(
    host: &str,
    headers: StringMap,
    proxy: Option<String>,
    byparr: Option<String>,
    timeout: u64,
    out: Result<ExtractorChoice, ExtractorError>,
)
    requires
        call_ensures(get_extractor, (host, headers, proxy, byparr, timeout), out),
    ensures
        out matches Ok(c) ==> c.request_headers == headers && c.proxy_url == proxy,
        lowercase(host@) == "filemoon"@ ==> (out matches Ok(c) && c.kind == HostKind::FileMoon),
        lowercase(host@) == "maxstream"@ ==> (out matches Ok(c) && c.kind == HostKind::Maxstream),
        lowercase(host@) == "streamhg"@ ==> (out matches Ok(c) && c.kind == HostKind::StreamHG),
        lowercase(host@) == "vidmoly"@ ==> (out matches Ok(c) && c.kind == HostKind::Vidmoly),
        lowercase(host@) == "doodstream"@ ==> (out matches Ok(c) && c.kind == HostKind::DoodStream
            && (c.byparr matches Some(b) && b.url == byparr && b.timeout == timeout)),
        lowercase(host@).len() == 0 ==> out is Err,
{
    reveal_strlit("doodstream");
    reveal_strlit("city");
    reveal_strlit("filelions");
    reveal_strlit("filemoon");
    reveal_strlit("f16px");
    reveal_strlit("gupload");
    reveal_strlit("uqload");
    reveal_strlit("mixdrop");
    reveal_strlit("streamtape");
    reveal_strlit("streamwish");
    reveal_strlit("supervideo");
    reveal_strlit("turbovidplay");
    reveal_strlit("vixcloud");
    reveal_strlit("okru");
    reveal_strlit("maxstream");
    reveal_strlit("livetv");
    reveal_strlit("lulustream");
    reveal_strlit("vavoo");
    reveal_strlit("vidmoly");
    reveal_strlit("vidoza");
    reveal_strlit("fastream");
    reveal_strlit("voe");
    reveal_strlit("sportsonline");
    reveal_strlit("streamhg");
    reveal_strlit("vidfast");
    let l = lowercase(host@);
    let f = "filemoon"@;
    assert(f.len() == 8 && f[0] == 'f' && f[4] == 'm');
    let m = "maxstream"@;
    assert(m.len() == 9 && m[0] == 'm');
    let s = "streamhg"@;
    assert(s.len() == 8 && s[0] == 's');
    let v = "vidmoly"@;
    assert(v.len() == 7 && v[0] == 'v' && v[3] == 'm');
    assert("vidfast"@[3] == 'f' && "fastream"@[1] == 'a' && f[1] == 'i');
    assert("vixcloud"@.len() == 8 && "uqload"@.len() == 6 && "mixdrop"@[0] == 'm');
}

/// Pages with an error status are errors.
pub proof fn law_page_statuses(status: u16, url: &str, out: Result<(), ExtractorError>)
    requires
        call_ensures(check_page_status, (status, url), out),
    ensures
        out is Err <==> status >= 400,
{
}

// ---------------------------------------------------------------------------
// StreamHG and Vidmoly
// ---------------------------------------------------------------------------

/// A stream URL that stands in the page, or else in its packed script, is what the
/// page leads to, with the extractor's own headers, as an HLS stream.
pub proof fn law_streamhg_pages(
    headers: StringMap,
    proxy: Option<String>,
    extractor: &StreamHGExtractor,
    html: &str,
    found: Option<String>,
    out: Result<ExtractorResult, ExtractorError>,
)
    requires
        call_ensures(StreamHGExtractor::new, (headers, proxy), *extractor),
        call_ensures(StreamHGExtractor::find_hls2, (html,), found),
        call_ensures(StreamHGExtractor::extract_page, (extractor, html), out),
    ensures
        found matches Some(u) ==> (out matches Ok(r) && r.destination_url@ == found->0@
            && r.request_headers@ == headers@ && r.mediaflow_endpoint@ == "hls_manifest_proxy"@),
        found is None && !contains(html@, "eval(function(p,a,c,k,e,"@) ==> out is Err,
        group_of("\"hls2\":\"([^\"]+)\""@, html@, 1) matches Some(g) ==> found is Some && (
        !contains(group_of("\"hls2\":\"([^\"]+)\""@, html@, 1)->0, "\\/"@) ==> opt_text(found)
            == group_of("\"hls2\":\"([^\"]+)\""@, html@, 1)),
{
    reveal_strlit("\\/");
    if let Some(g) = group_of("\"hls2\":\"([^\"]+)\""@, html@, 1) {
        if !contains(g, "\\/"@) {
            lemma_replaced_nowhere(g, "\\/"@, "/"@);
        }
    }
}

/// An escaped slash of a stream URL stands for a slash.
pub proof fn law_streamhg_slashes(
    html: &str,
    found: Option<String>,
    a: Seq<char>,
    b: Seq<char>,
)
    requires
        call_ensures(StreamHGExtractor::find_hls2, (html,), found),
        group_of("\"hls2\":\"([^\"]+)\""@, html@, 1) == Some(a + "\\/"@ + b),
        !contains(a, "\\/"@) && !contains(b, "\\/"@),
    ensures
        opt_text(found) == Some(a + "/"@ + b),
{
    reveal_strlit("\\/");
    lemma_replaced_once(a, "\\/"@, b, "/"@);
}

/// The first source of a page is what it leads to where it is a web URL.
pub proof fn law_vidmoly_pages(
    extractor: &VidmolyExtractor,
    headers: StringMap,
    html: &str,
    out: Result<ExtractorResult, ExtractorError>,
)
    requires
        call_ensures(VidmolyExtractor::extract_page, (extractor, headers, html), out),
    ensures
        ({
            let g = group_of(
                "sources\\s*:\\s*\\[\\s*\\{\\s*file\\s*:\\s*['\"]([^'\"]+)"@,
                html@,
                1,
            );
            &&& out is Ok <==> (g matches Some(u) && starts_with(u, "http"@))
            &&& out matches Ok(r) ==> Some(r.destination_url@) == g && r.request_headers@
                == headers@ && r.mediaflow_endpoint@ == "hls_manifest_proxy"@
        }),
{
}

/// The headers of a page request name the page and carry the cookie of its
/// identifier.
pub proof fn law_vidmoly_headers(
    extractor: &VidmolyExtractor,
    url: &str,
    out: Result<StringMap, ExtractorError>,
)
    requires
        call_ensures(VidmolyExtractor::request_headers, (extractor, url), out),
    ensures
        ({
            let id = group_of("/embed-([a-zA-Z0-9]+)\\.html"@, url@, 1);
            &&& out is Ok <==> id is Some
            &&& out matches Ok(h) ==> lookup(h@, "referer"@) == Some(url@) && lookup(
                h@,
                "cookie"@,
            ) == Some("cf_turnstile_demo_pass_"@ + id->0 + "=1"@)
        }),
{
    if let Ok(h) = out {
        let id = group_of("/embed-([a-zA-Z0-9]+)\\.html"@, url@, 1)->0;
        lemma_page_headers(url@, id);
    }
}

/// The headers of a page request.
proof fn lemma_page_headers(url: Seq<char>, id: Seq<char>)
    ensures
        lookup(crate::extractor::hosts::vidmoly::page_headers(url, id), "referer"@) == Some(url),
        lookup(crate::extractor::hosts::vidmoly::page_headers(url, id), "cookie"@) == Some(
            "cf_turnstile_demo_pass_"@ + id + "=1"@,
        ),
{
    reveal_strlit("referer");
    reveal_strlit("cookie");
    reveal_strlit("user-agent");
    reveal_strlit("accept");
    reveal_strlit("accept-language");
    reveal_strlit("connection");
    reveal_strlit("sec-fetch-dest");
    reveal_strlit("sec-fetch-mode");
    reveal_strlit("sec-fetch-site");
    assert("sec-fetch-dest"@[0] == 's' && "sec-fetch-mode"@[0] == 's' && "sec-fetch-site"@[0]
        == 's');
    assert("referer"@[0] == 'r' && "cookie"@[0] == 'c');
    let none: Pairs = Seq::empty();
    let ua = "Mozilla/5.0 (Windows NT 10.0; Win64; x64) AppleWebKit/537.36 (KHTML, like Gecko) Chrome/120 Safari/537.36"@;
    let ac = "text/html,application/xhtml+xml,application/xml;q=0.9,image/avif,image/webp,*/*;q=0.8"@;
    let ck = "cf_turnstile_demo_pass_"@ + id + "=1"@;
    lemma_with_pair(none, "user-agent"@, ua);
    let a = crate::string_map::with_pair(none, "user-agent"@, ua);
    lemma_with_pair(a, "accept"@, ac);
    let b = crate::string_map::with_pair(a, "accept"@, ac);
    lemma_with_pair(b, "accept-language"@, "en-US,en;q=0.5"@);
    let c = crate::string_map::with_pair(b, "accept-language"@, "en-US,en;q=0.5"@);
    lemma_with_pair(c, "connection"@, "keep-alive"@);
    let d = crate::string_map::with_pair(c, "connection"@, "keep-alive"@);
    lemma_with_pair(d, "referer"@, url);
    let e = crate::string_map::with_pair(d, "referer"@, url);
    lemma_with_pair(e, "cookie"@, ck);
    let f = crate::string_map::with_pair(e, "cookie"@, ck);
    lemma_with_pair(f, "sec-fetch-dest"@, "document"@);
    let g = crate::string_map::with_pair(f, "sec-fetch-dest"@, "document"@);
    lemma_with_pair(g, "sec-fetch-mode"@, "navigate"@);
    let h = crate::string_map::with_pair(g, "sec-fetch-mode"@, "navigate"@);
    lemma_with_pair(h, "sec-fetch-site"@, "same-origin"@);
}

// ---------------------------------------------------------------------------
// FileMoon
// ---------------------------------------------------------------------------

/// The video of a page is asked for by its code, the last part of the path.
pub proof fn law_filemoon_requests(
    extractor: &FileMoonExtractor,
    url: &str,
    out: Result<String, ExtractorError>,
    parts: UrlParts,
    host: Seq<char>,
    stem: Seq<char>,
    code: Seq<char>,
)
    requires
        call_ensures(FileMoonExtractor::request_url, (extractor, url), out),
        parsed_url(url@) == Ok::<UrlParts, Seq<char>>(parts),
        parts.host == Some(host),
        parts.path == stem + "/"@ + code,
        code.len() > 0 && !code.contains('/') && code != "e"@ && code != "d"@,
    ensures
        out matches Ok(u) && u@ == parts.scheme + "://"@ + host + "/api/videos/"@ + code,
{
    reveal_strlit("/");
    let path = parts.path;
    assert(path =~= stem + seq!['/'] + code);
    assert(path.last() == code.last());
    assert(code.contains(code.last()));
    assert(trim_end_char(path, '/') == path);
    lemma_behind(stem, '/', code);
}

/// What stands behind the last of a character.
proof fn lemma_behind(a: Seq<char>, c: char, b: Seq<char>)
    requires
        !b.contains(c),
    ensures
        crate::text::behind_last(a + seq![c] + b, c) == a.len() + 1,
        crate::text::after_last_char(a + seq![c] + b, c) == b,
    decreases b.len(),
{
    let s = a + seq![c] + b;
    if b.len() > 0 {
        assert(s.last() == b.last());
        assert(b.contains(b.last()));
        assert(s.drop_last() =~= a + seq![c] + b.drop_last());
        assert(!b.drop_last().contains(c)) by {
            if b.drop_last().contains(c) {
                let i = choose|i: int| 0 <= i < b.drop_last().len() && b.drop_last()[i] == c;
                assert(b[i] == c);
            }
        }
        lemma_behind(a, c, b.drop_last());
    }
    assert(s.skip((a.len() + 1) as int) =~= b);
}

/// A character of the URL-safe alphabet in place of that of the other.
pub open spec fn safe_char(c: char) -> char {
    if c == '+' {
        '-'
    } else if c == '/' {
        '_'
    } else {
        c
    }
}

/// Replacing one character by another.
proof fn lemma_replace_char(s: Seq<char>, c: char, d: char, i: int)
    requires
        0 <= i <= s.len(),
    ensures
        replace_from(s, seq![c], seq![d], i) == Seq::new(
            (s.len() - i) as nat,
            |k: int|
                if s[i + k] == c {
                    d
                } else {
                    s[i + k]
                },
        ),
    decreases s.len() - i,
{
    let p = seq![c];
    let want = Seq::new(
        (s.len() - i) as nat,
        |k: int|
            if s[i + k] == c {
                d
            } else {
                s[i + k]
            },
    );
    lemma_find_from(s, p, i);
    match find_from(s, p, i) {
        None => {
            assert forall|k: int| i <= k < s.len() implies s[k] != c by {
                if s[k] == c {
                    assert(s.subrange(k, k + 1) =~= p);
                    assert(matches_at(s, p, k));
                }
            }
            assert(s.subrange(i, s.len() as int) =~= want);
        },
        Some(j) => {
            assert(s.subrange(j, j + 1)[0] == s[j]);
            assert forall|k: int| i <= k < j implies s[k] != c by {
                if s[k] == c {
                    assert(s.subrange(k, k + 1) =~= p);
                    assert(matches_at(s, p, k));
                }
            }
            lemma_replace_char(s, c, d, j + 1);
            let rest = replace_from(s, p, seq![d], j + 1);
            assert(s.subrange(i, j) + seq![d] + rest =~= want);
        },
    }
}

/// Texts of either base64 alphabet are decoded alike, with or without padding.
pub proof fn law_base64_alphabets(
    input: &str,
    out: Result<Vec<u8>, String>,
    text: Seq<char>,
    padding: nat,
    bytes: Seq<u8>,
)
    requires
        call_ensures(base64url_decode, (input,), out),
        input@ == text + Seq::new(padding, |i: int| '='),
        text.len() > 0 ==> text.last() != '=',
        base64url_decoded(Seq::new(text.len(), |i: int| safe_char(text[i]))) == Ok::<
            Seq<u8>,
            Seq<char>,
        >(bytes),
    ensures
        out matches Ok(b) && b@ == bytes,
{
    lemma_url_safe(text, padding);
}

/// The URL-safe form of a text.
proof fn lemma_url_safe(text: Seq<char>, padding: nat)
    requires
        text.len() > 0 ==> text.last() != '=',
    ensures
        url_safe(text + Seq::new(padding, |i: int| '=')) == Seq::new(
            text.len(),
            |i: int| safe_char(text[i]),
        ),
{
    reveal_strlit("+");
    reveal_strlit("-");
    reveal_strlit("/");
    reveal_strlit("_");
    assert("+"@ =~= seq!['+'] && "-"@ =~= seq!['-'] && "/"@ =~= seq!['/'] && "_"@ =~= seq!['_']);
    let s = text + Seq::new(padding, |i: int| '=');
    lemma_replace_char(s, '+', '-', 0);
    let a = replace_text(s, "+"@, "-"@);
    lemma_replace_char(a, '/', '_', 0);
    let b = replace_text(a, "/"@, "_"@);
    let safe = Seq::new(text.len(), |i: int| safe_char(text[i]));
    assert(b =~= safe + Seq::new(padding, |i: int| '='));
    crate::laws::texts::lemma_trim_end(safe, '=', padding);
}

/// A text of the URL-safe alphabet alone.
pub open spec fn is_url_safe(s: Seq<char>) -> bool {
    !s.contains('+') && !s.contains('/') && !s.contains('=')
}

/// A text of the URL-safe alphabet is decoded as it is.
proof fn lemma_safe_decoded(s: Seq<char>, bytes: Seq<u8>)
    requires
        is_url_safe(s),
        base64url_decoded(s) == Ok::<Seq<u8>, Seq<char>>(bytes),
    ensures
        decoded_bytes(s) == Ok::<Seq<u8>, Seq<char>>(bytes),
{
    if s.len() > 0 {
        assert(s.contains(s.last()));
    }
    lemma_url_safe(s, 0);
    assert(s + Seq::new(0, |i: int| '=') =~= s);
    assert(Seq::new(s.len(), |i: int| safe_char(s[i])) =~= s) by {
        assert forall|i: int| 0 <= i < s.len() implies safe_char(s[i]) == s[i] by {
            assert(s.contains(s[i]));
        }
    }
}

/// The parts of a key that an answer holds.
pub open spec fn are_key_parts(doc: Seq<u8>, parts: Seq<Seq<char>>, keys: Seq<Seq<u8>>) -> bool {
    &&& json_len_at(doc, "/playback/key_parts"@) == Some(parts.len())
    &&& keys.len() == parts.len()
    &&& forall|i: int|
        0 <= i < parts.len() ==> json_string_at(
            doc,
            "/playback/key_parts"@ + "/"@ + #[trigger] decimal(i),
        ) == Some(parts[i])
    &&& forall|i: int|
        0 <= i < parts.len() ==> is_url_safe(#[trigger] parts[i]) && base64url_decoded(parts[i])
            == Ok::<Seq<u8>, Seq<char>>(keys[i])
}

/// The key is made of its parts.
proof fn lemma_key(doc: Seq<u8>, parts: Seq<Seq<char>>, keys: Seq<Seq<u8>>, n: int)
    requires
        are_key_parts(doc, parts, keys),
        0 <= n <= parts.len(),
    ensures
        joined_key(doc, n) == Ok::<Seq<u8>, Seq<char>>(keys.take(n).flatten()),
    decreases n,
{
    if n == 0 {
        assert(keys.take(0) =~= Seq::empty());
        assert(keys.take(0).flatten() =~= Seq::<u8>::empty());
    } else {
        lemma_key(doc, parts, keys, n - 1);
        let rest = keys.take(n - 1);
        assert(keys.take(n) =~= rest.push(keys[n - 1]));
        rest.lemma_flatten_push(keys[n - 1]);
        assert(json_string_at(doc, "/playback/key_parts"@ + "/"@ + decimal(n - 1)) == Some(
            parts[n - 1],
        ));
        lemma_safe_decoded(parts[n - 1], keys[n - 1]);
    }
}

/// A playback is decrypted with the key that its parts make up, one behind the other.
pub proof fn law_playback(
    doc: &[u8],
    out: Result<Vec<u8>, String>,
    parts: Seq<Seq<char>>,
    keys: Seq<Seq<u8>>,
    iv: Seq<char>,
    iv_bytes: Seq<u8>,
    payload: Seq<char>,
    payload_bytes: Seq<u8>,
    plain: Seq<u8>,
)
    requires
        call_ensures(decrypt_playback, (doc,), out),
        are_key_parts(doc@, parts, keys),
        keys.flatten().len() == 32,
        json_string_at(doc@, "/playback/iv"@) == Some(iv),
        is_url_safe(iv) && base64url_decoded(iv) == Ok::<Seq<u8>, Seq<char>>(iv_bytes),
        iv_bytes.len() == 12,
        json_string_at(doc@, "/playback/payload"@) == Some(payload),
        is_url_safe(payload) && base64url_decoded(payload) == Ok::<Seq<u8>, Seq<char>>(
            payload_bytes,
        ),
        gcm_opened(keys.flatten(), iv_bytes, payload_bytes) == Some(plain),
        json_error(plain) is None,
    ensures
        out matches Ok(b) && b@ == plain,
{
    lemma_key(doc@, parts, keys, parts.len() as int);
    assert(keys.take(parts.len() as int) =~= keys);
    lemma_safe_decoded(iv, iv_bytes);
    lemma_safe_decoded(payload, payload_bytes);
}

/// The first source that is an HLS playlist.
proof fn lemma_source(doc: Seq<u8>, n: int, i: int, k: int)
    requires
        0 <= i <= k < n,
        is_hls_source(doc, k),
        forall|j: int| i <= j < k ==> !#[trigger] is_hls_source(doc, j),
    ensures
        hls_source(doc, n, i) == Some(k),
    decreases k - i,
{
    if i < k {
        assert(!is_hls_source(doc, i));
        lemma_source(doc, n, i + 1, k);
    }
}

/// A source of a playback is an HLS playlist.
pub open spec fn is_hls_source(doc: Seq<u8>, i: int) -> bool {
    json_string_at(doc, "/sources"@ + "/"@ + decimal(i) + "/mime_type"@) == Some(
        "application/vnd.apple.mpegurl"@,
    )
}

/// An answer leads to the first HLS source of its decrypted playback, with the page
/// as the referer.
pub proof fn law_filemoon_answers(
    headers: StringMap,
    proxy: Option<String>,
    extractor: &FileMoonExtractor,
    url: &str,
    answer: &str,
    doc: &[u8],
    plain: Vec<u8>,
    out: Result<ExtractorResult, ExtractorError>,
    n: nat,
    k: int,
    source: Seq<char>,
)
    requires
        call_ensures(FileMoonExtractor::new, (headers, proxy), *extractor),
        call_ensures(FileMoonExtractor::extract_answer, (extractor, url, answer), out),
        doc@ == encode_utf8(answer@),
        json_error(doc@) is None && json_text_at(doc@, "/error"@) is None,
        json_has_at(doc@, "/playback"@) && json_has_at(doc@, "/playback/key_parts"@)
            && json_has_at(doc@, "/playback/payload"@),
        call_ensures(decrypt_playback, (doc,), Ok::<Vec<u8>, String>(plain)),
        json_len_at(plain@, "/sources"@) == Some(n),
        0 <= k < n,
        is_hls_source(plain@, k),
        forall|j: int| 0 <= j < k ==> !#[trigger] is_hls_source(plain@, j),
        json_string_at(plain@, "/sources"@ + "/"@ + decimal(k) + "/url"@) == Some(source),
        crate::string_map::unique_keys(headers@),
    ensures
        out matches Ok(r) && r.destination_url@ == source && lookup(
            r.request_headers@,
            "referer"@,
        ) == Some(url@) && r.mediaflow_endpoint@ == "hls_manifest_proxy"@ && forall|h: Seq<char>|
            h != "referer"@ ==> #[trigger] lookup(r.request_headers@, h) == lookup(headers@, h),
{
    lemma_source(plain@, n as int, 0, k);
    lemma_with_pair(headers@, "referer"@, url@);
}

// ---------------------------------------------------------------------------
// Maxstream
// ---------------------------------------------------------------------------

/// A text occurs in none of the first `n` places.
proof fn lemma_absent(s: Seq<Seq<char>>, t: Seq<char>, n: int)
    requires
        0 <= n <= s.len(),
    ensures
        (forall|i: int| 0 <= i < n ==> #[trigger] s[i] != t) ==> occurrences(s, t, n) == 0,
        forall|i: int| 0 <= i < n && #[trigger] s[i] == t ==> occurrences(s, t, n) >= 1,
    decreases n,
{
    if n > 0 {
        lemma_absent(s, t, n - 1);
    }
}

/// A text that stands in two places occurs twice.
proof fn lemma_twice(s: Seq<Seq<char>>, i: int, j: int, n: int)
    requires
        0 <= i < j < n <= s.len(),
        s[i] == s[j],
    ensures
        occurrences(s, s[i], n) >= 2,
    decreases n,
{
    if n == j + 1 {
        lemma_absent(s, s[i], j);
    } else {
        lemma_twice(s, i, j, n - 1);
    }
}

/// A text that stands in one place occurs once.
proof fn lemma_once(s: Seq<Seq<char>>, k: int, n: int)
    requires
        0 <= k < n <= s.len(),
        forall|i: int| 0 <= i < s.len() && i != k ==> #[trigger] s[i] != s[k],
    ensures
        occurrences(s, s[k], n) == 1,
    decreases n,
{
    if n == k + 1 {
        lemma_absent(s, s[k], k);
    } else {
        lemma_once(s, k, n - 1);
    }
}

/// The first text that stands in one place alone.
proof fn lemma_single(s: Seq<Seq<char>>, i: int, k: int)
    requires
        0 <= i <= k < s.len(),
        is_repeated(s, i, k),
        forall|j: int| 0 <= j < s.len() && j != k ==> #[trigger] s[j] != s[k],
    ensures
        first_single(s, i) == Some(s[k]),
    decreases k - i,
{
    if i < k {
        let j = choose|j: int| 0 <= j < s.len() && j != i && #[trigger] s[j] == s[i];
        if i < j {
            lemma_twice(s, i, j, s.len() as int);
        } else {
            lemma_twice(s, j, i, s.len() as int);
        }
        lemma_single(s, i + 1, k);
    } else {
        lemma_once(s, k, s.len() as int);
    }
}

/// Each text from `i` to `k` stands in another place too.
pub open spec fn is_repeated(s: Seq<Seq<char>>, i: int, k: int) -> bool {
    forall|l: int|
        i <= l < k ==> exists|j: int| 0 <= j < s.len() && j != l && #[trigger] s[j] == (
        #[trigger] s[l])
}

/// A redirect page leads to the link of its marked button. Without a button, it leads
/// to the first of its redirect links that is not repeated, as decoys are.
pub proof fn law_redirect_pages(
    html: &str,
    out: Option<String>,
    page: Seq<char>,
    k: int,
)
    requires
        call_ensures(parse_uprot_html, (html,), out),
        page == without_matches(
            "(?si)<div[^>]*style=[\"'][^\"']*display\\s*:\\s*none[^\"']*[\"'][^>]*>.*?</div>"@,
            without_matches("(?s)<!--.*?-->"@, html@),
        ),
        !contains(page, "\\/"@),
    ensures
        ({
            let marked = group_of(
                "(?i)href=[\"'](https?://[^\"']+)[\"'][^>]*>\\s*<button[^>]*id=[\"']buttok[\"']"@,
                page,
                1,
            );
            let named = group_of(
                "href=[\"'](https?://[^\"']+)[\"'][^>]*>\\s*<button[^>]*>\\s*[Cc]\\s*[Oo]\\s*[Nn]\\s*[Tt]\\s*[Ii]\\s*[Nn]\\s*[Uu]\\s*[Ee]"@,
                page,
                1,
            );
            let links = all_groups(
                "(?i)href=[\"'](https?://[^\"']*uprot(?:s|em)/[^\"']+)[\"']"@,
                page,
            );
            &&& marked is Some ==> opt_text(out) == marked
            &&& marked is None && named is Some ==> opt_text(out) == named
            &&& marked is None && named is None && 0 <= k < links.len() && is_repeated(links, 0, k)
                && (forall|j: int| 0 <= j < links.len() && j != k ==> #[trigger] links[j]
                != links[k]) ==> opt_text(out) == Some(links[k])
        }),
{
    reveal_strlit("\\/");
    lemma_replaced_nowhere(page, "\\/"@, "/"@);
    let links = all_groups("(?i)href=[\"'](https?://[^\"']*uprot(?:s|em)/[^\"']+)[\"']"@, page);
    if 0 <= k < links.len() && is_repeated(links, 0, k) && (forall|j: int|
        0 <= j < links.len() && j != k ==> #[trigger] links[j] != links[k]) {
        lemma_single(links, 0, k);
    }
}

/// A text is found where it stands first.
proof fn lemma_found_first(a: Seq<char>, p: Seq<char>, b: Seq<char>)
    requires
        p.len() > 0,
        !contains(a + p.drop_last(), p),
    ensures
        find_from(a + p + b, p, 0) == Some(a.len() as int),
{
    let s = a + p + b;
    let n = a.len() as int;
    lemma_find_from(s, p, 0);
    assert(s.subrange(n, n + p.len()) =~= p);
    assert(matches_at(s, p, n));
    let j = find_from(s, p, 0)->0;
    if j < n {
        let front = a + p.drop_last();
        assert(front.subrange(j, j + p.len()) =~= s.subrange(j, j + p.len()));
        assert(matches_at(front, p, j));
    }
}

/// What is replaced first.
proof fn lemma_replaced_first(a: Seq<char>, p: Seq<char>, b: Seq<char>, by: Seq<char>)
    requires
        p.len() > 0,
        !contains(a + p.drop_last(), p),
    ensures
        replace_first_text(a + p + b, p, by) == a + by + b,
{
    let s = a + p + b;
    lemma_found_first(a, p, b);
    assert(s.subrange(0, a.len() as int) =~= a);
    assert(s.subrange(a.len() as int + p.len(), s.len() as int) =~= b);
}

/// What is not there is not replaced.
proof fn lemma_nothing_replaced(s: Seq<char>, p: Seq<char>, by: Seq<char>)
    requires
        !contains(s, p),
    ensures
        replace_first_text(s, p, by) == s,
{
    lemma_find_from(s, p, 0);
    if let Some(j) = find_from(s, p, 0) {
        assert(matches_at(s, p, j));
    }
}

/// A link to the first kind of page is turned into one to the second.
pub proof fn law_start_urls(url: &str, out: String, a: Seq<char>, b: Seq<char>)
    requires
        call_ensures(MaxstreamExtractor::start_url, (url,), out),
    ensures
        url@ == a + "/msf/"@ + b && !contains(a + "/msf"@, "/msf/"@) ==> out@ == a + "/mse/"@ + b,
        !contains(url@, "/msf/"@) ==> out@ == url@,
{
    let p = "/msf/"@;
    if !contains(url@, p) {
        lemma_nothing_replaced(url@, p, "/mse/"@);
    }
    if url@ == a + p + b && !contains(a + "/msf"@, p) {
        assert(p.len() == 5 && p.drop_last() == "/msf"@) by {
            reveal_strlit("/msf/");
            reveal_strlit("/msf");
            assert(p.drop_last() =~= "/msf"@);
        }
        lemma_replaced_first(a, p, b, "/mse/"@);
    }
}

/// The host of a web URL.
pub proof fn law_url_hosts(url: &str, out: String, host: Seq<char>, path: Seq<char>)
    requires
        call_ensures(url_host, (url,), out),
        !host.contains('/'),
        host.len() > 0 && host[0] != 'h',
        path.len() > 0 ==> path[0] == '/',
        url@ == "https://"@ + host + path || url@ == "http://"@ + host + path,
    ensures
        out@ == host,
{
    reveal_strlit("https://");
    reveal_strlit("http://");
    let rest = host + path;
    let p = "http://"@;
    let q = "https://"@;
    assert(rest[0] == host[0]);
    assert(!starts_with(rest, p)) by {
        if starts_with(rest, p) {
            assert(rest.subrange(0, 7)[0] == rest[0]);
        }
    }
    assert(!starts_with(rest, q)) by {
        if starts_with(rest, q) {
            assert(rest.subrange(0, 8)[0] == rest[0]);
        }
    }
    let a = crate::extractor::hosts::maxstream::without_prefixes(url@, p);
    if url@ == q + host + path {
        assert(url@ =~= q + rest);
        assert(!starts_with(url@, p)) by {
            if starts_with(url@, p) {
                assert(url@.subrange(0, 7)[4] == url@[4]);
            }
        }
        assert(a == url@);
        lemma_prefix(q, rest);
        assert((q + rest).skip(8) =~= rest);
        assert(crate::extractor::hosts::maxstream::without_prefixes(rest, q) == rest);
        assert(crate::extractor::hosts::maxstream::without_prefixes(a, q) == rest);
    } else {
        assert(url@ =~= p + rest);
        lemma_prefix(p, rest);
        assert((p + rest).skip(7) =~= rest);
        assert(crate::extractor::hosts::maxstream::without_prefixes(rest, p) == rest);
        assert(a == rest);
        assert(crate::extractor::hosts::maxstream::without_prefixes(a, q) == rest);
    }
    if path.len() == 0 {
        assert(rest =~= host);
        lemma_uncut(host, '/');
    } else {
        assert(rest =~= host + seq!['/'] + path.skip(1));
        lemma_cut(host, '/', path.skip(1));
    }
}

/// A chain of redirects ends at the player, and after ten hops; else the page is
/// fetched.
pub proof fn law_chain_steps(current: String, url: &str, hops: u32, host: String, out: ChainStep)
    requires
        url@ == current@,
        call_ensures(url_host, (url,), host),
        call_ensures(chain_step, (current, hops), out),
    ensures
        hops >= 10 ==> (out matches ChainStep::Stop(u) && u@ == current@),
        hops < 10 && contains(host@, "maxstream.video"@) && contains(current@, "/emvvv/"@) ==> (
        out matches ChainStep::Stop(u) && u@ == current@),
        hops < 10 && !contains(host@, "maxstream.video"@) && contains(host@, "maxsun"@)
            && ends_with(host@, ".online"@) && !contains(current@, "/watchfree/"@) ==> (
        out matches ChainStep::Stop(u) && u@ == current@),
        hops < 10 && !contains(host@, "maxstream.video"@) && !contains(host@, "maxsun"@) ==> (
        out matches ChainStep::Fetch(u) && u@ == current@),
{
    reveal_strlit("/watchfree/");
    if !contains(current@, "/watchfree/"@) {
        lemma_replaced_nowhere(current@, "/watchfree/"@, "/emvvv/"@);
    }
}

/// A page of the chain leads to its link; one without a link, or with a link to
/// itself, ends the chain.
pub proof fn law_chain_pages(
    current: String,
    html: &str,
    hops: u32,
    link: Option<String>,
    out: ChainStep,
)
    requires
        call_ensures(parse_uprot_html, (html,), link),
        call_ensures(chain_page, (current, html, hops), out),
        hops < 9,
    ensures
        link is None ==> (out matches ChainStep::Stop(u) && u@ == current@),
        link matches Some(l) && l@ == current@ ==> (out matches ChainStep::Stop(u) && u@
            == current@),
        link matches Some(l) && l@ != current@ && !contains(
            crate::extractor::hosts::maxstream::host_part(l@),
            "maxs"@,
        ) ==> (out matches ChainStep::Fetch(u) && u@ == link->0@),
{
    if let Some(l) = link {
        let h = crate::extractor::hosts::maxstream::host_part(l@);
        reveal_strlit("maxs");
        reveal_strlit("maxstream.video");
        reveal_strlit("maxsun");
        if !contains(h, "maxs"@) {
            assert("maxstream.video"@.take(4) =~= "maxs"@);
            assert("maxsun"@.take(4) =~= "maxs"@);
            lemma_beginning_held(h, "maxstream.video"@, 4);
            lemma_beginning_held(h, "maxsun"@, 4);
        }
    }
}

/// A text that holds another holds its beginning.
proof fn lemma_beginning_held(s: Seq<char>, p: Seq<char>, n: int)
    requires
        0 <= n <= p.len(),
    ensures
        contains(s, p) ==> contains(s, p.take(n)),
{
    if contains(s, p) {
        let i = choose|i: int| matches_at(s, p, i);
        assert(s.subrange(i, i + n) =~= s.subrange(i, i + p.len()).take(n));
        assert(matches_at(s, p.take(n), i));
    }
}

/// None of the words that a player's terms are parted by.
pub open spec fn has_no_marks(terms: Seq<Seq<char>>) -> bool {
    forall|i: int|
        0 <= i < terms.len() ==> (#[trigger] terms[i]) != "urlset"@ && terms[i] != "hls"@
            && terms[i] != "sources"@
}

/// The name of a player's host, made of its parts from the last to the first: a
/// hyphen follows each part without a zero.
pub open spec fn host_from(parts: Seq<Seq<char>>) -> Seq<char>
    decreases parts.len(),
{
    if parts.len() == 0 {
        Seq::empty()
    } else {
        host_from(parts.drop_first()) + if parts[0].contains('0') {
            parts[0]
        } else {
            parts[0] + "-"@
        }
    }
}

/// The qualities of a stream, from the last to the first, each with a comma.
pub open spec fn qualities(parts: Seq<Seq<char>>) -> Seq<char>
    decreases parts.len(),
{
    if parts.len() == 0 {
        Seq::empty()
    } else {
        qualities(parts.drop_first()) + parts[0] + ","@
    }
}

/// Where a word stands in the terms.
proof fn lemma_term(terms: Seq<Seq<char>>, t: Seq<char>, i: int, k: int)
    requires
        0 <= i <= k < terms.len(),
        terms[k] == t,
        forall|j: int| i <= j < k ==> #[trigger] terms[j] != t,
    ensures
        term_from(terms, t, i) == Some(k),
    decreases k - i,
{
    if i < k {
        assert(terms[i] != t);
        lemma_term(terms, t, i + 1, k);
    }
}

/// The name of the host.
proof fn lemma_host(terms: Seq<Seq<char>>, from: int, parts: Seq<Seq<char>>)
    requires
        0 <= from,
        from + parts.len() <= terms.len(),
        terms.subrange(from, from + parts.len()) == parts,
    ensures
        host_name_of(terms, from, from + parts.len()) == host_from(parts),
        comma_list(terms, from, from + parts.len()) == qualities(parts),
    decreases parts.len(),
{
    if parts.len() > 0 {
        let rest = parts.drop_first();
        assert(terms.subrange(from + 1, from + 1 + rest.len()) =~= rest);
        assert(terms.subrange(from, from + parts.len())[0] == terms[from]);
        lemma_host(terms, from + 1, rest);
    }
}

/// The terms of a packed player spell its stream URL: the qualities between the words
/// `urlset` and `hls`, and the host between `hls` and `sources`.
pub proof fn law_player_terms(
    terms: &Vec<String>,
    out: Result<String, ExtractorError>,
    before: Seq<Seq<char>>,
    quality: Seq<Seq<char>>,
    host: Seq<Seq<char>>,
    behind: Seq<Seq<char>>,
)
    requires
        call_ensures(unpack_player_terms, (terms,), out),
        texts(terms@) == before + seq!["urlset"@] + quality + seq!["hls"@] + host + seq![
            "sources"@,
        ] + behind,
        has_no_marks(before) && has_no_marks(quality) && has_no_marks(host),
        quality.len() > 0,
    ensures
        out matches Ok(u) && u@ == "https://"@ + host_from(host) + ".host-cdn.net/hls/"@ + (
        if quality.len() == 1 {
            ","@ + quality[0]
        } else {
            qualities(quality)
        }) + ".urlset/master.m3u8"@,
{
    let t = texts(terms@);
    let u = before.len() as int;
    let h = u + 1 + quality.len();
    let s = h + 1 + host.len();
    reveal_strlit("urlset");
    reveal_strlit("hls");
    reveal_strlit("sources");
    assert("urlset"@.len() == 6 && "hls"@.len() == 3 && "sources"@.len() == 7);
    assert(t[u] == "urlset"@ && t[h] == "hls"@ && t[s] == "sources"@);
    assert forall|j: int| 0 <= j < u implies #[trigger] t[j] != "urlset"@ && t[j] != "hls"@ && t[j]
        != "sources"@ by {
        assert(t[j] == before[j]);
    }
    assert forall|j: int| u < j < h implies #[trigger] t[j] != "hls"@ && t[j] != "sources"@ by {
        assert(t[j] == quality[j - u - 1]);
    }
    assert forall|j: int| h < j < s implies #[trigger] t[j] != "sources"@ by {
        assert(t[j] == host[j - h - 1]);
    }
    lemma_term(t, "urlset"@, 0, u);
    lemma_term(t, "hls"@, 0, h);
    lemma_term(t, "sources"@, 0, s);
    assert(t.subrange(h + 1, h + 1 + host.len()) =~= host);
    lemma_host(t, h + 1, host);
    assert(t.subrange(u + 1, u + 1 + quality.len()) =~= quality);
    lemma_host(t, u + 1, quality);
    let base = "https://"@ + host_from(host) + ".host-cdn.net/hls/"@;
    if quality.len() == 1 {
        assert(t[u + 1] == quality[0]);
        assert(base + ","@ + quality[0] + ".urlset/master.m3u8"@ =~= base + (","@ + quality[0])
            + ".urlset/master.m3u8"@);
    }
}

/// A player page leads to its plain source where it has one, with the page as the
/// referer.
pub proof fn law_maxstream_players(
    headers: StringMap,
    proxy: Option<String>,
    extractor: &MaxstreamExtractor,
    url: &str,
    html: &str,
    unpacked: Result<String, ExtractorError>,
    out: Result<ExtractorResult, ExtractorError>,
)
    requires
        call_ensures(MaxstreamExtractor::new, (headers, proxy), *extractor),
        call_ensures(MaxstreamExtractor::unpack_player_js, (html,), unpacked),
        call_ensures(MaxstreamExtractor::extract_player, (extractor, url, html), out),
        crate::string_map::unique_keys(headers@),
    ensures
        ({
            let g = group_of("sources:\\s*\\[\\{src:\\s*\"([^\"]+)\""@, html@, 1);
            &&& g is Some ==> (out matches Ok(r) && Some(r.destination_url@) == g)
            &&& g is None ==> (out is Ok <==> unpacked is Ok)
            &&& g is None && unpacked is Ok ==> (out matches Ok(r) && r.destination_url@
                == unpacked->Ok_0@)
            &&& out matches Ok(r) ==> lookup(r.request_headers@, "referer"@) == Some(url@)
                && r.mediaflow_endpoint@ == "hls_manifest_proxy"@
        }),
{
    lemma_with_pair(headers@, "referer"@, url@);
}

} // verus!
