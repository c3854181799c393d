//! Vidmoly.

use vstd::prelude::*;

use crate::extractor::base::{
    extraction_failed, hls_stream, outcome, BaseExtractor, ExtractorError, ExtractorErrorView,
    ExtractorResult, ExtractorResultView,
};
use crate::extractor::patterns::{find_group, group_of};
use crate::string_map::{with_pair, Pairs, StringMap};
use crate::text::{begins, chars, concat, slice_text, starts_with};

verus! {

/// The extractor of Vidmoly.
pub struct VidmolyExtractor(pub BaseExtractor);

/// The embed identifier of a page's URL.
pub open spec fn embed_id(url: Seq<char>) -> Option<Seq<char>> {
    group_of("/embed-([a-zA-Z0-9]+)\\.html"@, url, 1)
}

/// The headers of a page request, which the stream is fetched with too.
pub open spec fn page_headers(url: Seq<char>, id: Seq<char>) -> Pairs {
    let none: Pairs = Seq::empty();
    let a = with_pair(
        none,
        "user-agent"@,
        "Mozilla/5.0 (Windows NT 10.0; Win64; x64) AppleWebKit/537.36 (KHTML, like Gecko) Chrome/120 Safari/537.36"@,
    );
    let b = with_pair(
        a,
        "accept"@,
        "text/html,application/xhtml+xml,application/xml;q=0.9,image/avif,image/webp,*/*;q=0.8"@,
    );
    let c = with_pair(b, "accept-language"@, "en-US,en;q=0.5"@);
    let d = with_pair(c, "connection"@, "keep-alive"@);
    let e = with_pair(d, "referer"@, url);
    let f = with_pair(e, "cookie"@, "cf_turnstile_demo_pass_"@ + id + "=1"@);
    let g = with_pair(f, "sec-fetch-dest"@, "document"@);
    let h = with_pair(g, "sec-fetch-mode"@, "navigate"@);
    with_pair(h, "sec-fetch-site"@, "same-origin"@)
}

/// How many bytes a character takes in UTF-8.
pub open spec fn char_bytes(c: char) -> int {
    let n = c as u32;
    if n < 0x80 {
        1
    } else if n < 0x800 {
        2
    } else if n < 0x1_0000 {
        3
    } else {
        4
    }
}

/// How many of the characters from `i` on fit into `room` bytes.
pub open spec fn fitting(s: Seq<char>, i: int, room: int) -> int
    decreases s.len() - i,
{
    if i < 0 || i >= s.len() || char_bytes(s[i]) > room {
        0
    } else {
        1 + fitting(s, i + 1, room - char_bytes(s[i]))
    }
}

/// The longest beginning of a text that fits into 120 bytes.
pub open spec fn excerpt(s: Seq<char>) -> Seq<char> {
    s.take(fitting(s, 0, 120))
}

/// What a page leads to: the file of its first source, which must be a web URL.
pub open spec fn page_stream(html: Seq<char>, headers: Pairs) -> Result<
    ExtractorResultView,
    ExtractorErrorView,
> {
    match group_of("sources\\s*:\\s*\\[\\s*\\{\\s*file\\s*:\\s*['\"]([^'\"]+)"@, html, 1) {
        None => extraction_failed("Vidmoly: stream URL not found"@),
        Some(u) => if starts_with(u, "http"@) {
            hls_stream(u, headers)
        } else {
            extraction_failed("Vidmoly: unexpected stream URL: "@ + excerpt(u))
        },
    }
}

/// The longest beginning of a text that fits into 120 bytes.
fn excerpt_of(s: &str) -> (r: String)
    ensures
        r@ == excerpt(s@),
{
    let v = chars(s);
    let mut room: u32 = 120;
    let mut i: usize = 0;
    loop
        invariant
            i <= v.len(),
            room <= 120,
            v@ == s@,
            fitting(s@, 0, 120) == i + fitting(s@, i as int, room as int),
        ensures
            i <= v.len(),
            fitting(s@, 0, 120) == i,
        decreases v.len() - i,
    {
        if i >= v.len() {
            break ;
        }
        let n: u32 = v[i] as u32;
        let size: u32 = if n < 0x80 {
            1
        } else if n < 0x800 {
            2
        } else if n < 0x1_0000 {
            3
        } else {
            4
        };
        if size > room {
            break ;
        }
        room -= size;
        i += 1;
    }
    slice_text(&v, 0, i)
}

impl VidmolyExtractor {
    /// An extractor with headers for its results and a proxy for its requests.
    pub fn new(request_headers: StringMap, proxy_url: Option<String>) -> (r: Self)
        ensures
            r.0.base_headers == request_headers && r.0.proxy_url == proxy_url,
    {
        VidmolyExtractor(BaseExtractor::new(request_headers, proxy_url))
    }

    /// The host's name.
    pub fn host_name(&self) -> (r: &'static str)
        ensures
            r@ == "Vidmoly"@,
    {
        "Vidmoly"
    }

    /// The headers that a page is requested with.
    pub fn request_headers(&self, url: &str) -> (r: Result<StringMap, ExtractorError>)
        ensures
            match r {
                Ok(h) => embed_id(url@) matches Some(id) && h@ == page_headers(url@, id),
                Err(e) => embed_id(url@) is None && e@ == ExtractorErrorView::Extract(
                    "Vidmoly: embed ID not found in URL"@,
                ),
            },
    {
        let id = match find_group("/embed-([a-zA-Z0-9]+)\\.html", url, 1) {
            Some(id) => id,
            None => {
                return Err(ExtractorError::extract("Vidmoly: embed ID not found in URL"));
            },
        };
        let mut h = StringMap::new();
        h.insert(
            "user-agent",
            "Mozilla/5.0 (Windows NT 10.0; Win64; x64) AppleWebKit/537.36 (KHTML, like Gecko) Chrome/120 Safari/537.36",
        );
        h.insert(
            "accept",
            "text/html,application/xhtml+xml,application/xml;q=0.9,image/avif,image/webp,*/*;q=0.8",
        );
        h.insert("accept-language", "en-US,en;q=0.5");
        h.insert("connection", "keep-alive");
        h.insert("referer", url);
        let mut cookie = concat("cf_turnstile_demo_pass_", id.as_str());
        cookie.push_str("=1");
        h.insert("cookie", cookie.as_str());
        h.insert("sec-fetch-dest", "document");
        h.insert("sec-fetch-mode", "navigate");
        h.insert("sec-fetch-site", "same-origin");
        Ok(h)
    }

    /// What a page leads to that was fetched with the given headers.
    pub fn extract_page(&self, headers: StringMap, html: &str) -> (r: Result<
        ExtractorResult,
        ExtractorError,
    >)
        ensures
            outcome(r) == page_stream(html@, headers@),
    {
        match find_group(
            "sources\\s*:\\s*\\[\\s*\\{\\s*file\\s*:\\s*['\"]([^'\"]+)",
            html,
            1,
        ) {
            None => Err(ExtractorError::extract("Vidmoly: stream URL not found")),
            Some(u) => {
                if !begins(u.as_str(), "http") {
                    let m = concat(
                        "Vidmoly: unexpected stream URL: ",
                        excerpt_of(u.as_str()).as_str(),
                    );
                    return Err(ExtractorError::extract(m.as_str()));
                }
                Ok(
                    ExtractorResult {
                        destination_url: u,
                        request_headers: headers,
                        mediaflow_endpoint: "hls_manifest_proxy",
                    },
                )
            },
        }
    }
}

} // verus!
