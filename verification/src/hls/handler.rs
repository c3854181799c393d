//! The rules of the HLS endpoints.

use vstd::prelude::*;

use crate::auth::encryption::ProxyData;
use crate::config::Config;
use crate::hls::manifest::{
    closing_playlist, error_playlist, graceful_end_playlist, is_output, playlist_segment_urls,
    skip_view, ManifestOptions, ManifestProcessor, ParamsView, ProcessorView, ProxyParams,
};
use crate::string_map::{lookup, Pairs, StringMap};
use crate::text::{contains, holds, opt_text, same, texts};

verus! {

/// The headers that a request carries; none where it carries no list.
pub open spec fn carried_headers(headers: Option<StringMap>) -> Pairs {
    match headers {
        Some(h) => h@,
        None => Seq::empty(),
    }
}

/// The password of a request: that of its query parameters, or else that of the
/// configuration.
pub open spec fn carried_password(
    query_params: Option<StringMap>,
    configured: Seq<char>,
) -> Seq<char> {
    match query_params {
        Some(q) => match lookup(q@, "api_password"@) {
            Some(p) => p,
            None => configured,
        },
        None => configured,
    }
}

/// The parameters that go on to every generated URL: the password and the request
/// headers.
pub fn extract_proxy_params(proxy_data: &ProxyData, config: &Config) -> (r: ProxyParams)
    ensures
        r@ == (ParamsView {
            api_password: carried_password(proxy_data.query_params, config.auth.api_password@),
            pass_headers: carried_headers(proxy_data.request_headers),
            playlist_url: None,
        }),
{
    let headers = match &proxy_data.request_headers {
        Some(h) => h.clone(),
        None => StringMap::new(),
    };
    let configured = config.auth.api_password.as_str();
    let password = match &proxy_data.query_params {
        Some(q) => match q.get("api_password") {
            Some(p) => p,
            None => configured,
        },
        None => configured,
    };
    ProxyParams::new(password, headers)
}

/// A query parameter that is switched on.
pub open spec fn is_on(value: Option<Seq<char>>) -> bool {
    value matches Some(v) && (v == "true"@ || v == "1"@)
}

/// Whether a query parameter is switched on.
fn switched_on(query: &StringMap, name: &str) -> (r: bool)
    ensures
        r == is_on(lookup(query@, name@)),
{
    match query.get(name) {
        Some(v) => same(v, "true") || same(v, "1"),
        None => false,
    }
}

/// The rewriting options of a request's query. `start_offset` is the offset
/// parameter as it is to be written, where it is a number. Naming the parameter
/// at all puts the offset into finished streams too.
pub fn manifest_options(query: &StringMap, start_offset: Option<String>) -> (r: ManifestOptions)
    ensures
        r.key_only_proxy == is_on(lookup(query@, "key_only_proxy"@)),
        r.no_proxy == is_on(lookup(query@, "no_proxy"@)),
        r.force_playlist_proxy == is_on(lookup(query@, "force_playlist_proxy"@)),
        r.skips is None,
        r.start_offset == start_offset,
        r.force_start_offset == lookup(query@, "start_offset"@) is Some,
{
    ManifestOptions {
        key_only_proxy: switched_on(query, "key_only_proxy"),
        no_proxy: switched_on(query, "no_proxy"),
        force_playlist_proxy: switched_on(query, "force_playlist_proxy"),
        skips: None,
        start_offset,
        force_start_offset: query.get("start_offset").is_some(),
    }
}

/// The first of `urls`, at most `limit`.
pub open spec fn first_urls(urls: Seq<Seq<char>>, limit: int) -> Seq<Seq<char>> {
    if limit < urls.len() {
        urls.take(limit)
    } else {
        urls
    }
}

/// The segments to fetch ahead of a playlist: the first `limit`, for a `GET`
/// whose segments go through the proxy as segments; else none.
pub fn prebuffer_urls(
    is_get: bool,
    opts: &ManifestOptions,
    content: &[u8],
    playlist_url: &str,
    limit: usize,
) -> (r: Vec<String>)
    ensures
        if is_get && !opts.no_proxy && !opts.key_only_proxy && !opts.force_playlist_proxy {
            texts(r@) == first_urls(
                playlist_segment_urls(content@, playlist_url@),
                limit as int,
            )
        } else {
            r@.len() == 0
        },
{
    if !is_get || opts.no_proxy || opts.key_only_proxy || opts.force_playlist_proxy {
        return Vec::new();
    }
    let mut urls = ManifestProcessor::media_segment_urls(content, playlist_url);
    let ghost all = texts(urls@);
    if limit < urls.len() {
        urls.truncate(limit);
        assert(texts(urls@) =~= all.take(limit as int));
    }
    urls
}

/// The answer to a playlist request.
pub struct PlaylistReply {
    pub body: String,
    /// Whether caches are told not to keep it.
    pub no_store: bool,
}

/// The answer where the upstream playlist cannot be had.
pub fn unavailable_reply() -> (r: PlaylistReply)
    ensures
        r.body@ == closing_playlist("Stream unavailable"@) && !r.no_store,
{
    PlaylistReply { body: graceful_end_playlist("Stream unavailable"), no_store: false }
}

/// The answer with a rewritten playlist. What is no playlist is answered with
/// an error playlist.
pub fn processed_reply(processed: String) -> (r: PlaylistReply)
    ensures
        if contains(processed@, "#EXTM3U"@) {
            r.body == processed && r.no_store
        } else {
            r.body@ == closing_playlist("Error: Invalid upstream response"@) && !r.no_store
        },
{
    if holds(processed.as_str(), "#EXTM3U") {
        PlaylistReply { body: processed, no_store: true }
    } else {
        proof {
            reveal_strlit("Error: ");
            reveal_strlit("Invalid upstream response");
            reveal_strlit("Error: Invalid upstream response");
            assert("Error: "@ + "Invalid upstream response"@
                =~= "Error: Invalid upstream response"@);
        }
        PlaylistReply { body: error_playlist("Invalid upstream response"), no_store: false }
    }
}

/// The processor of a request: its links carry the URL that the playlist was
/// fetched from.
pub open spec fn request_processor(
    proxy_base: Seq<char>,
    params: ParamsView,
    opts: ManifestOptions,
    playlist_url: Seq<char>,
) -> ProcessorView {
    ProcessorView {
        base: proxy_base,
        params: ParamsView { playlist_url: Some(playlist_url), ..params },
        key_only_proxy: opts.key_only_proxy,
        no_proxy: opts.no_proxy,
        force_playlist_proxy: opts.force_playlist_proxy,
        skips: skip_view(opts.skips),
        start_offset: opt_text(opts.start_offset),
        force_start_offset: opts.force_start_offset,
    }
}

/// `out` answers a request with the playlist `content` from `playlist_url`.
pub open spec fn is_playlist_reply(
    v: ProcessorView,
    content: Seq<u8>,
    playlist_url: Seq<char>,
    out: PlaylistReply,
) -> bool {
    if out.no_store {
        is_output(v, content, playlist_url, out.body@) && contains(out.body@, "#EXTM3U"@)
    } else {
        &&& out.body@ == closing_playlist("Error: Invalid upstream response"@)
        &&& exists|text: Seq<char>| #[trigger]
            is_output(v, content, playlist_url, text) && !contains(text, "#EXTM3U"@)
    }
}

/// Answers a playlist request. `fetched` is the upstream playlist and the URL
/// that it was finally fetched from, where it could be fetched.
pub fn manifest_reply(
    proxy_base: &str,
    params: ProxyParams,
    opts: ManifestOptions,
    fetched: Option<(Vec<u8>, String)>,
) -> (r: PlaylistReply)
    ensures
        match fetched {
            None => r.body@ == closing_playlist("Stream unavailable"@) && !r.no_store,
            Some(f) => is_playlist_reply(
                request_processor(proxy_base@, params@, opts, f.1@),
                f.0@,
                f.1@,
                r,
            ),
        },
{
    match fetched {
        None => unavailable_reply(),
        Some(f) => {
            let (content, url) = f;
            let processor = ManifestProcessor::new(
                proxy_base,
                params.with_playlist_url(url.as_str()),
                opts,
            );
            let processed = processor.process(content.as_slice(), url.as_str());
            assert(is_output(processor@, content@, url@, processed@));
            processed_reply(processed)
        },
    }
}

} // verus!
