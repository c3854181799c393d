//! Rewriting of HLS playlists.
//!
//! Every link of an upstream playlist is made absolute and, as the options say,
//! led through the proxy.

use vstd::prelude::*;

use crate::codec::{text_or_empty, utf8_or_empty};
use crate::hls::playlist::{
    are_unbroken_tags, duration_text, fits_media, have_unbroken_tags, indexed, is_master_text,
    is_media_text, parse_master, parse_media, parsed_master, parsed_media, same_segment,
    segment_views, tag_views, write_master, write_media, written_number, MasterLinks, MasterView,
    MediaLinks, MediaView, SegmentLinks, SegmentView, TagLink, TagView, VariantLink, VariantView,
};
use crate::proxy::urls::{build_proxy_url, is_proxy_url, UrlArgs};
use crate::string_map::{Pairs, StringMap};
use crate::text::{
    ascii_lower, before, before_char, begins, chars, concat, contains, copy_opt, ends, ends_with,
    find, find_first, holds, lines, lines_text, lowercase, next_char, next_pos, opt_str, opt_text, same,
    slice_text, starts_with, strip_prefix, strip_prefix_text, texts, to_ascii_lower, trim,
    trim_text,
};
use crate::utils::url::{
    extension_of, path_of, resolve_url, resolved, segment_extension, url_path,
};

verus! {

// ---------------------------------------------------------------------------
// Parameters
// ---------------------------------------------------------------------------

/// Parameters forwarded from the incoming request to all generated proxy URLs.
pub struct ProxyParams {
    /// The password of the request; empty where there is none.
    pub api_password: String,
    /// Request headers to re-attach to proxied URLs.
    pub pass_headers: StringMap,
    /// The media playlist that the segment URLs come from.
    pub playlist_url: Option<String>,
}

/// Forwarded parameters, by their texts.
pub struct ParamsView {
    pub api_password: Seq<char>,
    pub pass_headers: Pairs,
    pub playlist_url: Option<Seq<char>>,
}

impl View for ProxyParams {
    type V = ParamsView;

    open spec fn view(&self) -> ParamsView {
        ParamsView {
            api_password: self.api_password@,
            pass_headers: self.pass_headers@,
            playlist_url: opt_text(self.playlist_url),
        }
    }
}

impl ProxyParams {
    /// Parameters without a playlist URL.
    pub fn new(api_password: &str, pass_headers: StringMap) -> (r: Self)
        ensures
            r@ == (ParamsView {
                api_password: api_password@,
                pass_headers: pass_headers@,
                playlist_url: None,
            }),
    {
        ProxyParams { api_password: api_password.to_owned(), pass_headers, playlist_url: None }
    }

    /// The password, where it is not empty.
    pub fn api_password_opt(&self) -> (r: Option<&str>)
        ensures
            opt_str(r) == password_opt(self@),
    {
        if chars(self.api_password.as_str()).len() == 0 {
            None
        } else {
            Some(self.api_password.as_str())
        }
    }

    /// The same parameters with a playlist URL.
    pub fn with_playlist_url(self, playlist_url: &str) -> (r: Self)
        ensures
            r@ == (ParamsView { playlist_url: Some(playlist_url@), ..self@ }),
    {
        ProxyParams {
            api_password: self.api_password,
            pass_headers: self.pass_headers,
            playlist_url: Some(playlist_url.to_owned()),
        }
    }
}

impl Clone for ProxyParams {
    fn clone(&self) -> (r: Self)
        ensures
            r@ == self@,
    {
        ProxyParams {
            api_password: self.api_password.clone(),
            pass_headers: self.pass_headers.clone(),
            playlist_url: copy_opt(&self.playlist_url),
        }
    }
}

impl Default for ProxyParams {
    fn default() -> (r: Self)
        ensures
            r@ == (ParamsView {
                api_password: Seq::empty(),
                pass_headers: Seq::empty(),
                playlist_url: None,
            }),
    {
        let r = ProxyParams {
            api_password: String::new(),
            pass_headers: StringMap::new(),
            playlist_url: None,
        };
        assert(r.api_password@ =~= Seq::<char>::empty());
        r
    }
}

/// The password, where it is not empty.
pub open spec fn password_opt(p: ParamsView) -> Option<Seq<char>> {
    if p.api_password.len() == 0 {
        None
    } else {
        Some(p.api_password)
    }
}

/// What the URL of an HLS endpoint is built from.
pub open spec fn hls_args(
    base: Seq<char>,
    endpoint: Seq<char>,
    destination: Seq<char>,
    query_params: Pairs,
    p: ParamsView,
) -> UrlArgs {
    UrlArgs {
        base,
        endpoint: Some(endpoint),
        destination,
        query_params,
        request_headers: p.pass_headers,
        response_headers: Seq::empty(),
        propagate_response_headers: Seq::empty(),
        remove_response_headers: Seq::empty(),
        stream_transformer: None,
        filename: None,
        api_password: password_opt(p),
        exp: None,
        ip: None,
        base64_encode_destination: false,
    }
}

/// `url` leads to a sub-playlist through the proxy.
pub open spec fn is_manifest_url(
    base: Seq<char>,
    destination: Seq<char>,
    p: ParamsView,
    url: Seq<char>,
) -> bool {
    is_proxy_url(hls_args(base, "/proxy/hls/manifest"@, destination, Seq::empty(), p), url)
}

/// The query parameters of a segment URL.
pub open spec fn segment_query(p: ParamsView) -> Pairs {
    match p.playlist_url {
        Some(u) => seq![("playlist_url"@, u)],
        None => Seq::empty(),
    }
}

/// `url` leads to a segment through the proxy.
pub open spec fn is_segment_url(
    base: Seq<char>,
    destination: Seq<char>,
    p: ParamsView,
    url: Seq<char>,
) -> bool {
    is_proxy_url(
        hls_args(
            base,
            "/proxy/hls/segment."@ + extension_of(destination),
            destination,
            segment_query(p),
            p,
        ),
        url,
    )
}

/// `url` leads to a key through the proxy.
pub open spec fn is_key_url(
    base: Seq<char>,
    destination: Seq<char>,
    p: ParamsView,
    url: Seq<char>,
) -> bool {
    is_proxy_url(hls_args(base, "/proxy/hls/segment"@, destination, Seq::empty(), p), url)
}

/// The URL of an HLS endpoint.
fn hls_url(
    proxy_base: &str,
    endpoint: &str,
    destination: &str,
    query_params: &StringMap,
    params: &ProxyParams,
) -> (r: String)
    ensures
        is_proxy_url(
            hls_args(proxy_base@, endpoint@, destination@, query_params@, params@),
            r@,
        ),
{
    let none = StringMap::new();
    let removed: Vec<String> = Vec::new();
    assert(texts(removed@) =~= Seq::empty());
    build_proxy_url(
        proxy_base,
        Some(endpoint),
        destination,
        query_params,
        &params.pass_headers,
        &none,
        &none,
        &removed,
        None,
        None,
        params.api_password_opt(),
        None,
        None,
        false,
        0,
    ).unwrap()
}

/// Builds a proxied URL for a manifest or sub-playlist.
pub fn proxy_manifest_url(proxy_base: &str, destination: &str, params: &ProxyParams) -> (r: String)
    ensures
        is_manifest_url(proxy_base@, destination@, params@, r@),
{
    hls_url(proxy_base, "/proxy/hls/manifest", destination, &StringMap::new(), params)
}

/// Builds a proxied URL for a segment; the path ends in the segment's file name
/// extension.
pub fn proxy_segment_url(proxy_base: &str, destination: &str, params: &ProxyParams) -> (r: String)
    ensures
        is_segment_url(proxy_base@, destination@, params@, r@),
{
    let ext = segment_extension(destination);
    let mut query = StringMap::new();
    if let Some(u) = &params.playlist_url {
        query.insert("playlist_url", u.as_str());
    }
    assert(query@ =~= segment_query(params@));
    let endpoint = concat("/proxy/hls/segment.", ext.as_str());
    hls_url(proxy_base, endpoint.as_str(), destination, &query, params)
}

/// Builds a proxied URL for a key: the segment endpoint without an extension.
pub fn proxy_key_url(proxy_base: &str, destination: &str, params: &ProxyParams) -> (r: String)
    ensures
        is_key_url(proxy_base@, destination@, params@, r@),
{
    hls_url(proxy_base, "/proxy/hls/segment", destination, &StringMap::new(), params)
}

// ---------------------------------------------------------------------------
// Options
// ---------------------------------------------------------------------------

/// Options that control the rewriting.
pub struct ManifestOptions {
    /// Only key URLs are proxied; the URLs of segments and of their
    /// initialization sections are returned direct.
    pub key_only_proxy: bool,
    /// No URL is proxied; each is made absolute.
    pub no_proxy: bool,
    /// Segment URLs are proxied as playlists.
    pub force_playlist_proxy: bool,
    /// For each segment in turn whether it is left out; `None` where nothing is
    /// to be left out.
    pub skips: Option<Vec<bool>>,
    /// The `EXT-X-START` time offset to put in, as it is written.
    pub start_offset: Option<String>,
    /// Put the offset into finished streams too.
    pub force_start_offset: bool,
}

impl Default for ManifestOptions {
    fn default() -> (r: Self)
        ensures
            !r.key_only_proxy && !r.no_proxy && !r.force_playlist_proxy && r.skips is None
                && r.start_offset is None && !r.force_start_offset,
    {
        ManifestOptions {
            key_only_proxy: false,
            no_proxy: false,
            force_playlist_proxy: false,
            skips: None,
            start_offset: None,
            force_start_offset: false,
        }
    }
}

/// A processor, by its texts.
pub struct ProcessorView {
    pub base: Seq<char>,
    pub params: ParamsView,
    pub key_only_proxy: bool,
    pub no_proxy: bool,
    pub force_playlist_proxy: bool,
    pub skips: Option<Seq<bool>>,
    pub start_offset: Option<Seq<char>>,
    pub force_start_offset: bool,
}

/// Rewrites the links of upstream playlists.
pub struct ManifestProcessor {
    proxy_base: String,
    params: ProxyParams,
    opts: ManifestOptions,
}

/// A list of decisions.
pub open spec fn skip_view(skips: Option<Vec<bool>>) -> Option<Seq<bool>> {
    match skips {
        Some(v) => Some(v@),
        None => None,
    }
}

impl View for ManifestProcessor {
    type V = ProcessorView;

    closed spec fn view(&self) -> ProcessorView {
        ProcessorView {
            base: self.proxy_base@,
            params: self.params@,
            key_only_proxy: self.opts.key_only_proxy,
            no_proxy: self.opts.no_proxy,
            force_playlist_proxy: self.opts.force_playlist_proxy,
            skips: skip_view(self.opts.skips),
            start_offset: opt_text(self.opts.start_offset),
            force_start_offset: self.opts.force_start_offset,
        }
    }
}

// ---------------------------------------------------------------------------
// Single links
// ---------------------------------------------------------------------------

/// The endpoint that a link is led through.
#[derive(Clone, Copy, PartialEq, Eq, Structural)]
pub enum LinkKind {
    /// A sub-playlist.
    Manifest,
    /// A segment.
    Segment,
    /// A key.
    Key,
}

/// `out` is the link to an absolute destination: the destination itself without
/// proxying, and for segments where keys alone are proxied; else a URL of the
/// endpoint.
pub open spec fn is_link(
    v: ProcessorView,
    kind: LinkKind,
    destination: Seq<char>,
    out: Seq<char>,
) -> bool {
    if v.no_proxy || (v.key_only_proxy && kind == LinkKind::Segment) {
        out == destination
    } else {
        match kind {
            LinkKind::Manifest => is_manifest_url(v.base, destination, v.params, out),
            LinkKind::Segment => is_segment_url(v.base, destination, v.params, out),
            LinkKind::Key => is_key_url(v.base, destination, v.params, out),
        }
    }
}

/// A URL whose path ends in a playlist's file name extension.
pub open spec fn is_playlist(url: Seq<char>) -> bool {
    let path = ascii_lower(url_path(url));
    ends_with(path, ".m3u8"@) || ends_with(path, ".m3u"@)
}

/// Whether the path of a URL ends in a playlist's file name extension.
pub fn is_playlist_url(url: &str) -> (r: bool)
    ensures
        r == is_playlist(url@),
{
    let lower = to_ascii_lower(path_of(url).as_str());
    ends(lower.as_str(), ".m3u8") || ends(lower.as_str(), ".m3u")
}

/// `out` is the link of a line that names a segment or a sub-playlist.
pub open spec fn is_segment_link(
    v: ProcessorView,
    base_url: Seq<char>,
    uri: Seq<char>,
    out: Seq<char>,
) -> bool {
    let abs = resolved(base_url, uri);
    if v.no_proxy || v.key_only_proxy {
        out == abs
    } else if is_playlist(abs) || v.force_playlist_proxy {
        is_link(v, LinkKind::Manifest, abs, out)
    } else {
        is_link(v, LinkKind::Segment, abs, out)
    }
}

/// Where the value of the first `URI="..."` begins and ends.
pub open spec fn quoted_uri(s: Seq<char>) -> Option<(int, int)> {
    match find_first(s, "URI=\""@) {
        None => None,
        Some(i) => {
            let end = next_char(s, '"', i + 5);
            if end < s.len() {
                Some((i + 5, end))
            } else {
                None
            }
        },
    }
}

/// `out` is `s` with the URI from `a` to `b` replaced by a link.
pub open spec fn is_relinked_at(
    v: ProcessorView,
    base_url: Seq<char>,
    s: Seq<char>,
    kind: LinkKind,
    a: int,
    b: int,
    out: Seq<char>,
) -> bool {
    exists|u: Seq<char>| #[trigger]
        is_link(v, kind, resolved(base_url, s.subrange(a, b)), u) && out == s.subrange(0, a) + u
            + s.subrange(b, s.len() as int)
}

/// `out` is `s` with the value of its first `URI="..."` replaced by a link.
pub open spec fn is_relinked(
    v: ProcessorView,
    base_url: Seq<char>,
    s: Seq<char>,
    kind: LinkKind,
    out: Seq<char>,
) -> bool {
    match quoted_uri(s) {
        None => out == s,
        Some((a, b)) => is_relinked_at(v, base_url, s, kind, a, b, out),
    }
}

/// Without proxying, every link is the absolute destination itself.
pub proof fn law_no_proxy_is_direct(
    v: ProcessorView,
    kind: LinkKind,
    base_url: Seq<char>,
    uri: Seq<char>,
    out: Seq<char>,
)
    requires
        v.no_proxy,
    ensures
        is_link(v, kind, uri, out) <==> out == uri,
        is_segment_link(v, base_url, uri, out) <==> out == resolved(base_url, uri),
{
}

/// With keys alone proxied, the links of a segment and of its initialization
/// section are their absolute URLs.
pub proof fn law_key_only_leaves_segments(
    v: ProcessorView,
    base_url: Seq<char>,
    uri: Seq<char>,
    out: Seq<char>,
)
    requires
        v.key_only_proxy,
    ensures
        is_segment_link(v, base_url, uri, out) <==> out == resolved(base_url, uri),
        is_opt_link(v, base_url, LinkKind::Segment, Some(uri), Some(out)) <==> out == resolved(
            base_url,
            uri,
        ),
{
}

impl ManifestProcessor {
    /// A processor whose links begin with `proxy_base`.
    pub fn new(proxy_base: &str, params: ProxyParams, opts: ManifestOptions) -> (r: Self)
        ensures
            r@ == (ProcessorView {
                base: proxy_base@,
                params: params@,
                key_only_proxy: opts.key_only_proxy,
                no_proxy: opts.no_proxy,
                force_playlist_proxy: opts.force_playlist_proxy,
                skips: skip_view(opts.skips),
                start_offset: opt_text(opts.start_offset),
                force_start_offset: opts.force_start_offset,
            }),
    {
        ManifestProcessor { proxy_base: proxy_base.to_owned(), params, opts }
    }

    /// The link to an absolute destination.
    fn link(&self, kind: LinkKind, destination: String) -> (r: String)
        ensures
            is_link(self@, kind, destination@, r@),
    {
        if self.opts.no_proxy {
            return destination;
        }
        if self.opts.key_only_proxy {
            if let LinkKind::Segment = kind {
                return destination;
            }
        }
        let base = self.proxy_base.as_str();
        match kind {
            LinkKind::Manifest => proxy_manifest_url(base, destination.as_str(), &self.params),
            LinkKind::Segment => proxy_segment_url(base, destination.as_str(), &self.params),
            LinkKind::Key => proxy_key_url(base, destination.as_str(), &self.params),
        }
    }

    /// The link of a reference to a sub-playlist.
    pub fn rewrite_playlist_uri(&self, uri: &str, base_url: &str) -> (r: String)
        ensures
            is_link(self@, LinkKind::Manifest, resolved(base_url@, uri@), r@),
    {
        self.link(LinkKind::Manifest, resolve_url(base_url, uri))
    }

    /// The link of a line that names a segment or a sub-playlist.
    pub fn rewrite_segment_or_playlist_uri(&self, uri: &str, base_url: &str) -> (r: String)
        ensures
            is_segment_link(self@, base_url@, uri@, r@),
    {
        let abs = resolve_url(base_url, uri);
        if self.opts.no_proxy || self.opts.key_only_proxy {
            return abs;
        }
        if is_playlist_url(abs.as_str()) || self.opts.force_playlist_proxy {
            return self.link(LinkKind::Manifest, abs);
        }
        self.link(LinkKind::Segment, abs)
    }

    /// Replaces the value of the first `URI="..."` of a text.
    fn relink(&self, s: &str, base_url: &str, kind: LinkKind) -> (r: String)
        ensures
            is_relinked(self@, base_url@, s@, kind, r@),
    {
        proof {
            reveal_strlit("URI=\"");
        }
        let v = chars(s);
        let start: usize = match find(s, "URI=\"") {
            Some(i) => {
                assert(i + 5 <= v.len());
                i + 5
            },
            None => {
                return s.to_owned();
            },
        };
        let end: usize = next_pos(&v, '"', start);
        if end >= v.len() {
            return s.to_owned();
        }
        let uri = slice_text(&v, start, end);
        let u = self.link(kind, resolve_url(base_url, uri.as_str()));
        let mut r = slice_text(&v, 0, start);
        r.push_str(u.as_str());
        r.push_str(slice_text(&v, end, v.len()).as_str());
        assert(quoted_uri(s@) == Some((start as int, end as int)));
        assert(is_link(self@, kind, resolved(base_url@, s@.subrange(start as int, end as int)), u@));
        assert(is_relinked_at(self@, base_url@, s@, kind, start as int, end as int, r@));
        r
    }

    /// Rewrites the `URI="..."` value in the attributes of an unknown tag. It
    /// names a sub-playlist where `is_playlist` holds, else a key.
    pub fn rewrite_tag_rest_uri(&self, rest: &str, base_url: &str, is_playlist: bool) -> (r: String)
        ensures
            is_relinked(
                self@,
                base_url@,
                rest@,
                if is_playlist {
                    LinkKind::Manifest
                } else {
                    LinkKind::Key
                },
                r@,
            ),
    {
        let kind = if is_playlist {
            LinkKind::Manifest
        } else {
            LinkKind::Key
        };
        self.relink(rest, base_url, kind)
    }

    /// Rewrites the `URI="..."` value of a tag line.
    pub fn process_tag_with_uri(&self, line: &str, base_url: &str) -> (r: String)
        ensures
            is_relinked(self@, base_url@, line@, tag_line_kind(line@), r@),
    {
        let kind = if begins(line, "#EXT-X-MAP") {
            LinkKind::Segment
        } else if begins(line, "#EXT-X-MEDIA") {
            LinkKind::Manifest
        } else {
            LinkKind::Key
        };
        self.relink(line, base_url, kind)
    }
}

/// What the URI of a tag line names: initialization sections are segments,
/// renditions are sub-playlists, all else are keys.
pub open spec fn tag_line_kind(line: Seq<char>) -> LinkKind {
    if starts_with(line, "#EXT-X-MAP"@) {
        LinkKind::Segment
    } else if starts_with(line, "#EXT-X-MEDIA"@) {
        LinkKind::Manifest
    } else {
        LinkKind::Key
    }
}

// ---------------------------------------------------------------------------
// Line by line
// ---------------------------------------------------------------------------

/// What is remembered from line to line.
pub struct LineState {
    /// The `EXTINF` line that waits for its segment.
    pub pending: Option<Seq<char>>,
    /// A segment was left out since the last one that was kept.
    pub gap: bool,
    /// The start offset has been put in.
    pub offset_done: bool,
    /// How many `EXTINF` lines there were.
    pub seen: nat,
}

/// What becomes of a line.
pub enum LinePlan {
    /// Nothing is written for now.
    Nothing,
    /// The line is kept.
    Keep(Seq<char>),
    /// The line is kept and the start offset put behind it.
    KeepWithOffset(Seq<char>),
    /// A tag line whose URI is replaced.
    Tag(Seq<char>),
    /// A segment: whether a discontinuity precedes it, its `EXTINF` line, and
    /// its URI.
    Segment(bool, Option<Seq<char>>, Seq<char>),
}

/// Whether the segment of number `i` is left out.
pub open spec fn skipped(v: ProcessorView, i: nat) -> bool {
    v.skips matches Some(s) && i < s.len() && s[i as int]
}

/// The state before the first line.
pub open spec fn first_state() -> LineState {
    LineState { pending: None, gap: false, offset_done: false, seen: 0 }
}

/// A line that says that the stream is finished.
pub open spec fn is_vod_line(line: Seq<char>) -> bool {
    let t = trim_text(line);
    ||| starts_with(t, "#EXT-X-ENDLIST"@)
    ||| starts_with(t, "#EXT-X-PLAYLIST-TYPE:"@) && contains(lowercase(t), "vod"@)
}

/// The lines of a finished stream.
pub open spec fn are_vod_lines(lines: Seq<Seq<char>>) -> bool {
    exists|i: int| 0 <= i < lines.len() && is_vod_line(#[trigger] lines[i])
}

/// Whether the start offset goes into a playlist: into that of a finished stream
/// only where it is forced.
pub open spec fn wants_offset(v: ProcessorView, vod: bool) -> bool {
    v.start_offset is Some && (v.force_start_offset || !vod)
}

/// What becomes of a line, and the state behind it.
pub open spec fn line_step(v: ProcessorView, vod: bool, st: LineState, line: Seq<char>) -> (
    LineState,
    LinePlan,
) {
    if trim_text(line) == "#EXTM3U"@ {
        if wants_offset(v, vod) && !st.offset_done {
            (LineState { offset_done: true, ..st }, LinePlan::KeepWithOffset(line))
        } else {
            (st, LinePlan::Keep(line))
        }
    } else if starts_with(line, "#EXTINF:"@) {
        if skipped(v, st.seen) {
            (LineState { pending: None, gap: true, seen: st.seen + 1, ..st }, LinePlan::Nothing)
        } else {
            (LineState { pending: Some(line), seen: st.seen + 1, ..st }, LinePlan::Nothing)
        }
    } else if !starts_with(line, "#"@) && trim_text(line).len() > 0 {
        if v.skips is Some && st.pending is None {
            (st, LinePlan::Nothing)
        } else {
            (
                LineState { pending: None, gap: false, ..st },
                LinePlan::Segment(st.gap, st.pending, line),
            )
        }
    } else if contains(line, "URI="@) {
        (st, LinePlan::Tag(line))
    } else if starts_with(line, "#EXT-X-DISCONTINUITY"@) {
        (LineState { gap: false, ..st }, LinePlan::Keep(line))
    } else {
        (st, LinePlan::Keep(line))
    }
}

/// The state before line `n`.
pub open spec fn state_at(v: ProcessorView, lines: Seq<Seq<char>>, n: int) -> LineState
    decreases n,
{
    if n <= 0 {
        first_state()
    } else {
        line_step(v, are_vod_lines(lines), state_at(v, lines, n - 1), lines[n - 1]).0
    }
}

/// What becomes of line `n`.
pub open spec fn plan_at(v: ProcessorView, lines: Seq<Seq<char>>, n: int) -> LinePlan {
    line_step(v, are_vod_lines(lines), state_at(v, lines, n), lines[n]).1
}

/// The tag that sets the start offset.
pub open spec fn start_tag(offset: Seq<char>) -> Seq<char> {
    "#EXT-X-START:TIME-OFFSET="@ + offset + ",PRECISE=YES\n"@
}

/// What stands before a segment's link.
pub open spec fn segment_head(gap: bool, extinf: Option<Seq<char>>) -> Seq<char> {
    (if gap {
        "#EXT-X-DISCONTINUITY\n"@
    } else {
        Seq::empty()
    }) + match extinf {
        Some(e) => e + "\n"@,
        None => Seq::empty(),
    }
}

/// `out` is a segment behind its head.
pub open spec fn is_segment_piece(
    v: ProcessorView,
    base_url: Seq<char>,
    head: Seq<char>,
    uri: Seq<char>,
    out: Seq<char>,
) -> bool {
    exists|u: Seq<char>| #[trigger]
        is_segment_link(v, base_url, uri, u) && out == head + u + "\n"@
}

/// `out` is a tag line with its URI replaced.
pub open spec fn is_tag_piece(
    v: ProcessorView,
    base_url: Seq<char>,
    line: Seq<char>,
    out: Seq<char>,
) -> bool {
    exists|t: Seq<char>| #[trigger]
        is_relinked(v, base_url, line, tag_line_kind(line), t) && out == t + "\n"@
}

/// `out` is what a plan writes.
pub open spec fn is_piece(
    v: ProcessorView,
    base_url: Seq<char>,
    plan: LinePlan,
    out: Seq<char>,
) -> bool {
    match plan {
        LinePlan::Nothing => out == Seq::<char>::empty(),
        LinePlan::Keep(line) => out == line + "\n"@,
        LinePlan::KeepWithOffset(line) => out == line + "\n"@ + start_tag(v.start_offset->0),
        LinePlan::Tag(line) => is_tag_piece(v, base_url, line, out),
        LinePlan::Segment(gap, extinf, uri) => is_segment_piece(
            v,
            base_url,
            segment_head(gap, extinf),
            uri,
            out,
        ),
    }
}

/// `out` is what the first `n` lines become.
pub open spec fn are_pieces(
    v: ProcessorView,
    base_url: Seq<char>,
    lines: Seq<Seq<char>>,
    n: int,
    out: Seq<char>,
) -> bool
    decreases n,
{
    if n <= 0 {
        out == Seq::<char>::empty()
    } else {
        exists|before: Seq<char>, piece: Seq<char>|
            #![trigger before + piece]
            are_pieces(v, base_url, lines, n - 1, before) && is_piece(
                v,
                base_url,
                plan_at(v, lines, n - 1),
                piece,
            ) && out == before + piece
    }
}

/// `out` is the text `content` rewritten line by line.
pub open spec fn is_line_rewrite(
    v: ProcessorView,
    base_url: Seq<char>,
    content: Seq<char>,
    out: Seq<char>,
) -> bool {
    are_pieces(v, base_url, lines_text(content), lines_text(content).len() as int, out)
}

/// The `EXTINF` line that waits for its segment is a line of the playlist as it
/// stands there, with all its attributes.
pub proof fn law_extinf_lines_are_kept_whole(v: ProcessorView, lines: Seq<Seq<char>>, n: int)
    requires
        0 <= n <= lines.len(),
        state_at(v, lines, n).pending is Some,
    ensures
        exists|i: int|
            0 <= i < n && #[trigger] lines[i] == state_at(v, lines, n).pending->0 && starts_with(
                lines[i],
                "#EXTINF:"@,
            ),
    decreases n,
{
    if n > 0 {
        let before = state_at(v, lines, n - 1);
        let line = lines[n - 1];
        if trim_text(line) != "#EXTM3U"@ && starts_with(line, "#EXTINF:"@) {
            assert(lines[n - 1] == state_at(v, lines, n).pending->0);
        } else {
            law_extinf_lines_are_kept_whole(v, lines, n - 1);
            let i = choose|i: int|
                0 <= i < n - 1 && #[trigger] lines[i] == before.pending->0 && starts_with(
                    lines[i],
                    "#EXTINF:"@,
                );
            assert(lines[i] == state_at(v, lines, n).pending->0);
        }
    }
}

/// Once the start offset is put in, it stays so.
proof fn lemma_offset_done(v: ProcessorView, lines: Seq<Seq<char>>, i: int, j: int)
    requires
        0 <= i <= j,
        state_at(v, lines, i).offset_done,
    ensures
        state_at(v, lines, j).offset_done,
    decreases j - i,
{
    if i < j {
        lemma_offset_done(v, lines, i, j - 1);
    }
}

/// The start offset is put in at most once.
pub proof fn law_offset_is_put_in_once(v: ProcessorView, lines: Seq<Seq<char>>, i: int, j: int)
    requires
        0 <= i < j < lines.len(),
        plan_at(v, lines, i) is KeepWithOffset,
    ensures
        !(plan_at(v, lines, j) is KeepWithOffset),
{
    assert(state_at(v, lines, i + 1).offset_done);
    lemma_offset_done(v, lines, i + 1, j);
}

/// Writes the start offset tag.
fn start_tag_text(offset: &str) -> (r: String)
    ensures
        r@ == start_tag(offset@),
{
    let mut r = "#EXT-X-START:TIME-OFFSET=".to_owned();
    r.push_str(offset);
    r.push_str(",PRECISE=YES\n");
    r
}

/// Whether the lines are those of a finished stream.
fn says_vod(all: &Vec<String>) -> (r: bool)
    ensures
        r == are_vod_lines(texts(all@)),
{
    let mut i: usize = 0;
    while i < all.len()
        invariant
            i <= all.len(),
            forall|j: int| 0 <= j < i ==> !is_vod_line(#[trigger] texts(all@)[j]),
        decreases all.len() - i,
    {
        let t = trim(all[i].as_str());
        assert(texts(all@)[i as int] == all@[i as int]@);
        if begins(t.as_str(), "#EXT-X-ENDLIST") {
            return true;
        }
        if begins(t.as_str(), "#EXT-X-PLAYLIST-TYPE:") && holds(
            t.to_lowercase().as_str(),
            "vod",
        ) {
            return true;
        }
        i += 1;
    }
    false
}

/// A finished stream has no start offset put in unless that is forced.
pub proof fn law_offset_spares_finished_streams(v: ProcessorView, lines: Seq<Seq<char>>, i: int)
    requires
        0 <= i < lines.len(),
        are_vod_lines(lines),
        !v.force_start_offset,
    ensures
        !(plan_at(v, lines, i) is KeepWithOffset),
{
}

impl ManifestProcessor {
    /// Whether the segment of number `i` is left out.
    fn is_skipped(&self, i: usize) -> (r: bool)
        ensures
            r == skipped(self@, i as nat),
    {
        match &self.opts.skips {
            Some(s) => i < s.len() && s[i],
            None => false,
        }
    }

    /// Rewrites a playlist line by line, for playlists that are not standard.
    pub fn process_lines(&self, content: &str, base_url: &str) -> (r: String)
        ensures
            is_line_rewrite(self@, base_url@, content@, r@),
    {
        let all = lines(content);
        let ghost v = self@;
        let ghost ls = lines_text(content@);
        let mut out = String::new();
        assert(out@ =~= Seq::<char>::empty());
        let mut pending: Option<String> = None;
        let mut gap: bool = false;
        let mut offset_done: bool = false;
        let mut seen: usize = 0;
        let wanted: bool = self.opts.start_offset.is_some() && (self.opts.force_start_offset
            || !says_vod(&all));
        let mut i: usize = 0;
        while i < all.len()
            invariant
                i <= all.len(),
                wanted == wants_offset(v, are_vod_lines(ls)),
                seen <= i,
                v == self@,
                ls == texts(all@),
                state_at(v, ls, i as int) == (LineState {
                    pending: opt_text(pending),
                    gap,
                    offset_done,
                    seen: seen as nat,
                }),
                are_pieces(v, base_url@, ls, i as int, out@),
            decreases all.len() - i,
        {
            let line = all[i].as_str();
            let ghost before = out@;
            let ghost st = state_at(v, ls, i as int);
            let ghost plan = plan_at(v, ls, i as int);
            assert(line@ == ls[i as int]);
            let mut piece = String::new();
            let trimmed = trim(line);
            if same(trimmed.as_str(), "#EXTM3U") {
                piece.push_str(line);
                piece.push_str("\n");
                assert(piece@ =~= line@ + "\n"@);
                if wanted && !offset_done {
                    if let Some(offset) = &self.opts.start_offset {
                        piece.push_str(start_tag_text(offset.as_str()).as_str());
                        offset_done = true;
                    }
                }
            } else if begins(line, "#EXTINF:") {
                if self.is_skipped(seen) {
                    gap = true;
                    pending = None;
                } else {
                    pending = Some(line.to_owned());
                }
                seen += 1;
                assert(piece@ =~= Seq::<char>::empty());
            } else if !begins(line, "#") && chars(trimmed.as_str()).len() > 0 {
                if self.opts.skips.is_some() && pending.is_none() {
                    assert(piece@ =~= Seq::<char>::empty());
                } else {
                    if gap {
                        piece.push_str("#EXT-X-DISCONTINUITY\n");
                    }
                    if let Some(e) = &pending {
                        piece.push_str(e.as_str());
                        piece.push_str("\n");
                    }
                    let ghost head = piece@;
                    assert(head =~= segment_head(gap, opt_text(pending)));
                    let u = self.rewrite_segment_or_playlist_uri(line, base_url);
                    piece.push_str(u.as_str());
                    piece.push_str("\n");
                    assert(is_segment_link(v, base_url@, line@, u@));
                    assert(is_segment_piece(v, base_url@, head, line@, piece@));
                    gap = false;
                    pending = None;
                }
            } else if holds(line, "URI=") {
                let t = self.process_tag_with_uri(line, base_url);
                piece.push_str(t.as_str());
                piece.push_str("\n");
                assert(piece@ =~= t@ + "\n"@);
                assert(is_relinked(v, base_url@, line@, tag_line_kind(line@), t@));
                assert(is_tag_piece(v, base_url@, line@, piece@));
            } else {
                if begins(line, "#EXT-X-DISCONTINUITY") {
                    gap = false;
                }
                piece.push_str(line);
                piece.push_str("\n");
                assert(piece@ =~= line@ + "\n"@);
            }
            assert(is_piece(v, base_url@, plan, piece@));
            out.push_str(piece.as_str());
            i += 1;
            assert(out@ == before + piece@);
        }
        out
    }
}

/// The duration text of an `#EXTINF:<duration>[,<title>]` line.
pub open spec fn extinf_duration(line: Seq<char>) -> Option<Seq<char>> {
    match strip_prefix_text(line, "#EXTINF:"@) {
        Some(rest) => Some(trim_text(before_char(rest, ','))),
        None => None,
    }
}

/// The duration text of an `#EXTINF:<duration>[,<title>]` line.
pub fn parse_extinf_duration(line: &str) -> (r: Option<String>)
    ensures
        opt_text(r) == extinf_duration(line@),
{
    match strip_prefix(line, "#EXTINF:") {
        Some(rest) => Some(trim(before(rest.as_str(), ',').as_str())),
        None => None,
    }
}

/// An `EXTINF` line with attributes of IPTV playlists.
pub open spec fn is_iptv_line(line: Seq<char>) -> bool {
    let t = trim_text(line);
    &&& starts_with(t, "#EXTINF:"@)
    &&& {
        ||| contains(t, "group-title="@)
        ||| contains(t, "tvg-id="@)
        ||| contains(t, "tvg-name="@)
        ||| contains(t, "tvg-logo="@)
    }
}

/// A playlist with an IPTV line.
pub open spec fn is_iptv(content: Seq<u8>) -> bool {
    let ls = lines_text(text_or_empty(content));
    exists|i: int| 0 <= i < ls.len() && is_iptv_line(#[trigger] ls[i])
}

/// Whether a playlist carries `EXTINF` attributes that the playlist writer
/// would drop.
pub fn is_iptv_playlist(content: &[u8]) -> (r: bool)
    ensures
        r == is_iptv(content@),
{
    let all = lines(utf8_or_empty(content).as_str());
    let ghost ls = lines_text(text_or_empty(content@));
    let mut i: usize = 0;
    while i < all.len()
        invariant
            i <= all.len(),
            ls == texts(all@),
            ls == lines_text(text_or_empty(content@)),
            forall|j: int| 0 <= j < i ==> !is_iptv_line(#[trigger] ls[j]),
        decreases all.len() - i,
    {
        let t = trim(all[i].as_str());
        assert(all@[i as int]@ == ls[i as int]);
        if begins(t.as_str(), "#EXTINF:") && (holds(t.as_str(), "group-title=") || holds(
            t.as_str(),
            "tvg-id=",
        ) || holds(t.as_str(), "tvg-name=") || holds(t.as_str(), "tvg-logo=")) {
            assert(is_iptv_line(ls[i as int]));
            return true;
        }
        i += 1;
    }
    false
}

/// Where a tag goes behind the `#EXTM3U` line that begins at `at`: behind its
/// line feed, or right behind the word where the line has none.
pub open spec fn behind_header(s: Seq<char>, at: int) -> int {
    let nl = next_char(s, '\n', at + 7);
    if nl < s.len() {
        nl + 1
    } else {
        at + 7
    }
}

/// A playlist with the start offset put behind its first `#EXTM3U` line.
pub open spec fn with_start(s: Seq<char>, offset: Seq<char>) -> Seq<char> {
    match find_first(s, "#EXTM3U"@) {
        None => s,
        Some(at) => s.subrange(0, behind_header(s, at)) + start_tag(offset) + s.subrange(
            behind_header(s, at),
            s.len() as int,
        ),
    }
}

/// Puts the start offset behind the `#EXTM3U` line.
pub fn inject_ext_x_start(content: &str, offset: &str) -> (r: String)
    ensures
        r@ == with_start(content@, offset@),
{
    proof {
        reveal_strlit("#EXTM3U");
    }
    let v = chars(content);
    match find(content, "#EXTM3U") {
        None => content.to_owned(),
        Some(at) => {
            assert(at + 7 <= v.len());
            let nl: usize = next_pos(&v, '\n', at + 7);
            let pos: usize = if nl < v.len() {
                nl + 1
            } else {
                at + 7
            };
            let mut r = slice_text(&v, 0, pos);
            r.push_str(start_tag_text(offset).as_str());
            r.push_str(slice_text(&v, pos, v.len()).as_str());
            r
        },
    }
}

/// A minimal playlist that ends the stream, with a comment in it.
pub open spec fn closing_playlist(comment: Seq<char>) -> Seq<char> {
    "#EXTM3U\n#EXT-X-VERSION:3\n#EXT-X-TARGETDURATION:1\n#EXT-X-PLAYLIST-TYPE:VOD\n# "@ + comment
        + "\n#EXT-X-ENDLIST\n"@
}

/// A minimal playlist that signals a normal end of the stream.
pub fn graceful_end_playlist(message: &str) -> (r: String)
    ensures
        r@ == closing_playlist(message@),
{
    let mut r =
        "#EXTM3U\n#EXT-X-VERSION:3\n#EXT-X-TARGETDURATION:1\n#EXT-X-PLAYLIST-TYPE:VOD\n# ".to_owned();
    r.push_str(message);
    r.push_str("\n#EXT-X-ENDLIST\n");
    r
}

/// A minimal playlist that reports an error.
pub fn error_playlist(error_message: &str) -> (r: String)
    ensures
        r@ == closing_playlist("Error: "@ + error_message@),
{
    graceful_end_playlist(concat("Error: ", error_message).as_str())
}

// ---------------------------------------------------------------------------
// Master playlists
// ---------------------------------------------------------------------------

/// `out` is a tag with the `URI="..."` of its attributes replaced. Tags without
/// one stay.
pub open spec fn is_tag_rewrite(
    v: ProcessorView,
    base_url: Seq<char>,
    t: TagView,
    kind: LinkKind,
    out: TagView,
) -> bool {
    &&& out.tag == t.tag
    &&& match t.rest {
        None => out.rest is None,
        Some(rest) => out.rest matches Some(r) && if contains(rest, "URI=\""@) {
            is_relinked(v, base_url, rest, kind, r)
        } else {
            r == rest
        },
    }
}

/// `out` is a tag of a master playlist, rewritten: the URI of a rendition is
/// replaced by a link, other tags stay.
pub open spec fn is_master_tag(
    v: ProcessorView,
    base_url: Seq<char>,
    t: TagView,
    out: TagView,
) -> bool {
    if t.tag != "X-MEDIA"@ {
        out == t
    } else {
        is_tag_rewrite(v, base_url, t, LinkKind::Manifest, out)
    }
}

/// `out` is an optional reference to a sub-playlist, rewritten.
pub open spec fn is_rendition(
    v: ProcessorView,
    base_url: Seq<char>,
    uri: Option<Seq<char>>,
    out: Option<Seq<char>>,
) -> bool {
    match uri {
        Some(u) => out matches Some(o) && is_link(v, LinkKind::Manifest, resolved(base_url, u), o),
        None => out is None,
    }
}

/// `out` is a variant, rewritten.
pub open spec fn is_variant(
    v: ProcessorView,
    base_url: Seq<char>,
    x: VariantView,
    out: VariantView,
) -> bool {
    &&& out.is_i_frame == x.is_i_frame
    &&& is_link(v, LinkKind::Manifest, resolved(base_url, x.uri), out.uri)
}

/// `out` are the links of a master playlist, rewritten.
pub open spec fn is_master_rewrite(
    v: ProcessorView,
    base_url: Seq<char>,
    m: MasterView,
    out: MasterView,
) -> bool {
    &&& out.variants.len() == m.variants.len()
    &&& forall|i: int|
        0 <= i < m.variants.len() ==> is_variant(
            v,
            base_url,
            m.variants[i],
            #[trigger] out.variants[i],
        )
    &&& out.alternatives.len() == m.alternatives.len()
    &&& forall|i: int|
        0 <= i < m.alternatives.len() ==> is_rendition(
            v,
            base_url,
            m.alternatives[i],
            #[trigger] out.alternatives[i],
        )
    &&& out.unknown_tags.len() == m.unknown_tags.len()
    &&& forall|i: int|
        0 <= i < m.unknown_tags.len() ==> is_master_tag(
            v,
            base_url,
            m.unknown_tags[i],
            #[trigger] out.unknown_tags[i],
        )
}

/// `out` is a master playlist with rewritten links.
pub open spec fn is_master_output(
    v: ProcessorView,
    base_url: Seq<char>,
    content: Seq<u8>,
    m: MasterView,
    out: Seq<char>,
) -> bool {
    &&& are_unbroken_tags(m.unknown_tags)
    &&& exists|links: MasterView| #[trigger]
        is_master_rewrite(v, base_url, m, links) && is_master_text(out, content, links)
}

/// A copy of a tag.
fn copy_tag(t: &TagLink) -> (r: TagLink)
    ensures
        r@ == t@,
{
    TagLink { tag: t.tag.clone(), rest: copy_opt(&t.rest) }
}

impl ManifestProcessor {
    /// Rewrites the `URI="..."` of a tag's attributes.
    fn rewrite_tag(&self, t: &TagLink, base_url: &str, is_playlist: bool) -> (r: TagLink)
        ensures
            is_tag_rewrite(
                self@,
                base_url@,
                t@,
                if is_playlist {
                    LinkKind::Manifest
                } else {
                    LinkKind::Key
                },
                r@,
            ),
    {
        let rest = match &t.rest {
            None => None,
            Some(rest) => if holds(rest.as_str(), "URI=\"") {
                Some(self.rewrite_tag_rest_uri(rest.as_str(), base_url, is_playlist))
            } else {
                Some(rest.clone())
            },
        };
        TagLink { tag: t.tag.clone(), rest }
    }

    /// Rewrites the links of a master playlist.
    pub fn rewrite_master(&self, m: &MasterLinks, base_url: &str) -> (r: MasterLinks)
        ensures
            is_master_rewrite(self@, base_url@, m@, r@),
    {
        let mut variants: Vec<VariantLink> = Vec::new();
        let mut i: usize = 0;
        while i < m.variants.len()
            invariant
                i <= m.variants.len(),
                variants.len() == i,
                forall|j: int|
                    0 <= j < i ==> is_variant(
                        self@,
                        base_url@,
                        m@.variants[j],
                        #[trigger] variants@[j]@,
                    ),
            decreases m.variants.len() - i,
        {
            let x = &m.variants[i];
            assert(m@.variants[i as int] == x@);
            variants.push(
                VariantLink {
                    uri: self.rewrite_playlist_uri(x.uri.as_str(), base_url),
                    is_i_frame: x.is_i_frame,
                },
            );
            i += 1;
        }
        let mut alternatives: Vec<Option<String>> = Vec::new();
        i = 0;
        while i < m.alternatives.len()
            invariant
                i <= m.alternatives.len(),
                alternatives.len() == i,
                forall|j: int|
                    0 <= j < i ==> is_rendition(
                        self@,
                        base_url@,
                        m@.alternatives[j],
                        opt_text(#[trigger] alternatives@[j]),
                    ),
            decreases m.alternatives.len() - i,
        {
            assert(m@.alternatives[i as int] == opt_text(m.alternatives@[i as int]));
            let uri = match &m.alternatives[i] {
                Some(u) => Some(self.rewrite_playlist_uri(u.as_str(), base_url)),
                None => None,
            };
            alternatives.push(uri);
            i += 1;
        }
        let mut unknown_tags: Vec<TagLink> = Vec::new();
        i = 0;
        while i < m.unknown_tags.len()
            invariant
                i <= m.unknown_tags.len(),
                unknown_tags.len() == i,
                forall|j: int|
                    0 <= j < i ==> is_master_tag(
                        self@,
                        base_url@,
                        m@.unknown_tags[j],
                        #[trigger] unknown_tags@[j]@,
                    ),
            decreases m.unknown_tags.len() - i,
        {
            let t = &m.unknown_tags[i];
            assert(m@.unknown_tags[i as int] == t@);
            let tag = if !same(t.tag.as_str(), "X-MEDIA") {
                copy_tag(t)
            } else {
                self.rewrite_tag(t, base_url, true)
            };
            unknown_tags.push(tag);
            i += 1;
        }
        MasterLinks { variants, alternatives, unknown_tags }
    }

    /// Rewrites a master playlist.
    fn process_master(&self, content: &[u8], m: &MasterLinks, base_url: &str) -> (r: String)
        requires
            parsed_master(content@) == Some(m@),
            are_unbroken_tags(m@.unknown_tags),
        ensures
            is_master_output(self@, base_url@, content@, m@, r@),
    {
        let links = self.rewrite_master(m, base_url);
        let ghost l = links@;
        proof {
            assert forall|i: int| 0 <= i < l.variants.len() implies (
            #[trigger] l.variants[i]).is_i_frame == m@.variants[i].is_i_frame by {
                assert(is_variant(self@, base_url@, m@.variants[i], l.variants[i]));
            }
            assert forall|i: int| 0 <= i < l.alternatives.len() implies ((
            #[trigger] l.alternatives[i]) is Some <==> m@.alternatives[i] is Some) by {
                assert(is_rendition(self@, base_url@, m@.alternatives[i], l.alternatives[i]));
            }
            assert forall|i: int| 0 <= i < m@.unknown_tags.len() implies (
            #[trigger] m@.unknown_tags[i]).tag == l.unknown_tags[i].tag by {
                assert(is_master_tag(self@, base_url@, m@.unknown_tags[i], l.unknown_tags[i]));
            }
        }
        let text = write_master(content, links);
        assert(is_master_text(text@, content@, l));
        text
    }
}

// ---------------------------------------------------------------------------
// Media playlists
// ---------------------------------------------------------------------------

/// What the URI of an unknown tag before a segment names.
pub open spec fn segment_tag_kind(tag: Seq<char>) -> LinkKind {
    if tag == "X-MEDIA"@ || tag == "X-I-FRAME-STREAM-INF"@ {
        LinkKind::Manifest
    } else {
        LinkKind::Key
    }
}

/// `out` is an optional link of a kind, rewritten.
pub open spec fn is_opt_link(
    v: ProcessorView,
    base_url: Seq<char>,
    kind: LinkKind,
    uri: Option<Seq<char>>,
    out: Option<Seq<char>>,
) -> bool {
    match uri {
        Some(u) => out matches Some(o) && is_link(v, kind, resolved(base_url, u), o),
        None => out is None,
    }
}

/// `out` are the tags before a segment, rewritten.
pub open spec fn are_segment_tags(
    v: ProcessorView,
    base_url: Seq<char>,
    tags: Seq<TagView>,
    out: Seq<TagView>,
) -> bool {
    &&& out.len() == tags.len()
    &&& forall|i: int|
        0 <= i < tags.len() ==> is_tag_rewrite(
            v,
            base_url,
            tags[i],
            segment_tag_kind(tags[i].tag),
            #[trigger] out[i],
        )
}

/// `out` is a segment with its links rewritten.
pub open spec fn is_segment_rewrite(
    v: ProcessorView,
    base_url: Seq<char>,
    s: SegmentView,
    out: SegmentView,
) -> bool {
    &&& out.index == s.index
    &&& out.duration_bits == s.duration_bits
    &&& out.discontinuity == s.discontinuity
    &&& is_opt_link(v, base_url, LinkKind::Key, s.key_uri, out.key_uri)
    &&& is_opt_link(v, base_url, LinkKind::Segment, s.map_uri, out.map_uri)
    &&& are_segment_tags(v, base_url, s.unknown_tags, out.unknown_tags)
    &&& is_segment_link(v, base_url, s.uri, out.uri)
}

/// A segment that follows one that was left out begins with a discontinuity.
pub open spec fn behind_gap(s: SegmentView, gap: bool) -> SegmentView {
    SegmentView { discontinuity: s.discontinuity || gap, ..s }
}

/// The last segment was left out.
pub open spec fn gap_at(v: ProcessorView, n: int) -> bool {
    n > 0 && skipped(v, (n - 1) as nat)
}

/// Of the first `n` segments those that are kept; the first behind a gap begins
/// with a discontinuity.
pub open spec fn kept_segments(
    v: ProcessorView,
    segments: Seq<SegmentView>,
    n: int,
) -> Seq<SegmentView>
    decreases n,
{
    if n <= 0 {
        Seq::empty()
    } else if skipped(v, (n - 1) as nat) {
        kept_segments(v, segments, n - 1)
    } else {
        kept_segments(v, segments, n - 1).push(behind_gap(segments[n - 1], gap_at(v, n - 1)))
    }
}

/// `out` are the segments of a media playlist, rewritten.
pub open spec fn are_segment_rewrites(
    v: ProcessorView,
    base_url: Seq<char>,
    segments: Seq<SegmentView>,
    out: Seq<SegmentView>,
) -> bool {
    &&& out.len() == segments.len()
    &&& forall|i: int|
        0 <= i < segments.len() ==> is_segment_rewrite(v, base_url, segments[i], #[trigger] out[i])
}

/// A finished stream: one that is closed, or whose type names it so.
pub open spec fn is_vod(m: MediaView) -> bool {
    m.end_list || (m.playlist_type matches Some(t) && contains(lowercase(t), "vod"@))
}

/// The text with the start offset put in where the options ask for it.
pub open spec fn with_offset(v: ProcessorView, vod: bool, text: Seq<char>) -> Seq<char> {
    if wants_offset(v, vod) {
        with_start(text, v.start_offset->0)
    } else {
        text
    }
}

/// `out` is a media playlist with rewritten links.
pub open spec fn is_media_output(
    v: ProcessorView,
    base_url: Seq<char>,
    content: Seq<u8>,
    m: MediaView,
    out: Seq<char>,
) -> bool {
    &&& have_unbroken_tags(m.segments)
    &&& exists|links: Seq<SegmentView>, text: Seq<char>|
        are_segment_rewrites(v, base_url, m.segments, links) && #[trigger] is_media_text(
            text,
            content,
            kept_segments(v, links, links.len() as int),
            m.end_list,
        ) && out == with_offset(v, is_vod(m), text)
}

/// `out` is a playlist with rewritten links: line by line where it carries IPTV
/// attributes or cannot be parsed.
pub open spec fn is_output(
    v: ProcessorView,
    content: Seq<u8>,
    source_url: Seq<char>,
    out: Seq<char>,
) -> bool {
    if is_iptv(content) {
        is_line_rewrite(v, source_url, text_or_empty(content), out)
    } else if parsed_master(content) is Some {
        is_master_output(v, source_url, content, parsed_master(content)->0, out)
    } else if parsed_media(content) is Some {
        is_media_output(v, source_url, content, parsed_media(content)->0, out)
    } else {
        is_line_rewrite(v, source_url, text_or_empty(content), out)
    }
}

/// Every kept segment comes from the playlist, is not left out, and keeps its
/// links.
pub proof fn lemma_kept(v: ProcessorView, segments: Seq<SegmentView>, n: int, k: int)
    requires
        0 <= n <= segments.len(),
        0 <= k < kept_segments(v, segments, n).len(),
    ensures
        exists|i: int|
            0 <= i < n && !skipped(v, i as nat) && kept_segments(v, segments, n)[k] == behind_gap(
                #[trigger] segments[i],
                gap_at(v, i),
            ),
    decreases n,
{
    let rest = kept_segments(v, segments, n - 1);
    if skipped(v, (n - 1) as nat) || k < rest.len() {
        lemma_kept(v, segments, n - 1, k);
    } else {
        assert(kept_segments(v, segments, n)[k] == behind_gap(segments[n - 1], gap_at(v, n - 1)));
    }
}

/// Leaving nothing out keeps every segment as it is.
pub proof fn law_no_skips_keeps_all(v: ProcessorView, segments: Seq<SegmentView>, n: int)
    requires
        v.skips is None,
        0 <= n <= segments.len(),
    ensures
        kept_segments(v, segments, n) == segments.take(n),
    decreases n,
{
    if n > 0 {
        law_no_skips_keeps_all(v, segments, n - 1);
        assert(behind_gap(segments[n - 1], false) == segments[n - 1]);
        assert(segments.take(n) =~= segments.take(n - 1).push(segments[n - 1]));
    } else {
        assert(segments.take(0) =~= Seq::empty());
    }
}

impl ManifestProcessor {
    /// Rewrites the tags before a segment.
    fn rewrite_segment_tags(&self, tags: &Vec<TagLink>, base_url: &str) -> (r: Vec<TagLink>)
        ensures
            are_segment_tags(self@, base_url@, tag_views(tags@), tag_views(r@)),
    {
        let mut out: Vec<TagLink> = Vec::new();
        let mut i: usize = 0;
        while i < tags.len()
            invariant
                i <= tags.len(),
                out.len() == i,
                forall|j: int|
                    0 <= j < i ==> is_tag_rewrite(
                        self@,
                        base_url@,
                        tags@[j]@,
                        segment_tag_kind(tags@[j]@.tag),
                        #[trigger] out@[j]@,
                    ),
            decreases tags.len() - i,
        {
            let t = &tags[i];
            let is_playlist: bool = same(t.tag.as_str(), "X-MEDIA") || same(
                t.tag.as_str(),
                "X-I-FRAME-STREAM-INF",
            );
            out.push(self.rewrite_tag(t, base_url, is_playlist));
            i += 1;
        }
        out
    }

    /// Rewrites the links of one segment.
    fn rewrite_segment(&self, s: &SegmentLinks, base_url: &str) -> (r: SegmentLinks)
        ensures
            is_segment_rewrite(self@, base_url@, s@, r@),
    {
        let key_uri = match &s.key_uri {
            Some(u) => Some(self.link(LinkKind::Key, resolve_url(base_url, u.as_str()))),
            None => None,
        };
        let map_uri = match &s.map_uri {
            Some(u) => Some(self.link(LinkKind::Segment, resolve_url(base_url, u.as_str()))),
            None => None,
        };
        SegmentLinks {
            index: s.index,
            duration_bits: s.duration_bits,
            discontinuity: s.discontinuity,
            key_uri,
            map_uri,
            unknown_tags: self.rewrite_segment_tags(&s.unknown_tags, base_url),
            uri: self.rewrite_segment_or_playlist_uri(s.uri.as_str(), base_url),
        }
    }

    /// Rewrites the links of the segments and leaves out those that are to be
    /// skipped.
    pub fn rewrite_media(&self, segments: &Vec<SegmentLinks>, base_url: &str) -> (r: Vec<
        SegmentLinks,
    >)
        ensures
            exists|links: Seq<SegmentView>|
                are_segment_rewrites(self@, base_url@, segment_views(segments@), links)
                    && segment_views(r@) == #[trigger] kept_segments(
                    self@,
                    links,
                    links.len() as int,
                ),
    {
        let ghost v = self@;
        let ghost mut links: Seq<SegmentView> = Seq::empty();
        let mut kept: Vec<SegmentLinks> = Vec::new();
        let mut gap: bool = false;
        let mut i: usize = 0;
        assert(segment_views(kept@) =~= kept_segments(v, links, 0));
        while i < segments.len()
            invariant
                i <= segments.len(),
                v == self@,
                links.len() == i,
                gap == gap_at(v, i as int),
                forall|j: int|
                    0 <= j < i ==> is_segment_rewrite(
                        v,
                        base_url@,
                        segments@[j]@,
                        #[trigger] links[j],
                    ),
                segment_views(kept@) == kept_segments(v, links, i as int),
            decreases segments.len() - i,
        {
            let mut s = self.rewrite_segment(&segments[i], base_url);
            let ghost before = links;
            proof {
                links = links.push(s@);
                lemma_kept_prefix(v, before, links, i as int);
            }
            let ghost seen = segment_views(kept@);
            if self.is_skipped(i) {
                gap = true;
            } else {
                if gap {
                    s.discontinuity = true;
                    gap = false;
                }
                kept.push(s);
                assert(segment_views(kept@) =~= seen.push(
                    behind_gap(links[i as int], gap_at(v, i as int)),
                ));
            }
            i += 1;
        }
        proof {
            assert(are_segment_rewrites(v, base_url@, segment_views(segments@), links));
        }
        kept
    }

    /// Rewrites a media playlist.
    fn process_media(&self, content: &[u8], m: &MediaLinks, base_url: &str) -> (r: String)
        requires
            parsed_media(content@) == Some(m@),
            indexed(m@.segments),
            have_unbroken_tags(m@.segments),
        ensures
            is_media_output(self@, base_url@, content@, m@, r@),
    {
        let vod: bool = m.end_list || match &m.playlist_type {
            Some(t) => holds(t.to_lowercase().as_str(), "vod"),
            None => false,
        };
        assert(vod == is_vod(m@));
        let kept = self.rewrite_media(&m.segments, base_url);
        let ghost links = choose|links: Seq<SegmentView>|
            are_segment_rewrites(self@, base_url@, m@.segments, links) && segment_views(kept@)
                == #[trigger] kept_segments(self@, links, links.len() as int);
        assert(fits_media(m@, segment_views(kept@))) by {
            let ks = segment_views(kept@);
            assert forall|k: int| 0 <= k < ks.len() implies (#[trigger] ks[k]).index
                < m@.segments.len() && same_segment(m@.segments[ks[k].index as int], ks[k]) by {
                lemma_kept(self@, links, links.len() as int, k);
                let i = choose|i: int|
                    0 <= i < links.len() && !skipped(self@, i as nat) && ks[k] == behind_gap(
                        #[trigger] links[i],
                        gap_at(self@, i),
                    );
                let parsed = m@.segments[i];
                assert(is_segment_rewrite(self@, base_url@, parsed, links[i]));
                assert(parsed.index == i);
                assert forall|t: int| 0 <= t < parsed.unknown_tags.len() implies (
                #[trigger] parsed.unknown_tags[t]).tag == ks[k].unknown_tags[t].tag by {
                    assert(is_tag_rewrite(
                        self@,
                        base_url@,
                        parsed.unknown_tags[t],
                        segment_tag_kind(parsed.unknown_tags[t].tag),
                        links[i].unknown_tags[t],
                    ));
                }
            }
        }
        let text = write_media(content, kept);
        assert(written_number() =~= (|bits: u32, decimals: usize| duration_text(bits, decimals)));
        assert(is_media_text(
            text@,
            content@,
            kept_segments(self@, links, links.len() as int),
            m@.end_list,
        ));
        if self.opts.force_start_offset || !vod {
            if let Some(offset) = &self.opts.start_offset {
                return inject_ext_x_start(text.as_str(), offset.as_str());
            }
        }
        text
    }

    /// Rewrites the playlist `content` that was fetched from `source_url`.
    pub fn process(&self, content: &[u8], source_url: &str) -> (r: String)
        ensures
            is_output(self@, content@, source_url@, r@),
    {
        if is_iptv_playlist(content) {
            return self.process_lines(utf8_or_empty(content).as_str(), source_url);
        }
        if let Some(m) = parse_master(content) {
            return self.process_master(content, &m, source_url);
        }
        if let Some(m) = parse_media(content) {
            return self.process_media(content, &m, source_url);
        }
        self.process_lines(utf8_or_empty(content).as_str(), source_url)
    }
}

/// What is kept of the first `n` segments does not depend on later ones.
proof fn lemma_kept_prefix(v: ProcessorView, a: Seq<SegmentView>, b: Seq<SegmentView>, n: int)
    requires
        0 <= n <= a.len() <= b.len(),
        forall|i: int| 0 <= i < a.len() ==> a[i] == b[i],
    ensures
        kept_segments(v, a, n) == kept_segments(v, b, n),
    decreases n,
{
    if n > 0 {
        lemma_kept_prefix(v, a, b, n - 1);
    }
}

// ---------------------------------------------------------------------------
// Segment URLs and durations
// ---------------------------------------------------------------------------

/// The absolute URLs of the first `n` segments, without those of playlists.
pub open spec fn segment_urls(
    segments: Seq<SegmentView>,
    source_url: Seq<char>,
    n: int,
) -> Seq<Seq<char>>
    decreases n,
{
    if n <= 0 {
        Seq::empty()
    } else {
        let rest = segment_urls(segments, source_url, n - 1);
        let url = resolved(source_url, segments[n - 1].uri);
        if is_playlist(url) {
            rest
        } else {
            rest.push(url)
        }
    }
}

/// Whether an `EXTINF` line waits for its segment behind the first `n` lines.
pub open spec fn awaits_segment(lines: Seq<Seq<char>>, n: int) -> bool
    decreases n,
{
    if n <= 0 {
        false
    } else {
        let line = trim_text(lines[n - 1]);
        if starts_with(line, "#EXTINF:"@) {
            true
        } else if line.len() == 0 || starts_with(line, "#"@) {
            awaits_segment(lines, n - 1)
        } else {
            false
        }
    }
}

/// The absolute URLs of the lines that follow an `EXTINF` line, without those of
/// playlists.
pub open spec fn line_urls(
    lines: Seq<Seq<char>>,
    source_url: Seq<char>,
    n: int,
) -> Seq<Seq<char>>
    decreases n,
{
    if n <= 0 {
        Seq::empty()
    } else {
        let rest = line_urls(lines, source_url, n - 1);
        let line = trim_text(lines[n - 1]);
        let url = resolved(source_url, line);
        if line.len() == 0 || starts_with(line, "#"@) || !awaits_segment(lines, n - 1)
            || is_playlist(url) {
            rest
        } else {
            rest.push(url)
        }
    }
}

/// The segment URLs of a playlist.
pub open spec fn playlist_segment_urls(content: Seq<u8>, source_url: Seq<char>) -> Seq<Seq<char>> {
    if parsed_media(content) is Some {
        let segments = parsed_media(content)->0.segments;
        segment_urls(segments, source_url, segments.len() as int)
    } else if parsed_master(content) is Some {
        Seq::empty()
    } else {
        let ls = lines_text(text_or_empty(content));
        line_urls(ls, source_url, ls.len() as int)
    }
}

/// The durations of a playlist's segments, as they are to be tested against
/// the ranges that are left out.
pub enum SegmentDurations {
    /// The texts of the `EXTINF` lines.
    Texts(Vec<String>),
    /// The bit patterns of single precision numbers.
    Bits(Vec<u32>),
}

/// The duration texts of the `EXTINF` lines among the first `n` lines.
pub open spec fn duration_texts(lines: Seq<Seq<char>>, n: int) -> Seq<Seq<char>>
    decreases n,
{
    if n <= 0 {
        Seq::empty()
    } else {
        let rest = duration_texts(lines, n - 1);
        match extinf_duration(lines[n - 1]) {
            Some(d) => rest.push(d),
            None => rest,
        }
    }
}

/// The durations are those of the segments that `process` numbers.
pub open spec fn are_durations(content: Seq<u8>, d: SegmentDurations) -> bool {
    let ls = lines_text(text_or_empty(content));
    if is_iptv(content) || (parsed_media(content) is None && parsed_master(content) is None) {
        d matches SegmentDurations::Texts(t) && texts(t@) == duration_texts(ls, ls.len() as int)
    } else {
        d matches SegmentDurations::Bits(b) && if parsed_media(content) is Some {
            let segments = parsed_media(content)->0.segments;
            b@ == Seq::new(segments.len(), |i: int| segments[i].duration_bits)
        } else {
            b@.len() == 0
        }
    }
}

/// The durations of the segments that `ManifestProcessor::process` numbers for
/// its `skips`, in order.
pub fn segment_durations(content: &[u8]) -> (r: SegmentDurations)
    ensures
        are_durations(content@, r),
{
    if !is_iptv_playlist(content) {
        if let Some(m) = parse_media(content) {
            let mut bits: Vec<u32> = Vec::new();
            let mut i: usize = 0;
            while i < m.segments.len()
                invariant
                    i <= m.segments.len(),
                    bits.len() == i,
                    forall|j: int| 0 <= j < i ==> bits@[j] == m.segments@[j].duration_bits,
                decreases m.segments.len() - i,
            {
                bits.push(m.segments[i].duration_bits);
                i += 1;
            }
            assert(bits@ =~= Seq::new(
                m@.segments.len(),
                |i: int| m@.segments[i].duration_bits,
            ));
            return SegmentDurations::Bits(bits);
        }
        if parse_master(content).is_some() {
            return SegmentDurations::Bits(Vec::new());
        }
    }
    let all = lines(utf8_or_empty(content).as_str());
    let ghost ls = lines_text(text_or_empty(content@));
    let mut out: Vec<String> = Vec::new();
    assert(texts(out@) =~= Seq::empty());
    let mut i: usize = 0;
    while i < all.len()
        invariant
            i <= all.len(),
            ls == texts(all@),
            texts(out@) == duration_texts(ls, i as int),
        decreases all.len() - i,
    {
        assert(all@[i as int]@ == ls[i as int]);
        if let Some(d) = parse_extinf_duration(all[i].as_str()) {
            let ghost before = texts(out@);
            let ghost text = d@;
            out.push(d);
            assert(texts(out@) =~= before.push(text));
        }
        i += 1;
    }
    SegmentDurations::Texts(out)
}

impl ManifestProcessor {
    /// The absolute URLs of the media segments of an upstream playlist.
    pub fn media_segment_urls(content: &[u8], source_url: &str) -> (r: Vec<String>)
        ensures
            texts(r@) == playlist_segment_urls(content@, source_url@),
    {
        let mut urls: Vec<String> = Vec::new();
        assert(texts(urls@) =~= Seq::empty());
        if let Some(m) = parse_media(content) {
            let mut i: usize = 0;
            while i < m.segments.len()
                invariant
                    i <= m.segments.len(),
                    texts(urls@) == segment_urls(m@.segments, source_url@, i as int),
                decreases m.segments.len() - i,
            {
                let url = resolve_url(source_url, m.segments[i].uri.as_str());
                assert(m@.segments[i as int].uri == m.segments@[i as int].uri@);
                if !is_playlist_url(url.as_str()) {
                    let ghost before = texts(urls@);
                    let ghost text = url@;
                    urls.push(url);
                    assert(texts(urls@) =~= before.push(text));
                }
                i += 1;
            }
            return urls;
        }
        if parse_master(content).is_some() {
            return urls;
        }
        Self::media_segment_urls_from_lines(utf8_or_empty(content).as_str(), source_url)
    }

    /// The absolute URLs of the lines that follow `EXTINF` lines.
    pub fn media_segment_urls_from_lines(content: &str, source_url: &str) -> (r: Vec<String>)
        ensures
            texts(r@) == line_urls(
                lines_text(content@),
                source_url@,
                lines_text(content@).len() as int,
            ),
    {
        let all = lines(content);
        let ghost ls = lines_text(content@);
        let mut urls: Vec<String> = Vec::new();
        assert(texts(urls@) =~= Seq::empty());
        let mut pending: bool = false;
        let mut i: usize = 0;
        proof {
            reveal_strlit("#EXTINF:");
            reveal_strlit("#");
        }
        while i < all.len()
            invariant
                i <= all.len(),
                ls == texts(all@),
                "#EXTINF:"@.len() == 8,
                "#EXTINF:"@[0] == '#',
                "#"@ =~= seq!['#'],
                pending == awaits_segment(ls, i as int),
                texts(urls@) == line_urls(ls, source_url@, i as int),
            decreases all.len() - i,
        {
            assert(all@[i as int]@ == ls[i as int]);
            let line = trim(all[i].as_str());
            if begins(line.as_str(), "#EXTINF:") {
                assert(starts_with(line@, "#"@)) by {
                    assert(line@.subrange(0, 8)[0] == '#');
                    assert(line@.subrange(0, 1) =~= "#"@);
                }
                pending = true;
            } else if chars(line.as_str()).len() == 0 || begins(line.as_str(), "#") {
            } else if pending {
                let url = resolve_url(source_url, line.as_str());
                if !is_playlist_url(url.as_str()) {
                    let ghost before = texts(urls@);
                    let ghost text = url@;
                    urls.push(url);
                    assert(texts(urls@) =~= before.push(text));
                }
                pending = false;
            }
            i += 1;
        }
        urls
    }
}

} // verus!
