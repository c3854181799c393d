//! Laws on the links of rewritten HLS playlists.

use vstd::prelude::*;

use crate::hls::manifest::{
    hls_args, is_key_url, is_link, is_manifest_url, is_playlist, is_playlist_url, is_relinked,
    is_segment_link, is_segment_url, proxy_key_url, proxy_manifest_url, proxy_segment_url,
    quoted_uri, segment_query, LinkKind, ManifestOptions, ManifestProcessor, ParamsView,
    ProcessorView, ProxyParams,
};
use crate::laws::texts::{begins_once, lemma_cut, lemma_found_once, lemma_uncut};
use crate::laws::urls::{is_base, is_path, leads_to, lemma_leads_to, slashes, wish_of, Wish};
use crate::string_map::Pairs;
use crate::text::{
    after_last_char, ascii_lower, before_char, behind_last, contains, ends_with, next_char,
    opt_text, starts_with,
};
use crate::utils::url::{all_alnum, extension_of, is_alnum, resolved, url_path};

verus! {

// ---------------------------------------------------------------------------
// Endpoints
// ---------------------------------------------------------------------------

/// What a caller hands in for all links.
pub open spec fn told(params: ProxyParams) -> ParamsView {
    ParamsView {
        api_password: params.api_password@,
        pass_headers: params.pass_headers@,
        playlist_url: opt_text(params.playlist_url),
    }
}

/// What the URL of an HLS endpoint is asked for.
pub open spec fn hls_wish(destination: Seq<char>, query_params: Pairs, p: ParamsView) -> Wish {
    Wish {
        destination,
        query_params,
        request_headers: p.pass_headers,
        response_headers: Seq::empty(),
        propagated: Seq::empty(),
        removed: Seq::empty(),
        transformer: None,
        filename: None,
        in_path: false,
    }
}

/// `url` serves a destination as a playlist.
pub open spec fn serves_playlist(
    url: Seq<char>,
    b: Seq<char>,
    destination: Seq<char>,
    p: ParamsView,
) -> bool {
    leads_to(
        url,
        b,
        "/proxy/hls/manifest"@,
        hls_wish(destination, Seq::empty(), p),
        Some(p.api_password),
        None,
        None,
    )
}

/// `url` serves a destination as a key.
pub open spec fn serves_key(
    url: Seq<char>,
    b: Seq<char>,
    destination: Seq<char>,
    p: ParamsView,
) -> bool {
    leads_to(
        url,
        b,
        "/proxy/hls/segment"@,
        hls_wish(destination, Seq::empty(), p),
        Some(p.api_password),
        None,
        None,
    )
}

/// `url` serves a destination as a segment, with its file name extension, and names
/// the playlist that it stands in.
pub open spec fn serves_segment(
    url: Seq<char>,
    b: Seq<char>,
    destination: Seq<char>,
    extension: Seq<char>,
    p: ParamsView,
) -> bool {
    leads_to(
        url,
        b,
        "/proxy/hls/segment."@ + extension,
        hls_wish(
            destination,
            match p.playlist_url {
                Some(u) => seq![("playlist_url"@, u)],
                None => Seq::empty(),
            },
            p,
        ),
        Some(p.api_password),
        None,
        None,
    )
}

/// `path` is a URL up to its query or fragment.
pub open spec fn is_path_of(url: Seq<char>, path: Seq<char>) -> bool {
    &&& !path.contains('?') && !path.contains('#')
    &&& exists|tail: Seq<char>|
        url == #[trigger] (path + tail) && (tail.len() > 0 ==> tail[0] == '?' || tail[0] == '#')
}

/// A path with the file name extension of a playlist, letter case aside.
pub open spec fn names_playlist(path: Seq<char>) -> bool {
    ends_with(ascii_lower(path), ".m3u8"@) || ends_with(ascii_lower(path), ".m3u"@)
}

/// A path has an extension of letters and digits.
pub open spec fn has_extension(path: Seq<char>, extension: Seq<char>) -> bool {
    all_alnum(extension) && exists|stem: Seq<char>| path == #[trigger] (stem + "."@ + extension)
}

/// The extension under which a segment is served: its own, or else `ts`.
pub open spec fn is_served_extension(path: Seq<char>, extension: Seq<char>) -> bool {
    ||| has_extension(path, extension)
    ||| extension == "ts"@ && forall|e: Seq<char>| !#[trigger] has_extension(path, e)
}

// ---------------------------------------------------------------------------
// Proofs
// ---------------------------------------------------------------------------

/// A path that begins with one slash is the path of itself.
proof fn lemma_own_path(path: Seq<char>)
    requires
        path.len() > 1 && path[0] == '/' && path[1] != '/',
    ensures
        is_path(Some(path), path),
{
    reveal_strlit("/");
    let rest = path.skip(1);
    assert(slashes(1) =~= seq!['/']);
    assert(path =~= slashes(1) + rest);
    assert(path =~= "/"@ + rest);
}

/// An HLS URL leads to its destination.
pub proof fn lemma_hls_leads(
    base: Seq<char>,
    b: Seq<char>,
    endpoint: Seq<char>,
    destination: Seq<char>,
    query: Pairs,
    p: ParamsView,
    url: Seq<char>,
)
    requires
        is_base(base, b),
        endpoint.len() > 1 && endpoint[0] == '/' && endpoint[1] != '/',
        crate::proxy::urls::is_proxy_url(hls_args(base, endpoint, destination, query, p), url),
    ensures
        leads_to(
            url,
            b,
            endpoint,
            hls_wish(destination, query, p),
            Some(p.api_password),
            None,
            None,
        ),
{
    let a = hls_args(base, endpoint, destination, query, p);
    lemma_own_path(endpoint);
    lemma_leads_to(a, url, b, endpoint);
    assert(wish_of(a) == hls_wish(destination, query, p));
}

/// The path of a URL is what stands before its query and fragment.
proof fn lemma_path_of(url: Seq<char>, path: Seq<char>)
    requires
        is_path_of(url, path),
    ensures
        url_path(url) == path,
{
    let tail = choose|tail: Seq<char>|
        url == #[trigger] (path + tail) && (tail.len() > 0 ==> tail[0] == '?' || tail[0] == '#');
    if tail.len() == 0 {
        assert(url =~= path);
        lemma_uncut(path, '?');
        lemma_uncut(path, '#');
    } else if tail[0] == '?' {
        assert(url =~= path + seq!['?'] + tail.skip(1));
        lemma_cut(path, '?', tail.skip(1));
        lemma_uncut(path, '#');
    } else {
        let rest = tail.skip(1);
        assert(url =~= path + seq!['#'] + rest);
        let front = before_char(url, '?');
        crate::text::lemma_next_char(url, '?', 0);
        let n = next_char(url, '?', 0);
        if n < url.len() {
            assert(url[n] == '?');
            if n < path.len() {
                assert(path[n] == '?');
            }
            assert(n > path.len());
        }
        assert(front =~= path + seq!['#'] + rest.take(n - path.len() - 1));
        lemma_cut(path, '#', rest.take(n - path.len() - 1));
    }
}

/// What stands behind the last of a character.
proof fn lemma_behind_last(a: Seq<char>, c: char, b: Seq<char>)
    requires
        !b.contains(c),
    ensures
        behind_last(a + seq![c] + b, c) == a.len() + 1,
        after_last_char(a + seq![c] + b, c) == b,
    decreases b.len(),
{
    let s = a + seq![c] + b;
    if b.len() > 0 {
        assert(s.last() == b.last());
        assert(b.contains(b.last()));
        assert(s.drop_last() =~= a + seq![c] + b.drop_last());
        assert(!b.drop_last().contains(c)) by {
            if b.drop_last().contains(c) {
                let i = choose|i: int| 0 <= i < b.drop_last().len() && b.drop_last()[i] == c;
                assert(b[i] == c);
            }
        }
        lemma_behind_last(a, c, b.drop_last());
    }
    assert(s.skip((a.len() + 1) as int) =~= b);
}

/// A text without a character has all behind it.
proof fn lemma_behind_none(s: Seq<char>, c: char)
    requires
        !s.contains(c),
    ensures
        behind_last(s, c) == 0,
        after_last_char(s, c) == s,
    decreases s.len(),
{
    if s.len() > 0 {
        assert(s.contains(s.last()));
        assert(!s.drop_last().contains(c)) by {
            if s.drop_last().contains(c) {
                let i = choose|i: int| 0 <= i < s.drop_last().len() && s.drop_last()[i] == c;
                assert(s[i] == c);
            }
        }
        lemma_behind_none(s.drop_last(), c);
    }
    assert(s.skip(0) =~= s);
}

/// The last of a character cuts a text in two.
proof fn lemma_last_cut(s: Seq<char>, c: char)
    requires
        s.contains(c),
    ensures
        0 < behind_last(s, c) <= s.len(),
        s == s.take(behind_last(s, c) - 1) + seq![c] + after_last_char(s, c),
        !after_last_char(s, c).contains(c),
    decreases s.len(),
{
    let n = behind_last(s, c);
    if s.last() == c {
        assert(s =~= s.take(n - 1) + seq![c] + after_last_char(s, c));
    } else {
        let t = s.drop_last();
        let i = choose|i: int| 0 <= i < s.len() && s[i] == c;
        assert(t[i] == c);
        lemma_last_cut(t, c);
        let x = after_last_char(s, c);
        let y = after_last_char(t, c);
        assert(x =~= y.push(s.last()));
        assert(s =~= s.take(n - 1) + seq![c] + x) by {
            assert(t =~= t.take(n - 1) + seq![c] + y);
            assert(t.take(n - 1) =~= s.take(n - 1));
            assert(s =~= t.push(s.last()));
        }
        if x.contains(c) {
            let k = choose|k: int| 0 <= k < x.len() && x[k] == c;
            if k < y.len() {
                assert(y[k] == c);
            }
        }
    }
}

/// A run of letters and digits holds nothing else.
proof fn lemma_alnum_only(s: Seq<char>, c: char)
    requires
        all_alnum(s),
        !is_alnum(c),
    ensures
        !s.contains(c),
{
    if s.contains(c) {
        let i = choose|i: int| 0 <= i < s.len() && s[i] == c;
        assert(is_alnum(s[i]));
    }
}

/// A name ends with its extension.
proof fn lemma_name_extension(y: Seq<char>, extension: Seq<char>)
    requires
        all_alnum(extension),
    ensures
        (y + seq!['.'] + extension).contains('.'),
        after_last_char(y + seq!['.'] + extension, '.') == extension,
{
    let name = y + seq!['.'] + extension;
    lemma_alnum_only(extension, '.');
    lemma_behind_last(y, '.', extension);
    assert(name[y.len() as int] == '.');
}

/// The name of a path that ends with an extension.
proof fn lemma_path_name(stem: Seq<char>, extension: Seq<char>) -> (y: Seq<char>)
    requires
        all_alnum(extension),
    ensures
        after_last_char(stem + seq!['.'] + extension, '/') == y + seq!['.'] + extension,
{
    let tail = seq!['.'] + extension;
    let path = stem + seq!['.'] + extension;
    lemma_alnum_only(extension, '/');
    assert(!tail.contains('/')) by {
        if tail.contains('/') {
            let i = choose|i: int| 0 <= i < tail.len() && tail[i] == '/';
            assert(extension[i - 1] == '/');
        }
    }
    if stem.contains('/') {
        lemma_last_cut(stem, '/');
        let n = behind_last(stem, '/');
        let y = after_last_char(stem, '/');
        let z = y + tail;
        assert(path =~= stem.take(n - 1) + seq!['/'] + z);
        assert(!z.contains('/')) by {
            if z.contains('/') {
                let i = choose|i: int| 0 <= i < z.len() && z[i] == '/';
                if i < y.len() {
                    assert(y[i] == '/');
                } else {
                    assert(tail[i - y.len()] == '/');
                }
            }
        }
        lemma_behind_last(stem.take(n - 1), '/', z);
        assert(z =~= y + seq!['.'] + extension);
        y
    } else {
        assert(!path.contains('/')) by {
            if path.contains('/') {
                let i = choose|i: int| 0 <= i < path.len() && path[i] == '/';
                if i < stem.len() {
                    assert(stem[i] == '/');
                } else {
                    assert(tail[i - stem.len()] == '/');
                }
            }
        }
        lemma_behind_none(path, '/');
        assert(after_last_char(path, '/') =~= path);
        stem
    }
}

/// A path whose name has an extension.
proof fn lemma_extended_name(path: Seq<char>)
    ensures
        ({
            let name = after_last_char(path, '/');
            let ext = after_last_char(name, '.');
            name.contains('.') && all_alnum(ext) ==> has_extension(path, ext)
        }),
{
    let name = after_last_char(path, '/');
    let ext = after_last_char(name, '.');
    if name.contains('.') && all_alnum(ext) {
        reveal_strlit(".");
        assert("."@ =~= seq!['.']);
        lemma_last_cut(name, '.');
        let m = behind_last(name, '.');
        let at = behind_last(path, '/');
        if path.contains('/') {
            lemma_last_cut(path, '/');
        } else {
            lemma_behind_none(path, '/');
        }
        let stem = path.take(at) + name.take(m - 1);
        assert(path =~= path.take(at) + name);
        assert(path =~= stem + "."@ + ext);
    }
}

/// The extension of a segment is that of its path.
proof fn lemma_extension(url: Seq<char>, path: Seq<char>, extension: Seq<char>)
    requires
        is_path_of(url, path),
        is_served_extension(path, extension),
    ensures
        extension_of(url) == extension,
{
    lemma_path_of(url, path);
    reveal_strlit(".");
    assert("."@ =~= seq!['.']);
    if has_extension(path, extension) {
        let stem = choose|stem: Seq<char>| path == #[trigger] (stem + "."@ + extension);
        let y = lemma_path_name(stem, extension);
        lemma_name_extension(y, extension);
    } else {
        lemma_extended_name(path);
    }
}

// ---------------------------------------------------------------------------
// Laws on single links
// ---------------------------------------------------------------------------

/// A sub-playlist is served by the manifest endpoint, a key by the segment endpoint
/// without an extension, and a segment by the segment endpoint with its extension.
pub proof fn law_endpoint_urls(
    base: &str,
    destination: &str,
    params: &ProxyParams,
    manifest: String,
    segment: String,
    key: String,
    b: Seq<char>,
    path: Seq<char>,
    extension: Seq<char>,
)
    requires
        call_ensures(proxy_manifest_url, (base, destination, params), manifest),
        call_ensures(proxy_segment_url, (base, destination, params), segment),
        call_ensures(proxy_key_url, (base, destination, params), key),
        is_base(base@, b),
        is_path_of(destination@, path),
        is_served_extension(path, extension),
    ensures
        serves_playlist(manifest@, b, destination@, told(*params)),
        serves_segment(segment@, b, destination@, extension, told(*params)),
        serves_key(key@, b, destination@, told(*params)),
{
    lemma_serves(base@, b, destination@, told(*params), manifest@, LinkKind::Manifest, path,
        extension);
    lemma_serves(base@, b, destination@, told(*params), segment@, LinkKind::Segment, path,
        extension);
    lemma_serves(base@, b, destination@, told(*params), key@, LinkKind::Key, path, extension);
}

/// What each kind of link serves.
proof fn lemma_serves(
    base: Seq<char>,
    b: Seq<char>,
    destination: Seq<char>,
    p: ParamsView,
    url: Seq<char>,
    kind: LinkKind,
    path: Seq<char>,
    extension: Seq<char>,
)
    requires
        is_base(base, b),
        is_path_of(destination, path),
        is_served_extension(path, extension),
        match kind {
            LinkKind::Manifest => is_manifest_url(base, destination, p, url),
            LinkKind::Segment => is_segment_url(base, destination, p, url),
            LinkKind::Key => is_key_url(base, destination, p, url),
        },
    ensures
        match kind {
            LinkKind::Manifest => serves_playlist(url, b, destination, p),
            LinkKind::Segment => serves_segment(url, b, destination, extension, p),
            LinkKind::Key => serves_key(url, b, destination, p),
        },
{
    reveal_strlit("/proxy/hls/manifest");
    reveal_strlit("/proxy/hls/segment");
    reveal_strlit("/proxy/hls/segment.");
    lemma_extension(destination, path, extension);
    match kind {
        LinkKind::Manifest => {
            lemma_hls_leads(
                base,
                b,
                "/proxy/hls/manifest"@,
                destination,
                Seq::empty(),
                p,
                url,
            );
        },
        LinkKind::Segment => {
            lemma_hls_leads(
                base,
                b,
                "/proxy/hls/segment."@ + extension,
                destination,
                segment_query(p),
                p,
                url,
            );
        },
        LinkKind::Key => {
            lemma_hls_leads(base, b, "/proxy/hls/segment"@, destination, Seq::empty(), p, url);
        },
    }
}

/// The link of a line that names a segment or a sub-playlist. Without proxying, and
/// with keys alone proxied, it is the absolute URL. Else a URL whose path ends in a
/// playlist's extension, letter case aside, is served as a playlist, and so is every
/// URL where that is forced; any other is served as a segment.
pub open spec fn is_line_link(
    out: Seq<char>,
    b: Seq<char>,
    p: ParamsView,
    opts: ManifestOptions,
    destination: Seq<char>,
    path: Seq<char>,
    extension: Seq<char>,
) -> bool {
    if opts.no_proxy || opts.key_only_proxy {
        out == destination
    } else if names_playlist(path) || opts.force_playlist_proxy {
        serves_playlist(out, b, destination, p)
    } else {
        serves_segment(out, b, destination, extension, p)
    }
}

/// The view of a processor that was made from some parts.
pub proof fn lemma_line_link(
    v: ProcessorView,
    b: Seq<char>,
    opts: ManifestOptions,
    base_url: Seq<char>,
    uri: Seq<char>,
    path: Seq<char>,
    extension: Seq<char>,
    out: Seq<char>,
)
    requires
        v.no_proxy == opts.no_proxy,
        v.key_only_proxy == opts.key_only_proxy,
        v.force_playlist_proxy == opts.force_playlist_proxy,
        is_base(v.base, b),
        is_path_of(resolved(base_url, uri), path),
        is_served_extension(path, extension),
        is_segment_link(v, base_url, uri, out),
    ensures
        is_line_link(out, b, v.params, opts, resolved(base_url, uri), path, extension),
{
    let d = resolved(base_url, uri);
    lemma_path_of(d, path);
    if !opts.no_proxy && !opts.key_only_proxy {
        if names_playlist(path) || opts.force_playlist_proxy {
            lemma_serves(v.base, b, d, v.params, out, LinkKind::Manifest, path, extension);
        } else {
            lemma_serves(v.base, b, d, v.params, out, LinkKind::Segment, path, extension);
        }
    }
}

/// Lines are linked as `is_line_link` says.
pub proof fn law_line_links(
    base: &str,
    params: ProxyParams,
    opts: ManifestOptions,
    processor: &ManifestProcessor,
    uri: &str,
    base_url: &str,
    out: String,
    b: Seq<char>,
    path: Seq<char>,
    extension: Seq<char>,
)
    requires
        call_ensures(ManifestProcessor::new, (base, params, opts), *processor),
        call_ensures(
            ManifestProcessor::rewrite_segment_or_playlist_uri,
            (processor, uri, base_url),
            out,
        ),
        is_base(base@, b),
        is_path_of(resolved(base_url@, uri@), path),
        is_served_extension(path, extension),
    ensures
        is_line_link(
            out@,
            b,
            told(params),
            opts,
            resolved(base_url@, uri@),
            path,
            extension,
        ),
{
    lemma_line_link(processor@, b, opts, base_url@, uri@, path, extension, out@);
}

/// Whether a URL is a playlist's is told by the extension of its path.
pub proof fn law_playlist_urls(url: &str, r: bool, path: Seq<char>)
    requires
        call_ensures(is_playlist_url, (url,), r),
        is_path_of(url@, path),
    ensures
        r == names_playlist(path),
{
    lemma_path_of(url@, path);
}

/// References to sub-playlists are served as playlists, or stay direct without
/// proxying.
pub proof fn law_playlist_links(
    base: &str,
    params: ProxyParams,
    opts: ManifestOptions,
    processor: &ManifestProcessor,
    uri: &str,
    base_url: &str,
    out: String,
    b: Seq<char>,
)
    requires
        call_ensures(ManifestProcessor::new, (base, params, opts), *processor),
        call_ensures(ManifestProcessor::rewrite_playlist_uri, (processor, uri, base_url), out),
        is_base(base@, b),
    ensures
        if opts.no_proxy {
            out@ == resolved(base_url@, uri@)
        } else {
            serves_playlist(out@, b, resolved(base_url@, uri@), told(params))
        },
{
    if !opts.no_proxy {
        reveal_strlit("/proxy/hls/manifest");
        lemma_hls_leads(
            base@,
            b,
            "/proxy/hls/manifest"@,
            resolved(base_url@, uri@),
            Seq::empty(),
            told(params),
            out@,
        );
    }
}

// ---------------------------------------------------------------------------
// Laws on tags
// ---------------------------------------------------------------------------

/// The mark before a quoted URI.
pub open spec fn uri_mark() -> Seq<char> {
    "URI=\""@
}

/// The mark begins only once.
proof fn lemma_uri_mark()
    ensures
        begins_once(uri_mark()),
        uri_mark().len() == 5,
{
    reveal_strlit("URI=\"");
}

/// Where the quoted URI of a text stands.
proof fn lemma_quoted(head: Seq<char>, uri: Seq<char>, tail: Seq<char>)
    requires
        !contains(head, uri_mark()),
        !uri.contains('"'),
    ensures
        ({
            let s = head + uri_mark() + uri + "\""@ + tail;
            let a = (head.len() + 5) as int;
            &&& quoted_uri(s) == Some((a, a + uri.len()))
            &&& s.subrange(a, a + uri.len()) == uri
            &&& s.subrange(0, a) == head + uri_mark()
            &&& s.subrange(a + uri.len(), s.len() as int) == "\""@ + tail
        }),
{
    lemma_uri_mark();
    reveal_strlit("\"");
    assert("\""@ =~= seq!['"']);
    let rest = uri + "\""@ + tail;
    let s = head + uri_mark() + uri + "\""@ + tail;
    let a = (head.len() + 5) as int;
    assert(s =~= head + uri_mark() + rest);
    lemma_found_once(head, uri_mark(), rest);
    crate::text::lemma_next_char(s, '"', a);
    let n = next_char(s, '"', a);
    assert(s[a + uri.len()] == '"');
    if n < a + uri.len() {
        assert(s[n] == uri[n - a]);
    }
    assert(s.subrange(a, a + uri.len()) =~= uri);
    assert(s.subrange(0, a) =~= head + uri_mark());
    assert(s.subrange(a + uri.len(), s.len() as int) =~= "\""@ + tail);
}

/// A link of a kind: direct without proxying, and for segments with keys alone
/// proxied; else served as what it is.
pub open spec fn is_kind_link(
    out: Seq<char>,
    b: Seq<char>,
    p: ParamsView,
    opts: ManifestOptions,
    kind: LinkKind,
    destination: Seq<char>,
    extension: Seq<char>,
) -> bool {
    if opts.no_proxy {
        out == destination
    } else {
        match kind {
            LinkKind::Manifest => serves_playlist(out, b, destination, p),
            LinkKind::Key => serves_key(out, b, destination, p),
            LinkKind::Segment => if opts.key_only_proxy {
                out == destination
            } else {
                serves_segment(out, b, destination, extension, p)
            },
        }
    }
}

/// Links of a kind are as `is_kind_link` says.
pub proof fn lemma_kind_link(
    v: ProcessorView,
    b: Seq<char>,
    opts: ManifestOptions,
    kind: LinkKind,
    destination: Seq<char>,
    path: Seq<char>,
    extension: Seq<char>,
    out: Seq<char>,
)
    requires
        v.no_proxy == opts.no_proxy,
        v.key_only_proxy == opts.key_only_proxy,
        is_base(v.base, b),
        is_path_of(destination, path),
        is_served_extension(path, extension),
        is_link(v, kind, destination, out),
    ensures
        is_kind_link(out, b, v.params, opts, kind, destination, extension),
{
    if !opts.no_proxy && !(kind == LinkKind::Segment && opts.key_only_proxy) {
        lemma_serves(v.base, b, destination, v.params, out, kind, path, extension);
    }
}

/// `out` is a text with its quoted URI replaced by a link of a kind.
pub open spec fn is_text_with_link(
    out: Seq<char>,
    head: Seq<char>,
    tail: Seq<char>,
    b: Seq<char>,
    p: ParamsView,
    opts: ManifestOptions,
    kind: LinkKind,
    destination: Seq<char>,
    extension: Seq<char>,
) -> bool {
    exists|u: Seq<char>| #[trigger]
        is_kind_link(u, b, p, opts, kind, destination, extension) && out == head + uri_mark() + u
            + "\""@ + tail
}

/// A relinked text has its quoted URI replaced.
pub proof fn lemma_relinked(
    v: ProcessorView,
    b: Seq<char>,
    opts: ManifestOptions,
    kind: LinkKind,
    base_url: Seq<char>,
    head: Seq<char>,
    uri: Seq<char>,
    tail: Seq<char>,
    path: Seq<char>,
    extension: Seq<char>,
    out: Seq<char>,
)
    requires
        v.no_proxy == opts.no_proxy,
        v.key_only_proxy == opts.key_only_proxy,
        is_base(v.base, b),
        !contains(head, uri_mark()),
        !uri.contains('"'),
        is_path_of(resolved(base_url, uri), path),
        is_served_extension(path, extension),
        is_relinked(v, base_url, head + uri_mark() + uri + "\""@ + tail, kind, out),
    ensures
        is_text_with_link(
            out,
            head,
            tail,
            b,
            v.params,
            opts,
            kind,
            resolved(base_url, uri),
            extension,
        ),
{
    lemma_quoted(head, uri, tail);
    let s = head + uri_mark() + uri + "\""@ + tail;
    let a = (head.len() + 5) as int;
    let z = a + uri.len();
    let u = choose|u: Seq<char>| #[trigger]
        is_link(v, kind, resolved(base_url, s.subrange(a, z)), u) && out == s.subrange(0, a) + u
            + s.subrange(z, s.len() as int);
    lemma_kind_link(v, b, opts, kind, resolved(base_url, uri), path, extension, u);
    assert(out =~= head + uri_mark() + u + "\""@ + tail);
}

/// What the URI of a tag line names: initialization sections are segments,
/// renditions are sub-playlists, all else are keys.
pub open spec fn line_kind(line: Seq<char>) -> LinkKind {
    if starts_with(line, "#EXT-X-MAP"@) {
        LinkKind::Segment
    } else if starts_with(line, "#EXT-X-MEDIA"@) {
        LinkKind::Manifest
    } else {
        LinkKind::Key
    }
}

/// The URI of a tag line is replaced by a link of what it names, and the rest of the
/// line stays.
pub proof fn law_tag_lines(
    base: &str,
    params: ProxyParams,
    opts: ManifestOptions,
    processor: &ManifestProcessor,
    line: &str,
    base_url: &str,
    out: String,
    b: Seq<char>,
    head: Seq<char>,
    uri: Seq<char>,
    tail: Seq<char>,
    path: Seq<char>,
    extension: Seq<char>,
)
    requires
        call_ensures(ManifestProcessor::new, (base, params, opts), *processor),
        call_ensures(ManifestProcessor::process_tag_with_uri, (processor, line, base_url), out),
        is_base(base@, b),
        line@ == head + uri_mark() + uri + "\""@ + tail,
        !contains(head, uri_mark()),
        !uri.contains('"'),
        is_path_of(resolved(base_url@, uri), path),
        is_served_extension(path, extension),
    ensures
        is_text_with_link(
            out@,
            head,
            tail,
            b,
            told(params),
            opts,
            line_kind(line@),
            resolved(base_url@, uri),
            extension,
        ),
{
    lemma_relinked(
        processor@,
        b,
        opts,
        line_kind(line@),
        base_url@,
        head,
        uri,
        tail,
        path,
        extension,
        out@,
    );
}

/// The URI among the attributes of a tag is replaced by a link: of a sub-playlist
/// where it names one, else of a key.
pub proof fn law_tag_attributes(
    base: &str,
    params: ProxyParams,
    opts: ManifestOptions,
    processor: &ManifestProcessor,
    rest: &str,
    base_url: &str,
    is_playlist: bool,
    out: String,
    b: Seq<char>,
    head: Seq<char>,
    uri: Seq<char>,
    tail: Seq<char>,
    path: Seq<char>,
    extension: Seq<char>,
)
    requires
        call_ensures(ManifestProcessor::new, (base, params, opts), *processor),
        call_ensures(
            ManifestProcessor::rewrite_tag_rest_uri,
            (processor, rest, base_url, is_playlist),
            out,
        ),
        is_base(base@, b),
        rest@ == head + uri_mark() + uri + "\""@ + tail,
        !contains(head, uri_mark()),
        !uri.contains('"'),
        is_path_of(resolved(base_url@, uri), path),
        is_served_extension(path, extension),
    ensures
        is_text_with_link(
            out@,
            head,
            tail,
            b,
            told(params),
            opts,
            if is_playlist {
                LinkKind::Manifest
            } else {
                LinkKind::Key
            },
            resolved(base_url@, uri),
            extension,
        ),
{
    let kind = if is_playlist {
        LinkKind::Manifest
    } else {
        LinkKind::Key
    };
    lemma_relinked(
        processor@,
        b,
        opts,
        kind,
        base_url@,
        head,
        uri,
        tail,
        path,
        extension,
        out@,
    );
}

} // verus!
