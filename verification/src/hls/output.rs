//! What a rewritten playlist holds besides tags.

use vstd::prelude::*;

use crate::codec::{hex_digit, is_base64url_char, percent_byte, percent_bytes, percent_encoded};
use crate::hls::lines::{
    bare_lines, bare_of, closed_attributes, is_bare, lemma_bare_lines_concat, opt_unbroken,
    unbroken,
};
use crate::hls::manifest::{
    are_segment_rewrites, behind_gap, behind_header, gap_at, hls_args, is_iptv, is_link,
    is_master_output, is_master_rewrite, is_master_tag, is_media_output, is_output, is_relinked,
    is_rendition, is_segment_rewrite, is_tag_rewrite, is_variant, is_vod, kept_segments,
    lemma_kept, quoted_uri, segment_query, segment_tag_kind, skipped, start_tag, with_offset,
    with_start, LinkKind, ProcessorView,
};
use crate::hls::playlist::{
    are_plain_links, are_plain_segments, are_unbroken_tags, is_master_text, is_media_text,
    line_uris, media_frame, parsed_master, parsed_media, segment_uris, MasterView, MediaView,
    SegmentView, TagView, VariantView,
};
use crate::proxy::urls::{
    carries, endpoint_path, flat_params, is_proxy_url, query_parts, token_url, trimmed_base,
    url_pairs,
};
use crate::string_map::Pairs;
use crate::text::{
    find_first, join_texts, lemma_find_from, lemma_next_char, matches_at, next_char, split_text,
    starts_with, trim_end_char, trim_start_char,
};
use crate::utils::url::{all_alnum, extension_of, is_alnum, resolved};

verus! {

// ---------------------------------------------------------------------------
// Texts without line feeds
// ---------------------------------------------------------------------------

/// Two texts without line feeds make one.
proof fn lemma_unbroken_concat(a: Seq<char>, b: Seq<char>)
    requires
        unbroken(a),
        unbroken(b),
    ensures
        unbroken(a + b),
{
    if (a + b).contains('\n') {
        let i = choose|i: int| 0 <= i < (a + b).len() && (a + b)[i] == '\n';
        if i < a.len() {
            assert(a[i] == '\n');
        } else {
            assert(b[i - a.len()] == '\n');
        }
    }
}

/// A part of a text without line feeds has none.
proof fn lemma_unbroken_part(s: Seq<char>, i: int, j: int)
    requires
        unbroken(s),
        0 <= i <= j <= s.len(),
    ensures
        unbroken(s.subrange(i, j)),
{
    let p = s.subrange(i, j);
    if p.contains('\n') {
        let k = choose|k: int| 0 <= k < p.len() && p[k] == '\n';
        assert(s[i + k] == '\n');
    }
}

/// Percent-encoding leaves no line feeds.
proof fn lemma_percent_unbroken(bytes: Seq<u8>)
    ensures
        unbroken(percent_bytes(bytes)),
    decreases bytes.len(),
{
    if bytes.len() > 0 {
        lemma_percent_unbroken(bytes.drop_last());
        let b = bytes.last();
        assert(unbroken(percent_byte(b))) by {
            assert(forall|d: u8| d < 16 ==> #[trigger] hex_digit(d) != '\n');
            assert(b / 16 < 16 && b % 16 < 16);
        }
        lemma_unbroken_concat(percent_bytes(bytes.drop_last()), percent_byte(b));
    }
}

/// Texts without line feeds stay so when they are joined.
proof fn lemma_join_unbroken(parts: Seq<Seq<char>>, sep: Seq<char>)
    requires
        forall|i: int| 0 <= i < parts.len() ==> unbroken(#[trigger] parts[i]),
        unbroken(sep),
    ensures
        unbroken(join_texts(parts, sep)),
    decreases parts.len(),
{
    if parts.len() > 0 {
        assert(parts[parts.len() - 1] == parts.last());
        if parts.len() > 1 {
            let init = parts.drop_last();
            assert forall|i: int| 0 <= i < init.len() implies unbroken(#[trigger] init[i]) by {
                assert(init[i] == parts[i]);
            }
            lemma_join_unbroken(init, sep);
            lemma_unbroken_concat(join_texts(init, sep), sep);
            lemma_unbroken_concat(join_texts(init, sep) + sep, parts.last());
        }
    }
}

/// Cutting characters off the end leaves no more line feeds.
proof fn lemma_trim_end_unbroken(s: Seq<char>, c: char)
    requires
        unbroken(s),
    ensures
        unbroken(trim_end_char(s, c)),
    decreases s.len(),
{
    if s.len() > 0 && s.last() == c {
        assert(s.drop_last() =~= s.subrange(0, s.len() - 1));
        lemma_unbroken_part(s, 0, s.len() - 1);
        lemma_trim_end_unbroken(s.drop_last(), c);
    }
}

/// Cutting characters off the start leaves no more line feeds.
proof fn lemma_trim_start_unbroken(s: Seq<char>, c: char)
    requires
        unbroken(s),
    ensures
        unbroken(trim_start_char(s, c)),
    decreases s.len(),
{
    if s.len() > 0 && s[0] == c {
        assert(s.skip(1) =~= s.subrange(1, s.len() as int));
        lemma_unbroken_part(s, 1, s.len() as int);
        lemma_trim_start_unbroken(s.skip(1), c);
    }
}

/// Keys without line feeds.
pub open spec fn have_unbroken_keys(p: Pairs) -> bool {
    forall|i: int| 0 <= i < p.len() ==> unbroken((#[trigger] p[i]).0)
}

/// The names of URL parameters have no line feeds where the keys have none.
proof fn lemma_url_pairs_unbroken(p: Pairs, prefix: Seq<char>, steady: bool)
    requires
        have_unbroken_keys(p),
        unbroken(prefix),
    ensures
        have_unbroken_keys(url_pairs(p, prefix, steady)),
    decreases p.len(),
{
    if p.len() > 0 {
        let init = p.drop_last();
        assert forall|i: int| 0 <= i < init.len() implies unbroken((#[trigger] init[i]).0) by {
            assert(init[i] == p[i]);
        }
        lemma_url_pairs_unbroken(init, prefix, steady);
        assert(p[p.len() - 1] == p.last());
        lemma_unbroken_concat(prefix, p.last().0);
    }
}

/// A query of parameters whose names have no line feeds has none.
proof fn lemma_query_unbroken(p: Pairs)
    requires
        have_unbroken_keys(p),
    ensures
        unbroken(join_texts(query_parts(p), "&"@)),
{
    reveal_strlit("&");
    reveal_strlit("=");
    let parts = query_parts(p);
    assert forall|i: int| 0 <= i < parts.len() implies unbroken(#[trigger] parts[i]) by {
        lemma_percent_unbroken(vstd::utf8::encode_utf8(p[i].1));
        lemma_unbroken_concat(p[i].0, "="@);
        lemma_unbroken_concat(p[i].0 + "="@, percent_encoded(p[i].1));
    }
    lemma_join_unbroken(parts, "&"@);
}

/// A processor whose own texts have no line feeds, and whose base URL begins like
/// a link.
pub open spec fn is_clean(v: ProcessorView) -> bool {
    &&& unbroken(v.base)
    &&& is_bare(trimmed_base(v.base))
    &&& have_unbroken_keys(v.params.pass_headers)
    &&& opt_unbroken(v.start_offset)
}

/// A link that begins with the base URL and fits on a line.
pub open spec fn is_own_link(v: ProcessorView, url: Seq<char>) -> bool {
    unbroken(url) && is_bare(url) && starts_with(url, trimmed_base(v.base))
}

/// The URL of an HLS endpoint fits on a line and begins with the base URL.
proof fn lemma_hls_url(
    v: ProcessorView,
    endpoint: Seq<char>,
    destination: Seq<char>,
    query_params: Pairs,
    url: Seq<char>,
)
    requires
        is_clean(v),
        unbroken(endpoint),
        have_unbroken_keys(query_params),
        is_proxy_url(hls_args(v.base, endpoint, destination, query_params, v.params), url),
    ensures
        is_own_link(v, url),
{
    let a = hls_args(v.base, endpoint, destination, query_params, v.params);
    let b = trimmed_base(v.base);
    let path = endpoint_path(a.endpoint);
    reveal_strlit("/");
    reveal_strlit("?");
    reveal_strlit("/_token_");
    lemma_trim_end_unbroken(v.base, '/');
    lemma_trim_start_unbroken(endpoint, '/');
    lemma_unbroken_concat("/"@, trim_start_char(endpoint, '/'));
    assert(unbroken(path));
    let none = Seq::<char>::empty();
    if a.api_password matches Some(p) && p.len() > 0 {
        let token = choose|token: Seq<char>| #[trigger]
            carries(a.api_password->0, token, a) && url == token_url(a, token);
        assert(unbroken(token)) by {
            if token.contains('\n') {
                let i = choose|i: int| 0 <= i < token.len() && token[i] == '\n';
                assert(is_base64url_char(token[i]));
            }
        }
        lemma_unbroken_concat(b, "/_token_"@);
        lemma_unbroken_concat(b + "/_token_"@, token);
        lemma_unbroken_concat(b + "/_token_"@ + token, path);
        assert(url =~= b + "/_token_"@ + token + path);
    } else {
        let params = flat_params(a);
        reveal_strlit("d");
        reveal_strlit("h_");
        reveal_strlit("r_");
        reveal_strlit("rp_");
        lemma_url_pairs_unbroken(a.query_params, none, false);
        lemma_url_pairs_unbroken(a.request_headers, "h_"@, true);
        let q = url_pairs(a.query_params, none, false);
        let h = url_pairs(a.request_headers, "h_"@, true);
        assert(params =~= seq![("d"@, a.destination)] + q + h);
        assert forall|i: int| 0 <= i < params.len() implies unbroken((#[trigger] params[i]).0) by {
            if i >= 1 + q.len() {
                assert(params[i] == h[i - 1 - q.len()]);
            } else if i >= 1 {
                assert(params[i] == q[i - 1]);
            }
        }
        lemma_query_unbroken(params);
        let query = join_texts(query_parts(params), "&"@);
        lemma_unbroken_concat(b, path);
        lemma_unbroken_concat(b + path, "?"@);
        lemma_unbroken_concat(b + path + "?"@, query);
        assert(url =~= b + path + "?"@ + query);
    }
    assert(url.subrange(0, b.len() as int) =~= b);
    assert(url[0] == b[0]);
}

/// A link that leads through the proxy fits on a line and begins with the base
/// URL.
proof fn lemma_own_link(v: ProcessorView, kind: LinkKind, destination: Seq<char>, url: Seq<char>)
    requires
        is_clean(v),
        !v.no_proxy,
        !v.key_only_proxy || kind != LinkKind::Segment,
        is_link(v, kind, destination, url),
    ensures
        is_own_link(v, url),
{
    let none: Pairs = Seq::empty();
    match kind {
        LinkKind::Manifest => {
            reveal_strlit("/proxy/hls/manifest");
            lemma_hls_url(v, "/proxy/hls/manifest"@, destination, none, url);
        },
        LinkKind::Key => {
            reveal_strlit("/proxy/hls/segment");
            lemma_hls_url(v, "/proxy/hls/segment"@, destination, none, url);
        },
        LinkKind::Segment => {
            let ext = extension_of(destination);
            reveal_strlit("/proxy/hls/segment.");
            reveal_strlit("ts");
            reveal_strlit("playlist_url");
            assert(unbroken(ext)) by {
                if ext.contains('\n') {
                    let i = choose|i: int| 0 <= i < ext.len() && ext[i] == '\n';
                    assert(all_alnum(ext) ==> is_alnum(ext[i]));
                }
            }
            lemma_unbroken_concat("/proxy/hls/segment."@, ext);
            lemma_hls_url(
                v,
                "/proxy/hls/segment."@ + ext,
                destination,
                segment_query(v.params),
                url,
            );
        },
    }
}

/// A text without line feeds has none after its URI is replaced by a link of the
/// proxy.
proof fn lemma_relinked_unbroken(
    v: ProcessorView,
    base_url: Seq<char>,
    s: Seq<char>,
    kind: LinkKind,
    out: Seq<char>,
)
    requires
        is_clean(v),
        !v.no_proxy,
        !v.key_only_proxy || kind != LinkKind::Segment,
        unbroken(s),
        is_relinked(v, base_url, s, kind, out),
    ensures
        unbroken(out),
{
    if let Some((a, b)) = quoted_uri(s) {
        reveal_strlit("URI=\"");
        lemma_find_from(s, "URI=\""@, 0);
        lemma_next_char(s, '"', a);
        let u = choose|u: Seq<char>| #[trigger]
            is_link(v, kind, resolved(base_url, s.subrange(a, b)), u) && out == s.subrange(0, a) + u
                + s.subrange(b, s.len() as int);
        lemma_own_link(v, kind, resolved(base_url, s.subrange(a, b)), u);
        lemma_unbroken_part(s, 0, a);
        lemma_unbroken_part(s, b, s.len() as int);
        lemma_unbroken_concat(s.subrange(0, a), u);
        lemma_unbroken_concat(s.subrange(0, a) + u, s.subrange(b, s.len() as int));
    }
}

/// A tag that fits on a line does so after its URI is replaced by a link of the
/// proxy.
proof fn lemma_tag_unbroken(
    v: ProcessorView,
    base_url: Seq<char>,
    t: TagView,
    kind: LinkKind,
    out: TagView,
)
    requires
        is_clean(v),
        !v.no_proxy,
        !v.key_only_proxy || kind != LinkKind::Segment,
        opt_unbroken(t.rest),
        is_tag_rewrite(v, base_url, t, kind, out),
    ensures
        opt_unbroken(out.rest),
{
    if let Some(rest) = t.rest {
        if out.rest->0 != rest {
            lemma_relinked_unbroken(v, base_url, rest, kind, out.rest->0);
        }
    }
}

// ---------------------------------------------------------------------------
// Bare lines of the output
// ---------------------------------------------------------------------------

/// Putting the start offset in adds no bare line.
proof fn lemma_start_adds_no_bare_line(text: Seq<char>, offset: Seq<char>)
    requires
        starts_with(text, "#EXTM3U\n"@),
        unbroken(offset),
    ensures
        bare_lines(with_start(text, offset)) == bare_lines(text),
{
    reveal_strlit("#EXTM3U\n");
    reveal_strlit("#EXTM3U");
    reveal_strlit("#EXT-X-START:TIME-OFFSET=");
    reveal_strlit(",PRECISE=YES\n");
    let head = "#EXTM3U"@;
    let rest = text.skip(8);
    assert(text.subrange(0, 8) =~= "#EXTM3U\n"@);
    assert forall|i: int| 0 <= i < 8 implies text[i] == "#EXTM3U\n"@[i] by {
        assert(text.subrange(0, 8)[i] == text[i]);
    }
    assert(text.subrange(0, 7) =~= head);
    assert(matches_at(text, head, 0));
    assert(find_first(text, head) == Some(0int));
    lemma_next_char(text, '\n', 7);
    assert(next_char(text, '\n', 7) == 7);
    assert(behind_header(text, 0) == 8);
    let line = "#EXT-X-START:TIME-OFFSET="@ + offset + ",PRECISE=YES"@;
    reveal_strlit(",PRECISE=YES");
    lemma_unbroken_concat("#EXT-X-START:TIME-OFFSET="@, offset);
    lemma_unbroken_concat("#EXT-X-START:TIME-OFFSET="@ + offset, ",PRECISE=YES"@);
    assert(",PRECISE=YES\n"@ =~= ",PRECISE=YES"@ + seq!['\n']);
    assert(start_tag(offset) =~= line + seq!['\n']);
    assert(text =~= head + seq!['\n'] + rest);
    assert(with_start(text, offset) =~= head + seq!['\n'] + (line + seq!['\n'] + rest));
    lemma_bare_lines_concat(head, rest);
    lemma_bare_lines_concat(head, line + seq!['\n'] + rest);
    lemma_bare_lines_concat(line, rest);
    assert(bare_lines(line) =~= Seq::empty()) by {
        lemma_next_char(line, '\n', 0);
        assert(next_char(line, '\n', 0) == line.len()) by {
            if next_char(line, '\n', 0) < line.len() {
                assert(line.contains('\n'));
            }
        }
        assert(line.subrange(0, line.len() as int) =~= line);
        assert(split_text(line, '\n') =~= seq![line]);
        assert(line[0] == '#');
        assert(seq![line].drop_last() =~= Seq::<Seq<char>>::empty());
        assert(bare_of(seq![line]) == bare_of(seq![line].drop_last()));
    }
    assert(bare_lines(line) + bare_lines(rest) =~= bare_lines(rest));
}

/// A media playlist whose attributes end with their lines is written with the
/// links of the kept segments as its only bare lines, wherever each link fits on a
/// line.
pub proof fn law_bare_lines_are_segments(
    v: ProcessorView,
    base_url: Seq<char>,
    content: Seq<u8>,
    m: MediaView,
    out: Seq<char>,
)
    requires
        is_media_output(v, base_url, content, m, out),
        closed_attributes(content),
        opt_unbroken(v.start_offset),
    ensures
        exists|links: Seq<SegmentView>| #[trigger]
            are_segment_rewrites(v, base_url, m.segments, links) && (are_plain_segments(
                kept_segments(v, links, links.len() as int),
            ) ==> bare_lines(out) == segment_uris(kept_segments(v, links, links.len() as int))),
{
    let (links, text) = choose|links: Seq<SegmentView>, text: Seq<char>|
        are_segment_rewrites(v, base_url, m.segments, links) && #[trigger] is_media_text(
            text,
            content,
            kept_segments(v, links, links.len() as int),
            m.end_list,
        ) && out == with_offset(v, is_vod(m), text);
    lemma_media_text_head(text, content, kept_segments(v, links, links.len() as int), m.end_list);
    if out != text {
        lemma_start_adds_no_bare_line(text, v.start_offset->0);
    }
    assert(are_segment_rewrites(v, base_url, m.segments, links));
}

/// A media playlist begins with its header line.
proof fn lemma_media_text_head(
    text: Seq<char>,
    content: Seq<u8>,
    segments: Seq<SegmentView>,
    end_list: bool,
)
    requires
        is_media_text(text, content, segments, end_list),
    ensures
        starts_with(text, "#EXTM3U\n"@),
{
    let head = media_frame(content).head;
    let n = "#EXTM3U\n"@.len() as int;
    assert(matches_at(head, "#EXTM3U\n"@, 0));
    assert(text.subrange(0, n) =~= head.subrange(0, n));
}

/// A master playlist whose attributes end with their lines is written with the
/// links of the variants as its only bare lines, wherever each link fits on a line.
pub proof fn law_bare_lines_are_variants(
    v: ProcessorView,
    base_url: Seq<char>,
    content: Seq<u8>,
    m: MasterView,
    out: Seq<char>,
)
    requires
        is_master_output(v, base_url, content, m, out),
        closed_attributes(content),
    ensures
        exists|links: MasterView| #[trigger]
            is_master_rewrite(v, base_url, m, links) && (are_plain_links(links) ==> bare_lines(out)
                == line_uris(links.variants)),
{
    let links = choose|links: MasterView| #[trigger]
        is_master_rewrite(v, base_url, m, links) && is_master_text(out, content, links);
    assert(is_master_rewrite(v, base_url, m, links));
}

/// Where segments are not led through the proxy, each is linked by its absolute
/// URL, and these are the only bare lines, wherever each link fits on a line.
pub proof fn law_direct_lines_are_absolute(
    v: ProcessorView,
    base_url: Seq<char>,
    content: Seq<u8>,
    m: MediaView,
    out: Seq<char>,
)
    requires
        is_media_output(v, base_url, content, m, out),
        closed_attributes(content),
        opt_unbroken(v.start_offset),
        v.no_proxy || v.key_only_proxy,
    ensures
        exists|links: Seq<SegmentView>| #[trigger]
            are_segment_rewrites(v, base_url, m.segments, links) && (are_plain_segments(
                kept_segments(v, links, links.len() as int),
            ) ==> bare_lines(out) == segment_uris(kept_segments(v, links, links.len() as int)))
                && forall|i: int|
                0 <= i < links.len() ==> (#[trigger] links[i]).uri == resolved(
                    base_url,
                    m.segments[i].uri,
                ),
{
    law_bare_lines_are_segments(v, base_url, content, m, out);
    let links = choose|links: Seq<SegmentView>| #[trigger]
        are_segment_rewrites(v, base_url, m.segments, links) && (are_plain_segments(
            kept_segments(v, links, links.len() as int),
        ) ==> bare_lines(out) == segment_uris(kept_segments(v, links, links.len() as int)));
    assert forall|i: int| 0 <= i < links.len() implies (#[trigger] links[i]).uri == resolved(
        base_url,
        m.segments[i].uri,
    ) by {
        assert(is_segment_rewrite(v, base_url, m.segments[i], links[i]));
    }
    assert(are_segment_rewrites(v, base_url, m.segments, links));
}

/// The links of a rewritten segment fit on a line each.
proof fn lemma_segment_links(
    v: ProcessorView,
    base_url: Seq<char>,
    s: SegmentView,
    out: SegmentView,
)
    requires
        is_clean(v),
        !v.no_proxy,
        !v.key_only_proxy,
        are_unbroken_tags(s.unknown_tags),
        is_segment_rewrite(v, base_url, s, out),
    ensures
        is_own_link(v, out.uri),
        opt_unbroken(out.key_uri),
        opt_unbroken(out.map_uri),
        are_unbroken_tags(out.unknown_tags),
{
    let abs = resolved(base_url, s.uri);
    if is_link(v, LinkKind::Manifest, abs, out.uri) {
        lemma_own_link(v, LinkKind::Manifest, abs, out.uri);
    } else {
        lemma_own_link(v, LinkKind::Segment, abs, out.uri);
    }
    if let Some(u) = s.key_uri {
        lemma_own_link(v, LinkKind::Key, resolved(base_url, u), out.key_uri->0);
    }
    if let Some(u) = s.map_uri {
        lemma_own_link(v, LinkKind::Segment, resolved(base_url, u), out.map_uri->0);
    }
    assert forall|i: int| 0 <= i < out.unknown_tags.len() implies unbroken(
        (#[trigger] out.unknown_tags[i]).tag,
    ) && opt_unbroken(out.unknown_tags[i].rest) by {
        let t = s.unknown_tags[i];
        assert(is_tag_rewrite(v, base_url, t, segment_tag_kind(t.tag), out.unknown_tags[i]));
        lemma_tag_unbroken(v, base_url, t, segment_tag_kind(t.tag), out.unknown_tags[i]);
    }
}

/// No line of a rewritten media playlist leads past the proxy: its bare lines are
/// the links of the kept segments, and each begins with the base URL.
pub proof fn law_segment_lines_lead_through_the_proxy(
    v: ProcessorView,
    base_url: Seq<char>,
    content: Seq<u8>,
    out: Seq<char>,
)
    requires
        is_output(v, content, base_url, out),
        !is_iptv(content) && parsed_master(content) is None && parsed_media(content) is Some,
        closed_attributes(content),
        is_clean(v),
        !v.no_proxy,
        !v.key_only_proxy,
    ensures
        exists|links: Seq<SegmentView>| #[trigger]
            are_segment_rewrites(v, base_url, parsed_media(content)->0.segments, links)
                && bare_lines(out) == segment_uris(kept_segments(v, links, links.len() as int)),
        forall|i: int| 0 <= i < bare_lines(out).len() ==> is_own_link(v, #[trigger] bare_lines(out)[i]),
{
    let m = parsed_media(content)->0;
    law_bare_lines_are_segments(v, base_url, content, m, out);
    let links = choose|links: Seq<SegmentView>| #[trigger]
        are_segment_rewrites(v, base_url, m.segments, links) && (are_plain_segments(
            kept_segments(v, links, links.len() as int),
        ) ==> bare_lines(out) == segment_uris(kept_segments(v, links, links.len() as int)));
    let kept = kept_segments(v, links, links.len() as int);
    assert forall|k: int| 0 <= k < kept.len() implies is_own_link(v, (#[trigger] kept[k]).uri)
        && opt_unbroken(kept[k].key_uri) && opt_unbroken(kept[k].map_uri) && are_unbroken_tags(
        kept[k].unknown_tags,
    ) by {
        lemma_kept(v, links, links.len() as int, k);
        let i = choose|i: int|
            0 <= i < links.len() && !skipped(v, i as nat) && kept[k] == behind_gap(
                #[trigger] links[i],
                gap_at(v, i),
            );
        lemma_segment_links(v, base_url, m.segments[i], links[i]);
    }
    assert(are_plain_segments(kept));
    assert forall|i: int| 0 <= i < bare_lines(out).len() implies is_own_link(
        v,
        #[trigger] bare_lines(out)[i],
    ) by {
        assert(bare_lines(out)[i] == kept[i].uri);
    }
}

/// Every URI of a variant on a line of its own is that of a variant.
proof fn lemma_line_uris(variants: Seq<VariantView>, i: int)
    requires
        0 <= i < line_uris(variants).len(),
    ensures
        exists|k: int|
            0 <= k < variants.len() && !(#[trigger] variants[k]).is_i_frame && line_uris(
                variants,
            )[i] == variants[k].uri,
    decreases variants.len(),
{
    let init = variants.drop_last();
    if variants.last().is_i_frame || i < line_uris(init).len() {
        lemma_line_uris(init, i);
        let k = choose|k: int|
            0 <= k < init.len() && !(#[trigger] init[k]).is_i_frame && line_uris(init)[i]
                == init[k].uri;
        assert(variants[k] == init[k]);
    } else {
        assert(variants[variants.len() - 1] == variants.last());
    }
}

/// No line of a rewritten master playlist leads past the proxy: its bare lines are
/// the links of the variants, and each begins with the base URL. So does the link
/// of each rendition.
pub proof fn law_variant_lines_lead_through_the_proxy(
    v: ProcessorView,
    base_url: Seq<char>,
    content: Seq<u8>,
    out: Seq<char>,
)
    requires
        is_output(v, content, base_url, out),
        !is_iptv(content) && parsed_master(content) is Some,
        closed_attributes(content),
        is_clean(v),
        !v.no_proxy,
    ensures
        exists|links: MasterView| #[trigger]
            is_master_rewrite(v, base_url, parsed_master(content)->0, links) && is_master_text(
                out,
                content,
                links,
            ) && bare_lines(out) == line_uris(links.variants) && forall|i: int|
                0 <= i < links.alternatives.len() && (#[trigger] links.alternatives[i]) is Some
                    ==> is_own_link(v, links.alternatives[i]->0),
        forall|i: int| 0 <= i < bare_lines(out).len() ==> is_own_link(v, #[trigger] bare_lines(out)[i]),
{
    let m = parsed_master(content)->0;
    let links = choose|links: MasterView| #[trigger]
        is_master_rewrite(v, base_url, m, links) && is_master_text(out, content, links);
    assert forall|i: int| 0 <= i < links.variants.len() implies is_own_link(
        v,
        (#[trigger] links.variants[i]).uri,
    ) by {
        assert(is_variant(v, base_url, m.variants[i], links.variants[i]));
        lemma_own_link(
            v,
            LinkKind::Manifest,
            resolved(base_url, m.variants[i].uri),
            links.variants[i].uri,
        );
    }
    assert forall|i: int|
        0 <= i < links.alternatives.len() && (
        #[trigger] links.alternatives[i]) is Some implies is_own_link(
        v,
        links.alternatives[i]->0,
    ) by {
        assert(is_rendition(v, base_url, m.alternatives[i], links.alternatives[i]));
        lemma_own_link(
            v,
            LinkKind::Manifest,
            resolved(base_url, m.alternatives[i]->0),
            links.alternatives[i]->0,
        );
    }
    assert forall|i: int| 0 <= i < links.unknown_tags.len() implies unbroken(
        (#[trigger] links.unknown_tags[i]).tag,
    ) && opt_unbroken(links.unknown_tags[i].rest) by {
        let t = m.unknown_tags[i];
        assert(is_master_tag(v, base_url, t, links.unknown_tags[i]));
        if links.unknown_tags[i] != t {
            lemma_tag_unbroken(v, base_url, t, LinkKind::Manifest, links.unknown_tags[i]);
        }
    }
    assert(are_plain_links(links));
    assert forall|i: int| 0 <= i < bare_lines(out).len() implies is_own_link(
        v,
        #[trigger] bare_lines(out)[i],
    ) by {
        lemma_line_uris(links.variants, i);
    }
    assert(is_master_rewrite(v, base_url, m, links));
}

} // verus!
