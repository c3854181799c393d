//! Laws on playlists that are parsed, rewritten and written again.

use vstd::prelude::*;

use crate::codec::text_or_empty;
use crate::hls::manifest::{
    are_segment_rewrites, behind_gap, behind_header, gap_at, inject_ext_x_start, is_iptv,
    is_iptv_line, is_master_rewrite, is_master_tag, is_relinked, is_rendition, is_segment_rewrite,
    is_tag_rewrite, is_variant, is_vod, kept_segments, segment_tag_kind, skip_view, skipped,
    with_offset, with_start, LinkKind, ManifestOptions, ManifestProcessor, ParamsView,
    ProcessorView, ProxyParams,
};
use crate::hls::playlist::{
    is_master_text, is_media_text, is_written_master, master_frame, media_frame, parsed_master,
    parsed_media, segment_views, MasterLinks, MasterView, MediaView, SegmentLinks, SegmentView,
    TagView,
};
use crate::laws::hls::{
    is_kind_link, is_line_link, is_path_of, is_served_extension, is_text_with_link, lemma_kind_link,
    lemma_line_link, lemma_relinked, told, uri_mark,
};
use crate::laws::hls_lines::{is_dropped, is_line_piece, lemma_lines_of};
use crate::laws::urls::is_base;
use crate::text::{
    contains, find_first, lines_text, lowercase, matches_at, next_char, starts_with, trim_text,
};
use crate::utils::url::resolved;

verus! {

// ---------------------------------------------------------------------------
// Links of a kind
// ---------------------------------------------------------------------------

/// What the links of a playlist are made for.
pub struct Job {
    /// The base URL without slashes at its end.
    pub b: Seq<char>,
    pub params: ParamsView,
    pub opts: ManifestOptions,
    /// The URL of the playlist.
    pub url: Seq<char>,
}

/// `out` is the link of a reference of a kind.
pub open spec fn is_reference(j: Job, kind: LinkKind, uri: Seq<char>, out: Seq<char>) -> bool {
    forall|path: Seq<char>, extension: Seq<char>| #[trigger]
        is_path_of(resolved(j.url, uri), path) && #[trigger] is_served_extension(path, extension)
            ==> is_kind_link(
            out,
            j.b,
            j.params,
            j.opts,
            kind,
            resolved(j.url, uri),
            extension,
        )
}

/// `out` is the link of an optional reference.
pub open spec fn is_opt_reference(
    j: Job,
    kind: LinkKind,
    uri: Option<Seq<char>>,
    out: Option<Seq<char>>,
) -> bool {
    match uri {
        Some(u) => out matches Some(o) && is_reference(j, kind, u, o),
        None => out is None,
    }
}

/// `out` are attributes with their quoted URI replaced; those without one stay.
pub open spec fn are_attributes(
    j: Job,
    kind: LinkKind,
    rest: Seq<char>,
    out: Seq<char>,
) -> bool {
    &&& !contains(rest, uri_mark()) ==> out == rest
    &&& forall|
        head: Seq<char>,
        uri: Seq<char>,
        tail: Seq<char>,
        path: Seq<char>,
        extension: Seq<char>,
    |
        #![trigger is_path_of(resolved(j.url, uri), path), is_text_with_link(out, head, tail,
            j.b, j.params, j.opts, kind, resolved(j.url, uri), extension)]
        rest == head + uri_mark() + uri + "\""@ + tail && !contains(head, uri_mark())
            && !uri.contains('"') && is_path_of(resolved(j.url, uri), path) && is_served_extension(
            path,
            extension,
        ) ==> is_text_with_link(
            out,
            head,
            tail,
            j.b,
            j.params,
            j.opts,
            kind,
            resolved(j.url, uri),
            extension,
        )
}

/// `out` is a tag with the URI of its attributes replaced.
pub open spec fn is_tag(j: Job, kind: LinkKind, t: TagView, out: TagView) -> bool {
    &&& out.tag == t.tag
    &&& match t.rest {
        Some(rest) => out.rest matches Some(o) && are_attributes(j, kind, rest, o),
        None => out.rest is None,
    }
}

/// What an unknown tag before a segment names: renditions and streams of key frames
/// are sub-playlists, all else are keys.
pub open spec fn unknown_kind(tag: Seq<char>) -> LinkKind {
    if tag == "X-MEDIA"@ || tag == "X-I-FRAME-STREAM-INF"@ {
        LinkKind::Manifest
    } else {
        LinkKind::Key
    }
}

/// `out` is the link of a line that names a segment or a sub-playlist.
pub open spec fn is_segment_reference(j: Job, uri: Seq<char>, out: Seq<char>) -> bool {
    forall|path: Seq<char>, extension: Seq<char>|
        is_path_of(resolved(j.url, uri), path) && is_served_extension(path, extension)
            ==> #[trigger] is_line_link(
            out,
            j.b,
            j.params,
            j.opts,
            resolved(j.url, uri),
            path,
            extension,
        )
}

/// `out` is a segment with its links replaced: its key is served as a key, its
/// initialization section as a segment, and itself by what its URL names. All else
/// of it stays.
pub open spec fn is_linked_segment(j: Job, s: SegmentView, out: SegmentView) -> bool {
    &&& out.index == s.index
    &&& out.duration_bits == s.duration_bits
    &&& is_opt_reference(j, LinkKind::Key, s.key_uri, out.key_uri)
    &&& is_opt_reference(j, LinkKind::Segment, s.map_uri, out.map_uri)
    &&& is_segment_reference(j, s.uri, out.uri)
    &&& out.unknown_tags.len() == s.unknown_tags.len()
    &&& forall|k: int|
        0 <= k < s.unknown_tags.len() ==> is_tag(
            j,
            unknown_kind(s.unknown_tags[k].tag),
            s.unknown_tags[k],
            #[trigger] out.unknown_tags[k],
        )
}

/// `pick` are the positions of the segments that are not left out, in order.
pub open spec fn is_pick(skips: Option<Vec<bool>>, n: int, pick: Seq<int>) -> bool {
    &&& forall|k: int| 0 <= k < pick.len() ==> 0 <= #[trigger] pick[k] < n
        && !is_dropped(skips, pick[k] as nat)
    &&& forall|k: int, m: int| 0 <= k < m < pick.len() ==> #[trigger] pick[k] < #[trigger] pick[m]
    &&& forall|i: int| 0 <= i < n && !#[trigger] is_dropped(skips, i as nat) ==> pick.contains(i)
}

/// `out` are the segments that are kept, with their links replaced. One that follows
/// a segment that was left out begins with a discontinuity.
pub open spec fn are_kept(
    j: Job,
    segments: Seq<SegmentView>,
    pick: Seq<int>,
    out: Seq<SegmentView>,
) -> bool {
    &&& out.len() == pick.len()
    &&& forall|k: int|
        0 <= k < out.len() ==> is_linked_segment(j, segments[pick[k]], #[trigger] out[k])
            && out[k].discontinuity == (segments[pick[k]].discontinuity || pick[k] > 0
            && is_dropped(j.opts.skips, (pick[k] - 1) as nat))
}

/// A view of a processor that does a job.
pub open spec fn does(v: ProcessorView, j: Job) -> bool {
    &&& is_base(v.base, j.b)
    &&& v.params == j.params
    &&& v.no_proxy == j.opts.no_proxy
    &&& v.key_only_proxy == j.opts.key_only_proxy
    &&& v.force_playlist_proxy == j.opts.force_playlist_proxy
    &&& v.skips == skip_view(j.opts.skips)
    &&& v.start_offset == crate::text::opt_text(j.opts.start_offset)
    &&& v.force_start_offset == j.opts.force_start_offset
}

/// Links of a kind.
proof fn lemma_reference(v: ProcessorView, j: Job, kind: LinkKind, uri: Seq<char>, out: Seq<char>)
    requires
        does(v, j),
        crate::hls::manifest::is_link(v, kind, resolved(j.url, uri), out),
    ensures
        is_reference(j, kind, uri, out),
{
    assert forall|path: Seq<char>, extension: Seq<char>| #[trigger]
        is_path_of(resolved(j.url, uri), path) && #[trigger] is_served_extension(
            path,
            extension,
        ) implies is_kind_link(
        out,
        j.b,
        j.params,
        j.opts,
        kind,
        resolved(j.url, uri),
        extension,
    ) by {
        lemma_kind_link(v, j.b, j.opts, kind, resolved(j.url, uri), path, extension, out);
    }
}

/// Attributes with their URI replaced.
proof fn lemma_attributes(
    v: ProcessorView,
    j: Job,
    kind: LinkKind,
    rest: Seq<char>,
    out: Seq<char>,
)
    requires
        does(v, j),
        if contains(rest, "URI=\""@) {
            is_relinked(v, j.url, rest, kind, out)
        } else {
            out == rest
        },
    ensures
        are_attributes(j, kind, rest, out),
{
    assert forall|
        head: Seq<char>,
        uri: Seq<char>,
        tail: Seq<char>,
        path: Seq<char>,
        extension: Seq<char>,
    |
        rest == head + uri_mark() + uri + "\""@ + tail && !contains(head, uri_mark())
            && !uri.contains('"') && #[trigger] is_path_of(resolved(j.url, uri), path)
            && is_served_extension(path, extension) implies #[trigger] is_text_with_link(
        out,
        head,
        tail,
        j.b,
        j.params,
        j.opts,
        kind,
        resolved(j.url, uri),
        extension,
    ) by {
        let m = uri_mark();
        let n = head.len() as int;
        assert(rest.subrange(n, n + m.len()) =~= m);
        assert(matches_at(rest, m, n));
        lemma_relinked(v, j.b, j.opts, kind, j.url, head, uri, tail, path, extension, out);
    }
}

/// A segment with its links replaced.
#[verifier::rlimit(30)]
proof fn lemma_linked(v: ProcessorView, j: Job, s: SegmentView, out: SegmentView)
    requires
        does(v, j),
        is_segment_rewrite(v, j.url, s, out),
    ensures
        is_linked_segment(j, s, out),
        out.discontinuity == s.discontinuity,
{
    if let Some(u) = s.key_uri {
        lemma_reference(v, j, LinkKind::Key, u, out.key_uri->0);
    }
    if let Some(u) = s.map_uri {
        lemma_reference(v, j, LinkKind::Segment, u, out.map_uri->0);
    }
    assert forall|path: Seq<char>, extension: Seq<char>|
        is_path_of(resolved(j.url, s.uri), path) && is_served_extension(
            path,
            extension,
        ) implies #[trigger] is_line_link(
        out.uri,
        j.b,
        j.params,
        j.opts,
        resolved(j.url, s.uri),
        path,
        extension,
    ) by {
        lemma_line_link(v, j.b, j.opts, j.url, s.uri, path, extension, out.uri);
    }
    assert forall|k: int| 0 <= k < s.unknown_tags.len() implies is_tag(
        j,
        unknown_kind(s.unknown_tags[k].tag),
        s.unknown_tags[k],
        #[trigger] out.unknown_tags[k],
    ) by {
        let t = s.unknown_tags[k];
        assert(is_tag_rewrite(v, j.url, t, segment_tag_kind(t.tag), out.unknown_tags[k]));
        if let Some(rest) = t.rest {
            lemma_attributes(v, j, unknown_kind(t.tag), rest, out.unknown_tags[k].rest->0);
        }
    }
}

/// The positions of the segments that are kept.
#[verifier::rlimit(30)]
proof fn lemma_pick(
    v: ProcessorView,
    j: Job,
    segments: Seq<SegmentView>,
    links: Seq<SegmentView>,
    n: int,
) -> (pick: Seq<int>)
    requires
        does(v, j),
        are_segment_rewrites(v, j.url, segments, links),
        0 <= n <= links.len(),
    ensures
        is_pick(j.opts.skips, n, pick),
        are_kept(j, segments, pick, kept_segments(v, links, n)),
    decreases n,
{
    if n == 0 {
        Seq::empty()
    } else {
        let rest = lemma_pick(v, j, segments, links, n - 1);
        let m = n - 1;
        assert(skipped(v, m as nat) == is_dropped(j.opts.skips, m as nat));
        if skipped(v, m as nat) {
            assert forall|i: int| 0 <= i < n && !#[trigger] is_dropped(
                j.opts.skips,
                i as nat,
            ) implies rest.contains(i) by {
                assert(i < m);
            }
            rest
        } else {
            let pick = rest.push(m);
            let kept = kept_segments(v, links, n);
            let before = kept_segments(v, links, m);
            assert(is_segment_rewrite(v, j.url, segments[m], links[m]));
            lemma_linked(v, j, segments[m], links[m]);
            assert(gap_at(v, m) == (m > 0 && is_dropped(j.opts.skips, (m - 1) as nat)));
            assert forall|k: int| 0 <= k < kept.len() implies is_linked_segment(
                j,
                segments[pick[k]],
                #[trigger] kept[k],
            ) && kept[k].discontinuity == (segments[pick[k]].discontinuity || pick[k] > 0
                && is_dropped(j.opts.skips, (pick[k] - 1) as nat)) by {
                if k < before.len() {
                    assert(kept[k] == before[k]);
                    assert(pick[k] == rest[k]);
                } else {
                    assert(kept[k] == behind_gap(links[m], gap_at(v, m)));
                    assert(pick[k] == m);
                }
            }
            assert forall|i: int| 0 <= i < n && !#[trigger] is_dropped(
                j.opts.skips,
                i as nat,
            ) implies pick.contains(i) by {
                if i < m {
                    let k = choose|k: int| 0 <= k < rest.len() && rest[k] == i;
                    assert(pick[k] == i);
                } else {
                    assert(pick[rest.len() as int] == i);
                }
            }
            pick
        }
    }
}

/// The job of a processor.
pub open spec fn job(b: Seq<char>, params: ProxyParams, opts: ManifestOptions,
    url: Seq<char>) -> Job {
    Job { b, params: told(params), opts, url }
}

/// The segments of a media playlist: those that are kept, in order and with their
/// links replaced.
pub proof fn law_segments(
    base: &str,
    params: ProxyParams,
    opts: ManifestOptions,
    processor: &ManifestProcessor,
    segments: &Vec<SegmentLinks>,
    base_url: &str,
    out: Vec<SegmentLinks>,
    b: Seq<char>,
)
    requires
        call_ensures(ManifestProcessor::new, (base, params, opts), *processor),
        call_ensures(ManifestProcessor::rewrite_media, (processor, segments, base_url), out),
        is_base(base@, b),
    ensures
        exists|pick: Seq<int>| #[trigger]
            is_pick(opts.skips, segments@.len() as int, pick) && are_kept(
                job(b, params, opts, base_url@),
                segment_views(segments@),
                pick,
                segment_views(out@),
            ),
{
    let v = processor@;
    let j = job(b, params, opts, base_url@);
    let links = choose|links: Seq<SegmentView>|
        are_segment_rewrites(v, base_url@, segment_views(segments@), links) && segment_views(out@)
            == #[trigger] kept_segments(v, links, links.len() as int);
    let pick = lemma_pick(v, j, segment_views(segments@), links, links.len() as int);
    assert(is_pick(opts.skips, segments@.len() as int, pick));
}

/// `out` are the links of a master playlist, replaced: variants and renditions are
/// served as playlists, and so are the renditions of tags that the parser does not
/// know; other tags stay.
pub open spec fn is_linked_master(j: Job, m: MasterView, out: MasterView) -> bool {
    &&& out.variants.len() == m.variants.len()
    &&& forall|i: int|
        0 <= i < m.variants.len() ==> (#[trigger] out.variants[i]).is_i_frame
            == m.variants[i].is_i_frame && is_reference(
            j,
            LinkKind::Manifest,
            m.variants[i].uri,
            out.variants[i].uri,
        )
    &&& out.alternatives.len() == m.alternatives.len()
    &&& forall|i: int|
        0 <= i < m.alternatives.len() ==> is_opt_reference(
            j,
            LinkKind::Manifest,
            m.alternatives[i],
            #[trigger] out.alternatives[i],
        )
    &&& out.unknown_tags.len() == m.unknown_tags.len()
    &&& forall|i: int|
        0 <= i < m.unknown_tags.len() ==> if m.unknown_tags[i].tag == "X-MEDIA"@ {
            is_tag(j, LinkKind::Manifest, m.unknown_tags[i], #[trigger] out.unknown_tags[i])
        } else {
            out.unknown_tags[i] == m.unknown_tags[i]
        }
}

/// A master playlist with its links replaced.
#[verifier::rlimit(30)]
proof fn lemma_linked_master(v: ProcessorView, j: Job, m: MasterView, out: MasterView)
    requires
        does(v, j),
        is_master_rewrite(v, j.url, m, out),
    ensures
        is_linked_master(j, m, out),
{
    assert forall|i: int| 0 <= i < m.variants.len() implies (
    #[trigger] out.variants[i]).is_i_frame == m.variants[i].is_i_frame && is_reference(
        j,
        LinkKind::Manifest,
        m.variants[i].uri,
        out.variants[i].uri,
    ) by {
        assert(is_variant(v, j.url, m.variants[i], out.variants[i]));
        lemma_reference(v, j, LinkKind::Manifest, m.variants[i].uri, out.variants[i].uri);
    }
    assert forall|i: int| 0 <= i < m.alternatives.len() implies is_opt_reference(
        j,
        LinkKind::Manifest,
        m.alternatives[i],
        #[trigger] out.alternatives[i],
    ) by {
        assert(is_rendition(v, j.url, m.alternatives[i], out.alternatives[i]));
        if let Some(u) = m.alternatives[i] {
            lemma_reference(v, j, LinkKind::Manifest, u, out.alternatives[i]->0);
        }
    }
    assert forall|i: int| 0 <= i < m.unknown_tags.len() implies if m.unknown_tags[i].tag
        == "X-MEDIA"@ {
        is_tag(j, LinkKind::Manifest, m.unknown_tags[i], #[trigger] out.unknown_tags[i])
    } else {
        out.unknown_tags[i] == m.unknown_tags[i]
    } by {
        let t = m.unknown_tags[i];
        assert(is_master_tag(v, j.url, t, out.unknown_tags[i]));
        if t.tag == "X-MEDIA"@ {
            if let Some(rest) = t.rest {
                lemma_attributes(v, j, LinkKind::Manifest, rest, out.unknown_tags[i].rest->0);
            }
        }
    }
}

/// The links of a master playlist, replaced.
pub proof fn law_master_links(
    base: &str,
    params: ProxyParams,
    opts: ManifestOptions,
    processor: &ManifestProcessor,
    m: &MasterLinks,
    base_url: &str,
    out: MasterLinks,
    b: Seq<char>,
)
    requires
        call_ensures(ManifestProcessor::new, (base, params, opts), *processor),
        call_ensures(ManifestProcessor::rewrite_master, (processor, m, base_url), out),
        is_base(base@, b),
    ensures
        is_linked_master(job(b, params, opts, base_url@), m@, out@),
{
    lemma_linked_master(processor@, job(b, params, opts, base_url@), m@, out@);
}

// ---------------------------------------------------------------------------
// Whole playlists
// ---------------------------------------------------------------------------

/// A line with the attributes of an IPTV channel, which a parsed playlist would
/// lose.
pub open spec fn is_channel(l: Seq<char>) -> bool {
    let t = trim_text(l);
    starts_with(t, "#EXTINF:"@) && (contains(t, "group-title="@) || contains(t, "tvg-id="@)
        || contains(t, "tvg-name="@) || contains(t, "tvg-logo="@))
}

/// A list of channels.
pub open spec fn lists_channels(content: Seq<u8>) -> bool {
    exists|i: int|
        0 <= i < lines_text(text_or_empty(content)).len() && is_channel(
            #[trigger] lines_text(text_or_empty(content))[i],
        )
}

/// The two readings of a list of channels agree.
proof fn lemma_channels(content: Seq<u8>)
    ensures
        is_iptv(content) <==> lists_channels(content),
{
    let ls = lines_text(text_or_empty(content));
    if is_iptv(content) {
        let i = choose|i: int| 0 <= i < ls.len() && is_iptv_line(#[trigger] ls[i]);
        assert(is_channel(ls[i]));
    }
    if lists_channels(content) {
        let i = choose|i: int| 0 <= i < ls.len() && is_channel(#[trigger] ls[i]);
        assert(is_iptv_line(ls[i]));
    }
}

/// A list of channels, and what is no playlist to the parser, is rewritten line by
/// line.
pub proof fn law_channels_are_rewritten_line_by_line(
    base: &str,
    params: ProxyParams,
    opts: ManifestOptions,
    processor: &ManifestProcessor,
    content: &[u8],
    url: &str,
    out: String,
    b: Seq<char>,
)
    requires
        call_ensures(ManifestProcessor::new, (base, params, opts), *processor),
        call_ensures(ManifestProcessor::process, (processor, content, url), out),
        is_base(base@, b),
        lists_channels(content@) || (parsed_master(content@) is None && parsed_media(
            content@,
        ) is None),
    ensures
        exists|pieces: Seq<Seq<char>>|
            pieces.len() == lines_text(text_or_empty(content@)).len() && out@
                == #[trigger] pieces.flatten() && forall|i: int|
                0 <= i < pieces.len() ==> is_line_piece(
                    #[trigger] pieces[i],
                    lines_text(text_or_empty(content@)),
                    i,
                    b,
                    told(params),
                    opts,
                    url@,
                ),
{
    lemma_channels(content@);
    lemma_lines_of(processor@, b, opts, url@, text_or_empty(content@), out@);
}

/// A master playlist is written again with its links replaced.
pub proof fn law_master_playlists(
    base: &str,
    params: ProxyParams,
    opts: ManifestOptions,
    processor: &ManifestProcessor,
    content: &[u8],
    url: &str,
    out: String,
    b: Seq<char>,
)
    requires
        call_ensures(ManifestProcessor::new, (base, params, opts), *processor),
        call_ensures(ManifestProcessor::process, (processor, content, url), out),
        is_base(base@, b),
        !lists_channels(content@),
        parsed_master(content@) is Some,
    ensures
        exists|links: MasterView| #[trigger]
            is_linked_master(
                job(b, params, opts, url@),
                parsed_master(content@)->0,
                links,
            ) && is_written_master(out@, master_frame(content@), links),
{
    lemma_channels(content@);
    let v = processor@;
    let m = parsed_master(content@)->0;
    let links = choose|links: MasterView| #[trigger]
        is_master_rewrite(v, url@, m, links) && is_master_text(out@, content@, links);
    lemma_linked_master(v, job(b, params, opts, url@), m, links);
}

/// A stream that is finished: its playlist is closed, or its type says so.
pub open spec fn is_finished(m: MediaView) -> bool {
    m.end_list || (m.playlist_type matches Some(t) && contains(lowercase(t), "vod"@))
}

/// `out` is a playlist with the start offset behind its header.
pub open spec fn has_offset(text: Seq<char>, offset: Seq<char>, out: Seq<char>) -> bool {
    text.len() >= 8 && text.take(8) == "#EXTM3U\n"@ && out == "#EXTM3U\n"@
        + "#EXT-X-START:TIME-OFFSET="@ + offset + ",PRECISE=YES\n"@ + text.skip(8)
}

/// A media playlist is written again with the segments that are kept and their
/// links replaced. The start offset goes behind the header, but into a finished
/// stream only where that is forced.
pub proof fn law_media_playlists(
    base: &str,
    params: ProxyParams,
    opts: ManifestOptions,
    processor: &ManifestProcessor,
    content: &[u8],
    url: &str,
    out: String,
    b: Seq<char>,
)
    requires
        call_ensures(ManifestProcessor::new, (base, params, opts), *processor),
        call_ensures(ManifestProcessor::process, (processor, content, url), out),
        is_base(base@, b),
        !lists_channels(content@),
        parsed_master(content@) is None,
        parsed_media(content@) is Some,
    ensures
        exists|pick: Seq<int>, kept: Seq<SegmentView>, text: Seq<char>|
            is_pick(opts.skips, parsed_media(content@)->0.segments.len() as int, pick)
                && #[trigger] are_kept(
                job(b, params, opts, url@),
                parsed_media(content@)->0.segments,
                pick,
                kept,
            ) && #[trigger] is_media_text(
                text,
                content@,
                kept,
                parsed_media(content@)->0.end_list,
            ) && if opts.start_offset is Some && (opts.force_start_offset || !is_finished(
                parsed_media(content@)->0,
            )) {
                has_offset(text, opts.start_offset->0@, out@)
            } else {
                out@ == text
            },
{
    lemma_channels(content@);
    let v = processor@;
    let m = parsed_media(content@)->0;
    let j = job(b, params, opts, url@);
    let (links, text) = choose|links: Seq<SegmentView>, text: Seq<char>|
        are_segment_rewrites(v, url@, m.segments, links) && #[trigger] is_media_text(
            text,
            content@,
            kept_segments(v, links, links.len() as int),
            m.end_list,
        ) && out@ == with_offset(v, is_vod(m), text);
    let kept = kept_segments(v, links, links.len() as int);
    let pick = lemma_pick(v, j, m.segments, links, links.len() as int);
    if opts.start_offset is Some {
        let head = media_frame(content@).head;
        reveal_strlit("#EXTM3U\n");
        assert(matches_at(head, "#EXTM3U\n"@, 0));
        assert(text.take(8) =~= head.subrange(0, 8));
        lemma_offset_behind_header(text, opts.start_offset->0@);
    }
    assert(are_kept(j, m.segments, pick, kept));
}

/// The start offset goes behind the header.
proof fn lemma_offset_behind_header(text: Seq<char>, offset: Seq<char>)
    requires
        text.len() >= 8,
        text.take(8) == "#EXTM3U\n"@,
    ensures
        has_offset(text, offset, with_start(text, offset)),
{
    reveal_strlit("#EXTM3U\n");
    reveal_strlit("#EXTM3U");
    assert forall|i: int| 0 <= i < 8 implies text[i] == "#EXTM3U\n"@[i] by {
        assert(text.take(8)[i] == text[i]);
    }
    assert(text.subrange(0, 7) =~= "#EXTM3U"@);
    assert(matches_at(text, "#EXTM3U"@, 0));
    assert(find_first(text, "#EXTM3U"@) == Some(0int));
    crate::text::lemma_next_char(text, '\n', 7);
    assert(next_char(text, '\n', 7) == 7);
    assert(behind_header(text, 0) == 8);
    assert(text.subrange(0, 8) =~= "#EXTM3U\n"@);
    assert(text.subrange(8, text.len() as int) =~= text.skip(8));
    assert(with_start(text, offset) =~= "#EXTM3U\n"@ + "#EXT-X-START:TIME-OFFSET="@ + offset
        + ",PRECISE=YES\n"@ + text.skip(8));
}

/// The start offset is put behind the header of a playlist.
pub proof fn law_offset_goes_behind_the_header(content: &str, offset: &str, out: String)
    requires
        call_ensures(inject_ext_x_start, (content, offset), out),
        content@.len() >= 8,
        content@.take(8) == "#EXTM3U\n"@,
    ensures
        has_offset(content@, offset@, out@),
{
    lemma_offset_behind_header(content@, offset@);
}

/// The start offset is put behind the line of the header, or right behind the header
/// where its line does not end. A text without a header stays as it is.
pub proof fn law_offset_goes_behind_any_header(
    content: &str,
    offset: &str,
    out: String,
    line: Seq<char>,
    tail: Seq<char>,
)
    requires
        call_ensures(inject_ext_x_start, (content, offset), out),
        !line.contains('\n'),
    ensures
        !contains(content@, "#EXTM3U"@) ==> out@ == content@,
        content@ == "#EXTM3U"@ + line ==> out@ == "#EXTM3U"@ + (
        "#EXT-X-START:TIME-OFFSET="@ + offset@ + ",PRECISE=YES\n"@) + line,
        content@ == "#EXTM3U"@ + line + "\n"@ + tail ==> out@ == "#EXTM3U"@ + line + "\n"@ + (
        "#EXT-X-START:TIME-OFFSET="@ + offset@ + ",PRECISE=YES\n"@) + tail,
{
    let s = content@;
    let p = "#EXTM3U"@;
    reveal_strlit("#EXTM3U");
    reveal_strlit("\n");
    let tag = "#EXT-X-START:TIME-OFFSET="@ + offset@ + ",PRECISE=YES\n"@;
    crate::text::lemma_find_from(s, p, 0);
    if !contains(s, p) {
        if let Some(j) = crate::text::find_from(s, p, 0) {
            assert(crate::text::matches_at(s, p, j));
        }
    }
    if s == p + line {
        assert(s.subrange(0, 7) =~= p);
        assert(crate::text::find_from(s, p, 0) == Some(0int));
        crate::text::lemma_next_char(s, '\n', 7);
        let n = crate::text::next_char(s, '\n', 7);
        if n < s.len() {
            assert(line[n - 7] == '\n');
        }
        assert(s.subrange(7, s.len() as int) =~= line);
    }
    if s == p + line + "\n"@ + tail {
        assert(s.subrange(0, 7) =~= p);
        assert(crate::text::find_from(s, p, 0) == Some(0int));
        crate::text::lemma_next_char(s, '\n', 7);
        let n = crate::text::next_char(s, '\n', 7);
        let k = 7 + line.len() as int;
        assert(s[k] == '\n');
        if n < k {
            assert(line[n - 7] == s[n]);
        }
        assert(n == k);
        assert(s.subrange(0, k + 1) =~= p + line + "\n"@);
        assert(s.subrange(k + 1, s.len() as int) =~= tail);
    }
}

} // verus!
