//! Laws on the replies of the HLS endpoints.

use vstd::prelude::*;
use vstd::utf8::{decode_utf8, valid_utf8};

use crate::auth::encryption::ProxyData;
use crate::codec::text_or_empty;
use crate::config::Config;
use crate::hls::handler::{
    extract_proxy_params, manifest_options, manifest_reply, prebuffer_urls, processed_reply,
    unavailable_reply, PlaylistReply,
};
use crate::hls::manifest::{
    awaits_segment, error_playlist, graceful_end_playlist, is_iptv_line, is_iptv_playlist,
    is_output, is_playlist, line_urls, parse_extinf_duration, segment_durations, segment_urls,
    ManifestOptions, ManifestProcessor, ProxyParams, SegmentDurations,
};
use crate::hls::playlist::{parsed_master, parsed_media, MediaView, SegmentView};
use crate::laws::texts::{lemma_cut, lemma_prefix, lemma_uncut};
use crate::string_map::{lookup, StringMap};
use crate::text::{
    contains, is_space, lines, lines_text, opt_text, starts_with, texts, trim_end_space,
    trim_start_space, trim_text,
};
use crate::utils::url::resolved;

verus! {

// ---------------------------------------------------------------------------
// What a request carries
// ---------------------------------------------------------------------------

/// The links of a playlist carry the request's headers, and the password of its
/// query or else the configured one.
pub proof fn law_carried_params(data: &ProxyData, config: &Config, out: ProxyParams)
    requires
        call_ensures(extract_proxy_params, (data, config), out),
    ensures
        out.playlist_url is None,
        data.request_headers matches Some(h) ==> out.pass_headers@ == h@,
        data.request_headers is None ==> out.pass_headers@.len() == 0,
        data.query_params matches Some(q) ==> (lookup(q@, "api_password"@) matches Some(p)
            ==> out.api_password@ == p),
        data.query_params matches Some(q) ==> (lookup(q@, "api_password"@) is None
            ==> out.api_password@ == config.auth.api_password@),
        data.query_params is None ==> out.api_password@ == config.auth.api_password@,
{
}

/// An option is on where the query says `true` or `1`, and only there. An offset that
/// the query names is put into finished streams too.
pub proof fn law_manifest_options(
    query: &StringMap,
    start_offset: Option<String>,
    out: ManifestOptions,
)
    requires
        call_ensures(manifest_options, (query, start_offset), out),
    ensures
        out.start_offset == start_offset,
        out.skips is None,
        out.force_start_offset <==> lookup(query@, "start_offset"@) is Some,
        out.no_proxy <==> lookup(query@, "no_proxy"@) == Some("true"@) || lookup(
            query@,
            "no_proxy"@,
        ) == Some("1"@),
        out.key_only_proxy <==> lookup(query@, "key_only_proxy"@) == Some("true"@) || lookup(
            query@,
            "key_only_proxy"@,
        ) == Some("1"@),
        out.force_playlist_proxy <==> lookup(query@, "force_playlist_proxy"@) == Some("true"@)
            || lookup(query@, "force_playlist_proxy"@) == Some("1"@),
{
}

// ---------------------------------------------------------------------------
// Segments to fetch ahead
// ---------------------------------------------------------------------------

/// URLs are those at given places of a list, in its order.
pub open spec fn are_chosen(
    urls: Seq<Seq<char>>,
    all: spec_fn(int) -> Seq<char>,
    n: int,
    places: Seq<int>,
) -> bool {
    &&& places.len() == urls.len()
    &&& forall|k: int|
        0 <= k < urls.len() ==> 0 <= #[trigger] places[k] < n && urls[k] == all(places[k])
    &&& forall|k: int, l: int| 0 <= k < l < places.len() ==> places[k] < places[l]
}

/// The URLs of the segments that are no playlists, and their places.
proof fn lemma_segment_urls(segments: Seq<SegmentView>, source: Seq<char>, n: int) -> (places: Seq<
    int,
>)
    requires
        0 <= n <= segments.len(),
    ensures
        are_chosen(
            segment_urls(segments, source, n),
            |i: int| resolved(source, segments[i].uri),
            n,
            places,
        ),
        forall|i: int|
            0 <= i < n ==> (places.contains(i) <==> !is_playlist(
                resolved(source, (#[trigger] segments[i]).uri),
            )),
    decreases n,
{
    if n <= 0 {
        Seq::empty()
    } else {
        let before = lemma_segment_urls(segments, source, n - 1);
        let here = !is_playlist(resolved(source, segments[n - 1].uri));
        if here {
            let places = before.push(n - 1);
            assert(places[before.len() as int] == n - 1);
            assert forall|i: int| 0 <= i < n implies (places.contains(i) <==> !is_playlist(
                resolved(source, (#[trigger] segments[i]).uri),
            )) by {
                if i < n - 1 {
                    if before.contains(i) {
                        let k = choose|k: int| 0 <= k < before.len() && before[k] == i;
                        assert(places[k] == i);
                    }
                    if places.contains(i) {
                        let k = choose|k: int| 0 <= k < places.len() && places[k] == i;
                        assert(before[k] == i);
                    }
                }
            }
            places
        } else {
            before
        }
    }
}

/// The segments that are fetched ahead of a media playlist are those that are no
/// playlists themselves, in order.
pub proof fn law_segments_ahead(
    content: &[u8],
    source: &str,
    out: Vec<String>,
    media: MediaView,
) -> (places: Seq<int>)
    requires
        call_ensures(ManifestProcessor::media_segment_urls, (content, source), out),
        parsed_media(content@) == Some(media),
    ensures
        are_chosen(
            texts(out@),
            |i: int| resolved(source@, media.segments[i].uri),
            media.segments.len() as int,
            places,
        ),
        forall|i: int|
            0 <= i < media.segments.len() ==> (places.contains(i) <==> !is_playlist(
                resolved(source@, (#[trigger] media.segments[i]).uri),
            )),
{
    lemma_segment_urls(media.segments, source@, media.segments.len() as int)
}

/// A line names a segment: it is neither empty nor a tag, an `EXTINF` line stands
/// before it with nothing but tags and empty lines between them, and it leads to no
/// playlist.
pub open spec fn names_segment(lines: Seq<Seq<char>>, source: Seq<char>, j: int) -> bool {
    &&& is_entry(lines[j])
    &&& !is_playlist(resolved(source, trim_text(lines[j])))
    &&& exists|i: int| #[trigger] is_heading(lines, i, j)
}

/// A line that is neither empty nor a tag.
pub open spec fn is_entry(line: Seq<char>) -> bool {
    trim_text(line).len() > 0 && !starts_with(trim_text(line), "#"@)
}

/// Line `i` is an `EXTINF` line with no entry between it and line `j`.
pub open spec fn is_heading(lines: Seq<Seq<char>>, i: int, j: int) -> bool {
    &&& 0 <= i < j
    &&& starts_with(trim_text(lines[i]), "#EXTINF:"@)
    &&& forall|k: int| i < k < j ==> !is_entry(#[trigger] lines[k])
}

/// A segment is awaited behind an `EXTINF` line.
proof fn lemma_awaits(lines: Seq<Seq<char>>, n: int)
    requires
        0 <= n <= lines.len(),
    ensures
        awaits_segment(lines, n) <==> exists|i: int| #[trigger] is_heading(lines, i, n),
    decreases n,
{
    if n > 0 {
        lemma_awaits(lines, n - 1);
        let last = lines[n - 1];
        if starts_with(trim_text(last), "#EXTINF:"@) {
            assert(is_heading(lines, n - 1, n));
        } else if is_entry(last) {
            assert forall|i: int| !#[trigger] is_heading(lines, i, n) by {
                if is_heading(lines, i, n) && i < n - 1 {
                    assert(!is_entry(lines[n - 1]));
                }
            }
        } else {
            if awaits_segment(lines, n - 1) {
                let i = choose|i: int| #[trigger] is_heading(lines, i, n - 1);
                assert(is_heading(lines, i, n));
            }
            if exists|i: int| #[trigger] is_heading(lines, i, n) {
                let i = choose|i: int| #[trigger] is_heading(lines, i, n);
                assert(is_heading(lines, i, n - 1));
            }
        }
    }
}

/// The URLs of the lines that name segments, and their places.
proof fn lemma_line_urls(ls: Seq<Seq<char>>, source: Seq<char>, n: int) -> (places: Seq<int>)
    requires
        0 <= n <= ls.len(),
    ensures
        are_chosen(
            line_urls(ls, source, n),
            |i: int| resolved(source, trim_text(ls[i])),
            n,
            places,
        ),
        forall|i: int|
            0 <= i < n ==> (#[trigger] places.contains(i) <==> names_segment(ls, source, i)),
    decreases n,
{
    if n <= 0 {
        Seq::empty()
    } else {
        let before = lemma_line_urls(ls, source, n - 1);
        lemma_awaits(ls, n - 1);
        if names_segment(ls, source, n - 1) {
            let places = before.push(n - 1);
            assert(places[before.len() as int] == n - 1);
            assert forall|i: int| 0 <= i < n implies (#[trigger] places.contains(i)
                <==> names_segment(ls, source, i)) by {
                if i < n - 1 {
                    assert(before.contains(i) <==> names_segment(ls, source, i));
                    if before.contains(i) {
                        let k = choose|k: int| 0 <= k < before.len() && before[k] == i;
                        assert(places[k] == i);
                    }
                    if places.contains(i) {
                        let k = choose|k: int| 0 <= k < places.len() && places[k] == i;
                        assert(before[k] == i);
                    }
                }
            }
            places
        } else {
            assert forall|i: int| 0 <= i < n implies (#[trigger] before.contains(i)
                <==> names_segment(ls, source, i)) by {
                if i == n - 1 && before.contains(i) {
                    let k = choose|k: int| 0 <= k < before.len() && before[k] == i;
                }
            }
            before
        }
    }
}

/// The segments that are fetched ahead of a text are those that its lines name, in
/// order.
pub proof fn law_named_segments_ahead(
    content: &str,
    source: &str,
    ls: Vec<String>,
    out: Vec<String>,
) -> (places: Seq<int>)
    requires
        call_ensures(lines, (content,), ls),
        call_ensures(ManifestProcessor::media_segment_urls_from_lines, (content, source), out),
    ensures
        are_chosen(
            texts(out@),
            |i: int| resolved(source@, trim_text(texts(ls@)[i])),
            ls@.len() as int,
            places,
        ),
        forall|i: int|
            0 <= i < ls@.len() ==> (#[trigger] places.contains(i) <==> names_segment(
                texts(ls@),
                source@,
                i,
            )),
{
    lemma_line_urls(texts(ls@), source@, ls@.len() as int)
}

/// A master playlist has no segments; what is no playlist is read by its lines.
pub proof fn law_other_contents_ahead(
    content: &[u8],
    text: &str,
    source: &str,
    out: Vec<String>,
    of_lines: Vec<String>,
)
    requires
        call_ensures(ManifestProcessor::media_segment_urls, (content, source), out),
        call_ensures(ManifestProcessor::media_segment_urls_from_lines, (text, source), of_lines),
        valid_utf8(content@) && decode_utf8(content@) == text@,
        parsed_media(content@) is None,
    ensures
        parsed_master(content@) is Some ==> out@.len() == 0,
        parsed_master(content@) is None ==> texts(out@) == texts(of_lines@),
{
    assert(texts(out@).len() == out@.len());
}

/// The first segments are fetched ahead, as many as the limit allows, unless the
/// client fetches them itself.
pub proof fn law_prebuffer(
    is_get: bool,
    opts: &ManifestOptions,
    content: &[u8],
    source: &str,
    limit: usize,
    all: Vec<String>,
    out: Vec<String>,
)
    requires
        call_ensures(ManifestProcessor::media_segment_urls, (content, source), all),
        call_ensures(prebuffer_urls, (is_get, opts, content, source, limit), out),
    ensures
        !is_get || opts.no_proxy || opts.key_only_proxy || opts.force_playlist_proxy ==> out@.len()
            == 0,
        is_get && !opts.no_proxy && !opts.key_only_proxy && !opts.force_playlist_proxy ==> {
            &&& out@.len() == if limit < all@.len() {
                limit as nat
            } else {
                all@.len()
            }
            &&& forall|i: int| 0 <= i < out@.len() ==> (#[trigger] out@[i])@ == all@[i]@
        },
{
    assert(texts(all@).len() == all@.len() && texts(out@).len() == out@.len());
    if is_get && !opts.no_proxy && !opts.key_only_proxy && !opts.force_playlist_proxy {
        assert forall|i: int| 0 <= i < out@.len() implies (#[trigger] out@[i])@ == all@[i]@ by {
            assert(texts(out@)[i] == out@[i]@);
            assert(texts(all@)[i] == all@[i]@);
        }
    }
}

// ---------------------------------------------------------------------------
// Replies
// ---------------------------------------------------------------------------

/// A closing playlist is a finished stream without segments that says why.
pub proof fn law_closing_playlists(
    message: &str,
    prefixed: &str,
    end: String,
    error: String,
    of_prefixed: String,
)
    requires
        call_ensures(graceful_end_playlist, (message,), end),
        call_ensures(error_playlist, (message,), error),
        prefixed@ == "Error: "@ + message@,
        call_ensures(graceful_end_playlist, (prefixed,), of_prefixed),
    ensures
        starts_with(end@, "#EXTM3U\n"@),
        exists|head: Seq<char>|
            end@ == #[trigger] (head + "\n# "@ + message@ + "\n#EXT-X-ENDLIST\n"@) && !contains(
                head,
                "#EXTINF"@,
            ) && contains(head, "#EXT-X-PLAYLIST-TYPE:VOD"@),
        error@ == of_prefixed@,
{
    let head =
        "#EXTM3U\n#EXT-X-VERSION:3\n#EXT-X-TARGETDURATION:1\n#EXT-X-PLAYLIST-TYPE:VOD"@;
    let full =
        "#EXTM3U\n#EXT-X-VERSION:3\n#EXT-X-TARGETDURATION:1\n#EXT-X-PLAYLIST-TYPE:VOD\n# "@;
    reveal_strlit("#EXTM3U\n#EXT-X-VERSION:3\n#EXT-X-TARGETDURATION:1\n#EXT-X-PLAYLIST-TYPE:VOD");
    reveal_strlit(
        "#EXTM3U\n#EXT-X-VERSION:3\n#EXT-X-TARGETDURATION:1\n#EXT-X-PLAYLIST-TYPE:VOD\n# ",
    );
    reveal_strlit("\n# ");
    reveal_strlit("#EXTM3U\n");
    reveal_strlit("#EXTINF");
    reveal_strlit("#EXT-X-PLAYLIST-TYPE:VOD");
    assert(full =~= head + "\n# "@);
    assert(end@ =~= head + "\n# "@ + message@ + "\n#EXT-X-ENDLIST\n"@);
    assert(end@.subrange(0, 8) =~= "#EXTM3U\n"@);
    let v = "#EXT-X-PLAYLIST-TYPE:VOD"@;
    let at = head.len() - v.len();
    assert(head.subrange(at, at + v.len()) =~= v);
    assert(crate::text::matches_at(head, v, at));
    assert(!contains(head, "#EXTINF"@)) by {
        if contains(head, "#EXTINF"@) {
            let i = choose|i: int| crate::text::matches_at(head, "#EXTINF"@, i);
            let part = head.subrange(i, i + 7);
            assert(part[0] == head[i] && part[4] == head[i + 4]);
            assert(head[i] == '#' && head[i + 4] == 'I');
        }
    }
}

/// Naming the playlist that segments come from changes nothing else.
pub proof fn law_playlist_url_is_named(params: ProxyParams, url: &str, out: ProxyParams)
    requires
        call_ensures(ProxyParams::with_playlist_url, (params, url), out),
    ensures
        opt_text(out.playlist_url) == Some(url@),
        out.api_password@ == params.api_password@,
        out.pass_headers@ == params.pass_headers@,
{
    assert(out@.api_password == params@.api_password);
}

/// A playlist that cannot be fetched is answered by a closing playlist; one that was
/// fetched is rewritten with its own URL and the request's options, and caches are
/// told not to keep it.
pub proof fn law_manifest_replies(
    base: &str,
    params: ProxyParams,
    opts: ManifestOptions,
    content: Vec<u8>,
    url: String,
    source: &str,
    located: ProxyParams,
    processor: &ManifestProcessor,
    message: &str,
    end: String,
    out: PlaylistReply,
    lost: PlaylistReply,
)
    requires
        source@ == url@,
        call_ensures(ProxyParams::with_playlist_url, (params, source), located),
        call_ensures(ManifestProcessor::new, (base, located, opts), *processor),
        call_ensures(manifest_reply, (base, params, opts, Some((content, url))), out),
        call_ensures(manifest_reply, (base, params, opts, None::<(Vec<u8>, String)>), lost),
        message@ == "Stream unavailable"@,
        call_ensures(graceful_end_playlist, (message,), end),
    ensures
        lost.body@ == end@ && !lost.no_store,
        out.no_store ==> is_output(processor@, content@, url@, out.body@) && contains(
            out.body@,
            "#EXTM3U"@,
        ),
        !out.no_store ==> exists|text: Seq<char>| #[trigger]
            is_output(processor@, content@, url@, text) && !contains(text, "#EXTM3U"@),
{
}

/// What is a playlist is sent as it is; what is none is answered by a playlist that
/// says so.
pub proof fn law_processed_replies(
    text: String,
    message: &str,
    error: String,
    out: PlaylistReply,
    lost: PlaylistReply,
)
    requires
        call_ensures(processed_reply, (text,), out),
        call_ensures(unavailable_reply, (), lost),
        message@ == "Invalid upstream response"@,
        call_ensures(error_playlist, (message,), error),
    ensures
        contains(text@, "#EXTM3U"@) ==> out.body@ == text@ && out.no_store,
        !contains(text@, "#EXTM3U"@) ==> out.body@ == error@ && !out.no_store,
        !lost.no_store,
{
    reveal_strlit("Error: ");
    reveal_strlit("Invalid upstream response");
    reveal_strlit("Error: Invalid upstream response");
    assert("Error: "@ + "Invalid upstream response"@ =~= "Error: Invalid upstream response"@);
}

// ---------------------------------------------------------------------------
// Durations and channel lists
// ---------------------------------------------------------------------------

/// The duration of a segment stands between the colon of its line and the comma.
pub proof fn law_extinf_durations(
    line: &str,
    out: Option<String>,
    duration: Seq<char>,
    title: Seq<char>,
)
    requires
        call_ensures(parse_extinf_duration, (line,), out),
        duration.len() > 0 && !duration.contains(','),
        !is_space(duration[0]) && !is_space(duration.last()),
    ensures
        line@ == "#EXTINF:"@ + duration + ","@ + title ==> opt_text(out) == Some(duration),
        line@ == "#EXTINF:"@ + duration ==> opt_text(out) == Some(duration),
        !starts_with(line@, "#EXTINF:"@) ==> out is None,
{
    reveal_strlit(",");
    assert(trim_start_space(duration) == duration);
    assert(trim_end_space(duration) == duration);
    lemma_uncut(duration, ',');
    lemma_cut(duration, ',', title);
    assert("#EXTINF:"@ + duration + ","@ + title =~= "#EXTINF:"@ + (duration + seq![','] + title));
    lemma_prefix("#EXTINF:"@, duration);
    lemma_prefix("#EXTINF:"@, duration + seq![','] + title);
}

/// Each segment of a media playlist has its duration.
pub proof fn law_segment_durations(content: &[u8], out: SegmentDurations, iptv: bool,
    media: MediaView)
    requires
        call_ensures(is_iptv_playlist, (content,), iptv),
        call_ensures(segment_durations, (content,), out),
        !iptv,
        parsed_media(content@) == Some(media),
    ensures
        out matches SegmentDurations::Bits(b) && b@.len() == media.segments.len() && forall|i: int|
            0 <= i < b@.len() ==> #[trigger] b@[i] == media.segments[i].duration_bits,
{
}

/// A text is a channel list where one of its `EXTINF` lines names a group, a channel,
/// or a logo.
pub proof fn law_channel_lists(content: &[u8], text: &str, ls: Vec<String>, out: bool, i: int)
    requires
        call_ensures(is_iptv_playlist, (content,), out),
        valid_utf8(content@) && decode_utf8(content@) == text@,
        call_ensures(lines, (text,), ls),
        0 <= i < ls@.len(),
    ensures
        starts_with(trim_text(ls@[i]@), "#EXTINF:"@) && (contains(
            trim_text(ls@[i]@),
            "group-title="@,
        ) || contains(trim_text(ls@[i]@), "tvg-id="@) || contains(
            trim_text(ls@[i]@),
            "tvg-name="@,
        ) || contains(trim_text(ls@[i]@), "tvg-logo="@)) ==> out,
        (forall|k: int|
            0 <= k < ls@.len() ==> !starts_with(trim_text((#[trigger] ls@[k])@), "#EXTINF:"@))
            ==> !out,
{
    let t = texts(ls@);
    assert(t == lines_text(text_or_empty(content@)));
    assert(lines_text(text_or_empty(content@))[i] == ls@[i]@);
    if forall|k: int|
        0 <= k < ls@.len() ==> !starts_with(trim_text((#[trigger] ls@[k])@), "#EXTINF:"@) {
        assert forall|k: int| 0 <= k < t.len() implies !is_iptv_line(#[trigger] t[k]) by {
            assert(t[k] == ls@[k]@);
        }
    }
}

} // verus!
