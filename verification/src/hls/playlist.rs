//! The links of a parsed HLS playlist.
//!
//! The m3u8-rs crate parses and writes playlists. The library reads and
//! replaces only the links in them, which the types here hold.

use m3u8_rs::{parse_playlist_res, Playlist};
use vstd::multiset::Multiset;
use vstd::prelude::*;

use crate::hls::lines::{bare_lines, closed_attributes, is_bare, opt_unbroken, unbroken};
use crate::text::{opt_text, starts_with};

verus! {

/// A tag that the parser does not know: its name without `#EXT-`, and what
/// follows the colon.
pub struct TagLink {
    pub tag: String,
    pub rest: Option<String>,
}

/// A tag, by its texts.
pub struct TagView {
    pub tag: Seq<char>,
    pub rest: Option<Seq<char>>,
}

impl View for TagLink {
    type V = TagView;

    open spec fn view(&self) -> TagView {
        TagView { tag: self.tag@, rest: opt_text(self.rest) }
    }
}

/// Tags, by their texts.
pub open spec fn tag_views(v: Seq<TagLink>) -> Seq<TagView> {
    Seq::new(v.len(), |i: int| v[i]@)
}

/// The links of a media segment.
pub struct SegmentLinks {
    /// The position of the segment in the parsed playlist.
    pub index: usize,
    /// The bit pattern of the duration, a single precision number.
    pub duration_bits: u32,
    /// Whether a discontinuity precedes the segment.
    pub discontinuity: bool,
    /// The URI of the decryption key.
    pub key_uri: Option<String>,
    /// The URI of the initialization section.
    pub map_uri: Option<String>,
    /// Tags before the segment that the parser does not know.
    pub unknown_tags: Vec<TagLink>,
    /// The segment's own URI.
    pub uri: String,
}

/// The links of a media segment, by their texts.
pub struct SegmentView {
    pub index: nat,
    pub duration_bits: u32,
    pub discontinuity: bool,
    pub key_uri: Option<Seq<char>>,
    pub map_uri: Option<Seq<char>>,
    pub unknown_tags: Seq<TagView>,
    pub uri: Seq<char>,
}

impl View for SegmentLinks {
    type V = SegmentView;

    open spec fn view(&self) -> SegmentView {
        SegmentView {
            index: self.index as nat,
            duration_bits: self.duration_bits,
            discontinuity: self.discontinuity,
            key_uri: opt_text(self.key_uri),
            map_uri: opt_text(self.map_uri),
            unknown_tags: tag_views(self.unknown_tags@),
            uri: self.uri@,
        }
    }
}

/// Segments, by their texts.
pub open spec fn segment_views(v: Seq<SegmentLinks>) -> Seq<SegmentView> {
    Seq::new(v.len(), |i: int| v[i]@)
}

/// The links of a media playlist.
pub struct MediaLinks {
    pub segments: Vec<SegmentLinks>,
    /// Whether the playlist is closed.
    pub end_list: bool,
    /// The name of the playlist type.
    pub playlist_type: Option<String>,
}

/// The links of a media playlist, by their texts.
pub struct MediaView {
    pub segments: Seq<SegmentView>,
    pub end_list: bool,
    pub playlist_type: Option<Seq<char>>,
}

impl View for MediaLinks {
    type V = MediaView;

    open spec fn view(&self) -> MediaView {
        MediaView {
            segments: segment_views(self.segments@),
            end_list: self.end_list,
            playlist_type: opt_text(self.playlist_type),
        }
    }
}

/// The link of a variant stream.
pub struct VariantLink {
    pub uri: String,
    /// Whether the URI is an attribute of the tag rather than a line.
    pub is_i_frame: bool,
}

/// The link of a variant stream, by its text.
pub struct VariantView {
    pub uri: Seq<char>,
    pub is_i_frame: bool,
}

impl View for VariantLink {
    type V = VariantView;

    open spec fn view(&self) -> VariantView {
        VariantView { uri: self.uri@, is_i_frame: self.is_i_frame }
    }
}

/// Variants, by their texts.
pub open spec fn variant_views(v: Seq<VariantLink>) -> Seq<VariantView> {
    Seq::new(v.len(), |i: int| v[i]@)
}

/// Optional texts.
pub open spec fn opt_texts(v: Seq<Option<String>>) -> Seq<Option<Seq<char>>> {
    Seq::new(v.len(), |i: int| opt_text(v[i]))
}

/// The links of a master playlist.
pub struct MasterLinks {
    pub variants: Vec<VariantLink>,
    /// The URI of each rendition that has one.
    pub alternatives: Vec<Option<String>>,
    pub unknown_tags: Vec<TagLink>,
}

/// The links of a master playlist, by their texts.
pub struct MasterView {
    pub variants: Seq<VariantView>,
    pub alternatives: Seq<Option<Seq<char>>>,
    pub unknown_tags: Seq<TagView>,
}

impl View for MasterLinks {
    type V = MasterView;

    open spec fn view(&self) -> MasterView {
        MasterView {
            variants: variant_views(self.variants@),
            alternatives: opt_texts(self.alternatives@),
            unknown_tags: tag_views(self.unknown_tags@),
        }
    }
}

// ---------------------------------------------------------------------------
// Parsing
// ---------------------------------------------------------------------------

/// The links of the media playlist that the bytes hold, where they hold one.
pub uninterp spec fn parsed_media(content: Seq<u8>) -> Option<MediaView>;

/// The links of the master playlist that the bytes hold, where they hold one.
pub uninterp spec fn parsed_master(content: Seq<u8>) -> Option<MasterView>;

/// Each segment knows its position.
pub open spec fn indexed(segments: Seq<SegmentView>) -> bool {
    forall|i: int| 0 <= i < segments.len() ==> (#[trigger] segments[i]).index == i
}

/// The view of an optional media playlist.
pub open spec fn opt_media(m: Option<MediaLinks>) -> Option<MediaView> {
    match m {
        Some(m) => Some(m@),
        None => None,
    }
}

/// The view of an optional master playlist.
pub open spec fn opt_master(m: Option<MasterLinks>) -> Option<MasterView> {
    match m {
        Some(m) => Some(m@),
        None => None,
    }
}

/// `m3u8_rs::parse_playlist_res`: the links of a media playlist, moved out of
/// the parsed value. The parser takes no input for both a media and a master
/// playlist, and the tags that it does not know end with their line.
#[verifier::external_body]
pub(crate) fn parse_media(content: &[u8]) -> (r: Option<MediaLinks>)
    ensures
        opt_media(r) == parsed_media(content@),
        r matches Some(m) ==> indexed(m@.segments),
        r matches Some(m) ==> have_unbroken_tags(m@.segments),
        r is Some ==> parsed_master(content@) is None,
{
    let Playlist::MediaPlaylist(pl) = parse_playlist_res(content).ok()? else {
        return None;
    };
    let segments = pl.segments.into_iter().enumerate().map(|(index, s)| SegmentLinks {
        index,
        duration_bits: s.duration.to_bits(),
        discontinuity: s.discontinuity,
        key_uri: s.key.and_then(|k| k.uri),
        map_uri: s.map.map(|m| m.uri),
        unknown_tags: s.unknown_tags.into_iter().map(|t| TagLink { tag: t.tag, rest: t.rest }).collect(),
        uri: s.uri,
    }).collect();
    Some(MediaLinks { segments, end_list: pl.end_list, playlist_type: pl.playlist_type.map(|t| format!("{t:?}")) })
}

/// `m3u8_rs::parse_playlist_res`: the links of a master playlist, moved out of
/// the parsed value. The tags that the parser does not know end with their line.
#[verifier::external_body]
pub(crate) fn parse_master(content: &[u8]) -> (r: Option<MasterLinks>)
    ensures
        opt_master(r) == parsed_master(content@),
        r matches Some(m) ==> are_unbroken_tags(m@.unknown_tags),
        r is Some ==> parsed_media(content@) is None,
{
    let Playlist::MasterPlaylist(pl) = parse_playlist_res(content).ok()? else {
        return None;
    };
    Some(MasterLinks {
        variants: pl.variants.into_iter().map(|v| VariantLink { uri: v.uri, is_i_frame: v.is_i_frame }).collect(),
        alternatives: pl.alternatives.into_iter().map(|a| a.uri).collect(),
        unknown_tags: pl.unknown_tags.into_iter().map(|t| TagLink { tag: t.tag, rest: t.rest }).collect(),
    })
}

// ---------------------------------------------------------------------------
// Writing
// ---------------------------------------------------------------------------

/// What is written of a date range: a fixed text, the attributes of the client's
/// own, another fixed text, and the attributes that are not known. Attributes are
/// texts of the form `,NAME=VALUE`.
pub struct DatesFrame {
    pub head: Seq<char>,
    pub own: Multiset<Seq<char>>,
    pub middle: Seq<char>,
    pub others: Multiset<Seq<char>>,
}

/// What is written of a segment round its links.
pub struct SegmentFrame {
    /// What follows the URI of the initialization section, up to the end of its line.
    pub map_rest: Seq<char>,
    /// The byte range, as a line; empty where there is none.
    pub byte_range: Seq<char>,
    /// The key up to its URI; empty where there is none.
    pub key_head: Seq<char>,
    /// The key from behind its URI to the end of its line.
    pub key_rest: Seq<char>,
    /// The date and time, as a line; empty where there is none.
    pub program_date: Seq<char>,
    pub dates: Option<DatesFrame>,
    /// The title; empty where there is none.
    pub title: Seq<char>,
}

/// What is written of a media playlist round the links of its segments.
pub struct MediaFrame {
    /// The lines before the first segment.
    pub head: Seq<char>,
    pub segments: Seq<SegmentFrame>,
}

/// What is written of a rendition round its link.
pub struct AlternativeFrame {
    /// The type.
    pub head: Seq<char>,
    /// The known attributes behind the URI.
    pub attributes: Seq<char>,
    /// The attributes that are not known.
    pub others: Multiset<Seq<char>>,
}

/// What is written of a variant round its link.
pub struct VariantFrame {
    /// The known attributes.
    pub attributes: Seq<char>,
    /// The attributes that are not known.
    pub others: Multiset<Seq<char>>,
    /// The groups of renditions.
    pub groups: Seq<char>,
}

/// What is written of session data.
pub struct SessionFrame {
    /// The known attributes.
    pub attributes: Seq<char>,
    /// The attributes that are not known.
    pub others: Multiset<Seq<char>>,
}

/// What is written of a master playlist round its links.
pub struct MasterFrame {
    /// The lines before the first rendition.
    pub head: Seq<char>,
    pub alternatives: Seq<AlternativeFrame>,
    pub variants: Seq<VariantFrame>,
    pub session_data: Seq<SessionFrame>,
    /// The lines of session keys and of the start.
    pub tail: Seq<char>,
}

/// What is written round the links of the media playlist that the bytes hold.
pub uninterp spec fn media_frame(content: Seq<u8>) -> MediaFrame;

/// What is written round the links of the master playlist that the bytes hold.
pub uninterp spec fn master_frame(content: Seq<u8>) -> MasterFrame;

/// The single precision number with a bit pattern, written with a number of
/// decimals; the greatest number stands for as many as the value needs.
pub uninterp spec fn duration_text(bits: u32, decimals: usize) -> Seq<char>;

/// `out` holds the attributes one behind the other, in some order.
pub open spec fn is_shuffled(attributes: Multiset<Seq<char>>, out: Seq<char>) -> bool {
    exists|parts: Seq<Seq<char>>|
        parts.to_multiset() == attributes && out == #[trigger] parts.flatten()
}

/// Attributes of the form `,NAME=VALUE`, none of which is named `URI`.
pub open spec fn are_other_attributes(attributes: Multiset<Seq<char>>) -> bool {
    forall|t: Seq<char>| #[trigger]
        attributes.contains(t) ==> starts_with(t, ","@) && !starts_with(t, ",URI="@)
}

/// An optional URI as an attribute behind others.
pub open spec fn uri_attribute(uri: Option<Seq<char>>) -> Seq<char> {
    match uri {
        Some(u) => ",URI=\""@ + u + "\""@,
        None => Seq::empty(),
    }
}

/// A tag as a line.
pub open spec fn tag_line(t: TagView) -> Seq<char> {
    match t.rest {
        Some(rest) => "#EXT-"@ + t.tag + ":"@ + rest + "\n"@,
        None => "#EXT-"@ + t.tag + "\n"@,
    }
}

/// Tags as lines.
pub open spec fn tag_lines(tags: Seq<TagView>) -> Seq<char> {
    Seq::new(tags.len(), |i: int| tag_line(tags[i])).flatten()
}

/// `out` is a date range as a line; empty where there is none.
pub open spec fn is_dates_line(dates: Option<DatesFrame>, out: Seq<char>) -> bool {
    match dates {
        None => out.len() == 0,
        Some(d) => exists|own: Seq<char>, others: Seq<char>| #[trigger]
            is_shuffled(d.own, own) && #[trigger] is_shuffled(d.others, others) && out
                == "#EXT-X-DATERANGE:"@ + d.head + own + d.middle + others + "\n"@,
    }
}

/// A segment with its tags, by the lines of its date range and the text of its
/// duration.
pub open spec fn segment_lines(
    f: SegmentFrame,
    s: SegmentView,
    dates: Seq<char>,
    duration: Seq<char>,
) -> Seq<char> {
    (match s.map_uri {
        Some(u) => "#EXT-X-MAP:URI=\""@ + u + "\""@ + f.map_rest,
        None => Seq::empty(),
    }) + f.byte_range + (if s.discontinuity {
        "#EXT-X-DISCONTINUITY\n"@
    } else {
        Seq::empty()
    }) + f.key_head + uri_attribute(s.key_uri) + f.key_rest + f.program_date + dates + tag_lines(
        s.unknown_tags,
    ) + "#EXTINF:"@ + duration + ","@ + f.title + "\n"@ + s.uri + "\n"@
}

/// `out` is a segment with its tags. Its duration is written with some number of
/// decimals, as `number` says.
pub open spec fn is_segment_text(
    f: SegmentFrame,
    s: SegmentView,
    number: spec_fn(u32, usize) -> Seq<char>,
    out: Seq<char>,
) -> bool {
    exists|dates: Seq<char>, decimals: usize|
        is_dates_line(f.dates, dates) && out == #[trigger] segment_lines(
            f,
            s,
            dates,
            number(s.duration_bits, decimals),
        )
}

/// `texts` are the segments with their tags.
pub open spec fn are_segment_texts(
    frame: MediaFrame,
    segments: Seq<SegmentView>,
    number: spec_fn(u32, usize) -> Seq<char>,
    texts: Seq<Seq<char>>,
) -> bool {
    &&& texts.len() == segments.len()
    &&& forall|i: int|
        0 <= i < segments.len() ==> segments[i].index < frame.segments.len() && is_segment_text(
            frame.segments[segments[i].index as int],
            segments[i],
            number,
            #[trigger] texts[i],
        )
}

/// `out` is a media playlist: its head, the segments in order, and the tag that
/// closes it where it is closed.
pub open spec fn is_written_media(
    out: Seq<char>,
    frame: MediaFrame,
    segments: Seq<SegmentView>,
    number: spec_fn(u32, usize) -> Seq<char>,
    end_list: bool,
) -> bool {
    &&& starts_with(frame.head, "#EXTM3U\n"@)
    &&& exists|texts: Seq<Seq<char>>| #[trigger]
        are_segment_texts(frame, segments, number, texts) && out == frame.head + texts.flatten() + (
        if end_list {
            "#EXT-X-ENDLIST\n"@
        } else {
            Seq::empty()
        })
}

/// `out` is a rendition as a line.
pub open spec fn is_alternative_line(
    f: AlternativeFrame,
    uri: Option<Seq<char>>,
    out: Seq<char>,
) -> bool {
    &&& are_other_attributes(f.others)
    &&& exists|others: Seq<char>| #[trigger]
        is_shuffled(f.others, others) && out == "#EXT-X-MEDIA:TYPE="@ + f.head + uri_attribute(uri)
            + f.attributes + others + "\n"@
}

/// `out` is a variant: its tag, and its link in the tag or on a line of its own.
pub open spec fn is_variant_text(f: VariantFrame, v: VariantView, out: Seq<char>) -> bool {
    &&& are_other_attributes(f.others)
    &&& exists|others: Seq<char>| #[trigger]
        is_shuffled(f.others, others) && out == if v.is_i_frame {
            "#EXT-X-I-FRAME-STREAM-INF:"@ + f.attributes + others + uri_attribute(Some(v.uri))
                + "\n"@
        } else {
            "#EXT-X-STREAM-INF:"@ + f.attributes + others + f.groups + "\n"@ + v.uri + "\n"@
        }
}

/// `out` is session data as a line.
pub open spec fn is_session_line(f: SessionFrame, out: Seq<char>) -> bool {
    &&& are_other_attributes(f.others)
    &&& exists|others: Seq<char>| #[trigger]
        is_shuffled(f.others, others) && out == "#EXT-X-SESSION-DATA:"@ + f.attributes + others
            + "\n"@
}

/// The texts are the renditions, the variants and the session data of a master
/// playlist.
pub open spec fn are_master_texts(
    frame: MasterFrame,
    m: MasterView,
    alternatives: Seq<Seq<char>>,
    variants: Seq<Seq<char>>,
    session: Seq<Seq<char>>,
) -> bool {
    &&& alternatives.len() == m.alternatives.len() == frame.alternatives.len()
    &&& forall|i: int|
        0 <= i < alternatives.len() ==> is_alternative_line(
            frame.alternatives[i],
            m.alternatives[i],
            #[trigger] alternatives[i],
        )
    &&& variants.len() == m.variants.len() == frame.variants.len()
    &&& forall|i: int|
        0 <= i < variants.len() ==> is_variant_text(
            frame.variants[i],
            m.variants[i],
            #[trigger] variants[i],
        )
    &&& session.len() == frame.session_data.len()
    &&& forall|i: int|
        0 <= i < session.len() ==> is_session_line(frame.session_data[i], #[trigger] session[i])
}

/// `out` is a master playlist: its head, the renditions, the variants, what
/// concerns the session, and the tags that are not known.
pub open spec fn is_written_master(out: Seq<char>, frame: MasterFrame, m: MasterView) -> bool {
    &&& starts_with(frame.head, "#EXTM3U\n"@)
    &&& exists|alternatives: Seq<Seq<char>>, variants: Seq<Seq<char>>, session: Seq<Seq<char>>|
        #[trigger]
        are_master_texts(frame, m, alternatives, variants, session) && out == frame.head
            + alternatives.flatten() + variants.flatten() + session.flatten() + frame.tail
            + tag_lines(m.unknown_tags)
}

// ---------------------------------------------------------------------------
// Bare lines
// ---------------------------------------------------------------------------

/// Tags that fit on a line each.
pub open spec fn are_unbroken_tags(tags: Seq<TagView>) -> bool {
    forall|i: int|
        0 <= i < tags.len() ==> unbroken((#[trigger] tags[i]).tag) && opt_unbroken(tags[i].rest)
}

/// Segments whose tags fit on a line each.
pub open spec fn have_unbroken_tags(segments: Seq<SegmentView>) -> bool {
    forall|i: int|
        0 <= i < segments.len() ==> are_unbroken_tags((#[trigger] segments[i]).unknown_tags)
}

/// Segments whose links fit on a line each, and are no tags where they stand on a
/// line of their own.
pub open spec fn are_plain_segments(segments: Seq<SegmentView>) -> bool {
    forall|i: int|
        0 <= i < segments.len() ==> {
            &&& is_bare((#[trigger] segments[i]).uri)
            &&& unbroken(segments[i].uri)
            &&& opt_unbroken(segments[i].key_uri)
            &&& opt_unbroken(segments[i].map_uri)
            &&& are_unbroken_tags(segments[i].unknown_tags)
        }
}

/// The URIs of segments.
pub open spec fn segment_uris(segments: Seq<SegmentView>) -> Seq<Seq<char>> {
    Seq::new(segments.len(), |i: int| segments[i].uri)
}

/// Links of a master playlist that fit on a line each, and are no tags where they
/// stand on a line of their own.
pub open spec fn are_plain_links(m: MasterView) -> bool {
    &&& forall|i: int|
        0 <= i < m.variants.len() ==> unbroken((#[trigger] m.variants[i]).uri) && (
        m.variants[i].is_i_frame || is_bare(m.variants[i].uri))
    &&& forall|i: int|
        0 <= i < m.alternatives.len() ==> opt_unbroken(#[trigger] m.alternatives[i])
    &&& are_unbroken_tags(m.unknown_tags)
}

/// The URIs of variants that stand on a line of their own.
pub open spec fn line_uris(variants: Seq<VariantView>) -> Seq<Seq<char>>
    decreases variants.len(),
{
    if variants.len() == 0 {
        Seq::empty()
    } else if variants.last().is_i_frame {
        line_uris(variants.drop_last())
    } else {
        line_uris(variants.drop_last()).push(variants.last().uri)
    }
}

/// How numbers are written.
pub open spec fn written_number() -> spec_fn(u32, usize) -> Seq<char> {
    |bits: u32, decimals: usize| duration_text(bits, decimals)
}

/// `out` is the media playlist that the bytes hold, with the given segments. The
/// links of the segments are its only bare lines.
pub open spec fn is_media_text(
    out: Seq<char>,
    content: Seq<u8>,
    segments: Seq<SegmentView>,
    end_list: bool,
) -> bool {
    &&& is_written_media(out, media_frame(content), segments, written_number(), end_list)
    &&& closed_attributes(content) && are_plain_segments(segments) ==> bare_lines(out)
        == segment_uris(segments)
}

/// `out` is the master playlist that the bytes hold, with the given links. The
/// links of the variants are its only bare lines.
pub open spec fn is_master_text(out: Seq<char>, content: Seq<u8>, m: MasterView) -> bool {
    &&& is_written_master(out, master_frame(content), m)
    &&& closed_attributes(content) && are_plain_links(m) ==> bare_lines(out) == line_uris(
        m.variants,
    )
}

/// Tags with the same names.
pub open spec fn same_tags(a: Seq<TagView>, b: Seq<TagView>) -> bool {
    &&& a.len() == b.len()
    &&& forall|i: int| 0 <= i < a.len() ==> (#[trigger] a[i]).tag == b[i].tag
}

/// A segment with links where the parsed segment has them.
pub open spec fn same_segment(parsed: SegmentView, s: SegmentView) -> bool {
    &&& s.index == parsed.index
    &&& s.duration_bits == parsed.duration_bits
    &&& s.key_uri is Some <==> parsed.key_uri is Some
    &&& s.map_uri is Some <==> parsed.map_uri is Some
    &&& same_tags(parsed.unknown_tags, s.unknown_tags)
}

/// Segments that are among those of the parsed playlist, with links where it
/// has them.
pub open spec fn fits_media(parsed: MediaView, segments: Seq<SegmentView>) -> bool {
    forall|i: int|
        0 <= i < segments.len() ==> (#[trigger] segments[i]).index < parsed.segments.len()
            && same_segment(parsed.segments[segments[i].index as int], segments[i])
}

/// Links where the parsed playlist has them.
pub open spec fn fits_master(parsed: MasterView, links: MasterView) -> bool {
    &&& parsed.variants.len() == links.variants.len()
    &&& forall|i: int|
        0 <= i < links.variants.len() ==> (#[trigger] links.variants[i]).is_i_frame
            == parsed.variants[i].is_i_frame
    &&& parsed.alternatives.len() == links.alternatives.len()
    &&& forall|i: int|
        0 <= i < links.alternatives.len() ==> ((#[trigger] links.alternatives[i]) is Some
            <==> parsed.alternatives[i] is Some)
    &&& same_tags(parsed.unknown_tags, links.unknown_tags)
}

/// `m3u8_rs::MediaPlaylist::write_to`, on the parsed playlist with the given
/// segments of it and their links put in. Claimed: the text is the head of the
/// parsed playlist, then each segment with its tags and links, then the tag that
/// closes it, each part in the order that `segment_lines` gives. What stands round
/// the links depends on the parsed bytes alone, but for two things: the attributes
/// of a date range that the crate does not know come in the order of a hash map,
/// and durations are written with a number of decimals that is a setting of the
/// whole process. Where no attribute reaches over the end of its line, which the
/// parser lets quoted values and names do, the links of the segments are the only
/// lines that are no tags.
#[verifier::external_body]
pub(crate) fn write_media(content: &[u8], links: Vec<SegmentLinks>) -> (r: String)
    requires
        parsed_media(content@) matches Some(m) && fits_media(m, segment_views(links@)),
    ensures
        is_written_media(
            r@,
            media_frame(content@),
            segment_views(links@),
            |bits: u32, decimals: usize| duration_text(bits, decimals),
            parsed_media(content@)->0.end_list,
        ),
        closed_attributes(content@) && are_plain_segments(segment_views(links@)) ==> bare_lines(r@)
            == segment_uris(segment_views(links@)),
{
    let Ok(Playlist::MediaPlaylist(mut pl)) = parse_playlist_res(content) else { return String::new() };
    pl.segments = links.into_iter().map(|l| {
        let mut s = pl.segments[l.index].clone();
        s.discontinuity = l.discontinuity;
        if let Some(k) = &mut s.key { k.uri = l.key_uri; }
        s.map.iter_mut().zip(l.map_uri).for_each(|(m, u)| m.uri = u);
        s.unknown_tags.iter_mut().zip(l.unknown_tags).for_each(|(t, x)| t.rest = x.rest);
        s.uri = l.uri;
        s
    }).collect();
    let mut out = vec![];
    let _ = pl.write_to(&mut out);
    String::from_utf8(out).unwrap_or_default()
}

/// `m3u8_rs::MasterPlaylist::write_to`, on the parsed playlist with the given
/// links put in. Claimed: the text is the head of the parsed playlist, then the
/// renditions, the variants, the session data and keys, and the unknown tags. What
/// stands round the links depends on the parsed bytes alone, but that attributes
/// that the crate does not know come in the order of a hash map; none of them is
/// named `URI`. Where no attribute reaches over the end of its line, the links of
/// the variants are the only lines that are no tags.
#[verifier::external_body]
pub(crate) fn write_master(content: &[u8], links: MasterLinks) -> (r: String)
    requires
        parsed_master(content@) matches Some(m) && fits_master(m, links@),
    ensures
        is_written_master(r@, master_frame(content@), links@),
        closed_attributes(content@) && are_plain_links(links@) ==> bare_lines(r@) == line_uris(
            links@.variants,
        ),
{
    let Ok(Playlist::MasterPlaylist(mut pl)) = parse_playlist_res(content) else { return String::new() };
    pl.variants.iter_mut().zip(links.variants).for_each(|(v, l)| v.uri = l.uri);
    pl.alternatives.iter_mut().zip(links.alternatives).for_each(|(a, u)| a.uri = u);
    pl.unknown_tags.iter_mut().zip(links.unknown_tags).for_each(|(t, l)| t.rest = l.rest);
    let mut out = vec![];
    let _ = pl.write_to(&mut out);
    String::from_utf8(out).unwrap_or_default()
}

} // verus!
