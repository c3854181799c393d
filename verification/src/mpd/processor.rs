//! Profiles, segments and content protection of a DASH manifest.

use vstd::prelude::*;

use crate::mpd::template::{expand_template, expanded, TemplateArgs};
use crate::mpd::types::{
    segment_views, AdaptationSet, ContentProtection, Extinf, ExtinfView, MpdDocument, MpdProfile,
    MpdSegment, Period, ProfileView, Representation, SegmentBase, SegmentList, SegmentTemplate,
    SegmentView,
};
use crate::text::{
    ascii_lower, begins, chars, concat, contains, copy_opt, decimal, decimal_text, holds, lowercase,
    opt_text, parse_u32, parse_u64, parse_unsigned, replace, replace_text, same, split, split_text,
    starts_with, texts, to_ascii_lower, trim, trim_text,
};
use crate::utils::url::{resolve_url, resolved};

verus! {

// ---------------------------------------------------------------------------
// Attributes
// ---------------------------------------------------------------------------

/// The first of two optional texts that is there.
pub open spec fn first_of(a: Option<String>, b: Option<String>) -> Option<Seq<char>> {
    match a {
        Some(t) => Some(t@),
        None => opt_text(b),
    }
}

/// The first of two optional texts that is there.
fn first_opt(a: &Option<String>, b: &Option<String>) -> (r: Option<String>)
    ensures
        opt_text(r) == first_of(*a, *b),
{
    match a {
        Some(t) => Some(t.clone()),
        None => copy_opt(b),
    }
}

/// A text, or a fallback.
pub open spec fn text_or(a: Option<Seq<char>>, fallback: Seq<char>) -> Seq<char> {
    match a {
        Some(t) => t,
        None => fallback,
    }
}

/// A text, or a fallback.
fn take_or(a: Option<String>, fallback: &str) -> (r: String)
    ensures
        r@ == text_or(opt_text(a), fallback@),
{
    match a {
        Some(t) => t,
        None => fallback.to_owned(),
    }
}

/// A number in an optional text.
pub open spec fn u64_of(a: Option<Seq<char>>) -> Option<u64> {
    match a {
        Some(t) => match parse_unsigned(t, u64::MAX as int) {
            Some(n) => Some(n as u64),
            None => None,
        },
        None => None,
    }
}

/// A number, or a fallback.
pub open spec fn or_u64(a: Option<u64>, fallback: u64) -> u64 {
    match a {
        Some(n) => n,
        None => fallback,
    }
}

/// Reads a number in an optional text.
fn read_u64(a: &Option<String>) -> (r: Option<u64>)
    ensures
        r == u64_of(opt_text(*a)),
{
    match a {
        Some(t) => parse_u64(t.as_str()),
        None => None,
    }
}

/// A number, or a fallback.
fn u64_or(a: Option<u64>, fallback: u64) -> (r: u64)
    ensures
        r == or_u64(a, fallback),
{
    match a {
        Some(n) => n,
        None => fallback,
    }
}

/// A dimension in an optional text; 0 where it cannot be read.
pub open spec fn dimension(a: Option<Seq<char>>) -> u32 {
    match a {
        Some(t) => match parse_unsigned(t, u32::MAX as int) {
            Some(n) => n as u32,
            None => 0,
        },
        None => 0,
    }
}

/// Reads a dimension.
fn read_dimension(a: Option<String>) -> (r: u32)
    ensures
        r == dimension(opt_text(a)),
{
    match a {
        Some(t) => match parse_u32(t.as_str()) {
            Some(n) => n,
            None => 0,
        },
        None => 0,
    }
}

/// The media type of a representation: its own, that of its set, or one guessed
/// from the codecs.
pub open spec fn mime_of(rep: Representation, set: AdaptationSet) -> Seq<char> {
    match first_of(rep.mime_type, set.mime_type) {
        Some(m) => m,
        None => match first_of(rep.codecs, set.codecs) {
            Some(c) => if contains(c, "avc"@) || contains(c, "hvc"@) || contains(c, "vp"@) {
                "video/mp4"@
            } else {
                "audio/mp4"@
            },
            None => "video/mp4"@,
        },
    }
}

/// The media type of a representation.
fn mime_type_of(rep: &Representation, set: &AdaptationSet) -> (r: String)
    ensures
        r@ == mime_of(*rep, *set),
{
    match first_opt(&rep.mime_type, &set.mime_type) {
        Some(m) => m,
        None => match first_opt(&rep.codecs, &set.codecs) {
            Some(c) => if holds(c.as_str(), "avc") || holds(c.as_str(), "hvc") || holds(
                c.as_str(),
                "vp",
            ) {
                "video/mp4".to_owned()
            } else {
                "audio/mp4".to_owned()
            },
            None => "video/mp4".to_owned(),
        },
    }
}

/// The bandwidth of a representation: its own or else that of its set.
pub open spec fn bandwidth_of(rep: Representation, set: AdaptationSet) -> u64 {
    match u64_of(opt_text(rep.bandwidth)) {
        Some(n) => n,
        None => or_u64(u64_of(opt_text(set.bandwidth)), 0),
    }
}

/// The identifier of a representation; `0` where it has none.
pub open spec fn rep_id_of(rep: Representation) -> Seq<char> {
    text_or(opt_text(rep.id), "0"@)
}

/// The identifier of a profile.
pub open spec fn profile_id_of(rep: Representation, set: AdaptationSet) -> Seq<char> {
    text_or(opt_text(set.id), "0"@) + "_"@ + rep_id_of(rep) + "_"@ + decimal(
        bandwidth_of(rep, set) as int,
    )
}

/// The base URL of a representation; empty where it has none.
pub open spec fn base_of(rep: Representation) -> Seq<char> {
    text_or(opt_text(rep.base_url), ""@)
}

/// The template of a representation: its own or else that of its set.
pub open spec fn template_of(rep: Representation, set: AdaptationSet) -> Option<SegmentTemplate> {
    match rep.segment_template {
        Some(t) => Some(t),
        None => set.segment_template,
    }
}

/// The segment list of a representation: its own or else that of its set.
pub open spec fn list_of(rep: Representation, set: AdaptationSet) -> Option<SegmentList> {
    match rep.segment_list {
        Some(t) => Some(t),
        None => set.segment_list,
    }
}

/// The template of a representation.
fn pick_template<'a>(rep: &'a Representation, set: &'a AdaptationSet) -> (r: Option<
    &'a SegmentTemplate,
>)
    ensures
        match r {
            Some(t) => template_of(*rep, *set) == Some(*t),
            None => template_of(*rep, *set) is None,
        },
{
    match &rep.segment_template {
        Some(t) => Some(t),
        None => match &set.segment_template {
            Some(t) => Some(t),
            None => None,
        },
    }
}

/// The segment list of a representation.
fn pick_list<'a>(rep: &'a Representation, set: &'a AdaptationSet) -> (r: Option<&'a SegmentList>)
    ensures
        match r {
            Some(t) => list_of(*rep, *set) == Some(*t),
            None => list_of(*rep, *set) is None,
        },
{
    match &rep.segment_list {
        Some(t) => Some(t),
        None => match &set.segment_list {
            Some(t) => Some(t),
            None => None,
        },
    }
}

// ---------------------------------------------------------------------------
// Initialization sections
// ---------------------------------------------------------------------------

/// The initialization section of a single file: its URL and range.
pub open spec fn base_init(rep: Representation, mpd_url: Seq<char>) -> (
    Option<Seq<char>>,
    Option<Seq<char>>,
) {
    match rep.segment_base {
        Some(sb) => (
            Some(resolved(mpd_url, base_of(rep))),
            match sb.initialization {
                Some(i) => opt_text(i.range),
                None => None,
            },
        ),
        None => if base_of(rep).len() > 0 {
            (Some(resolved(mpd_url, base_of(rep))), None)
        } else {
            (None, None)
        },
    }
}

/// Where the initialization section of a representation is, and its byte range:
/// by its template, its list, its index base or else its base URL.
pub open spec fn init_of(
    rep: Representation,
    set: AdaptationSet,
    mpd_url: Seq<char>,
    rep_id: Seq<char>,
    bandwidth: u64,
) -> (Option<Seq<char>>, Option<Seq<char>>) {
    let list_init = match list_of(rep, set) {
        Some(l) => l.initialization,
        None => None,
    };
    if template_of(rep, set) matches Some(t) && t.initialization is Some {
        (
            Some(
                resolved(
                    mpd_url,
                    base_of(rep) + expanded(
                        opt_text(template_of(rep, set)->0.initialization)->0,
                        TemplateArgs { representation_id: rep_id, bandwidth, number: 1, time: 0 },
                    ),
                ),
            ),
            None,
        )
    } else if list_init matches Some(i) && i.source_url is Some {
        (Some(resolved(mpd_url, opt_text(list_init->0.source_url)->0)), None)
    } else if list_init matches Some(i) && i.range is Some {
        (Some(resolved(mpd_url, base_of(rep))), opt_text(list_init->0.range))
    } else {
        base_init(rep, mpd_url)
    }
}

/// The initialization section of a single file.
fn compute_base_init(rep: &Representation, mpd_url: &str, base: &str) -> (r: (
    Option<String>,
    Option<String>,
))
    requires
        base@ == base_of(*rep),
    ensures
        opt_text(r.0) == base_init(*rep, mpd_url@).0,
        opt_text(r.1) == base_init(*rep, mpd_url@).1,
{
    match &rep.segment_base {
        Some(sb) => {
            let range = match &sb.initialization {
                Some(i) => copy_opt(&i.range),
                None => None,
            };
            (Some(resolve_url(mpd_url, base)), range)
        },
        None => if chars(base).len() > 0 {
            (Some(resolve_url(mpd_url, base)), None)
        } else {
            (None, None)
        },
    }
}

/// Finds the initialization section of a representation.
pub fn compute_init_url(
    rep: &Representation,
    set: &AdaptationSet,
    mpd_url: &str,
    rep_id: &str,
    bandwidth: u64,
) -> (r: (Option<String>, Option<String>))
    ensures
        opt_text(r.0) == init_of(*rep, *set, mpd_url@, rep_id@, bandwidth).0,
        opt_text(r.1) == init_of(*rep, *set, mpd_url@, rep_id@, bandwidth).1,
{
    let base = take_or(copy_opt(&rep.base_url), "");
    if let Some(t) = pick_template(rep, set) {
        if let Some(init) = &t.initialization {
            let path = expand_template(init.as_str(), rep_id, bandwidth, 1, None);
            let full = concat(base.as_str(), path.as_str());
            return (Some(resolve_url(mpd_url, full.as_str())), None);
        }
    }
    if let Some(list) = pick_list(rep, set) {
        if let Some(init) = &list.initialization {
            if let Some(source) = &init.source_url {
                return (Some(resolve_url(mpd_url, source.as_str())), None);
            }
            if let Some(range) = &init.range {
                return (Some(resolve_url(mpd_url, base.as_str())), Some(range.clone()));
            }
        }
    }
    compute_base_init(rep, mpd_url, base.as_str())
}

// ---------------------------------------------------------------------------
// Profiles
// ---------------------------------------------------------------------------

/// The frame rate of a representation, as the manifest gives it.
pub open spec fn frame_rate_of(rep: Representation, set: AdaptationSet) -> Seq<char> {
    match rep.frame_rate {
        Some(f) => f@,
        None => text_or(first_of(set.max_frame_rate, set.frame_rate), "30000/1001"@),
    }
}

/// The start number of a template; 1 where it cannot be read.
pub open spec fn start_number_of(t: Option<SegmentTemplate>) -> u64 {
    match t {
        Some(t) => or_u64(u64_of(opt_text(t.start_number)), 1),
        None => 1,
    }
}

/// The timescale of a template; 1 where it cannot be read.
pub open spec fn timescale_of(t: Option<SegmentTemplate>) -> u64 {
    match t {
        Some(t) => or_u64(u64_of(opt_text(t.timescale)), 1),
        None => 1,
    }
}

/// The profile of a representation, without segments. Only video and audio have
/// one.
pub open spec fn profile_of(rep: Representation, set: AdaptationSet, mpd_url: Seq<char>) -> Option<
    ProfileView,
> {
    let mime_type = mime_of(rep, set);
    let t = template_of(rep, set);
    let init = init_of(rep, set, mpd_url, rep_id_of(rep), bandwidth_of(rep, set));
    if !contains(mime_type, "video"@) && !contains(mime_type, "audio"@) {
        None
    } else {
        Some(
            ProfileView {
                id: profile_id_of(rep, set),
                rep_id: rep_id_of(rep),
                mime_type,
                codecs: text_or(first_of(rep.codecs, set.codecs), ""@),
                bandwidth: bandwidth_of(rep, set),
                lang: first_of(rep.lang, set.lang),
                width: dimension(first_of(rep.width, set.width)),
                height: dimension(first_of(rep.height, set.height)),
                frame_rate: frame_rate_of(rep, set),
                frame_rate_text: ""@,
                sar: text_or(opt_text(rep.sar), "1:1"@),
                audio_sampling_rate: first_of(rep.audio_sampling_rate, set.audio_sampling_rate),
                channels: text_or(opt_text(rep.audio_channels), "2"@),
                init_url: init.0,
                init_range: init.1,
                segments: Seq::empty(),
                start_number: start_number_of(t),
                start_number_explicit: t matches Some(t) && t.start_number is Some,
                timescale: timescale_of(t),
                nominal_duration: None,
            },
        )
    }
}

/// The view of an optional profile.
pub open spec fn opt_profile(p: Option<MpdProfile>) -> Option<ProfileView> {
    match p {
        Some(p) => Some(p@),
        None => None,
    }
}

/// Reads the profile of a representation, without segments.
pub fn parse_representation(rep: &Representation, set: &AdaptationSet, mpd_url: &str) -> (r: Option<
    MpdProfile,
>)
    ensures
        opt_profile(r) == profile_of(*rep, *set, mpd_url@),
{
    let mime_type = mime_type_of(rep, set);
    if !holds(mime_type.as_str(), "video") && !holds(mime_type.as_str(), "audio") {
        return None;
    }
    let rep_id = take_or(copy_opt(&rep.id), "0");
    let bandwidth: u64 = match read_u64(&rep.bandwidth) {
        Some(n) => n,
        None => u64_or(read_u64(&set.bandwidth), 0),
    };
    let mut id = take_or(copy_opt(&set.id), "0");
    id.push_str("_");
    id.push_str(rep_id.as_str());
    id.push_str("_");
    id.push_str(decimal_text(bandwidth).as_str());
    let frame_rate = match &rep.frame_rate {
        Some(f) => f.clone(),
        None => take_or(first_opt(&set.max_frame_rate, &set.frame_rate), "30000/1001"),
    };
    let mut start_number: u64 = 1;
    let mut explicit: bool = false;
    let mut timescale: u64 = 1;
    if let Some(t) = pick_template(rep, set) {
        start_number = u64_or(read_u64(&t.start_number), 1);
        explicit = t.start_number.is_some();
        timescale = u64_or(read_u64(&t.timescale), 1);
    }
    let (init_url, init_range) = compute_init_url(rep, set, mpd_url, rep_id.as_str(), bandwidth);
    let segments: Vec<MpdSegment> = Vec::new();
    assert(segment_views(segments@) =~= Seq::empty());
    Some(
        MpdProfile {
            id,
            rep_id,
            mime_type,
            codecs: take_or(first_opt(&rep.codecs, &set.codecs), ""),
            bandwidth,
            lang: first_opt(&rep.lang, &set.lang),
            width: read_dimension(first_opt(&rep.width, &set.width)),
            height: read_dimension(first_opt(&rep.height, &set.height)),
            frame_rate,
            frame_rate_text: "".to_owned(),
            sar: take_or(copy_opt(&rep.sar), "1:1"),
            audio_sampling_rate: first_opt(&rep.audio_sampling_rate, &set.audio_sampling_rate),
            channels: take_or(copy_opt(&rep.audio_channels), "2"),
            init_url,
            init_range,
            segments,
            segment_template_start_number: start_number,
            segment_template_start_number_explicit: explicit,
            segment_template_timescale: timescale,
            nominal_duration_mpd_timescale: None,
        },
    )
}

// ---------------------------------------------------------------------------
// Segment plans
// ---------------------------------------------------------------------------

/// Where the segments of a profile come from. The times of a timeline and the
/// durations in seconds have fractions and are worked out by the caller.
#[derive(Clone, Copy, PartialEq, Eq, Structural)]
pub enum SegmentPlan {
    /// There are none.
    Nothing,
    /// The template's timeline.
    Timeline {
        /// The number of the first segment.
        start_number: u64,
        /// Units per second.
        timescale: u64,
        /// The time at which the period begins.
        presentation_time_offset: u64,
    },
    /// Segments of a fixed duration, those within the time shift buffer.
    Live {
        /// The number of the first segment.
        start_number: u64,
        /// Units per second.
        timescale: u64,
        /// The time at which the period begins.
        presentation_time_offset: u64,
        /// The duration of a segment.
        duration: u64,
    },
    /// Segments of a fixed duration, as many as fill the presentation.
    Vod {
        /// The number of the first segment.
        start_number: u64,
        /// Units per second.
        timescale: u64,
        /// The duration of a segment.
        duration: u64,
    },
    /// The segment list. A duration or timescale of 0 stands for one second.
    List {
        /// The duration of a segment.
        duration: u64,
        /// Units per second.
        timescale: u64,
    },
    /// One file for the whole presentation.
    Single,
}

/// Where the segments of a template come from.
pub open spec fn template_plan(t: SegmentTemplate, is_live: bool) -> SegmentPlan {
    let start_number = start_number_of(Some(t));
    let timescale = timescale_of(Some(t));
    let presentation_time_offset = or_u64(u64_of(opt_text(t.presentation_time_offset)), 0);
    let duration = or_u64(u64_of(opt_text(t.duration)), 0);
    if t.media is None {
        SegmentPlan::Nothing
    } else if t.segment_timeline is Some {
        SegmentPlan::Timeline { start_number, timescale, presentation_time_offset }
    } else if duration == 0 {
        SegmentPlan::Nothing
    } else if is_live {
        SegmentPlan::Live { start_number, timescale, presentation_time_offset, duration }
    } else {
        SegmentPlan::Vod { start_number, timescale, duration }
    }
}

/// Where the segments of a representation come from.
pub open spec fn plan_of(rep: Representation, set: AdaptationSet, is_live: bool) -> SegmentPlan {
    match template_of(rep, set) {
        Some(t) => template_plan(t, is_live),
        None => match list_of(rep, set) {
            Some(l) => SegmentPlan::List {
                duration: or_u64(u64_of(opt_text(l.duration)), 0),
                timescale: or_u64(u64_of(opt_text(l.timescale)), 1),
            },
            None => if rep.segment_base is Some {
                SegmentPlan::Single
            } else {
                SegmentPlan::Nothing
            },
        },
    }
}

/// Finds out where the segments of a template come from.
fn plan_template(t: &SegmentTemplate, is_live: bool) -> (r: SegmentPlan)
    ensures
        r == template_plan(*t, is_live),
{
    let start_number: u64 = u64_or(read_u64(&t.start_number), 1);
    let timescale: u64 = u64_or(read_u64(&t.timescale), 1);
    let presentation_time_offset: u64 = u64_or(read_u64(&t.presentation_time_offset), 0);
    let duration: u64 = u64_or(read_u64(&t.duration), 0);
    if t.media.is_none() {
        SegmentPlan::Nothing
    } else if t.segment_timeline.is_some() {
        SegmentPlan::Timeline { start_number, timescale, presentation_time_offset }
    } else if duration == 0 {
        SegmentPlan::Nothing
    } else if is_live {
        SegmentPlan::Live { start_number, timescale, presentation_time_offset, duration }
    } else {
        SegmentPlan::Vod { start_number, timescale, duration }
    }
}

/// Finds out where the segments of a representation come from.
pub fn plan_segments(rep: &Representation, set: &AdaptationSet, is_live: bool) -> (r: SegmentPlan)
    ensures
        r == plan_of(*rep, *set, is_live),
{
    match pick_template(rep, set) {
        Some(t) => plan_template(t, is_live),
        None => match pick_list(rep, set) {
            Some(l) => SegmentPlan::List {
                duration: u64_or(read_u64(&l.duration), 0),
                timescale: u64_or(read_u64(&l.timescale), 1),
            },
            None => if rep.segment_base.is_some() {
                SegmentPlan::Single
            } else {
                SegmentPlan::Nothing
            },
        },
    }
}

// ---------------------------------------------------------------------------
// Segments
// ---------------------------------------------------------------------------

/// A segment of a timeline.
pub struct TimelineEntry {
    pub number: u64,
    /// Its start, in units of the timescale.
    pub time: u64,
    /// Its duration, in units of the timescale.
    pub duration: u64,
    /// Its start in whole seconds of Unix time, where it is known.
    pub start_secs: Option<i64>,
    /// Its duration in seconds.
    pub extinf: Extinf,
}

/// A point in time in ISO 8601, where it can be written.
pub uninterp spec fn iso8601(unix: i64) -> Option<Seq<char>>;

/// `from_unix_timestamp` of the time crate's `OffsetDateTime`, and its `format`
/// by `Rfc3339`; `None` where either fails.
#[verifier::external_body]
fn unix_to_iso8601(unix: i64) -> (r: Option<String>)
    ensures
        opt_text(r) == iso8601(unix),
{
    let at = time::OffsetDateTime::from_unix_timestamp(unix).ok()?;
    at.format(&time::format_description::well_known::Rfc3339).ok()
}

/// A number that is not 0.
pub open spec fn above_zero(n: u64) -> Option<u64> {
    if n > 0 {
        Some(n)
    } else {
        None
    }
}

/// A number that is not 0.
fn nonzero(n: u64) -> (r: Option<u64>)
    ensures
        r == above_zero(n),
{
    if n > 0 {
        Some(n)
    } else {
        None
    }
}

/// The segment of a timeline entry.
pub open spec fn entry_segment(
    e: TimelineEntry,
    t: SegmentTemplate,
    rep_id: Seq<char>,
    bandwidth: u64,
    mpd_url: Seq<char>,
    base: Seq<char>,
) -> SegmentView {
    SegmentView {
        media: resolved(
            mpd_url,
            base + expanded(
                text_or(opt_text(t.media), ""@),
                TemplateArgs {
                    representation_id: rep_id,
                    bandwidth,
                    number: e.number,
                    time: e.time,
                },
            ),
        ),
        number: e.number,
        extinf: e.extinf@,
        time: above_zero(e.time),
        duration_mpd_timescale: above_zero(e.duration),
        program_date_time: match e.start_secs {
            Some(s) => iso8601(s),
            None => None,
        },
        media_range: None,
        init_range: None,
        index_range: None,
    }
}

/// The segment of a timeline entry.
fn timeline_entry_to_segment(
    e: &TimelineEntry,
    t: &SegmentTemplate,
    profile: &MpdProfile,
    mpd_url: &str,
    base: &str,
) -> (r: MpdSegment)
    ensures
        r@ == entry_segment(
            *e,
            *t,
            profile@.rep_id,
            profile.bandwidth,
            mpd_url@,
            base@,
        ),
{
    let media = take_or(copy_opt(&t.media), "");
    let path = expand_template(
        media.as_str(),
        profile.rep_id.as_str(),
        profile.bandwidth,
        e.number,
        nonzero(e.time),
    );
    let full = concat(base, path.as_str());
    MpdSegment {
        media: resolve_url(mpd_url, full.as_str()),
        number: e.number,
        extinf: e.extinf.clone(),
        time: nonzero(e.time),
        duration_mpd_timescale: nonzero(e.duration),
        program_date_time: match e.start_secs {
            Some(s) => unix_to_iso8601(s),
            None => None,
        },
        media_range: None,
        init_range: None,
        index_range: None,
    }
}

/// The segments of a timeline, one for each entry. There are none without a
/// template.
pub fn generate_from_entries(
    profile: &MpdProfile,
    rep: &Representation,
    set: &AdaptationSet,
    mpd_url: &str,
    entries: &Vec<TimelineEntry>,
) -> (r: Vec<MpdSegment>)
    ensures
        match template_of(*rep, *set) {
            Some(t) => segment_views(r@) == template_segments(
                t,
                *rep,
                profile@,
                mpd_url@,
                entries@,
            ),
            None => r@.len() == 0,
        },
{
    let mut out: Vec<MpdSegment> = Vec::new();
    let t = match pick_template(rep, set) {
        Some(t) => t,
        None => {
            return out;
        },
    };
    let base = take_or(copy_opt(&rep.base_url), "");
    let mut i: usize = 0;
    while i < entries.len()
        invariant
            i <= entries.len(),
            out.len() == i,
            base@ == base_of(*rep),
            forall|j: int|
                0 <= j < i ==> (#[trigger] out@[j])@ == entry_segment(
                    entries@[j],
                    *t,
                    profile@.rep_id,
                    profile.bandwidth,
                    mpd_url@,
                    base@,
                ),
        decreases entries.len() - i,
    {
        out.push(timeline_entry_to_segment(&entries[i], t, profile, mpd_url, base.as_str()));
        i += 1;
    }
    proof {
        let want = Seq::new(
            entries@.len(),
            |i: int|
                entry_segment(
                    entries@[i],
                    *t,
                    profile@.rep_id,
                    profile.bandwidth,
                    mpd_url@,
                    base_of(*rep),
                ),
        );
        assert(segment_views(out@) =~= want);
    }
    out
}

/// The segments of the first `n` entries of a list. An entry without a URL takes
/// the base URL; where there is none either, it is left out.
pub open spec fn list_segments(
    l: SegmentList,
    base: Seq<char>,
    mpd_url: Seq<char>,
    extinf: ExtinfView,
    n: int,
) -> Seq<SegmentView>
    decreases n,
{
    if n <= 0 {
        Seq::empty()
    } else {
        let rest = list_segments(l, base, mpd_url, extinf, n - 1);
        let u = l.segment_urls@[n - 1];
        if u.media is None && base.len() == 0 {
            rest
        } else {
            rest.push(
                SegmentView {
                    media: resolved(mpd_url, text_or(opt_text(u.media), base)),
                    number: n as u64,
                    extinf,
                    time: None,
                    duration_mpd_timescale: above_zero(or_u64(u64_of(opt_text(l.duration)), 0)),
                    program_date_time: None,
                    media_range: opt_text(u.media_range),
                    init_range: None,
                    index_range: None,
                },
            )
        }
    }
}

/// The segments of a segment list, each of the duration `extinf`.
pub fn generate_from_list(
    list: &SegmentList,
    rep: &Representation,
    mpd_url: &str,
    extinf: &Extinf,
) -> (r: Vec<MpdSegment>)
    ensures
        segment_views(r@) == list_segments(
            *list,
            base_of(*rep),
            mpd_url@,
            extinf@,
            list.segment_urls@.len() as int,
        ),
{
    let duration: u64 = u64_or(read_u64(&list.duration), 0);
    let base = take_or(copy_opt(&rep.base_url), "");
    let mut out: Vec<MpdSegment> = Vec::new();
    assert(segment_views(out@) =~= Seq::empty());
    let mut i: usize = 0;
    while i < list.segment_urls.len()
        invariant
            i <= list.segment_urls.len(),
            base@ == base_of(*rep),
            duration == or_u64(u64_of(opt_text(list.duration)), 0),
            segment_views(out@) == list_segments(*list, base@, mpd_url@, extinf@, i as int),
        decreases list.segment_urls.len() - i,
    {
        let u = &list.segment_urls[i];
        if u.media.is_some() || chars(base.as_str()).len() > 0 {
            let media = match &u.media {
                Some(m) => resolve_url(mpd_url, m.as_str()),
                None => resolve_url(mpd_url, base.as_str()),
            };
            let segment = MpdSegment {
                media,
                number: (i + 1) as u64,
                extinf: extinf.clone(),
                time: None,
                duration_mpd_timescale: nonzero(duration),
                program_date_time: None,
                media_range: copy_opt(&u.media_range),
                init_range: None,
                index_range: None,
            };
            let ghost before = segment_views(out@);
            let ghost view = segment@;
            out.push(segment);
            assert(segment_views(out@) =~= before.push(view));
        }
        i += 1;
    }
    out
}

/// The range behind an initialization range `start-end`: from the byte behind
/// its end on, where there can be one.
pub open spec fn range_behind(range: Option<Seq<char>>) -> Option<Seq<char>> {
    match range {
        Some(r) => if split_text(r, '-').len() > 1 {
            match parse_unsigned(trim_text(split_text(r, '-')[1]), u64::MAX - 1) {
                Some(end) => Some(decimal(end + 1) + "-"@),
                None => None,
            }
        } else {
            None
        },
        None => None,
    }
}

/// The range behind an initialization range.
fn media_range_behind(range: &Option<String>) -> (r: Option<String>)
    ensures
        opt_text(r) == range_behind(opt_text(*range)),
{
    match range {
        Some(t) => {
            let parts = split(t.as_str(), '-');
            assert(texts(parts@) == split_text(t@, '-'));
            if parts.len() > 1 {
                assert(parts@[1]@ == split_text(t@, '-')[1]);
                match crate::text::parse_unsigned_text(
                    trim(parts[1].as_str()).as_str(),
                    18446744073709551614,
                ) {
                    Some(end) => Some(concat(decimal_text(end + 1).as_str(), "-")),
                    None => None,
                }
            } else {
                None
            }
        },
        None => None,
    }
}

/// The one segment of a file with an index: all bytes behind its
/// initialization section.
pub fn generate_from_base(
    base: &SegmentBase,
    rep: &Representation,
    mpd_url: &str,
    extinf: Extinf,
) -> (r: Vec<MpdSegment>)
    ensures
        segment_views(r@) == seq![base_segment(*base, *rep, mpd_url@, extinf@)],
{
    let url = take_or(copy_opt(&rep.base_url), "");
    let init_range = match &base.initialization {
        Some(i) => copy_opt(&i.range),
        None => None,
    };
    let media_range = media_range_behind(&init_range);
    let segment = MpdSegment {
        media: resolve_url(mpd_url, url.as_str()),
        number: 1,
        extinf,
        time: None,
        duration_mpd_timescale: None,
        program_date_time: None,
        media_range,
        init_range,
        index_range: copy_opt(&base.index_range),
    };
    let mut out: Vec<MpdSegment> = Vec::new();
    let ghost view = segment@;
    out.push(segment);
    assert(segment_views(out@) =~= seq![view]);
    out
}

// ---------------------------------------------------------------------------
// Content protection
// ---------------------------------------------------------------------------

/// What is known of a manifest's content protection.
pub struct DrmInfo {
    pub is_drm_protected: bool,
    pub drm_system: Option<String>,
    /// The identifier of the content key, without hyphens.
    pub key_id: Option<String>,
    /// The license URL.
    pub la_url: Option<String>,
    pub pssh: Option<String>,
}

/// What is known of content protection, by its texts.
pub struct DrmView {
    pub is_drm_protected: bool,
    pub drm_system: Option<Seq<char>>,
    pub key_id: Option<Seq<char>>,
    pub la_url: Option<Seq<char>>,
    pub pssh: Option<Seq<char>>,
}

impl View for DrmInfo {
    type V = DrmView;

    open spec fn view(&self) -> DrmView {
        DrmView {
            is_drm_protected: self.is_drm_protected,
            drm_system: opt_text(self.drm_system),
            key_id: opt_text(self.key_id),
            la_url: opt_text(self.la_url),
            pssh: opt_text(self.pssh),
        }
    }
}

/// Nothing is known.
pub open spec fn no_drm() -> DrmView {
    DrmView { is_drm_protected: false, drm_system: None, key_id: None, la_url: None, pssh: None }
}

impl Default for DrmInfo {
    fn default() -> (r: Self)
        ensures
            r@ == no_drm(),
    {
        DrmInfo {
            is_drm_protected: false,
            drm_system: None,
            key_id: None,
            la_url: None,
            pssh: None,
        }
    }
}

/// The first of two optional texts: what is already known stays.
pub open spec fn keep_first(a: Option<Seq<char>>, b: Option<Seq<char>>) -> Option<Seq<char>> {
    if a is Some {
        a
    } else {
        b
    }
}

/// The protection system that a scheme stands for.
pub open spec fn system_of(scheme: Seq<char>) -> Option<Seq<char>> {
    let s = lowercase(scheme);
    if contains(s, "clearkey"@) {
        Some("clearkey"@)
    } else if contains(s, "widevine"@) || contains(s, "edef8ba9-79d6-4ace-a3c8-27dcd51d21ed"@) {
        Some("widevine"@)
    } else if contains(s, "playready"@) || contains(s, "9a04f079-9840-4286-ab92-e65be0885f95"@) {
        Some("playready"@)
    } else {
        None
    }
}

/// What is known behind one more element. Of each detail the first that is given
/// stays: the license URL of ClearKey and PlayReady, the data of Widevine.
pub open spec fn drm_step(info: DrmView, cp: ContentProtection) -> DrmView {
    let system = system_of(text_or(opt_text(cp.scheme_id_uri), ""@));
    DrmView {
        is_drm_protected: true,
        drm_system: keep_first(info.drm_system, system),
        key_id: keep_first(
            info.key_id,
            match cp.cenc_default_kid {
                Some(k) => Some(replace_text(k@, "-"@, ""@)),
                None => None,
            },
        ),
        la_url: if system == Some("clearkey"@) {
            keep_first(info.la_url, opt_text(cp.clearkey_laurl))
        } else if system == Some("playready"@) {
            keep_first(info.la_url, opt_text(cp.ms_license_url))
        } else {
            info.la_url
        },
        pssh: if system == Some("widevine"@) {
            keep_first(info.pssh, opt_text(cp.cenc_pssh))
        } else {
            info.pssh
        },
    }
}

/// What is known behind the first `n` elements.
pub open spec fn drm_elements(info: DrmView, cps: Seq<ContentProtection>, n: int) -> DrmView
    decreases n,
{
    if n <= 0 {
        info
    } else {
        drm_step(drm_elements(info, cps, n - 1), cps[n - 1])
    }
}

/// What is known behind the first `n` representations.
pub open spec fn drm_reps(info: DrmView, reps: Seq<Representation>, n: int) -> DrmView
    decreases n,
{
    if n <= 0 {
        info
    } else {
        let cps = reps[n - 1].content_protection@;
        drm_elements(drm_reps(info, reps, n - 1), cps, cps.len() as int)
    }
}

/// What is known behind the first `n` adaptation sets: each with its own
/// elements, then those of its representations.
pub open spec fn drm_sets(info: DrmView, sets: Seq<AdaptationSet>, n: int) -> DrmView
    decreases n,
{
    if n <= 0 {
        info
    } else {
        let cps = sets[n - 1].content_protection@;
        let reps = sets[n - 1].representations@;
        drm_reps(
            drm_elements(drm_sets(info, sets, n - 1), cps, cps.len() as int),
            reps,
            reps.len() as int,
        )
    }
}

/// What is known behind the first `n` periods.
pub open spec fn drm_periods(info: DrmView, periods: Seq<Period>, n: int) -> DrmView
    decreases n,
{
    if n <= 0 {
        info
    } else {
        let sets = periods[n - 1].adaptation_sets@;
        drm_sets(drm_periods(info, periods, n - 1), sets, sets.len() as int)
    }
}

/// With the license URL made absolute.
pub open spec fn with_absolute_license(info: DrmView, mpd_url: Seq<char>) -> DrmView {
    DrmView {
        la_url: match info.la_url {
            Some(la) => if starts_with(la, "http://"@) || starts_with(la, "https://"@) {
                Some(la)
            } else {
                Some(resolved(mpd_url, la))
            },
            None => None,
        },
        ..info
    }
}

/// What is known of a manifest's content protection.
pub open spec fn drm_of(doc: MpdDocument, mpd_url: Seq<char>) -> DrmView {
    with_absolute_license(
        drm_periods(no_drm(), doc.periods@, doc.periods@.len() as int),
        mpd_url,
    )
}

/// The first of two optional texts: what is already known stays.
fn hold_first(a: Option<String>, b: &Option<String>) -> (r: Option<String>)
    ensures
        opt_text(r) == keep_first(opt_text(a), opt_text(*b)),
{
    match a {
        Some(t) => Some(t),
        None => copy_opt(b),
    }
}

/// Takes one more element in.
fn absorb_protection(info: DrmInfo, cp: &ContentProtection) -> (r: DrmInfo)
    ensures
        r@ == drm_step(info@, *cp),
{
    let scheme = take_or(copy_opt(&cp.scheme_id_uri), "").to_lowercase();
    let s = scheme.as_str();
    let mut drm_system = info.drm_system;
    let mut la_url = info.la_url;
    let mut pssh = info.pssh;
    proof {
        reveal_strlit("clearkey");
        reveal_strlit("widevine");
        reveal_strlit("playready");
        assert("clearkey"@[0] != "widevine"@[0] && "clearkey"@[0] != "playready"@[0]
            && "widevine"@[0] != "playready"@[0]);
    }
    if holds(s, "clearkey") {
        drm_system = hold_first(drm_system, &Some("clearkey".to_owned()));
        la_url = hold_first(la_url, &cp.clearkey_laurl);
    } else if holds(s, "widevine") || holds(s, "edef8ba9-79d6-4ace-a3c8-27dcd51d21ed") {
        drm_system = hold_first(drm_system, &Some("widevine".to_owned()));
        pssh = hold_first(pssh, &cp.cenc_pssh);
    } else if holds(s, "playready") || holds(s, "9a04f079-9840-4286-ab92-e65be0885f95") {
        drm_system = hold_first(drm_system, &Some("playready".to_owned()));
        la_url = hold_first(la_url, &cp.ms_license_url);
    }
    let kid = match &cp.cenc_default_kid {
        Some(k) => {
            proof {
                reveal_strlit("-");
            }
            Some(replace(k.as_str(), "-", ""))
        },
        None => None,
    };
    DrmInfo {
        is_drm_protected: true,
        drm_system,
        key_id: hold_first(info.key_id, &kid),
        la_url,
        pssh,
    }
}

/// Takes elements in.
fn absorb_protections(info: DrmInfo, cps: &Vec<ContentProtection>) -> (r: DrmInfo)
    ensures
        r@ == drm_elements(info@, cps@, cps@.len() as int),
{
    let mut out = info;
    let mut i: usize = 0;
    while i < cps.len()
        invariant
            i <= cps.len(),
            out@ == drm_elements(info@, cps@, i as int),
        decreases cps.len() - i,
    {
        out = absorb_protection(out, &cps[i]);
        i += 1;
    }
    out
}

/// Finds out what is known of a manifest's content protection.
pub fn extract_drm_info(doc: &MpdDocument, mpd_url: &str) -> (r: DrmInfo)
    ensures
        r@ == drm_of(*doc, mpd_url@),
{
    let mut info = DrmInfo::default();
    let mut p: usize = 0;
    while p < doc.periods.len()
        invariant
            p <= doc.periods.len(),
            info@ == drm_periods(no_drm(), doc.periods@, p as int),
        decreases doc.periods.len() - p,
    {
        let sets = &doc.periods[p].adaptation_sets;
        let ghost at_period = info@;
        let mut a: usize = 0;
        while a < sets.len()
            invariant
                a <= sets.len(),
                info@ == drm_sets(at_period, sets@, a as int),
            decreases sets.len() - a,
        {
            info = absorb_protections(info, &sets[a].content_protection);
            let reps = &sets[a].representations;
            let ghost at_set = info@;
            let mut r: usize = 0;
            while r < reps.len()
                invariant
                    r <= reps.len(),
                    info@ == drm_reps(at_set, reps@, r as int),
                decreases reps.len() - r,
            {
                info = absorb_protections(info, &reps[r].content_protection);
                r += 1;
            }
            a += 1;
        }
        p += 1;
    }
    let la_url = match info.la_url {
        Some(la) => if begins(la.as_str(), "http://") || begins(la.as_str(), "https://") {
            Some(la)
        } else {
            Some(resolve_url(mpd_url, la.as_str()))
        },
        None => None,
    };
    DrmInfo {
        is_drm_protected: info.is_drm_protected,
        drm_system: info.drm_system,
        key_id: info.key_id,
        la_url,
        pssh: info.pssh,
    }
}

// ---------------------------------------------------------------------------
// Live sequence numbers
// ---------------------------------------------------------------------------

/// Numbers with one more, put behind those that are not above it.
pub open spec fn with_number(s: Seq<u64>, n: u64) -> Seq<u64>
    decreases s.len(),
{
    if s.len() == 0 || s.last() <= n {
        s.push(n)
    } else {
        with_number(s.drop_last(), n).push(s.last())
    }
}

/// Numbers in rising order.
pub open spec fn sorted_numbers(s: Seq<u64>) -> Seq<u64>
    decreases s.len(),
{
    if s.len() == 0 {
        Seq::empty()
    } else {
        with_number(sorted_numbers(s.drop_last()), s.last())
    }
}

/// The number in the middle of the rising order, the later one of two; none
/// where there are no numbers.
pub open spec fn middle_number(s: Seq<u64>) -> Option<u64> {
    if s.len() == 0 {
        None
    } else {
        Some(sorted_numbers(s)[s.len() as int / 2])
    }
}

/// The number in the middle of the rising order, the former one of two; none
/// where there are no numbers.
pub open spec fn lower_middle_number(s: Seq<u64>) -> Option<u64> {
    if s.len() == 0 {
        None
    } else {
        Some(sorted_numbers(s)[(s.len() - 1) / 2])
    }
}

/// Numbers do not fall.
pub open spec fn is_rising(s: Seq<u64>) -> bool {
    forall|i: int, j: int| 0 <= i < j < s.len() ==> s[i] <= s[j]
}

/// Putting a number in keeps the order and all numbers.
proof fn lemma_with_number(s: Seq<u64>, n: u64)
    requires
        is_rising(s),
    ensures
        is_rising(with_number(s, n)),
        with_number(s, n).len() == s.len() + 1,
        with_number(s, n).to_multiset() == s.to_multiset().insert(n),
        forall|i: int|
            0 <= i < with_number(s, n).len() ==> #[trigger] with_number(s, n)[i] <= n || (s.len()
                > 0 && with_number(s, n)[i] <= s.last()),
    decreases s.len(),
{
    broadcast use vstd::seq_lib::group_to_multiset_ensures;

    let out = with_number(s, n);
    if s.len() == 0 || s.last() <= n {
        assert forall|i: int, j: int| 0 <= i < j < out.len() implies out[i] <= out[j] by {
            if j == s.len() && i < s.len() - 1 {
                assert(s[i] <= s[s.len() - 1]);
            }
        }
    } else {
        let init = s.drop_last();
        assert(is_rising(init));
        lemma_with_number(init, n);
        let front = with_number(init, n);
        assert(s =~= init.push(s.last()));
        assert(s.to_multiset() == init.to_multiset().insert(s.last()));
        assert(out.to_multiset() =~= s.to_multiset().insert(n));
        assert forall|i: int| 0 <= i < front.len() implies front[i] <= s.last() by {
            if init.len() > 0 {
                assert(s[s.len() - 2] <= s[s.len() - 1]);
                assert(init.last() == s[s.len() - 2]);
            }
        }
    }
}

/// The sorted numbers are the same numbers, in rising order.
pub proof fn law_sorted_numbers(s: Seq<u64>)
    ensures
        is_rising(sorted_numbers(s)),
        sorted_numbers(s).to_multiset() == s.to_multiset(),
        sorted_numbers(s).len() == s.len(),
    decreases s.len(),
{
    broadcast use vstd::seq_lib::group_to_multiset_ensures;

    if s.len() > 0 {
        law_sorted_numbers(s.drop_last());
        lemma_with_number(sorted_numbers(s.drop_last()), s.last());
        assert(s =~= s.drop_last().push(s.last()));
    } else {
        assert(s =~= Seq::empty());
    }
}

/// Where the new number goes.
proof fn lemma_number_position(s: Seq<u64>, n: u64, pos: int)
    requires
        0 <= pos <= s.len(),
        forall|k: int| pos <= k < s.len() ==> s[k] > n,
        pos > 0 ==> s[pos - 1] <= n,
    ensures
        with_number(s, n) == s.insert(pos, n),
    decreases s.len(),
{
    if pos == s.len() {
        assert(s.insert(pos, n) =~= s.push(n));
    } else {
        lemma_number_position(s.drop_last(), n, pos);
        assert(s.insert(pos, n) =~= s.drop_last().insert(pos, n).push(s.last()));
    }
}

/// The numbers in rising order.
fn sorted(s: &Vec<u64>) -> (r: Vec<u64>)
    ensures
        r@ == sorted_numbers(s@),
        r@.len() == s@.len(),
{
    let mut sorted: Vec<u64> = Vec::new();
    let mut i: usize = 0;
    assert(sorted@ =~= sorted_numbers(s@.take(0)));
    while i < s.len()
        invariant
            i <= s.len(),
            sorted@ == sorted_numbers(s@.take(i as int)),
            sorted.len() == i,
        decreases s.len() - i,
    {
        let n: u64 = s[i];
        let mut pos: usize = sorted.len();
        while pos > 0 && sorted[pos - 1] > n
            invariant
                pos <= sorted.len(),
                forall|k: int| pos <= k < sorted.len() ==> sorted@[k] > n,
            decreases pos,
        {
            pos -= 1;
        }
        proof {
            lemma_number_position(sorted@, n, pos as int);
            assert(s@.take(i + 1).drop_last() =~= s@.take(i as int));
        }
        sorted.insert(pos, n);
        i += 1;
    }
    assert(s@.take(s@.len() as int) =~= s@);
    sorted
}

/// The number in the middle of the rising order, the later one of two.
pub fn median(s: &Vec<u64>) -> (r: Option<u64>)
    ensures
        r == middle_number(s@),
{
    if s.len() == 0 {
        return None;
    }
    Some(sorted(s)[s.len() / 2])
}

/// The number in the middle of the rising order, the former one of two.
pub fn median_low(s: &Vec<u64>) -> (r: Option<u64>)
    ensures
        r == lower_middle_number(s@),
{
    if s.len() == 0 {
        return None;
    }
    Some(sorted(s)[(s.len() - 1) / 2])
}

/// The durations of the first `n` segments that are stated and not 0.
pub open spec fn stated_durations(segments: Seq<SegmentView>, n: int) -> Seq<u64>
    decreases n,
{
    if n <= 0 {
        Seq::empty()
    } else {
        let rest = stated_durations(segments, n - 1);
        match segments[n - 1].duration_mpd_timescale {
            Some(d) => if d > 0 {
                rest.push(d)
            } else {
                rest
            },
            None => rest,
        }
    }
}

/// The usual duration of segments: the middle one, the shorter of two.
pub open spec fn nominal_duration(segments: Seq<SegmentView>) -> Option<u64> {
    lower_middle_number(stated_durations(segments, segments.len() as int))
}

/// Finds the usual duration of segments.
pub fn resolve_nominal_duration(segments: &Vec<MpdSegment>) -> (r: Option<u64>)
    ensures
        r == nominal_duration(segment_views(segments@)),
{
    let mut durations: Vec<u64> = Vec::new();
    let ghost views = segment_views(segments@);
    let mut i: usize = 0;
    while i < segments.len()
        invariant
            i <= segments.len(),
            views == segment_views(segments@),
            durations@ == stated_durations(views, i as int),
        decreases segments.len() - i,
    {
        assert(views[i as int] == segments@[i as int]@);
        if let Some(d) = segments[i].duration_mpd_timescale {
            if d > 0 {
                durations.push(d);
            }
        }
        i += 1;
    }
    median_low(&durations)
}

/// At least 1.
pub open spec fn at_least_one(n: u64) -> u64 {
    if n > 1 {
        n
    } else {
        1
    }
}

/// The sequence number of a live playlist that begins with a segment: the
/// segment's own number where the manifest numbers its segments; else how often
/// the usual duration fits into its start, where both are known. The profile's
/// usual duration goes before that of the segments.
pub open spec fn live_sequence(
    first: SegmentView,
    profile: ProfileView,
    segments: Seq<SegmentView>,
) -> u64 {
    let nominal = match profile.nominal_duration {
        Some(n) => Some(n),
        None => nominal_duration(segments),
    };
    if !profile.start_number_explicit && first.time is Some && nominal is Some && nominal->0 > 0 {
        at_least_one((first.time->0 / nominal->0) as u64)
    } else {
        at_least_one(first.number)
    }
}

/// The `#EXT-X-MEDIA-SEQUENCE` of a live playlist that begins with
/// `first_segment`.
pub fn compute_live_media_sequence(
    first_segment: &MpdSegment,
    profile: &MpdProfile,
    segments: &Vec<MpdSegment>,
) -> (r: u64)
    ensures
        r == live_sequence(first_segment@, profile@, segment_views(segments@)),
{
    let number: u64 = if first_segment.number > 1 {
        first_segment.number
    } else {
        1
    };
    if profile.segment_template_start_number_explicit {
        return number;
    }
    let nominal: Option<u64> = match profile.nominal_duration_mpd_timescale {
        Some(n) => Some(n),
        None => resolve_nominal_duration(segments),
    };
    if let Some(t) = first_segment.time {
        if let Some(n) = nominal {
            if n > 0 {
                let q: u64 = t / n;
                return if q > 1 {
                    q
                } else {
                    1
                };
            }
        }
    }
    number
}

/// How many segments a live playlist holds at least.
pub open spec fn depth_floor(is_ts_mode: bool) -> usize {
    if is_ts_mode {
        20
    } else {
        15
    }
}

/// How many segments a live playlist holds for safety besides those that a start
/// offset spans.
pub open spec fn depth_safety(is_ts_mode: bool) -> int {
    if is_ts_mode {
        10
    } else {
        12
    }
}

/// How many segments a live playlist holds: the configured number, at least a
/// floor, and enough for the segments between the start offset and the live
/// edge plus some for safety.
pub open spec fn live_depth(
    is_ts_mode: bool,
    segs_behind: Option<usize>,
    configured_depth: usize,
) -> int {
    let least = if configured_depth > depth_floor(is_ts_mode) {
        configured_depth as int
    } else {
        depth_floor(is_ts_mode) as int
    };
    match segs_behind {
        Some(n) => {
            let wanted = n + depth_safety(is_ts_mode);
            if wanted > least {
                wanted
            } else {
                least
            }
        },
        None => least,
    }
}

/// Computes how many segments a live playlist holds. `segs_behind` is how many
/// segments a negative start offset spans.
pub fn compute_live_playlist_depth(
    is_ts_mode: bool,
    segs_behind: Option<usize>,
    configured_depth: usize,
) -> (r: usize)
    requires
        segs_behind matches Some(n) ==> n + depth_safety(is_ts_mode) <= usize::MAX,
    ensures
        r == live_depth(is_ts_mode, segs_behind, configured_depth),
        r >= 1,
{
    let floor: usize = if is_ts_mode {
        20
    } else {
        15
    };
    let mut depth: usize = if configured_depth > floor {
        configured_depth
    } else {
        floor
    };
    if let Some(n) = segs_behind {
        let wanted: usize = n + if is_ts_mode {
            10
        } else {
            12
        };
        if wanted > depth {
            depth = wanted;
        }
    }
    depth
}

// ---------------------------------------------------------------------------
// Whole manifests
// ---------------------------------------------------------------------------

/// The times of a profile's segments.
pub struct SegmentTiming {
    /// The timeline of a template; empty for other plans.
    pub entries: Vec<TimelineEntry>,
    /// The duration of each segment of a list, or of a single file.
    pub extinf: Extinf,
}

/// The segments of a template.
pub open spec fn template_segments(
    t: SegmentTemplate,
    rep: Representation,
    profile: ProfileView,
    mpd_url: Seq<char>,
    entries: Seq<TimelineEntry>,
) -> Seq<SegmentView> {
    Seq::new(
        entries.len(),
        |i: int|
            entry_segment(
                entries[i],
                t,
                profile.rep_id,
                profile.bandwidth,
                mpd_url,
                base_of(rep),
            ),
    )
}

/// The segment of a single file.
pub open spec fn base_segment(
    base: SegmentBase,
    rep: Representation,
    mpd_url: Seq<char>,
    extinf: ExtinfView,
) -> SegmentView {
    let init_range = match base.initialization {
        Some(i) => opt_text(i.range),
        None => None,
    };
    SegmentView {
        media: resolved(mpd_url, base_of(rep)),
        number: 1,
        extinf,
        time: None,
        duration_mpd_timescale: None,
        program_date_time: None,
        media_range: range_behind(init_range),
        init_range,
        index_range: opt_text(base.index_range),
    }
}

/// The segments that a plan stands for.
pub open spec fn segments_of(
    plan: SegmentPlan,
    profile: ProfileView,
    rep: Representation,
    set: AdaptationSet,
    mpd_url: Seq<char>,
    timing: SegmentTiming,
) -> Seq<SegmentView> {
    match plan {
        SegmentPlan::Nothing => Seq::empty(),
        SegmentPlan::List { .. } => match list_of(rep, set) {
            Some(l) => list_segments(
                l,
                base_of(rep),
                mpd_url,
                timing.extinf@,
                l.segment_urls@.len() as int,
            ),
            None => Seq::empty(),
        },
        SegmentPlan::Single => match rep.segment_base {
            Some(b) => seq![base_segment(b, rep, mpd_url, timing.extinf@)],
            None => Seq::empty(),
        },
        _ => match template_of(rep, set) {
            Some(t) => template_segments(t, rep, profile, mpd_url, timing.entries@),
            None => Seq::empty(),
        },
    }
}

/// Makes the segments that a plan stands for.
pub fn generate_segments(
    plan: &SegmentPlan,
    profile: &MpdProfile,
    rep: &Representation,
    set: &AdaptationSet,
    mpd_url: &str,
    timing: &SegmentTiming,
) -> (r: Vec<MpdSegment>)
    ensures
        segment_views(r@) == segments_of(*plan, profile@, *rep, *set, mpd_url@, *timing),
{
    let none: Vec<MpdSegment> = Vec::new();
    assert(segment_views(none@) =~= Seq::empty());
    match plan {
        SegmentPlan::Nothing => none,
        SegmentPlan::List { .. } => match pick_list(rep, set) {
            Some(l) => generate_from_list(l, rep, mpd_url, &timing.extinf),
            None => none,
        },
        SegmentPlan::Single => match &rep.segment_base {
            Some(b) => generate_from_base(b, rep, mpd_url, timing.extinf.clone()),
            None => none,
        },
        _ => {
            let r = generate_from_entries(profile, rep, set, mpd_url, &timing.entries);
            assert(template_of(*rep, *set) is None ==> segment_views(r@) =~= Seq::empty());
            r
        },
    }
}

/// Where a profile comes from in its manifest, and where its segments come from.
pub struct ProfileOrigin {
    pub period: usize,
    pub adaptation_set: usize,
    pub representation: usize,
    pub plan: SegmentPlan,
}

/// A manifest with its profiles.
pub struct ParsedMpd {
    pub is_live: bool,
    pub profiles: Vec<MpdProfile>,
    /// For each profile its origin.
    pub origins: Vec<ProfileOrigin>,
    pub drm_info: DrmInfo,
}

/// A profile with its origin.
pub struct PlannedView {
    pub profile: ProfileView,
    pub period: int,
    pub adaptation_set: int,
    pub representation: int,
    pub plan: SegmentPlan,
}

/// A live stream.
pub open spec fn is_live_doc(doc: MpdDocument) -> bool {
    doc.stream_type matches Some(t) && ascii_lower(t@) == "dynamic"@
}

/// Where the segments of a profile come from, if they are wanted: those of one
/// profile, or of all.
pub open spec fn wanted_plan(id: Seq<char>, wanted: Option<Seq<char>>, plan: SegmentPlan) ->
    SegmentPlan {
    if wanted is None || wanted == Some(id) {
        plan
    } else {
        SegmentPlan::Nothing
    }
}

/// The profiles of the first `r` representations of set `a` of period `p`.
pub open spec fn planned_reps(
    doc: MpdDocument,
    mpd_url: Seq<char>,
    wanted: Option<Seq<char>>,
    p: int,
    a: int,
    r: int,
) -> Seq<PlannedView>
    decreases r,
{
    if r <= 0 {
        Seq::empty()
    } else {
        let rest = planned_reps(doc, mpd_url, wanted, p, a, r - 1);
        let set = doc.periods@[p].adaptation_sets@[a];
        let rep = set.representations@[r - 1];
        match profile_of(rep, set, mpd_url) {
            Some(profile) => rest.push(
                PlannedView {
                    profile,
                    period: p,
                    adaptation_set: a,
                    representation: r - 1,
                    plan: wanted_plan(profile.id, wanted, plan_of(rep, set, is_live_doc(doc))),
                },
            ),
            None => rest,
        }
    }
}

/// The profiles of the first `a` sets of period `p`.
pub open spec fn planned_sets(
    doc: MpdDocument,
    mpd_url: Seq<char>,
    wanted: Option<Seq<char>>,
    p: int,
    a: int,
) -> Seq<PlannedView>
    decreases a,
{
    if a <= 0 {
        Seq::empty()
    } else {
        planned_sets(doc, mpd_url, wanted, p, a - 1) + planned_reps(
            doc,
            mpd_url,
            wanted,
            p,
            a - 1,
            doc.periods@[p].adaptation_sets@[a - 1].representations@.len() as int,
        )
    }
}

/// The profiles of the first `p` periods, in the order of the manifest.
pub open spec fn planned_periods(
    doc: MpdDocument,
    mpd_url: Seq<char>,
    wanted: Option<Seq<char>>,
    p: int,
) -> Seq<PlannedView>
    decreases p,
{
    if p <= 0 {
        Seq::empty()
    } else {
        planned_periods(doc, mpd_url, wanted, p - 1) + planned_sets(
            doc,
            mpd_url,
            wanted,
            p - 1,
            doc.periods@[p - 1].adaptation_sets@.len() as int,
        )
    }
}

/// Profiles with their origins.
pub open spec fn planned_views(profiles: Seq<MpdProfile>, origins: Seq<ProfileOrigin>) -> Seq<
    PlannedView,
> {
    Seq::new(
        profiles.len(),
        |i: int|
            PlannedView {
                profile: profiles[i]@,
                period: origins[i].period as int,
                adaptation_set: origins[i].adaptation_set as int,
                representation: origins[i].representation as int,
                plan: origins[i].plan,
            },
    )
}

/// Reads the profiles of a manifest. Their segments are still to be filled in,
/// from where each profile's plan says; `parse_segment_profile_id` restricts
/// that to one profile.
pub fn parse_mpd_document(
    doc: &MpdDocument,
    mpd_url: &str,
    parse_segment_profile_id: Option<&str>,
) -> (r: ParsedMpd)
    ensures
        r.is_live == is_live_doc(*doc),
        r.drm_info@ == drm_of(*doc, mpd_url@),
        r.profiles@.len() == r.origins@.len(),
        planned_views(r.profiles@, r.origins@) == planned_periods(
            *doc,
            mpd_url@,
            crate::text::opt_str(parse_segment_profile_id),
            doc.periods@.len() as int,
        ),
{
    let is_live: bool = match &doc.stream_type {
        Some(t) => same(to_ascii_lower(t.as_str()).as_str(), "dynamic"),
        None => false,
    };
    let ghost wanted = crate::text::opt_str(parse_segment_profile_id);
    let mut profiles: Vec<MpdProfile> = Vec::new();
    let mut origins: Vec<ProfileOrigin> = Vec::new();
    assert(planned_views(profiles@, origins@) =~= Seq::empty());
    let mut p: usize = 0;
    while p < doc.periods.len()
        invariant
            p <= doc.periods.len(),
            is_live == is_live_doc(*doc),
            wanted == crate::text::opt_str(parse_segment_profile_id),
            profiles.len() == origins.len(),
            planned_views(profiles@, origins@) == planned_periods(
                *doc,
                mpd_url@,
                wanted,
                p as int,
            ),
        decreases doc.periods.len() - p,
    {
        let sets = &doc.periods[p].adaptation_sets;
        let ghost at_period = planned_views(profiles@, origins@);
        let mut a: usize = 0;
        assert(at_period + planned_sets(*doc, mpd_url@, wanted, p as int, 0) =~= at_period);
        while a < sets.len()
            invariant
                a <= sets.len(),
                p < doc.periods.len(),
                *sets == doc.periods@[p as int].adaptation_sets,
                is_live == is_live_doc(*doc),
                wanted == crate::text::opt_str(parse_segment_profile_id),
                profiles.len() == origins.len(),
                planned_views(profiles@, origins@) == at_period + planned_sets(
                    *doc,
                    mpd_url@,
                    wanted,
                    p as int,
                    a as int,
                ),
            decreases sets.len() - a,
        {
            let set = &sets[a];
            let ghost at_set = planned_views(profiles@, origins@);
            let mut r: usize = 0;
            assert(at_set + planned_reps(*doc, mpd_url@, wanted, p as int, a as int, 0)
                =~= at_set);
            while r < set.representations.len()
                invariant
                    r <= set.representations.len(),
                    p < doc.periods.len(),
                    a < doc.periods@[p as int].adaptation_sets@.len(),
                    *set == doc.periods@[p as int].adaptation_sets@[a as int],
                    is_live == is_live_doc(*doc),
                    wanted == crate::text::opt_str(parse_segment_profile_id),
                    profiles.len() == origins.len(),
                    planned_views(profiles@, origins@) == at_set + planned_reps(
                        *doc,
                        mpd_url@,
                        wanted,
                        p as int,
                        a as int,
                        r as int,
                    ),
                decreases set.representations.len() - r,
            {
                let rep = &set.representations[r];
                if let Some(profile) = parse_representation(rep, set, mpd_url) {
                    let fill: bool = match parse_segment_profile_id {
                        Some(id) => same(id, profile.id.as_str()),
                        None => true,
                    };
                    let plan = if fill {
                        plan_segments(rep, set, is_live)
                    } else {
                        SegmentPlan::Nothing
                    };
                    let ghost before = planned_views(profiles@, origins@);
                    let ghost planned = PlannedView {
                        profile: profile@,
                        period: p as int,
                        adaptation_set: a as int,
                        representation: r as int,
                        plan,
                    };
                    let ghost rest = planned_reps(
                        *doc,
                        mpd_url@,
                        wanted,
                        p as int,
                        a as int,
                        r as int,
                    );
                    profiles.push(profile);
                    origins.push(
                        ProfileOrigin { period: p, adaptation_set: a, representation: r, plan },
                    );
                    assert(planned_views(profiles@, origins@) =~= before.push(planned));
                    assert(before.push(planned) =~= at_set + rest.push(planned));
                }
                r += 1;
            }
            a += 1;
            assert(planned_views(profiles@, origins@) =~= at_period + planned_sets(
                *doc,
                mpd_url@,
                wanted,
                p as int,
                a as int,
            ));
        }
        p += 1;
    }
    ParsedMpd { is_live, profiles, origins, drm_info: extract_drm_info(doc, mpd_url) }
}

/// A profile with its segments, and with them the usual duration where it has none
/// yet.
pub open spec fn with_segments(p: ProfileView, segments: Seq<SegmentView>) -> ProfileView {
    ProfileView {
        segments,
        nominal_duration: match p.nominal_duration {
            Some(n) => Some(n),
            None => nominal_duration(segments),
        },
        ..p
    }
}

/// A profile of a manifest with the segments that its plan stands for.
pub open spec fn filled(
    doc: MpdDocument,
    mpd_url: Seq<char>,
    x: PlannedView,
    timing: SegmentTiming,
) -> ProfileView {
    let set = doc.periods@[x.period].adaptation_sets@[x.adaptation_set];
    let rep = set.representations@[x.representation];
    with_segments(x.profile, segments_of(x.plan, x.profile, rep, set, mpd_url, timing))
}

/// The same profiles, with the plans of one profile alone.
pub open spec fn are_narrowed(all: Seq<PlannedView>, one: Seq<PlannedView>, id: Seq<char>) -> bool {
    &&& one.len() == all.len()
    &&& forall|i: int|
        0 <= i < all.len() ==> #[trigger] one[i] == (PlannedView {
            plan: wanted_plan(all[i].profile.id, Some(id), all[i].plan),
            ..all[i]
        }) && all[i].profile.segments.len() == 0 && all[i].profile.nominal_duration is None
}

/// Lists that are narrowed stay so when they are put together.
proof fn lemma_narrowed_concat(
    a: Seq<PlannedView>,
    b: Seq<PlannedView>,
    c: Seq<PlannedView>,
    d: Seq<PlannedView>,
    id: Seq<char>,
)
    requires
        are_narrowed(a, b, id),
        are_narrowed(c, d, id),
    ensures
        are_narrowed(a + c, b + d, id),
{
    assert forall|i: int| 0 <= i < (a + c).len() implies #[trigger] (b + d)[i] == (PlannedView {
        plan: wanted_plan((a + c)[i].profile.id, Some(id), (a + c)[i].plan),
        ..(a + c)[i]
    }) && (a + c)[i].profile.segments.len() == 0 && (a + c)[i].profile.nominal_duration is None by {
        if i < a.len() {
            assert((b + d)[i] == b[i]);
        } else {
            assert((b + d)[i] == d[i - a.len()]);
        }
    }
}

/// Asking for one profile narrows the profiles of a set.
proof fn lemma_narrowed_reps(
    doc: MpdDocument,
    mpd_url: Seq<char>,
    id: Seq<char>,
    p: int,
    a: int,
    r: int,
)
    ensures
        are_narrowed(
            planned_reps(doc, mpd_url, None, p, a, r),
            planned_reps(doc, mpd_url, Some(id), p, a, r),
            id,
        ),
    decreases r,
{
    if r > 0 {
        lemma_narrowed_reps(doc, mpd_url, id, p, a, r - 1);
        let all = planned_reps(doc, mpd_url, None, p, a, r);
        let one = planned_reps(doc, mpd_url, Some(id), p, a, r);
        let rest = planned_reps(doc, mpd_url, Some(id), p, a, r - 1);
        assert forall|i: int| 0 <= i < all.len() implies #[trigger] one[i] == (PlannedView {
            plan: wanted_plan(all[i].profile.id, Some(id), all[i].plan),
            ..all[i]
        }) && all[i].profile.segments.len() == 0 && all[i].profile.nominal_duration is None by {
            if i < rest.len() {
                assert(one[i] == rest[i]);
            }
        }
    }
}

/// Asking for one profile narrows the profiles of a period.
proof fn lemma_narrowed_sets(
    doc: MpdDocument,
    mpd_url: Seq<char>,
    id: Seq<char>,
    p: int,
    a: int,
)
    ensures
        are_narrowed(
            planned_sets(doc, mpd_url, None, p, a),
            planned_sets(doc, mpd_url, Some(id), p, a),
            id,
        ),
    decreases a,
{
    if a > 0 {
        let n = doc.periods@[p].adaptation_sets@[a - 1].representations@.len() as int;
        lemma_narrowed_sets(doc, mpd_url, id, p, a - 1);
        lemma_narrowed_reps(doc, mpd_url, id, p, a - 1, n);
        lemma_narrowed_concat(
            planned_sets(doc, mpd_url, None, p, a - 1),
            planned_sets(doc, mpd_url, Some(id), p, a - 1),
            planned_reps(doc, mpd_url, None, p, a - 1, n),
            planned_reps(doc, mpd_url, Some(id), p, a - 1, n),
            id,
        );
    }
}

/// Asking for one profile narrows the profiles of a manifest.
proof fn lemma_narrowed_periods(doc: MpdDocument, mpd_url: Seq<char>, id: Seq<char>, p: int)
    ensures
        are_narrowed(
            planned_periods(doc, mpd_url, None, p),
            planned_periods(doc, mpd_url, Some(id), p),
            id,
        ),
    decreases p,
{
    if p > 0 {
        let n = doc.periods@[p - 1].adaptation_sets@.len() as int;
        lemma_narrowed_periods(doc, mpd_url, id, p - 1);
        lemma_narrowed_sets(doc, mpd_url, id, p - 1, n);
        lemma_narrowed_concat(
            planned_periods(doc, mpd_url, None, p - 1),
            planned_periods(doc, mpd_url, Some(id), p - 1),
            planned_sets(doc, mpd_url, None, p - 1, n),
            planned_sets(doc, mpd_url, Some(id), p - 1, n),
            id,
        );
    }
}

/// Asking for the segments of one profile changes nothing but which profiles get
/// segments. The profiles and their order are the same. Those with the wanted
/// identifier are filled in as when all are asked for; each of the others has no
/// segments and no usual duration, and is the same in every other field.
pub proof fn law_one_profile_leaves_the_others(doc: MpdDocument, mpd_url: Seq<char>, id: Seq<char>)
    ensures
        ({
            let n = doc.periods@.len() as int;
            let all = planned_periods(doc, mpd_url, None, n);
            let one = planned_periods(doc, mpd_url, Some(id), n);
            &&& are_narrowed(all, one, id)
            &&& forall|i: int, t: SegmentTiming|
                0 <= i < all.len() ==> #[trigger] filled(doc, mpd_url, one[i], t) == (
                if all[i].profile.id == id {
                    filled(doc, mpd_url, all[i], t)
                } else {
                    ProfileView {
                        segments: Seq::empty(),
                        nominal_duration: None,
                        ..filled(doc, mpd_url, all[i], t)
                    }
                })
        }),
{
    let n = doc.periods@.len() as int;
    let all = planned_periods(doc, mpd_url, None, n);
    let one = planned_periods(doc, mpd_url, Some(id), n);
    lemma_narrowed_periods(doc, mpd_url, id, n);
    assert forall|i: int, t: SegmentTiming| 0 <= i < all.len() implies #[trigger] filled(
        doc,
        mpd_url,
        one[i],
        t,
    ) == (if all[i].profile.id == id {
        filled(doc, mpd_url, all[i], t)
    } else {
        ProfileView {
            segments: Seq::empty(),
            nominal_duration: None,
            ..filled(doc, mpd_url, all[i], t)
        }
    }) by {
        assert(one[i].profile == all[i].profile);
    }
}

impl MpdProfile {
    /// Fills the segments in, and with them the usual duration.
    pub fn fill_segments(&mut self, segments: Vec<MpdSegment>)
        ensures
            final(self)@ == with_segments(old(self)@, segment_views(segments@)),
    {
        if self.nominal_duration_mpd_timescale.is_none() {
            self.nominal_duration_mpd_timescale = resolve_nominal_duration(&segments);
        }
        self.segments = segments;
    }
}

} // verus!
