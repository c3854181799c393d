//! Laws on what a profile takes from its manifest.

use vstd::prelude::*;

use crate::laws::dash::{is_rep_base, is_template, lemma_rep_base};
use crate::laws::texts::lemma_digits_only;
use crate::mpd::processor::{
    compute_init_url, generate_from_base, generate_from_list, list_segments, parse_representation,
    plan_segments, SegmentPlan,
};
use crate::mpd::template::{expanded, TemplateArgs};
use crate::mpd::types::{
    segment_views, AdaptationSet, Extinf, MpdProfile, MpdSegment, Representation, SegmentBase,
    SegmentList, SegmentTemplate,
};
use crate::text::{contains, decimal, law_decimal_round_trip, opt_text, parse_unsigned};
use crate::utils::url::resolved;

verus! {

/// An attribute of a representation: its own, or else that of its set.
pub open spec fn inherits(
    own: Option<String>,
    of_set: Option<String>,
    value: Option<Seq<char>>,
) -> bool {
    &&& own matches Some(t) ==> value == Some(t@)
    &&& own is None ==> value == opt_text(of_set)
}

/// A number of an attribute.
pub open spec fn reads(text: Option<String>, n: int, max: int) -> bool {
    text matches Some(t) && parse_unsigned(t@, max) == Some(n)
}

/// The profile of a video or audio representation. What the representation states
/// goes before what its set states; its identifier is made of those of the set and
/// of the representation and of its bandwidth.
pub proof fn law_profiles(
    rep: &Representation,
    set: &AdaptationSet,
    mpd_url: &str,
    out: Option<MpdProfile>,
    mime: String,
)
    requires
        call_ensures(parse_representation, (rep, set, mpd_url), out),
        rep.mime_type == Some(mime) || (rep.mime_type is None && set.mime_type == Some(mime)),
    ensures
        out is Some <==> contains(mime@, "video"@) || contains(mime@, "audio"@),
        out matches Some(p) ==> {
            &&& p.mime_type@ == mime@
            &&& rep.id matches Some(id) ==> p.rep_id@ == id@
            &&& inherits(
                rep.codecs,
                set.codecs,
                if rep.codecs is Some || set.codecs is Some {
                    Some(p.codecs@)
                } else {
                    None
                },
            )
            &&& inherits(rep.lang, set.lang, opt_text(p.lang))
            &&& inherits(
                rep.audio_sampling_rate,
                set.audio_sampling_rate,
                opt_text(p.audio_sampling_rate),
            )
            &&& forall|n: u64| #[trigger] reads(rep.bandwidth, n as int, u64::MAX as int)
                ==> p.bandwidth == n
            &&& rep.bandwidth is None ==> forall|n: u64| #[trigger]
                reads(set.bandwidth, n as int, u64::MAX as int) ==> p.bandwidth == n
            &&& forall|n: u32| #[trigger] reads(rep.width, n as int, u32::MAX as int)
                ==> p.width == n
            &&& forall|n: u32| #[trigger] reads(rep.height, n as int, u32::MAX as int)
                ==> p.height == n
            &&& rep.width is None ==> forall|n: u32| #[trigger]
                reads(set.width, n as int, u32::MAX as int) ==> p.width == n
            &&& rep.height is None ==> forall|n: u32| #[trigger]
                reads(set.height, n as int, u32::MAX as int) ==> p.height == n
            &&& rep.frame_rate matches Some(f) ==> p.frame_rate@ == f@
            &&& rep.frame_rate is None && set.max_frame_rate is Some ==> p.frame_rate@
                == set.max_frame_rate->0@
            &&& rep.frame_rate is None && set.max_frame_rate is None && set.frame_rate is Some
                ==> p.frame_rate@ == set.frame_rate->0@
            &&& rep.audio_channels matches Some(c) ==> p.channels@ == c@
            &&& rep.sar matches Some(s) ==> p.sar@ == s@
            &&& set.id is Some && rep.id is Some ==> p.id@ == set.id->0@ + "_"@ + rep.id->0@
                + "_"@ + decimal(p.bandwidth as int)
            &&& p.segments@.len() == 0
        },
{
    if let Some(p) = out {
        assert(p@.segments.len() == p.segments@.len());
    }
}

/// What a profile takes from the template of its representation.
pub proof fn law_profile_templates(
    rep: &Representation,
    set: &AdaptationSet,
    mpd_url: &str,
    p: MpdProfile,
    t: SegmentTemplate,
    base: Seq<char>,
)
    requires
        call_ensures(parse_representation, (rep, set, mpd_url), Some(p)),
        is_template(*rep, *set, t),
        is_rep_base(*rep, base),
    ensures
        p.segment_template_start_number_explicit == t.start_number is Some,
        forall|n: u64| #[trigger]
            reads(t.start_number, n as int, u64::MAX as int)
                ==> p.segment_template_start_number == n,
        t.start_number is None ==> p.segment_template_start_number == 1,
        forall|n: u64| #[trigger]
            reads(t.timescale, n as int, u64::MAX as int) ==> p.segment_template_timescale == n,
        t.timescale is None ==> p.segment_template_timescale == 1,
        t.initialization matches Some(i) ==> opt_text(p.init_url) == Some(
            resolved(
                mpd_url@,
                base + expanded(
                    i@,
                    TemplateArgs {
                        representation_id: p.rep_id@,
                        bandwidth: p.bandwidth,
                        number: 1,
                        time: 0,
                    },
                ),
            ),
        ) && p.init_range is None,
{
    lemma_rep_base(*rep, base);
}

/// The segment list of a representation: its own, or else that of its set.
pub open spec fn is_list(rep: Representation, set: AdaptationSet, l: SegmentList) -> bool {
    rep.segment_list == Some(l) || (rep.segment_list is None && set.segment_list == Some(l))
}

/// Where the initialization section of a profile is found without a template: by its
/// own URL in a list, as a range of the base URL, or at the base URL itself.
pub proof fn law_initialization(
    rep: &Representation,
    set: &AdaptationSet,
    mpd_url: &str,
    rep_id: &str,
    bandwidth: u64,
    out: (Option<String>, Option<String>),
    base: Seq<char>,
)
    requires
        call_ensures(compute_init_url, (rep, set, mpd_url, rep_id, bandwidth), out),
        rep.segment_template is None && set.segment_template is None,
        is_rep_base(*rep, base),
    ensures
        forall|l: SegmentList| #[trigger]
            is_list(*rep, *set, l) && (l.initialization matches Some(i) && i.source_url is Some)
                ==> opt_text(out.0) == Some(
                resolved(mpd_url@, l.initialization->0.source_url->0@),
            ) && out.1 is None,
        forall|l: SegmentList| #[trigger]
            is_list(*rep, *set, l) && (l.initialization matches Some(i) && i.source_url is None
                && i.range is Some) ==> opt_text(out.0) == Some(resolved(mpd_url@, base))
                && opt_text(out.1) == Some(l.initialization->0.range->0@),
        rep.segment_list is None && set.segment_list is None && rep.segment_base is Some
            ==> opt_text(out.0) == Some(resolved(mpd_url@, base)),
        rep.segment_list is None && set.segment_list is None && (rep.segment_base matches Some(b)
            && b.initialization matches Some(i) && i.range is Some) ==> opt_text(out.1) == Some(
            rep.segment_base->0.initialization->0.range->0@,
        ),
{
    lemma_rep_base(*rep, base);
}

/// Where the segments of a representation come from: a template goes before a list,
/// and a list before a single file. A timeline goes before a fixed duration, and
/// whether the stream is live decides how many segments of a fixed duration there
/// are.
pub proof fn law_plans(rep: &Representation, set: &AdaptationSet, is_live: bool, out: SegmentPlan)
    requires
        call_ensures(plan_segments, (rep, set, is_live), out),
    ensures
        forall|t: SegmentTemplate| #[trigger]
            is_template(*rep, *set, t) && t.media is Some && t.segment_timeline is Some
                ==> out is Timeline,
        forall|t: SegmentTemplate, d: u64|
            #![trigger is_template(*rep, *set, t), reads(t.duration, d as int, u64::MAX as int)]
            is_template(*rep, *set, t) && t.media is Some && t.segment_timeline is None && reads(
                t.duration,
                d as int,
                u64::MAX as int,
            ) && d > 0 ==> if is_live {
                out is Live && out->Live_duration == d
            } else {
                out is Vod && out->Vod_duration == d
            },
        forall|t: SegmentTemplate, n: u64|
            #![trigger is_template(*rep, *set, t), reads(t.start_number, n as int, u64::MAX as int)]
            is_template(*rep, *set, t) && reads(t.start_number, n as int, u64::MAX as int)
                ==> (out matches SegmentPlan::Timeline {
                start_number,
                ..
            } ==> start_number == n) && (out matches SegmentPlan::Live { start_number, .. }
                ==> start_number
                == n) && (out matches SegmentPlan::Vod { start_number, .. } ==> start_number == n),
        forall|t: SegmentTemplate, n: u64|
            #![trigger is_template(*rep, *set, t), reads(t.timescale, n as int, u64::MAX as int)]
            is_template(*rep, *set, t) && reads(t.timescale, n as int, u64::MAX as int)
                ==> (out matches SegmentPlan::Timeline {
                timescale,
                ..
            } ==> timescale == n) && (out matches SegmentPlan::Live { timescale, .. } ==> timescale
                == n) && (out matches SegmentPlan::Vod { timescale, .. } ==> timescale == n),
        rep.segment_template is None && set.segment_template is None && (rep.segment_list is Some
            || set.segment_list is Some) ==> out is List,
        rep.segment_template is None && set.segment_template is None && rep.segment_list is None
            && set.segment_list is None && rep.segment_base is Some ==> out is Single,
{
}

/// The segments of a list are made of its entries that name a file, in order.
proof fn lemma_list(
    l: SegmentList,
    base: Seq<char>,
    mpd_url: Seq<char>,
    extinf: crate::mpd::types::ExtinfView,
    n: int,
)
    requires
        0 <= n <= l.segment_urls@.len(),
        base.len() > 0 || forall|i: int|
            0 <= i < l.segment_urls@.len() ==> (#[trigger] l.segment_urls@[i]).media is Some,
    ensures
        list_segments(l, base, mpd_url, extinf, n).len() == n,
        forall|i: int|
            0 <= i < n ==> {
                let s = #[trigger] list_segments(l, base, mpd_url, extinf, n)[i];
                &&& s.number == (i + 1) as u64
                &&& s.extinf == extinf
                &&& s.media_range == opt_text(l.segment_urls@[i].media_range)
                &&& s.media == resolved(
                    mpd_url,
                    match l.segment_urls@[i].media {
                        Some(m) => m@,
                        None => base,
                    },
                )
            },
    decreases n,
{
    if n > 0 {
        lemma_list(l, base, mpd_url, extinf, n - 1);
        let rest = list_segments(l, base, mpd_url, extinf, n - 1);
        let all = list_segments(l, base, mpd_url, extinf, n);
        let u = l.segment_urls@[n - 1];
        assert(u.media is Some || base.len() > 0);
        assert forall|i: int| 0 <= i < n implies {
            let s = #[trigger] all[i];
            &&& s.number == (i + 1) as u64
            &&& s.extinf == extinf
            &&& s.media_range == opt_text(l.segment_urls@[i].media_range)
            &&& s.media == resolved(
                mpd_url,
                match l.segment_urls@[i].media {
                    Some(m) => m@,
                    None => base,
                },
            )
        } by {
            if i < n - 1 {
                assert(all[i] == rest[i]);
            }
        }
    }
}

/// Each entry of a segment list becomes a segment: at its own URL, or else at the
/// base URL, with its byte range.
pub proof fn law_listed_segments(
    list: &SegmentList,
    rep: &Representation,
    mpd_url: &str,
    extinf: &Extinf,
    out: Vec<MpdSegment>,
    base: Seq<char>,
    i: int,
)
    requires
        call_ensures(generate_from_list, (list, rep, mpd_url, extinf), out),
        is_rep_base(*rep, base),
        base.len() > 0 || forall|k: int|
            0 <= k < list.segment_urls@.len() ==> (#[trigger] list.segment_urls@[k]).media is Some,
        0 <= i < list.segment_urls@.len(),
    ensures
        out@.len() == list.segment_urls@.len(),
        out@[i].number == (i + 1) as u64,
        out@[i].extinf.text@ == extinf.text@,
        opt_text(out@[i].media_range) == opt_text(list.segment_urls@[i].media_range),
        out@[i].media@ == resolved(
            mpd_url@,
            match list.segment_urls@[i].media {
                Some(m) => m@,
                None => base,
            },
        ),
{
    lemma_rep_base(*rep, base);
    lemma_list(*list, base, mpd_url@, extinf@, list.segment_urls@.len() as int);
    assert(segment_views(out@).len() == out@.len());
    assert(segment_views(out@)[i] == out@[i]@);
}

/// A single file is one segment. It begins behind its initialization section, and
/// keeps the range of its index.
pub proof fn law_single_files(
    base: &SegmentBase,
    rep: &Representation,
    mpd_url: &str,
    extinf: Extinf,
    out: Vec<MpdSegment>,
    url: Seq<char>,
    first: u64,
    last: u64,
    range: String,
)
    requires
        call_ensures(generate_from_base, (base, rep, mpd_url, extinf), out),
        is_rep_base(*rep, url),
        base.initialization matches Some(i) && i.range == Some(range),
        range@ == decimal(first as int) + "-"@ + decimal(last as int),
        last < u64::MAX,
    ensures
        out@.len() == 1,
        out@[0].media@ == resolved(mpd_url@, url),
        out@[0].extinf.text@ == extinf.text@,
        opt_text(out@[0].init_range) == Some(range@),
        opt_text(out@[0].media_range) == Some(decimal(last + 1) + "-"@),
        opt_text(out@[0].index_range) == opt_text(base.index_range),
{
    lemma_rep_base(*rep, url);
    assert(segment_views(out@).len() == out@.len());
    assert(segment_views(out@)[0] == out@[0]@);
    reveal_strlit("-");
    assert("-"@ =~= seq!['-']);
    let x = decimal(first as int);
    let y = decimal(last as int);
    lemma_digits_only(first as int, '-');
    lemma_digits_only(last as int, '-');
    assert(range@ =~= x + seq!['-'] + y);
    crate::text::lemma_split_concat_from(x, '-', y, 0);
    crate::laws::texts::lemma_uncut(x, '-');
    crate::laws::texts::lemma_uncut(y, '-');
    assert(crate::text::split_text(range@, '-') =~= seq![x, y]);
    crate::laws::texts::lemma_trimmed_digits(last as int);
    law_decimal_round_trip(last as int, u64::MAX - 1);
}

} // verus!
