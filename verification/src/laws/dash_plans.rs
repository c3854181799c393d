//! Laws on the segments that plans stand for and on the profiles that are asked for.

use vstd::prelude::*;

use crate::error::AppResult;
use crate::laws::dash::is_template;
use crate::laws::dash_profiles::reads;
use crate::mpd::handler::{matching_profiles, playlist_profile, with_id};
use crate::mpd::playlist::{duration_keys, merged, positive_keys, refs_view};
use crate::mpd::processor::{
    generate_from_entries, generate_from_list, generate_segments, plan_segments, ParsedMpd,
    SegmentPlan, SegmentTiming,
};
use crate::mpd::types::{
    profile_views, segment_views, AdaptationSet, MpdProfile, MpdSegment, ProfileView,
    Representation, SegmentList, SegmentTemplate, SegmentView,
};
use crate::string_map::{lookup, StringMap};

verus! {

/// A plan by time begins at the template's time offset, 0 where it states none. The
/// plan of a list has the list's duration and timescale.
pub proof fn law_plan_numbers(
    rep: &Representation,
    set: &AdaptationSet,
    is_live: bool,
    out: SegmentPlan,
    t: SegmentTemplate,
    l: SegmentList,
    n: u64,
)
    requires
        call_ensures(plan_segments, (rep, set, is_live), out),
    ensures
        is_template(*rep, *set, t) && reads(
            t.presentation_time_offset,
            n as int,
            u64::MAX as int,
        ) ==> (out matches SegmentPlan::Timeline { presentation_time_offset, .. }
            ==> presentation_time_offset == n) && (out matches SegmentPlan::Live {
            presentation_time_offset,
            ..
        } ==> presentation_time_offset == n),
        is_template(*rep, *set, t) && t.presentation_time_offset is None ==> (
        out matches SegmentPlan::Timeline { presentation_time_offset, .. }
            ==> presentation_time_offset == 0) && (out matches SegmentPlan::Live {
            presentation_time_offset,
            ..
        } ==> presentation_time_offset == 0),
        is_template(*rep, *set, t) && t.start_number is None
            ==> (out matches SegmentPlan::Timeline {
            start_number,
            ..
        } ==> start_number == 1) && (out matches SegmentPlan::Live { start_number, .. }
            ==> start_number == 1) && (out matches SegmentPlan::Vod { start_number, .. }
            ==> start_number == 1),
        is_list(*rep, *set, l) && reads(l.duration, n as int, u64::MAX as int) ==> (
        out matches SegmentPlan::List { duration, .. } ==> duration == n),
        is_list(*rep, *set, l) && reads(l.timescale, n as int, u64::MAX as int) ==> (
        out matches SegmentPlan::List { timescale, .. } ==> timescale == n),
        is_template(*rep, *set, t) && (t.media is None || t.segment_timeline is None && t.duration
            is None) ==> out is Nothing,
{
}

/// The segment list of a representation: its own, or else that of its set.
pub open spec fn is_list(rep: Representation, set: AdaptationSet, l: SegmentList) -> bool {
    rep.segment_list == Some(l) || (rep.segment_list is None && set.segment_list == Some(l))
}

/// A plan is carried out by its kind: on the timeline's entries, on the list, or on
/// the single file.
pub proof fn law_planned_segments(
    plan: &SegmentPlan,
    profile: &MpdProfile,
    rep: &Representation,
    set: &AdaptationSet,
    mpd_url: &str,
    timing: &SegmentTiming,
    out: Vec<MpdSegment>,
    template: SegmentTemplate,
    list: &SegmentList,
    of_entries: Vec<MpdSegment>,
    of_list: Vec<MpdSegment>,
)
    requires
        call_ensures(generate_segments, (plan, profile, rep, set, mpd_url, timing), out),
        call_ensures(
            generate_from_entries,
            (profile, rep, set, mpd_url, &timing.entries),
            of_entries,
        ),
        call_ensures(generate_from_list, (list, rep, mpd_url, &timing.extinf), of_list),
    ensures
        plan is Nothing ==> out@.len() == 0,
        (plan is Timeline || plan is Live || plan is Vod) && is_template(*rep, *set, template)
            ==> segment_views(out@) == segment_views(of_entries@),
        plan is List && is_list(*rep, *set, *list) ==> segment_views(out@) == segment_views(
            of_list@,
        ),
        plan is Single && rep.segment_base is Some ==> out@.len() == 1,
{
    assert(segment_views(out@).len() == out@.len());
}

/// The profiles with an identifier among the first `n`, and their places.
proof fn lemma_with_id(ps: Seq<ProfileView>, id: Seq<char>, n: int) -> (places: Seq<int>)
    requires
        0 <= n <= ps.len(),
    ensures
        places.len() == with_id(ps, id, n).len(),
        forall|k: int|
            0 <= k < places.len() ==> 0 <= #[trigger] places[k] < n && with_id(ps, id, n)[k]
                == ps[places[k]],
        forall|k: int, l: int| 0 <= k < l < places.len() ==> places[k] < places[l],
        forall|i: int|
            0 <= i < n ==> (#[trigger] places.contains(i) <==> ps[i].id == id),
    decreases n,
{
    if n <= 0 {
        Seq::empty()
    } else {
        let before = lemma_with_id(ps, id, n - 1);
        if ps[n - 1].id == id {
            let places = before.push(n - 1);
            assert(places[before.len() as int] == n - 1);
            assert forall|i: int| 0 <= i < n implies (#[trigger] places.contains(i) <==> ps[i].id
                == id) by {
                if i < n - 1 {
                    assert(before.contains(i) <==> ps[i].id == id);
                    if before.contains(i) {
                        let k = choose|k: int| 0 <= k < before.len() && before[k] == i;
                        assert(places[k] == i);
                    }
                    if places.contains(i) {
                        let k = choose|k: int| 0 <= k < places.len() && places[k] == i;
                        assert(before[k] == i);
                    }
                }
            }
            places
        } else {
            assert forall|i: int| 0 <= i < n implies (#[trigger] before.contains(i) <==> ps[i].id
                == id) by {
                if i == n - 1 && before.contains(i) {
                    let k = choose|k: int| 0 <= k < before.len() && before[k] == i;
                }
            }
            before
        }
    }
}

/// The profiles that match an identifier are all that have it, in their order; where
/// none has it, that is an error.
pub proof fn law_matching_profiles(
    parsed: &ParsedMpd,
    id: &str,
    out: AppResult<Vec<&MpdProfile>>,
) -> (places: Seq<int>)
    requires
        call_ensures(matching_profiles, (parsed, id), out),
    ensures
        forall|i: int|
            0 <= i < parsed.profiles@.len() ==> (#[trigger] places.contains(i)
                <==> parsed.profiles@[i].id@ == id@),
        forall|k: int, l: int| 0 <= k < l < places.len() ==> places[k] < places[l],
        places.len() == 0 ==> out is Err,
        places.len() > 0 ==> (out matches Ok(v) && v@.len() == places.len() && forall|k: int|
            0 <= k < places.len() ==> 0 <= #[trigger] places[k] < parsed.profiles@.len()
                && v@[k]@ == parsed.profiles@[places[k]]@),
{
    let ps = profile_views(parsed.profiles@);
    let places = lemma_with_id(ps, id@, ps.len() as int);
    assert forall|i: int| 0 <= i < parsed.profiles@.len() implies (#[trigger] places.contains(i)
        <==> parsed.profiles@[i].id@ == id@) by {
        assert(ps[i] == parsed.profiles@[i]@);
    }
    if let Ok(v) = out {
        assert(refs_view(v@).len() == v@.len());
        assert forall|k: int| 0 <= k < places.len() implies 0 <= #[trigger] places[k]
            < parsed.profiles@.len() && v@[k]@ == parsed.profiles@[places[k]]@ by {
            assert(refs_view(v@)[k] == v@[k]@);
            assert(ps[places[k]] == parsed.profiles@[places[k]]@);
        }
    }
    places
}

/// A playlist request names its profile.
pub proof fn law_playlist_profile(query: &StringMap, out: AppResult<String>)
    requires
        call_ensures(playlist_profile, (query,), out),
    ensures
        out is Ok <==> lookup(query@, "profile_id"@) is Some,
        out matches Ok(id) ==> Some(id@) == lookup(query@, "profile_id"@),
{
}

/// The keys of the positive durations.
proof fn lemma_keys(all: Seq<(SegmentView, ProfileView)>, n: int) -> (places: Seq<int>)
    requires
        0 <= n <= all.len(),
    ensures
        places.len() == positive_keys(all, n).len(),
        forall|k: int|
            0 <= k < places.len() ==> 0 <= #[trigger] places[k] < n && positive_keys(all, n)[k]
                == all[places[k]].0.extinf.key,
        forall|k: int, l: int| 0 <= k < l < places.len() ==> places[k] < places[l],
        forall|i: int|
            0 <= i < n ==> (#[trigger] places.contains(i) <==> all[i].0.extinf.positive),
    decreases n,
{
    if n <= 0 {
        Seq::empty()
    } else {
        let before = lemma_keys(all, n - 1);
        if all[n - 1].0.extinf.positive {
            let places = before.push(n - 1);
            assert(places[before.len() as int] == n - 1);
            assert forall|i: int| 0 <= i < n implies (#[trigger] places.contains(i)
                <==> all[i].0.extinf.positive) by {
                if i < n - 1 {
                    assert(before.contains(i) <==> all[i].0.extinf.positive);
                    if before.contains(i) {
                        let k = choose|k: int| 0 <= k < before.len() && before[k] == i;
                        assert(places[k] == i);
                    }
                    if places.contains(i) {
                        let k = choose|k: int| 0 <= k < places.len() && places[k] == i;
                        assert(before[k] == i);
                    }
                }
            }
            places
        } else {
            assert forall|i: int| 0 <= i < n implies (#[trigger] before.contains(i)
                <==> all[i].0.extinf.positive) by {
                if i == n - 1 && before.contains(i) {
                    let k = choose|k: int| 0 <= k < before.len() && before[k] == i;
                }
            }
            before
        }
    }
}

/// The durations that a start offset is measured in are those of one profile's
/// segments that are above zero, in order.
pub proof fn law_duration_keys(
    profiles: &Vec<&MpdProfile>,
    out: Vec<u64>,
) -> (places: Seq<int>)
    requires
        call_ensures(duration_keys, (profiles,), out),
        profiles@.len() == 1,
    ensures
        places.len() == out@.len(),
        forall|k: int|
            0 <= k < places.len() ==> 0 <= #[trigger] places[k] < profiles@[0].segments@.len()
                && out@[k] == profiles@[0].segments@[places[k]].extinf.key,
        forall|k: int, l: int| 0 <= k < l < places.len() ==> places[k] < places[l],
        forall|i: int|
            0 <= i < profiles@[0].segments@.len() ==> (#[trigger] places.contains(i)
                <==> profiles@[0].segments@[i].extinf.positive),
{
    let v = refs_view(profiles@);
    let all = merged(v, 1);
    let p = profiles@[0]@;
    assert(v[0] == p);
    assert(merged(v, 0) =~= Seq::empty());
    let own = Seq::new(p.segments.len(), |i: int| (p.segments[i], p));
    assert(all =~= own);
    let places = lemma_keys(all, all.len() as int);
    let segments = profiles@[0].segments@;
    assert(p.segments.len() == segments.len());
    assert forall|i: int| 0 <= i < segments.len() implies (#[trigger] places.contains(i)
        <==> segments[i].extinf.positive) by {
        assert(all[i].0 == segments[i]@);
    }
    assert forall|k: int| 0 <= k < places.len() implies 0 <= #[trigger] places[k] < segments.len()
        && out@[k] == segments[places[k]].extinf.key by {
        assert(all[places[k]].0 == segments[places[k]]@);
    }
    places
}

} // verus!
