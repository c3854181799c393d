//! Laws on whole manifests, segment indexes and the requests of the DASH endpoints.

use vstd::prelude::*;

use crate::auth::encryption::ProxyData;
use crate::config::Config;
use crate::error::{AppError, AppResult};
use crate::laws::texts::{lemma_cut, lemma_digits_only};
use crate::mpd::handler::{
    build_proxy_params, init_request, mime_type_to_content_type, plain_segment_body, plan_sidx,
    range_header, segment_request, InitRequest, SegmentMode, SegmentRequest, SidxPlan,
};
use crate::mpd::processor::{
    drm_elements, drm_reps, drm_sets, extract_drm_info, is_live_doc, no_drm, parse_mpd_document,
    parse_representation, plan_of, plan_segments, planned_periods, planned_reps, planned_sets,
    planned_views, profile_of, wanted_plan, DrmInfo, DrmView, ParsedMpd, PlannedView, SegmentPlan,
};
use crate::mpd::sidx::{
    big_endian, fragment_views, fragments, head_at, is_media, parse_sidx_fragments, reference_count,
    reference_size, reference_start, sidx_from, SidxFragment, SidxHead,
};
use crate::mpd::types::{AdaptationSet, MpdDocument, MpdProfile, Representation};
use crate::mpd::urls::MpdProxyParams;
use crate::string_map::{lookup, StringMap};
use crate::text::{
    ascii_lower, contains, decimal, join_texts, law_decimal_round_trip, lemma_split_join, lowercase,
    none_hold, opt_str, opt_text, starts_with,
};
use crate::utils::url::resolved;

verus! {

// ---------------------------------------------------------------------------
// Manifests
// ---------------------------------------------------------------------------

/// Where a profile comes from.
pub open spec fn comes_before(a: PlannedView, b: PlannedView) -> bool {
    ||| a.period < b.period
    ||| a.period == b.period && a.adaptation_set < b.adaptation_set
    ||| a.period == b.period && a.adaptation_set == b.adaptation_set && a.representation
        < b.representation
}

/// The profiles are in the order of the manifest.
pub open spec fn are_in_order(s: Seq<PlannedView>) -> bool {
    forall|i: int, j: int| 0 <= i < j < s.len() ==> comes_before(#[trigger] s[i], #[trigger] s[j])
}

/// The profiles of a set are in order.
proof fn lemma_reps_in_order(
    doc: MpdDocument,
    url: Seq<char>,
    wanted: Option<Seq<char>>,
    p: int,
    a: int,
    n: int,
)
    ensures
        are_in_order(planned_reps(doc, url, wanted, p, a, n)),
        forall|i: int|
            0 <= i < planned_reps(doc, url, wanted, p, a, n).len() ==> {
                let x = #[trigger] planned_reps(doc, url, wanted, p, a, n)[i];
                x.period == p && x.adaptation_set == a && x.representation < n
            },
    decreases n,
{
    if n > 0 {
        lemma_reps_in_order(doc, url, wanted, p, a, n - 1);
        let s = planned_reps(doc, url, wanted, p, a, n);
        let r = planned_reps(doc, url, wanted, p, a, n - 1);
        assert forall|i: int| 0 <= i < s.len() implies {
            let x = #[trigger] s[i];
            x.period == p && x.adaptation_set == a && x.representation < n
        } by {
            if i < r.len() {
                assert(s[i] == r[i]);
            }
        }
        assert forall|i: int, j: int| 0 <= i < j < s.len() implies comes_before(
            #[trigger] s[i],
            #[trigger] s[j],
        ) by {
            if j < r.len() {
                assert(s[i] == r[i] && s[j] == r[j]);
            } else {
                assert(s[i] == r[i]);
            }
        }
    }
}

/// Lists in order are in order one behind the other.
proof fn lemma_order_concat(x: Seq<PlannedView>, y: Seq<PlannedView>)
    requires
        are_in_order(x),
        are_in_order(y),
        forall|i: int, j: int|
            0 <= i < x.len() && 0 <= j < y.len() ==> comes_before(#[trigger] x[i], #[trigger] y[j]),
    ensures
        are_in_order(x + y),
{
    let s = x + y;
    assert forall|i: int, j: int| 0 <= i < j < s.len() implies comes_before(
        #[trigger] s[i],
        #[trigger] s[j],
    ) by {
        if j < x.len() {
            assert(s[i] == x[i] && s[j] == x[j]);
        } else if i < x.len() {
            assert(s[i] == x[i] && s[j] == y[j - x.len()]);
        } else {
            assert(s[i] == y[i - x.len()] && s[j] == y[j - x.len()]);
        }
    }
}

/// The profiles of a period are in order.
proof fn lemma_sets_in_order(
    doc: MpdDocument,
    url: Seq<char>,
    wanted: Option<Seq<char>>,
    p: int,
    n: int,
)
    ensures
        are_in_order(planned_sets(doc, url, wanted, p, n)),
        forall|i: int|
            0 <= i < planned_sets(doc, url, wanted, p, n).len() ==> {
                let x = #[trigger] planned_sets(doc, url, wanted, p, n)[i];
                x.period == p && x.adaptation_set < n
            },
    decreases n,
{
    if n > 0 {
        lemma_sets_in_order(doc, url, wanted, p, n - 1);
        let m = doc.periods@[p].adaptation_sets@[n - 1].representations@.len() as int;
        lemma_reps_in_order(doc, url, wanted, p, n - 1, m);
        let x = planned_sets(doc, url, wanted, p, n - 1);
        let y = planned_reps(doc, url, wanted, p, n - 1, m);
        lemma_order_concat(x, y);
        let s = planned_sets(doc, url, wanted, p, n);
        assert forall|i: int| 0 <= i < s.len() implies {
            let v = #[trigger] s[i];
            v.period == p && v.adaptation_set < n
        } by {
            if i < x.len() {
                assert(s[i] == x[i]);
            } else {
                assert(s[i] == y[i - x.len()]);
            }
        }
    }
}

/// The profiles of a manifest are in order.
proof fn lemma_periods_in_order(
    doc: MpdDocument,
    url: Seq<char>,
    wanted: Option<Seq<char>>,
    n: int,
)
    ensures
        are_in_order(planned_periods(doc, url, wanted, n)),
        forall|i: int|
            0 <= i < planned_periods(doc, url, wanted, n).len() ==> (#[trigger] planned_periods(
                doc,
                url,
                wanted,
                n,
            )[i]).period < n,
    decreases n,
{
    if n > 0 {
        lemma_periods_in_order(doc, url, wanted, n - 1);
        let m = doc.periods@[n - 1].adaptation_sets@.len() as int;
        lemma_sets_in_order(doc, url, wanted, n - 1, m);
        let x = planned_periods(doc, url, wanted, n - 1);
        let y = planned_sets(doc, url, wanted, n - 1, m);
        lemma_order_concat(x, y);
        let s = planned_periods(doc, url, wanted, n);
        assert forall|i: int| 0 <= i < s.len() implies (#[trigger] s[i]).period < n by {
            if i < x.len() {
                assert(s[i] == x[i]);
            } else {
                assert(s[i] == y[i - x.len()]);
            }
        }
    }
}

/// A representation that has a profile is among those of its set.
proof fn lemma_in_reps(
    doc: MpdDocument,
    url: Seq<char>,
    wanted: Option<Seq<char>>,
    p: int,
    a: int,
    r: int,
    n: int,
) -> (k: int)
    requires
        0 <= r < n,
        profile_of(
            doc.periods@[p].adaptation_sets@[a].representations@[r],
            doc.periods@[p].adaptation_sets@[a],
            url,
        ) is Some,
    ensures
        0 <= k < planned_reps(doc, url, wanted, p, a, n).len(),
        ({
            let set = doc.periods@[p].adaptation_sets@[a];
            let rep = set.representations@[r];
            let profile = profile_of(rep, set, url)->0;
            planned_reps(doc, url, wanted, p, a, n)[k] == (PlannedView {
                profile,
                period: p,
                adaptation_set: a,
                representation: r,
                plan: wanted_plan(profile.id, wanted, plan_of(rep, set, is_live_doc(doc))),
            })
        }),
    decreases n,
{
    if r < n - 1 {
        let k = lemma_in_reps(doc, url, wanted, p, a, r, n - 1);
        assert(planned_reps(doc, url, wanted, p, a, n)[k] == planned_reps(
            doc,
            url,
            wanted,
            p,
            a,
            n - 1,
        )[k]);
        k
    } else {
        planned_reps(doc, url, wanted, p, a, n - 1).len() as int
    }
}

/// What is among the profiles of a set is among those of its period.
proof fn lemma_in_sets(
    doc: MpdDocument,
    url: Seq<char>,
    wanted: Option<Seq<char>>,
    p: int,
    a: int,
    n: int,
    k: int,
) -> (m: int)
    requires
        0 <= a < n,
        0 <= k < planned_reps(
            doc,
            url,
            wanted,
            p,
            a,
            doc.periods@[p].adaptation_sets@[a].representations@.len() as int,
        ).len(),
    ensures
        0 <= m < planned_sets(doc, url, wanted, p, n).len(),
        planned_sets(doc, url, wanted, p, n)[m] == planned_reps(
            doc,
            url,
            wanted,
            p,
            a,
            doc.periods@[p].adaptation_sets@[a].representations@.len() as int,
        )[k],
    decreases n,
{
    let x = planned_sets(doc, url, wanted, p, n - 1);
    if a < n - 1 {
        let m = lemma_in_sets(doc, url, wanted, p, a, n - 1, k);
        assert(planned_sets(doc, url, wanted, p, n)[m] == x[m]);
        m
    } else {
        x.len() + k
    }
}

/// What is among the profiles of a period is among those of the manifest.
proof fn lemma_in_periods(
    doc: MpdDocument,
    url: Seq<char>,
    wanted: Option<Seq<char>>,
    p: int,
    n: int,
    k: int,
) -> (m: int)
    requires
        0 <= p < n,
        0 <= k < planned_sets(
            doc,
            url,
            wanted,
            p,
            doc.periods@[p].adaptation_sets@.len() as int,
        ).len(),
    ensures
        0 <= m < planned_periods(doc, url, wanted, n).len(),
        planned_periods(doc, url, wanted, n)[m] == planned_sets(
            doc,
            url,
            wanted,
            p,
            doc.periods@[p].adaptation_sets@.len() as int,
        )[k],
    decreases n,
{
    let x = planned_periods(doc, url, wanted, n - 1);
    if p < n - 1 {
        let m = lemma_in_periods(doc, url, wanted, p, n - 1, k);
        assert(planned_periods(doc, url, wanted, n)[m] == x[m]);
        m
    } else {
        x.len() + k
    }
}

/// Every representation that has a profile is among the profiles of its manifest,
/// with its place and the plan of its segments; a plan is left out where the segments
/// of another profile are asked for. The profiles are in the order of the manifest,
/// and it is live where its type says so.
pub proof fn law_manifest_profiles(
    doc: &MpdDocument,
    url: &str,
    wanted: Option<&str>,
    parsed: ParsedMpd,
    p: int,
    a: int,
    r: int,
    rep: &Representation,
    set: &AdaptationSet,
    profile: MpdProfile,
    plan: SegmentPlan,
)
    requires
        call_ensures(parse_mpd_document, (doc, url, wanted), parsed),
        0 <= p < doc.periods@.len(),
        0 <= a < doc.periods@[p].adaptation_sets@.len(),
        0 <= r < doc.periods@[p].adaptation_sets@[a].representations@.len(),
        *set == doc.periods@[p].adaptation_sets@[a],
        *rep == doc.periods@[p].adaptation_sets@[a].representations@[r],
        call_ensures(parse_representation, (rep, set, url), Some(profile)),
        call_ensures(plan_segments, (rep, set, parsed.is_live), plan),
    ensures
        exists|k: int|
            0 <= k < parsed.profiles@.len() && (#[trigger] parsed.profiles@[k])@ == profile@
                && parsed.origins@[k].period == p && parsed.origins@[k].adaptation_set == a
                && parsed.origins@[k].representation == r && parsed.origins@[k].plan == if wanted
                is None || wanted->0@ == profile.id@ {
                plan
            } else {
                SegmentPlan::Nothing
            },
        are_in_order(planned_views(parsed.profiles@, parsed.origins@)),
        parsed.is_live <==> (doc.stream_type matches Some(t) && ascii_lower(t@) == "dynamic"@),
{
    let w = opt_str(wanted);
    let n = doc.periods@.len() as int;
    let nr = set.representations@.len() as int;
    let ns = doc.periods@[p].adaptation_sets@.len() as int;
    let i = lemma_in_reps(*doc, url@, w, p, a, r, nr);
    let j = lemma_in_sets(*doc, url@, w, p, a, ns, i);
    let k = lemma_in_periods(*doc, url@, w, p, n, j);
    lemma_periods_in_order(*doc, url@, w, n);
    let v = planned_views(parsed.profiles@, parsed.origins@);
    assert(v[k].profile == parsed.profiles@[k]@);
}

// ---------------------------------------------------------------------------
// Content protection
// ---------------------------------------------------------------------------

/// Representations without elements add nothing.
proof fn lemma_bare_reps(info: DrmView, reps: Seq<Representation>, n: int)
    requires
        0 <= n <= reps.len(),
        forall|i: int| 0 <= i < reps.len() ==> (#[trigger] reps[i]).content_protection@.len() == 0,
    ensures
        drm_reps(info, reps, n) == info,
    decreases n,
{
    if n > 0 {
        lemma_bare_reps(info, reps, n - 1);
        assert(reps[n - 1].content_protection@.len() == 0);
    }
}

/// What one protection element says is what is known of the manifest: its system by
/// its scheme, the key without dashes, and the license URL made absolute.
pub proof fn law_protection(doc: &MpdDocument, url: &str, out: DrmInfo)
    requires
        call_ensures(extract_drm_info, (doc, url), out),
        doc.periods@.len() == 1,
        doc.periods@[0].adaptation_sets@.len() == 1,
        forall|i: int|
            0 <= i < doc.periods@[0].adaptation_sets@[0].representations@.len() ==> (
            #[trigger] doc.periods@[0].adaptation_sets@[0].representations@[i]).content_protection@.len()
                == 0,
    ensures
        ({
            let cps = doc.periods@[0].adaptation_sets@[0].content_protection@;
            let s = lowercase(cps[0].scheme_id_uri->0@);
            &&& cps.len() == 0 ==> !out.is_drm_protected
            &&& cps.len() == 1 ==> out.is_drm_protected
            &&& cps.len() == 1 && cps[0].scheme_id_uri is Some && !contains(s, "clearkey"@) && (
            contains(s, "widevine"@) || contains(s, "edef8ba9-79d6-4ace-a3c8-27dcd51d21ed"@))
                ==> opt_text(out.drm_system) == Some("widevine"@) && opt_text(out.pssh)
                == opt_text(cps[0].cenc_pssh)
            &&& cps.len() == 1 && cps[0].scheme_id_uri is Some && contains(s, "clearkey"@)
                ==> opt_text(out.drm_system) == Some("clearkey"@) && (
            cps[0].clearkey_laurl matches Some(la) ==> opt_text(out.la_url) == Some(
                if starts_with(la@, "http://"@) || starts_with(la@, "https://"@) {
                    la@
                } else {
                    resolved(url@, la@)
                },
            ))
            &&& cps.len() == 1 && cps[0].scheme_id_uri is Some && !contains(s, "clearkey"@)
                && !contains(s, "widevine"@) && !contains(
                s,
                "edef8ba9-79d6-4ace-a3c8-27dcd51d21ed"@,
            ) && (contains(s, "playready"@) || contains(
                s,
                "9a04f079-9840-4286-ab92-e65be0885f95"@,
            )) ==> opt_text(out.drm_system) == Some("playready"@) && (
            cps[0].ms_license_url matches Some(la) ==> opt_text(out.la_url) == Some(
                if starts_with(la@, "http://"@) || starts_with(la@, "https://"@) {
                    la@
                } else {
                    resolved(url@, la@)
                },
            ))
            &&& cps.len() == 1 && (cps[0].cenc_default_kid matches Some(k) && !contains(k@, "-"@))
                ==> opt_text(out.key_id) == Some(cps[0].cenc_default_kid->0@)
        }),
{
    let periods = doc.periods@;
    let sets = periods[0].adaptation_sets@;
    let cps = sets[0].content_protection@;
    let reps = sets[0].representations@;
    let start = no_drm();
    reveal_with_fuel(crate::mpd::processor::drm_periods, 2);
    reveal_with_fuel(drm_sets, 2);
    reveal_with_fuel(drm_elements, 2);
    lemma_bare_reps(drm_elements(start, cps, cps.len() as int), reps, reps.len() as int);
    if cps.len() == 1 {
        if let Some(k) = cps[0].cenc_default_kid {
            reveal_strlit("-");
            if !contains(k@, "-"@) {
                crate::laws::texts::lemma_replaced_nowhere(k@, "-"@, ""@);
            }
        }
        reveal_strlit("clearkey");
        reveal_strlit("widevine");
        reveal_strlit("playready");
        assert("clearkey"@[0] == 'c' && "widevine"@[0] == 'w' && "playready"@[0] == 'p');
    }
}

// ---------------------------------------------------------------------------
// Segment indexes
// ---------------------------------------------------------------------------

/// Two bytes, the greater one first.
pub open spec fn two(s: Seq<u8>, at: int) -> int {
    s[at] * 0x100 + s[at + 1]
}

/// Four bytes, the greatest one first.
pub open spec fn four(s: Seq<u8>, at: int) -> int {
    s[at] * 0x100_0000 + s[at + 1] * 0x1_0000 + s[at + 2] * 0x100 + s[at + 3]
}

/// The two readings of a number agree.
proof fn lemma_numbers(s: Seq<u8>, at: int)
    ensures
        big_endian(s, at, 2) == two(s, at),
        big_endian(s, at, 4) == four(s, at),
{
    reveal_with_fuel(big_endian, 5);
}

/// A plain segment index: one box of version 0 whose references are all to media.
pub open spec fn is_index(s: Seq<u8>, n: int) -> bool {
    &&& s.len() >= 32 + 12 * n
    &&& s.subrange(4, 8) == seq![115u8, 105, 100, 120]
    &&& s[8] == 0
    &&& four(s, 0) >= 8
    &&& two(s, 30) == n
    &&& forall|i: int| 0 <= i < n ==> #[trigger] size_at(s, i) < 0x8000_0000
}

/// The size of reference `i` of a plain index.
pub open spec fn size_at(s: Seq<u8>, i: int) -> int {
    four(s, 32 + 12 * i)
}

/// All references are fragments.
proof fn lemma_fragments(s: Seq<u8>, h: SidxHead, n: int)
    requires
        0 <= n,
        forall|i: int| 0 <= i < n ==> #[trigger] is_media(s, h, i),
    ensures
        fragments(s, h, n).len() == n,
        forall|i: int|
            0 <= i < n ==> {
                let f = #[trigger] fragments(s, h, n)[i];
                &&& f.start == reference_start(s, h, i)
                &&& f.end == reference_start(s, h, i + 1) - 1
                &&& f.duration == big_endian(s, h.at + 12 * i + 4, 4)
                &&& f.timescale == h.timescale
            },
    decreases n,
{
    if n > 0 {
        lemma_fragments(s, h, n - 1);
        assert(is_media(s, h, n - 1));
        let all = fragments(s, h, n);
        let rest = fragments(s, h, n - 1);
        assert forall|i: int| 0 <= i < n implies {
            let f = #[trigger] all[i];
            &&& f.start == reference_start(s, h, i)
            &&& f.end == reference_start(s, h, i + 1) - 1
            &&& f.duration == big_endian(s, h.at + 12 * i + 4, 4)
            &&& f.timescale == h.timescale
        } by {
            if i < n - 1 {
                assert(all[i] == rest[i]);
            }
        }
    }
}

/// How far references reach at most.
proof fn lemma_reference_bound(s: Seq<u8>, h: SidxHead, n: int)
    requires
        0 <= n,
    ensures
        h.first <= reference_start(s, h, n) <= h.first + n * 0x8000_0000,
    decreases n,
{
    if n > 0 {
        lemma_reference_bound(s, h, n - 1);
    }
}

/// The fragments of a plain index: the first begins behind the index, as far as it
/// says, each is as long as its reference says, and the next begins right behind it.
pub proof fn law_index_fragments(data: &[u8], at: u64, out: Vec<SidxFragment>, n: int)
    requires
        call_ensures(parse_sidx_fragments, (data, at), out),
        0 < n,
        is_index(data@, n),
        at <= 0x4000_0000_0000_0000,
    ensures
        out@.len() == n,
        out@[0].start == at + four(data@, 0) + four(data@, 24),
        forall|i: int|
            0 <= i < n ==> (#[trigger] out@[i]).end + 1 == out@[i].start + size_at(data@, i)
                && out@[i].duration_timescale == four(data@, 32 + 12 * i + 4) && out@[i].timescale
                == four(data@, 16),
        forall|i: int| 0 <= i < n - 1 ==> (#[trigger] out@[i + 1]).start == out@[i].end + 1,
{
    let s = data@;
    lemma_numbers(s, 0);
    lemma_numbers(s, 16);
    lemma_numbers(s, 24);
    lemma_numbers(s, 30);
    let name = s.subrange(4, 8);
    assert(name[0] == s[4] && name[1] == s[5] && name[2] == s[6] && name[3] == s[7]);
    assert(sidx_from(s, 0) == Some(0int));
    let h = head_at(s, 0, at as int)->0;
    assert(h.at == 32);
    assert(reference_count(s, h) == n) by {
        assert((s.len() - 32) / 12 >= n) by (nonlinear_arith)
            requires
                s.len() >= 32 + 12 * n,
        ;
    }
    assert forall|i: int| 0 <= i < n implies #[trigger] is_media(s, h, i) by {
        lemma_numbers(s, 32 + 12 * i);
        assert(size_at(s, i) < 0x8000_0000);
    }
    lemma_fragments(s, h, n);
    lemma_reference_bound(s, h, n);
    assert(n < 0x1_0000);
    assert(h.first <= 0x4000_0000_0000_0000 + 0x2_0000_0000);
    assert(fragment_views(out@) == fragments(s, h, n));
    assert(out@.len() == n);
    assert forall|i: int| 0 <= i < n implies (#[trigger] out@[i]).end + 1 == out@[i].start
        + size_at(s, i) && out@[i].duration_timescale == four(s, 32 + 12 * i + 4)
        && out@[i].timescale == four(s, 16) by {
        lemma_numbers(s, 32 + 12 * i);
        lemma_numbers(s, 32 + 12 * i + 4);
        assert(size_at(s, i) < 0x8000_0000);
        assert(fragment_views(out@)[i] == out@[i]@);
        assert(reference_start(s, h, i + 1) == reference_start(s, h, i) + reference_size(s, h, i));
        assert(reference_size(s, h, i) == size_at(s, i)) by {
            vstd::arithmetic::div_mod::lemma_small_mod(size_at(s, i) as nat, 0x8000_0000);
        }
    }
    assert forall|i: int| 0 <= i < n - 1 implies (#[trigger] out@[i + 1]).start == out@[i].end
        + 1 by {
        assert(fragment_views(out@)[i] == out@[i]@);
        assert(fragment_views(out@)[i + 1] == out@[i + 1]@);
    }
    assert(fragment_views(out@)[0] == out@[0]@);
}

// ---------------------------------------------------------------------------
// Requests
// ---------------------------------------------------------------------------

/// A parameter that is switched on.
pub open spec fn is_switched_on(v: Seq<char>) -> bool {
    v == "true"@ || v == "1"@
}

/// A parameter that is there and not empty.
pub open spec fn given(query: StringMap, name: Seq<char>) -> Option<Seq<char>> {
    match lookup(query@, name) {
        Some(v) => if v.len() > 0 {
            Some(v)
        } else {
            None
        },
        None => None,
    }
}

/// The parameters of a DASH request go on to all URLs of its playlists.
pub proof fn law_request_params(
    data: &ProxyData,
    query: &StringMap,
    config: &Config,
    out: MpdProxyParams,
)
    requires
        call_ensures(build_proxy_params, (data, query, config), out),
    ensures
        out.api_password@ == config.auth.api_password@,
        data.request_headers matches Some(h) ==> out.pass_headers@ == h@,
        opt_text(out.resolution) == lookup(query@, "resolution"@),
        opt_text(out.skip) == lookup(query@, "skip"@),
        lookup(query@, "remux_to_ts"@) is None ==> out.remux_to_ts == config.mpd.remux_to_ts,
        lookup(query@, "remux_to_ts"@) matches Some(v) ==> out.remux_to_ts == is_switched_on(v),
        given(*query, "key_id"@) is Some ==> opt_text(out.key_id) == given(*query, "key_id"@)
            && opt_text(out.key) == given(*query, "key"@),
        given(*query, "key"@) is None ==> out.key is None,
{
}

/// A pair of a key's identifier and the key.
pub open spec fn key_pair(id: Seq<char>, key: Seq<char>) -> Seq<char> {
    id + ":"@ + key
}

/// Several keys in one parameter, each behind its identifier, are parted: the
/// identifiers in one list and the keys in another, in the same order.
pub proof fn law_keys_are_parted(
    data: &ProxyData,
    query: &StringMap,
    config: &Config,
    out: MpdProxyParams,
    ids: Seq<Seq<char>>,
    keys: Seq<Seq<char>>,
)
    requires
        call_ensures(build_proxy_params, (data, query, config), out),
        given(*query, "key_id"@) is None,
        ids.len() == keys.len() && ids.len() > 0,
        forall|i: int|
            0 <= i < ids.len() ==> !(#[trigger] ids[i]).contains(':') && !ids[i].contains(','),
        forall|i: int| 0 <= i < keys.len() ==> !(#[trigger] keys[i]).contains(','),
        lookup(query@, "key"@) == Some(
            join_texts(Seq::new(ids.len(), |i: int| key_pair(ids[i], keys[i])), ","@),
        ),
    ensures
        opt_text(out.key_id) == Some(join_texts(ids, ","@)),
        opt_text(out.key) == Some(join_texts(keys, ","@)),
{
    let parts = Seq::new(ids.len(), |i: int| key_pair(ids[i], keys[i]));
    let k = join_texts(parts, ","@);
    reveal_strlit(",");
    reveal_strlit(":");
    assert(","@ =~= seq![',']);
    assert(":"@ =~= seq![':']);
    assert(none_hold(parts, ',')) by {
        assert forall|i: int| 0 <= i < parts.len() implies !(#[trigger] parts[i]).contains(',') by {
            if parts[i].contains(',') {
                let j = choose|j: int| 0 <= j < parts[i].len() && parts[i][j] == ',';
                if j < ids[i].len() {
                    assert(ids[i][j] == ',');
                } else if j > ids[i].len() {
                    assert(keys[i][j - ids[i].len() - 1] == ',');
                }
            }
        }
    }
    lemma_split_join(parts, ',');
    assert(k.len() > 0) by {
        if k.len() == 0 {
            crate::laws::texts::lemma_uncut(k, ',');
            assert(parts =~= seq![k]);
            assert(parts[0].len() > 0);
        }
    }
    assert forall|i: int| 0 <= i < parts.len() implies (#[trigger] parts[i]).contains(':')
        && crate::text::before_char(parts[i], ':') == ids[i] && crate::text::after_char(
        parts[i],
        ':',
    ) == Some(keys[i]) by {
        assert(parts[i] =~= ids[i] + seq![':'] + keys[i]);
        lemma_cut(ids[i], ':', keys[i]);
        assert(parts[i][ids[i].len() as int] == ':');
    }
    assert(crate::mpd::handler::all_key_pairs(parts));
    assert(crate::mpd::handler::pair_ids(parts) =~= ids);
    assert(crate::mpd::handler::pair_keys(parts) =~= keys);
}

/// What a request for a segment names, and how the segment is served: decrypted
/// where the key and its identifier are given, while it is fetched where it is a part
/// of a file.
pub proof fn law_segment_requests(query: &StringMap, r: AppResult<SegmentRequest>)
    requires
        call_ensures(segment_request, (query,), r),
    ensures
        r is Ok <==> lookup(query@, "init_url"@) is Some && lookup(query@, "segment_url"@) is Some,
        r matches Ok(s) ==> {
            &&& Some(s.init.init_url@) == lookup(query@, "init_url"@)
            &&& Some(s.segment_url@) == lookup(query@, "segment_url"@)
            &&& opt_text(s.segment_range) == given(*query, "segment_range"@)
            &&& opt_text(s.init.init_range) == lookup(query@, "init_range"@)
            &&& s.init.keys is Some <==> given(*query, "key_id"@) is Some && given(
                *query,
                "key"@,
            ) is Some
            &&& s.init.keys matches Some(k) ==> Some(k.0@) == given(*query, "key_id"@) && Some(
                k.1@,
            ) == given(*query, "key"@)
            &&& s.use_map == (lookup(query@, "use_map"@) matches Some(v) && is_switched_on(v))
            &&& s.mode == if s.init.keys is None {
                SegmentMode::Plain
            } else if given(*query, "segment_range"@) is Some {
                SegmentMode::DecryptStream
            } else {
                SegmentMode::Decrypt
            }
        },
        r matches Err(e) ==> (e matches AppError::BadRequest(_)),
{
    if let Err(e) = r {
        assert(e@ is BadRequest);
    }
}

/// What a request for an initialization section names.
pub proof fn law_init_requests(query: &StringMap, r: AppResult<InitRequest>)
    requires
        call_ensures(init_request, (query,), r),
    ensures
        r is Ok <==> lookup(query@, "init_url"@) is Some,
        r matches Ok(i) ==> {
            &&& Some(i.init_url@) == lookup(query@, "init_url"@)
            &&& opt_text(i.init_range) == lookup(query@, "init_range"@)
            &&& i.keys is Some <==> given(*query, "key_id"@) is Some && given(
                *query,
                "key"@,
            ) is Some
            &&& i.keys matches Some(k) ==> Some(k.0@) == given(*query, "key_id"@) && Some(k.1@)
                == given(*query, "key"@)
        },
{
}

/// Segments that are remuxed, and those that are transport streams already, are sent
/// as such; all others as MP4.
pub proof fn law_content_types(mime_type: &str, query: &StringMap, r: &'static str)
    requires
        call_ensures(mime_type_to_content_type, (mime_type, query), r),
    ensures
        r@ == if (lookup(query@, "remux_to_ts"@) matches Some(v) && is_switched_on(v)) || contains(
            mime_type@,
            "mp2t"@,
        ) || contains(mime_type@, "mpeg-ts"@) {
            "video/mp2t"@
        } else {
            "video/mp4"@
        },
{
}

/// A segment is sent behind its initialization section, unless the playlist names
/// that by itself.
pub proof fn law_segment_bodies(init: Vec<u8>, segment: Vec<u8>, use_map: bool, r: Vec<u8>)
    requires
        call_ensures(plain_segment_body, (init, segment, use_map), r),
    ensures
        use_map ==> r@ == segment@,
        !use_map ==> r@ == init@ + segment@,
{
}

/// A byte range is asked for as it is.
pub proof fn law_range_headers(range: &str, r: String)
    requires
        call_ensures(range_header, (range,), r),
    ensures
        r@ == "bytes="@ + range@,
{
}

/// The index of a single file is fetched where the file has one; its fragments are
/// counted from the first byte of its range.
pub proof fn law_index_plans(profile: &MpdProfile, r: Option<SidxPlan>, first: u64, tail: Seq<char>)
    requires
        call_ensures(plan_sidx, (profile,), r),
        profile.segments@.len() == 1,
        profile.segments@[0].index_range matches Some(t) && t@ == decimal(first as int) + "-"@
            + tail,
    ensures
        r matches Some(p) && p.media@ == profile.segments@[0].media@ && p.index_range@
            == profile.segments@[0].index_range->0@ && p.start == first,
{
    let t = profile.segments@[0].index_range->0@;
    reveal_strlit("-");
    assert("-"@ =~= seq!['-']);
    lemma_digits_only(first as int, '-');
    assert(t =~= decimal(first as int) + seq!['-'] + tail);
    lemma_cut(decimal(first as int), '-', tail);
    law_decimal_round_trip(first as int, u64::MAX as int);
    assert(profile@.segments[0] == profile.segments@[0]@);
}

} // verus!
