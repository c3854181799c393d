//! Laws on the master playlists that are made of a DASH manifest.

use vstd::prelude::*;

use crate::laws::dash_urls::{handed, lemma_playlist_link, playlist_link};
use crate::laws::texts::{lemma_digits_only, lemma_trim_end};
use crate::mpd::playlist::{
    alike, at_least_tall, at_most, audio_choice, audio_codec, audio_line, audio_lines, best_audio,
    build_hls_master, by_rank, by_resolution, default_audio, first_with_id, firsts, greatest_height,
    has_alike, is_ranked, law_by_rank, law_default_audio_comes_first, law_firsts_differ, least_tall,
    master_lines, of_kind, rank, tallest_within, target_height, variant_codecs, video_choice,
    video_line, video_lines, Feature,
};
use crate::mpd::processor::ParsedMpd;
use crate::mpd::types::{profile_views, ProfileView};
use crate::mpd::urls::{MpdParamsView, MpdProxyParams};
use crate::text::{contains, decimal, join_texts, law_decimal_round_trip, starts_with};

verus! {

// ---------------------------------------------------------------------------
// What is offered
// ---------------------------------------------------------------------------

/// A profile is one of some.
#[verifier::opaque]
pub open spec fn member(s: Seq<ProfileView>, p: ProfileView) -> bool {
    exists|i: int| 0 <= i < s.len() && #[trigger] s[i] == p
}

/// A video profile of a manifest.
pub open spec fn is_video_of(ps: Seq<ProfileView>, p: ProfileView) -> bool {
    member(ps, p) && contains(p.mime_type, "video"@)
}

/// An audio profile of a manifest.
pub open spec fn is_audio_of(ps: Seq<ProfileView>, p: ProfileView) -> bool {
    member(ps, p) && contains(p.mime_type, "audio"@)
}

/// A video profile is stood for by one that is offered: one of the same height as a
/// profile of its representation, and of no lower bandwidth.
#[verifier::opaque]
pub open spec fn is_stood_for(
    ps: Seq<ProfileView>,
    offered: Seq<ProfileView>,
    p: ProfileView,
) -> bool {
    exists|q: ProfileView, i: int|
        #![trigger is_video_of(ps, q), offered[i]]
        is_video_of(ps, q) && 0 <= i < offered.len() && q.rep_id == p.rep_id && offered[i].height
            == q.height && offered[i].bandwidth >= q.bandwidth && q.bandwidth >= p.bandwidth
}

/// The video profiles that are offered: best first, no representation twice. Where
/// nothing else is asked for, they are of different heights, and stand for all
/// others unless there are five of them. Else there is one.
#[verifier::opaque]
pub open spec fn is_video_offer(
    ps: Seq<ProfileView>,
    p: MpdParamsView,
    offered: Seq<ProfileView>,
) -> bool {
    &&& forall|i: int| 0 <= i < offered.len() ==> is_video_of(ps, #[trigger] offered[i])
    &&& forall|i: int, j: int|
        0 <= i < j < offered.len() ==> (#[trigger] offered[i]).bandwidth >= (
        #[trigger] offered[j]).bandwidth && offered[i].rep_id != offered[j].rep_id
    &&& if p.resolution is None && !p.remux_to_ts {
        &&& offered.len() <= 5
        &&& forall|i: int, j: int|
            0 <= i < j < offered.len() ==> (#[trigger] offered[i]).height != (
            #[trigger] offered[j]).height
        &&& forall|v: ProfileView| #[trigger]
            is_video_of(ps, v) ==> offered.len() == 5 || is_stood_for(ps, offered, v)
    } else {
        &&& offered.len() <= 1
        &&& forall|v: ProfileView| #[trigger] is_video_of(ps, v) ==> offered.len() == 1
    }
    &&& p.resolution is None && p.remux_to_ts ==> forall|v: ProfileView| #[trigger]
        is_video_of(ps, v) ==> v.height <= offered[0].height && (v.height == offered[0].height
            ==> v.bandwidth <= offered[0].bandwidth)
}

/// A wanted height: the tallest profile that is not taller, or else the least tall.
pub open spec fn meets_height(
    ps: Seq<ProfileView>,
    offered: Seq<ProfileView>,
    wanted: int,
) -> bool {
    &&& forall|v: ProfileView| #[trigger]
        is_video_of(ps, v) && 0 < v.height <= wanted ==> offered.len() == 1 && offered[0].height
            <= wanted && v.height <= offered[0].height
    &&& (forall|v: ProfileView| #[trigger] is_video_of(ps, v) ==> !(0 < v.height <= wanted))
        ==> forall|v: ProfileView| #[trigger]
        is_video_of(ps, v) && 0 < v.height ==> offered.len() == 1 && 0 < offered[0].height
            <= v.height
}

/// The language of a profile; `und` where it has none.
pub open spec fn language(p: ProfileView) -> Seq<char> {
    match p.lang {
        Some(l) => l,
        None => "und"@,
    }
}

/// A profile in English.
pub open spec fn speaks_english(p: ProfileView) -> bool {
    p.lang matches Some(l) && starts_with(l, "en"@)
}

/// The audio profile that players take by themselves: English before other
/// languages, then the highest bandwidth.
pub open spec fn is_best_audio(ps: Seq<ProfileView>, p: ProfileView) -> bool {
    &&& is_audio_of(ps, p)
    &&& forall|q: ProfileView| #[trigger]
        is_audio_of(ps, q) ==> (speaks_english(q) ==> speaks_english(p)) && ((speaks_english(p)
            ==> speaks_english(q)) ==> p.bandwidth >= q.bandwidth)
}

/// The audio profiles that are offered: of different languages, the best first, and
/// of all languages unless there are four.
#[verifier::opaque]
pub open spec fn is_audio_offer(
    ps: Seq<ProfileView>,
    offered: Seq<ProfileView>,
    best: Seq<char>,
) -> bool {
    &&& offered.len() <= 4
    &&& forall|i: int| 0 <= i < offered.len() ==> is_audio_of(ps, #[trigger] offered[i])
    &&& forall|i: int, j: int|
        0 <= i < j < offered.len() ==> language(#[trigger] offered[i]) != language(
            #[trigger] offered[j],
        )
    &&& forall|v: ProfileView| #[trigger]
        is_audio_of(ps, v) ==> {
            &&& offered.len() > 0 && offered[0].id == best
            &&& exists|p: ProfileView| #[trigger] is_best_audio(ps, p) && p.id == best
            &&& offered.len() == 4 || exists|i: int|
                0 <= i < offered.len() && language(#[trigger] offered[i]) == language(v)
        }
}

/// The line of an audio profile.
pub open spec fn rendition_line(
    p: ProfileView,
    best: Seq<char>,
    base: Seq<char>,
    mpd_url: Seq<char>,
    params: MpdParamsView,
) -> Seq<char> {
    let d = if p.id == best {
        "YES"@
    } else {
        "NO"@
    };
    "#EXT-X-MEDIA:TYPE=AUDIO,GROUP-ID=\"audio\",NAME=\"Audio "@ + language(p) + " ("@ + decimal(
        p.bandwidth as int,
    ) + ")\",DEFAULT="@ + d + ",AUTOSELECT="@ + d + ",LANGUAGE=\""@ + language(p) + "\",URI=\""@
        + playlist_link(base, mpd_url, p.id, params) + "\""@
}

/// A manifest with audio profiles.
pub open spec fn has_audio(ps: Seq<ProfileView>) -> bool {
    exists|a: ProfileView| #[trigger] is_audio_of(ps, a)
}

/// The codecs of a video profile, with those of the best audio profile behind them.
pub open spec fn are_codecs(
    ps: Seq<ProfileView>,
    p: ProfileView,
    best: Seq<char>,
    codecs: Seq<char>,
) -> bool {
    if has_audio(ps) {
        exists|a: ProfileView| #[trigger]
            is_audio_of(ps, a) && a.id == best && codecs == if a.codecs.len() > 0 {
                p.codecs + ","@ + a.codecs
            } else {
                p.codecs
            }
    } else {
        codecs == p.codecs
    }
}

/// The two lines of a video profile.
pub open spec fn variant_lines(
    p: ProfileView,
    codecs: Seq<char>,
    with_audio: bool,
    base: Seq<char>,
    mpd_url: Seq<char>,
    params: MpdParamsView,
) -> Seq<Seq<char>> {
    seq![
        "#EXT-X-STREAM-INF:BANDWIDTH="@ + decimal(p.bandwidth as int) + ",RESOLUTION="@ + decimal(
            p.width as int,
        ) + "x"@ + decimal(p.height as int) + ",CODECS=\""@ + codecs + "\""@ + (
        if params.remux_to_ts {
            Seq::empty()
        } else {
            ",FRAME-RATE="@ + p.frame_rate_text
        }) + (if with_audio {
            ",AUDIO=\"audio\""@
        } else {
            Seq::empty()
        }),
        playlist_link(base, mpd_url, p.id, params),
    ]
}

/// `block` is what is written of a video profile.
pub open spec fn is_variant_block(
    ps: Seq<ProfileView>,
    p: ProfileView,
    best: Seq<char>,
    base: Seq<char>,
    mpd_url: Seq<char>,
    params: MpdParamsView,
    block: Seq<Seq<char>>,
) -> bool {
    exists|codecs: Seq<char>| #[trigger]
        are_codecs(ps, p, best, codecs) && block == variant_lines(
            p,
            codecs,
            has_audio(ps),
            base,
            mpd_url,
            params,
        )
}

/// The lines of a master playlist.
pub open spec fn are_master_lines(
    ps: Seq<ProfileView>,
    base: Seq<char>,
    mpd_url: Seq<char>,
    params: MpdParamsView,
    best: Seq<char>,
    audio: Seq<ProfileView>,
    video: Seq<ProfileView>,
    blocks: Seq<Seq<Seq<char>>>,
    lines: Seq<Seq<char>>,
) -> bool {
    &&& is_audio_offer(ps, audio, best)
    &&& is_video_offer(ps, params, video)
    &&& blocks.len() == video.len()
    &&& forall|i: int|
        0 <= i < video.len() ==> is_variant_block(
            ps,
            video[i],
            best,
            base,
            mpd_url,
            params,
            #[trigger] blocks[i],
        )
    &&& lines == seq![
        "#EXTM3U"@,
        if params.remux_to_ts {
            "#EXT-X-VERSION:3"@
        } else {
            "#EXT-X-VERSION:6"@
        },
    ] + Seq::new(audio.len(), |i: int| rendition_line(audio[i], best, base, mpd_url, params))
        + blocks.flatten()
}

// ---------------------------------------------------------------------------
// Proofs
// ---------------------------------------------------------------------------

/// Each profile is one of its list.
proof fn lemma_at(s: Seq<ProfileView>, i: int)
    requires
        0 <= i < s.len(),
    ensures
        member(s, s[i]),
{
    reveal(member);
}

/// Where a profile stands in a list.
proof fn lemma_find(s: Seq<ProfileView>, p: ProfileView) -> (i: int)
    requires
        member(s, p),
    ensures
        0 <= i < s.len(),
        s[i] == p,
{
    reveal(member);
    choose|i: int| 0 <= i < s.len() && #[trigger] s[i] == p
}

/// A profile of a list with one more.
proof fn lemma_member_push(s: Seq<ProfileView>, x: ProfileView, p: ProfileView)
    ensures
        member(s.push(x), p) <==> member(s, p) || p == x,
{
    let t = s.push(x);
    if member(t, p) {
        let i = lemma_find(t, p);
        if i < s.len() {
            assert(s[i] == p);
            lemma_at(s, i);
        }
    }
    if member(s, p) {
        let i = lemma_find(s, p);
        assert(t[i] == p);
        lemma_at(t, i);
    }
    if p == x {
        assert(t[s.len() as int] == x);
        lemma_at(t, s.len() as int);
    }
}

/// The profiles of a kind.
proof fn lemma_kind(s: Seq<ProfileView>, word: Seq<char>, p: ProfileView)
    ensures
        member(of_kind(s, word), p) <==> member(s, p) && contains(p.mime_type, word),
    decreases s.len(),
{
    if s.len() > 0 {
        let init = s.drop_last();
        lemma_kind(init, word, p);
        lemma_member_push(init, s.last(), p);
        assert(init.push(s.last()) =~= s);
        lemma_member_push(of_kind(init, word), s.last(), p);
    } else {
        reveal(member);
    }
}

/// Ranking keeps all profiles.
proof fn lemma_ranked_same(s: Seq<ProfileView>, default: Option<Seq<char>>, p: ProfileView)
    ensures
        member(by_rank(s, default), p) <==> member(s, p),
{
    law_by_rank(s, default);
    let r = by_rank(s, default);
    reveal(member);
    broadcast use vstd::seq_lib::group_to_multiset_ensures;

    assert(r.contains(p) <==> r.to_multiset().count(p) > 0);
    assert(s.contains(p) <==> s.to_multiset().count(p) > 0);
    assert(member(r, p) <==> r.contains(p));
    assert(member(s, p) <==> s.contains(p));
}

/// The firsts are among the profiles.
proof fn lemma_firsts_from(t: Feature, s: Seq<ProfileView>, n: int, i: int) -> (j: int)
    requires
        0 <= n <= s.len(),
        0 <= i < firsts(t, s, n).len(),
    ensures
        0 <= j < n,
        s[j] == firsts(t, s, n)[i],
    decreases n,
{
    if has_alike(t, s, s[n - 1], n - 1) || i < firsts(t, s, n - 1).len() {
        lemma_firsts_from(t, s, n - 1, i)
    } else {
        n - 1
    }
}

/// The firsts stay in order.
proof fn lemma_firsts_ranked(t: Feature, s: Seq<ProfileView>, n: int, default: Option<Seq<char>>)
    requires
        0 <= n <= s.len(),
        is_ranked(s, default),
    ensures
        is_ranked(firsts(t, s, n), default),
    decreases n,
{
    if n > 0 {
        lemma_firsts_ranked(t, s, n - 1, default);
        let f = firsts(t, s, n);
        let r = firsts(t, s, n - 1);
        if !has_alike(t, s, s[n - 1], n - 1) {
            assert forall|i: int, j: int| 0 <= i < j < f.len() implies rank(
                #[trigger] f[i],
                default,
            ) >= rank(#[trigger] f[j], default) by {
                assert(f[i] == r[i]);
                if j == r.len() {
                    let k = lemma_firsts_from(t, s, n - 1, i);
                    assert(rank(s[k], default) >= rank(s[n - 1], default));
                } else {
                    assert(f[j] == r[j]);
                }
            }
        }
    }
}

/// Every profile is like one of the firsts that comes no later.
proof fn lemma_firsts_cover(
    t: Feature,
    s: Seq<ProfileView>,
    n: int,
    default: Option<Seq<char>>,
    j: int,
) -> (i: int)
    requires
        0 <= j < n <= s.len(),
        is_ranked(s, default),
    ensures
        0 <= i < firsts(t, s, n).len(),
        alike(t, firsts(t, s, n)[i], s[j]),
        rank(firsts(t, s, n)[i], default) >= rank(s[j], default),
    decreases n,
{
    let r = firsts(t, s, n - 1);
    if j < n - 1 {
        let i = lemma_firsts_cover(t, s, n - 1, default, j);
        assert(firsts(t, s, n)[i] == r[i]);
        i
    } else if has_alike(t, s, s[j], n - 1) {
        let k = choose|k: int| 0 <= k < n - 1 && alike(t, #[trigger] s[k], s[j]);
        let i = lemma_firsts_cover(t, s, n - 1, default, k);
        assert(rank(s[k], default) >= rank(s[j], default));
        i
    } else {
        r.len() as int
    }
}

/// The first of the firsts is the first.
proof fn lemma_firsts_first(t: Feature, s: Seq<ProfileView>, n: int)
    requires
        0 < n <= s.len(),
    ensures
        firsts(t, s, n).len() > 0,
        firsts(t, s, n)[0] == s[0],
    decreases n,
{
    if n > 1 {
        lemma_firsts_first(t, s, n - 1);
    } else {
        assert(firsts(t, s, 0) =~= Seq::empty());
    }
}

/// The video profiles that are looked at.
spec fn candidates(ps: Seq<ProfileView>, p: MpdParamsView) -> Seq<ProfileView> {
    if p.remux_to_ts {
        at_least_tall(wanted_ones(ps, p), greatest_height(wanted_ones(ps, p)))
    } else {
        wanted_ones(ps, p)
    }
}

/// The video profiles of the wanted height.
spec fn wanted_ones(ps: Seq<ProfileView>, p: MpdParamsView) -> Seq<ProfileView> {
    match p.resolution {
        Some(r) => by_resolution(of_kind(ps, "video"@), r),
        None => of_kind(ps, "video"@),
    }
}

/// No profile is taller than the greatest height.
proof fn lemma_greatest(s: Seq<ProfileView>, p: ProfileView)
    requires
        member(s, p),
    ensures
        p.height <= greatest_height(s),
    decreases s.len(),
{
    let i = lemma_find(s, p);
    if i < s.len() - 1 {
        assert(s.drop_last()[i] == p);
        lemma_at(s.drop_last(), i);
        lemma_greatest(s.drop_last(), p);
    }
}

/// The greatest height is that of a profile.
proof fn lemma_some_greatest(s: Seq<ProfileView>) -> (i: int)
    requires
        s.len() > 0,
    ensures
        0 <= i < s.len(),
        s[i].height == greatest_height(s),
    decreases s.len(),
{
    let init = s.drop_last();
    if init.len() > 0 && s.last().height <= greatest_height(init) {
        let i = lemma_some_greatest(init);
        assert(s[i] == init[i]);
        i
    } else {
        assert(init.len() == 0 ==> greatest_height(init) == 0);
        s.len() - 1
    }
}

/// The profiles of at least a height.
proof fn lemma_tall(s: Seq<ProfileView>, h: u32, p: ProfileView)
    ensures
        member(at_least_tall(s, h), p) <==> member(s, p) && p.height >= h,
    decreases s.len(),
{
    if s.len() > 0 {
        let init = s.drop_last();
        lemma_tall(init, h, p);
        lemma_member_push(init, s.last(), p);
        assert(init.push(s.last()) =~= s);
        lemma_member_push(at_least_tall(init, h), s.last(), p);
    } else {
        reveal(member);
    }
}

/// The tallest profile within a height.
proof fn lemma_within(s: Seq<ProfileView>, h: u32, n: int)
    requires
        0 <= n <= s.len(),
    ensures
        match tallest_within(s, h, n) {
            Some(i) => 0 <= i < n && 0 < s[i].height <= h && forall|j: int|
                0 <= j < n && 0 < (#[trigger] s[j]).height <= h ==> s[j].height <= s[i].height,
            None => forall|j: int| 0 <= j < n ==> !(0 < (#[trigger] s[j]).height <= h),
        },
    decreases n,
{
    if n > 0 {
        lemma_within(s, h, n - 1);
    }
}

/// The least tall profile.
proof fn lemma_least(s: Seq<ProfileView>, n: int)
    requires
        0 <= n <= s.len(),
    ensures
        match least_tall(s, n) {
            Some(i) => 0 <= i < n && 0 < s[i].height && forall|j: int|
                0 <= j < n && 0 < (#[trigger] s[j]).height ==> s[i].height <= s[j].height,
            None => forall|j: int| 0 <= j < n ==> !(0 < (#[trigger] s[j]).height),
        },
    decreases n,
{
    if n > 0 {
        lemma_least(s, n - 1);
    }
}

/// What is selected by resolution is some of the profiles.
proof fn lemma_resolution(s: Seq<ProfileView>, target: Seq<char>, p: ProfileView)
    ensures
        member(by_resolution(s, target), p) ==> member(s, p),
        s.len() > 0 ==> by_resolution(s, target).len() > 0,
{
    lemma_within(s, target_height(target), s.len() as int);
    lemma_least(s, s.len() as int);
    let r = by_resolution(s, target);
    if member(r, p) {
        let i = lemma_find(r, p);
        match tallest_within(s, target_height(target), s.len() as int) {
            Some(k) => {
                lemma_at(s, k);
            },
            None => match least_tall(s, s.len() as int) {
                Some(k) => {
                    lemma_at(s, k);
                },
                None => {},
            },
        }
    }
}

/// The candidates are video profiles.
proof fn lemma_candidate(ps: Seq<ProfileView>, p: MpdParamsView, v: ProfileView)
    ensures
        member(candidates(ps, p), v) ==> is_video_of(ps, v),
        p.resolution is None && !p.remux_to_ts ==> (member(candidates(ps, p), v) <==> is_video_of(
            ps,
            v,
        )),
{
    lemma_kind(ps, "video"@, v);
    if let Some(r) = p.resolution {
        lemma_resolution(of_kind(ps, "video"@), r, v);
    }
    lemma_tall(wanted_ones(ps, p), greatest_height(wanted_ones(ps, p)), v);
}

/// There are candidates where there are video profiles.
proof fn lemma_some_candidate(ps: Seq<ProfileView>, p: MpdParamsView, v: ProfileView)
    requires
        is_video_of(ps, v),
    ensures
        candidates(ps, p).len() > 0,
{
    let all = of_kind(ps, "video"@);
    let w = wanted_ones(ps, p);
    lemma_kind(ps, "video"@, v);
    let k = lemma_find(all, v);
    if let Some(r) = p.resolution {
        lemma_resolution(all, r, v);
    }
    let i = lemma_some_greatest(w);
    lemma_at(w, i);
    lemma_tall(w, greatest_height(w), w[i]);
    if p.remux_to_ts {
        let m = lemma_find(candidates(ps, p), w[i]);
    }
}

/// When segments are remuxed, the candidates are the tallest.
proof fn lemma_tallest_candidates(
    ps: Seq<ProfileView>,
    p: MpdParamsView,
    v: ProfileView,
    u: ProfileView,
)
    requires
        p.resolution is None,
        p.remux_to_ts,
        is_video_of(ps, v),
        member(candidates(ps, p), u),
    ensures
        v.height <= u.height,
        v.height == u.height ==> member(candidates(ps, p), v),
{
    let all = of_kind(ps, "video"@);
    lemma_kind(ps, "video"@, v);
    lemma_greatest(all, v);
    lemma_tall(all, greatest_height(all), u);
    lemma_tall(all, greatest_height(all), v);
}

/// The ranked candidates, no representation twice.
spec fn distinct_reps(ps: Seq<ProfileView>, p: MpdParamsView) -> Seq<ProfileView> {
    let ranked = by_rank(candidates(ps, p), None);
    firsts(Feature::Representation, ranked, ranked.len() as int)
}

/// What is known of the ranked candidates.
proof fn lemma_reps(ps: Seq<ProfileView>, p: MpdParamsView)
    ensures
        is_ranked(distinct_reps(ps, p), None),
        forall|i: int| 0 <= i < distinct_reps(ps, p).len()
            ==> is_video_of(ps, #[trigger] distinct_reps(ps, p)[i]),
        forall|a: int, b: int|
            0 <= a < b < distinct_reps(ps, p).len() ==> (#[trigger] distinct_reps(ps, p)[a]).rep_id
                != (#[trigger] distinct_reps(ps, p)[b]).rep_id,
        candidates(ps, p).len() > 0 ==> distinct_reps(ps, p).len() > 0 && distinct_reps(ps, p)[0]
            == by_rank(candidates(ps, p), None)[0],
        by_rank(candidates(ps, p), None).len() == candidates(ps, p).len(),
{
    let none = None::<Seq<char>>;
    let c = candidates(ps, p);
    let ranked = by_rank(c, none);
    let n = ranked.len() as int;
    law_by_rank(c, none);
    let reps = distinct_reps(ps, p);
    lemma_firsts_ranked(Feature::Representation, ranked, n, none);
    assert forall|i: int| 0 <= i < reps.len() implies is_video_of(ps, #[trigger] reps[i]) by {
        let j = lemma_firsts_from(Feature::Representation, ranked, n, i);
        lemma_at(ranked, j);
        lemma_ranked_same(c, none, ranked[j]);
        lemma_candidate(ps, p, ranked[j]);
    }
    assert forall|a: int, b: int| 0 <= a < b < reps.len() implies (#[trigger] reps[a]).rep_id != (
    #[trigger] reps[b]).rep_id by {
        law_firsts_differ(Feature::Representation, ranked, n, a, b);
    }
    if n > 0 {
        lemma_firsts_first(Feature::Representation, ranked, n);
    }
}

/// The video profiles that are offered where nothing else is asked for.
#[verifier::rlimit(30)]
proof fn lemma_ladder(ps: Seq<ProfileView>, p: MpdParamsView)
    requires
        p.resolution is None,
        !p.remux_to_ts,
    ensures
        is_video_offer(ps, p, video_choice(ps, p)),
{
    let none = None::<Seq<char>>;
    let c = candidates(ps, p);
    let ranked = by_rank(c, none);
    let reps = distinct_reps(ps, p);
    let m = reps.len() as int;
    lemma_reps(ps, p);
    law_by_rank(c, none);
    let heights = firsts(Feature::Height, reps, m);
    lemma_firsts_ranked(Feature::Height, reps, m, none);
    let offered = video_choice(ps, p);
    assert(offered == at_most(heights, 5));
    assert forall|i: int| 0 <= i < offered.len() implies is_video_of(ps, #[trigger] offered[i]) by {
        let j = lemma_firsts_from(Feature::Height, reps, m, i);
        assert(offered[i] == reps[j]);
    }
    assert forall|i: int, j: int| 0 <= i < j < offered.len() implies (
    #[trigger] offered[i]).bandwidth >= (#[trigger] offered[j]).bandwidth && offered[i].rep_id
        != offered[j].rep_id by {
        assert(offered[i] == heights[i] && offered[j] == heights[j]);
        assert(rank(heights[i], none) >= rank(heights[j], none));
        law_firsts_differ(Feature::Height, reps, m, i, j);
        let a = lemma_firsts_from(Feature::Height, reps, m, i);
        let b = lemma_firsts_from(Feature::Height, reps, m, j);
        if a < b {
            assert(reps[a].rep_id != reps[b].rep_id);
        } else {
            assert(reps[b].rep_id != reps[a].rep_id);
        }
    }
    assert forall|i: int, j: int| 0 <= i < j < offered.len() implies (#[trigger] offered[i]).height
        != (#[trigger] offered[j]).height by {
        assert(offered[i] == heights[i] && offered[j] == heights[j]);
        law_firsts_differ(Feature::Height, reps, m, i, j);
    }
    assert forall|v: ProfileView| #[trigger] is_video_of(ps, v) implies offered.len() == 5
        || is_stood_for(ps, offered, v) by {
        lemma_ladder_covers(ps, p, v);
    }
    reveal(is_video_offer);
}

/// Every video profile is stood for unless the ladder is full.
proof fn lemma_ladder_covers(ps: Seq<ProfileView>, p: MpdParamsView, v: ProfileView)
    requires
        p.resolution is None,
        !p.remux_to_ts,
        is_video_of(ps, v),
    ensures
        video_choice(ps, p).len() == 5 || is_stood_for(ps, video_choice(ps, p), v),
{
    let none = None::<Seq<char>>;
    let c = candidates(ps, p);
    let ranked = by_rank(c, none);
    let reps = distinct_reps(ps, p);
    let m = reps.len() as int;
    lemma_reps(ps, p);
    law_by_rank(c, none);
    let heights = firsts(Feature::Height, reps, m);
    let offered = video_choice(ps, p);
    assert(offered == at_most(heights, 5));
    lemma_candidate(ps, p, v);
    lemma_ranked_same(c, none, v);
    let k = lemma_find(ranked, v);
    let a = lemma_firsts_cover(Feature::Representation, ranked, ranked.len() as int, none, k);
    assert(reps[a].rep_id == v.rep_id);
    let e = lemma_firsts_cover(Feature::Height, reps, m, none, a);
    if heights.len() <= 5 {
        assert(offered[e] == heights[e]);
        assert(is_video_of(ps, reps[a]));
        assert(is_stood_for(ps, offered, v)) by {
            reveal(is_stood_for);
        }
    }
}

/// The one video profile that is offered where a height is wanted or segments are
/// remuxed.
#[verifier::rlimit(30)]
proof fn lemma_single(ps: Seq<ProfileView>, p: MpdParamsView)
    requires
        p.resolution is Some || p.remux_to_ts,
    ensures
        is_video_offer(ps, p, video_choice(ps, p)),
        video_choice(ps, p).len() > 0 ==> member(candidates(ps, p), video_choice(ps, p)[0]),
{
    let none = None::<Seq<char>>;
    let c = candidates(ps, p);
    let ranked = by_rank(c, none);
    let reps = distinct_reps(ps, p);
    lemma_reps(ps, p);
    law_by_rank(c, none);
    let offered = video_choice(ps, p);
    reveal(is_video_offer);
    assert(offered == at_most(reps, 1));
    if offered.len() > 0 {
        assert(c.len() > 0) by {
            let j = lemma_firsts_from(Feature::Representation, ranked, ranked.len() as int, 0);
        }
        assert(offered[0] == ranked[0]);
        lemma_at(ranked, 0);
        lemma_ranked_same(c, none, ranked[0]);
    }
    assert forall|v: ProfileView| #[trigger] is_video_of(ps, v) implies offered.len() == 1 by {
        lemma_some_candidate(ps, p, v);
    }
    if p.resolution is None && p.remux_to_ts {
        assert forall|v: ProfileView| #[trigger] is_video_of(ps, v) implies v.height
            <= offered[0].height && (v.height == offered[0].height ==> v.bandwidth
            <= offered[0].bandwidth) by {
            lemma_tallest_candidates(ps, p, v, offered[0]);
            if v.height == offered[0].height {
                lemma_ranked_same(c, none, v);
                let k = lemma_find(ranked, v);
                if k > 0 {
                    assert(rank(ranked[0], none) >= rank(ranked[k], none));
                }
            }
        }
    }
}

/// The video profiles that are offered.
proof fn lemma_video(ps: Seq<ProfileView>, p: MpdParamsView)
    ensures
        is_video_offer(ps, p, video_choice(ps, p)),
{
    if p.resolution is Some || p.remux_to_ts {
        lemma_single(ps, p);
    } else {
        lemma_ladder(ps, p);
    }
}

/// The best audio profile of the first ones.
proof fn lemma_best(s: Seq<ProfileView>, english: bool, n: int)
    requires
        0 <= n <= s.len(),
    ensures
        match best_audio(s, english, n) {
            Some(i) => 0 <= i < n && (english ==> speaks_english(s[i])) && forall|j: int|
                0 <= j < n && (english ==> speaks_english(#[trigger] s[j])) ==> s[j].bandwidth
                    <= s[i].bandwidth,
            None => forall|j: int| 0 <= j < n ==> english && !speaks_english(#[trigger] s[j]),
        },
    decreases n,
{
    if n > 0 {
        lemma_best(s, english, n - 1);
    }
}

/// The default audio profile is the best one.
proof fn lemma_default(ps: Seq<ProfileView>) -> (p: ProfileView)
    requires
        of_kind(ps, "audio"@).len() > 0,
    ensures
        is_best_audio(ps, p),
        member(of_kind(ps, "audio"@), p),
        default_audio(of_kind(ps, "audio"@)) == Some(p.id),
{
    let s = of_kind(ps, "audio"@);
    let n = s.len() as int;
    lemma_best(s, true, n);
    lemma_best(s, false, n);
    let k = match best_audio(s, true, n) {
        Some(i) => i,
        None => best_audio(s, false, n)->0,
    };
    assert(0 <= k < n) by {
        if best_audio(s, true, n) is None && best_audio(s, false, n) is None {
            assert(speaks_english(s[0]) || !speaks_english(s[0]));
        }
    }
    let p = s[k];
    lemma_at(s, k);
    lemma_kind(ps, "audio"@, p);
    assert forall|q: ProfileView| #[trigger] is_audio_of(ps, q) implies (speaks_english(q)
        ==> speaks_english(p)) && ((speaks_english(p) ==> speaks_english(q)) ==> p.bandwidth
        >= q.bandwidth) by {
        lemma_kind(ps, "audio"@, q);
        let j = lemma_find(s, q);
        assert(speaks_english(s[j]) || !speaks_english(s[j]));
    }
    p
}

/// The audio profiles that are offered.
#[verifier::rlimit(30)]
proof fn lemma_audio(ps: Seq<ProfileView>)
    ensures
        is_audio_offer(
            ps,
            audio_choice(of_kind(ps, "audio"@)),
            default_audio(of_kind(ps, "audio"@))->0,
        ),
{
    let s = of_kind(ps, "audio"@);
    let d = default_audio(s);
    let ranked = by_rank(s, d);
    let n = ranked.len() as int;
    law_by_rank(s, d);
    let f = firsts(Feature::Language, ranked, n);
    let offered = audio_choice(s);
    reveal(is_audio_offer);
    assert(offered == at_most(f, 4));
    assert forall|i: int| 0 <= i < offered.len() implies is_audio_of(ps, #[trigger] offered[i]) by {
        let j = lemma_firsts_from(Feature::Language, ranked, n, i);
        lemma_at(ranked, j);
        lemma_ranked_same(s, d, ranked[j]);
        lemma_kind(ps, "audio"@, ranked[j]);
    }
    assert forall|i: int, j: int| 0 <= i < j < offered.len() implies language(
        #[trigger] offered[i],
    ) != language(#[trigger] offered[j]) by {
        assert(offered[i] == f[i] && offered[j] == f[j]);
        law_firsts_differ(Feature::Language, ranked, n, i, j);
    }
    assert forall|v: ProfileView| #[trigger] is_audio_of(ps, v) implies {
        &&& offered.len() > 0 && offered[0].id == d->0
        &&& exists|p: ProfileView| #[trigger] is_best_audio(ps, p) && p.id == d->0
        &&& offered.len() == 4 || exists|i: int|
            0 <= i < offered.len() && language(#[trigger] offered[i]) == language(v)
    } by {
        lemma_kind(ps, "audio"@, v);
        let m = lemma_find(s, v);
        let best = lemma_default(ps);
        law_default_audio_comes_first(s);
        lemma_ranked_same(s, d, v);
        let k = lemma_find(ranked, v);
        let i = lemma_firsts_cover(Feature::Language, ranked, n, d, k);
        if f.len() <= 4 {
            assert(offered[i] == f[i]);
            assert(language(offered[i]) == language(v));
        }
    }
}

/// The first profile with an identifier.
proof fn lemma_first_with_id(s: Seq<ProfileView>, id: Option<Seq<char>>, i: int)
    requires
        0 <= i <= s.len(),
    ensures
        match first_with_id(s, id, i) {
            Some(k) => i <= k < s.len() && id == Some(s[k].id),
            None => forall|k: int| i <= k < s.len() ==> id != Some((#[trigger] s[k]).id),
        },
    decreases s.len() - i,
{
    if i < s.len() {
        lemma_first_with_id(s, id, i + 1);
    }
}

/// There are audio profiles where some are of that kind.
proof fn lemma_has_audio(ps: Seq<ProfileView>)
    ensures
        has_audio(ps) <==> of_kind(ps, "audio"@).len() > 0,
{
    let s = of_kind(ps, "audio"@);
    if s.len() > 0 {
        lemma_at(s, 0);
        lemma_kind(ps, "audio"@, s[0]);
        assert(is_audio_of(ps, s[0]));
    }
    if has_audio(ps) {
        let a = choose|a: ProfileView| #[trigger] is_audio_of(ps, a);
        lemma_kind(ps, "audio"@, a);
        let i = lemma_find(s, a);
    }
}

/// The codecs of a video profile.
proof fn lemma_codecs(ps: Seq<ProfileView>, p: ProfileView)
    ensures
        are_codecs(
            ps,
            p,
            default_audio(of_kind(ps, "audio"@))->0,
            variant_codecs(p, audio_codec(of_kind(ps, "audio"@))),
        ),
{
    let s = of_kind(ps, "audio"@);
    lemma_has_audio(ps);
    if s.len() > 0 {
        let b = lemma_default(ps);
        let m = lemma_find(s, b);
        lemma_first_with_id(s, default_audio(s), 0);
        assert(s[m].id == b.id);
        let k = first_with_id(s, default_audio(s), 0)->0;
        lemma_at(s, k);
        lemma_kind(ps, "audio"@, s[k]);
        assert(is_audio_of(ps, s[k]));
    }
}

/// The lines of video profiles are two for each.
proof fn lemma_video_lines(
    ps: Seq<ProfileView>,
    chosen: Seq<ProfileView>,
    base: Seq<char>,
    mpd_url: Seq<char>,
    params: MpdParamsView,
) -> (blocks: Seq<Seq<Seq<char>>>)
    ensures
        blocks.len() == chosen.len(),
        blocks.flatten() == video_lines(chosen, of_kind(ps, "audio"@), base, mpd_url, params),
        forall|i: int|
            0 <= i < chosen.len() ==> is_variant_block(
                ps,
                chosen[i],
                default_audio(of_kind(ps, "audio"@))->0,
                base,
                mpd_url,
                params,
                #[trigger] blocks[i],
            ),
    decreases chosen.len(),
{
    let audio = of_kind(ps, "audio"@);
    if chosen.len() == 0 {
        let none = Seq::<Seq<Seq<char>>>::empty();
        assert(none.flatten() =~= Seq::<Seq<char>>::empty());
        none
    } else {
        let init = chosen.drop_last();
        let p = chosen.last();
        let rest = lemma_video_lines(ps, init, base, mpd_url, params);
        let codecs = variant_codecs(p, audio_codec(audio));
        lemma_codecs(ps, p);
        lemma_has_audio(ps);
        lemma_playlist_link(base, mpd_url, p.id, params);
        let block = variant_lines(p, codecs, has_audio(ps), base, mpd_url, params);
        let blocks = rest.push(block);
        rest.lemma_flatten_push(block);
        assert(block =~= seq![
            video_line(p, audio, params.remux_to_ts),
            crate::mpd::urls::playlist_url(base, mpd_url, p.id, params),
        ]);
        assert(blocks.flatten() =~= video_lines(chosen, audio, base, mpd_url, params));
        assert(is_variant_block(ps, p, default_audio(audio)->0, base, mpd_url, params, block));
        assert forall|i: int| 0 <= i < chosen.len() implies is_variant_block(
            ps,
            chosen[i],
            default_audio(audio)->0,
            base,
            mpd_url,
            params,
            #[trigger] blocks[i],
        ) by {
            if i < init.len() {
                assert(blocks[i] == rest[i]);
                assert(init[i] == chosen[i]);
            }
        }
        blocks
    }
}

/// The line of an audio profile.
proof fn lemma_audio_line(
    v: ProfileView,
    best: Seq<char>,
    base: Seq<char>,
    mpd_url: Seq<char>,
    p: MpdParamsView,
)
    ensures
        audio_line(v, Some(best), base, mpd_url, p) == rendition_line(v, best, base, mpd_url, p),
{
    lemma_playlist_link(base, mpd_url, v.id, p);
}

/// Where an audio profile is offered, there is a default one.
proof fn lemma_has_default(ps: Seq<ProfileView>)
    requires
        audio_choice(of_kind(ps, "audio"@)).len() > 0,
    ensures
        default_audio(of_kind(ps, "audio"@)) is Some,
{
    lemma_audio(ps);
    reveal(is_audio_offer);
    assert(is_audio_of(ps, audio_choice(of_kind(ps, "audio"@))[0]));
    lemma_has_audio(ps);
    let b = lemma_default(ps);
}

/// The lines of audio profiles.
proof fn lemma_audio_lines(
    ps: Seq<ProfileView>,
    base: Seq<char>,
    mpd_url: Seq<char>,
    p: MpdParamsView,
)
    ensures
        ({
            let s = of_kind(ps, "audio"@);
            let audio = audio_choice(s);
            audio_lines(audio, default_audio(s), base, mpd_url, p) == Seq::new(
                audio.len(),
                |i: int| rendition_line(audio[i], default_audio(s)->0, base, mpd_url, p),
            )
        }),
{
    let s = of_kind(ps, "audio"@);
    let audio = audio_choice(s);
    let best = default_audio(s)->0;
    assert forall|i: int| 0 <= i < audio.len() implies audio_line(
        audio[i],
        default_audio(s),
        base,
        mpd_url,
        p,
    ) == rendition_line(audio[i], best, base, mpd_url, p) by {
        lemma_has_default(ps);
        lemma_audio_line(audio[i], best, base, mpd_url, p);
    }
    assert(audio_lines(audio, default_audio(s), base, mpd_url, p) =~= Seq::new(
        audio.len(),
        |i: int| rendition_line(audio[i], best, base, mpd_url, p),
    ));
}

/// The lines of a master playlist.
#[verifier::rlimit(30)]
proof fn lemma_master(
    ps: Seq<ProfileView>,
    base: Seq<char>,
    mpd_url: Seq<char>,
    p: MpdParamsView,
) -> (blocks: Seq<Seq<Seq<char>>>)
    ensures
        are_master_lines(
            ps,
            base,
            mpd_url,
            p,
            default_audio(of_kind(ps, "audio"@))->0,
            audio_choice(of_kind(ps, "audio"@)),
            video_choice(ps, p),
            blocks,
            master_lines(ps, base, mpd_url, p),
        ),
{
    lemma_audio(ps);
    lemma_video(ps, p);
    lemma_audio_lines(ps, base, mpd_url, p);
    lemma_video_lines(ps, video_choice(ps, p), base, mpd_url, p)
}

/// A master playlist offers audio and video profiles of the manifest, each with the
/// URL of its playlist.
pub proof fn law_master_playlist(
    parsed: &ParsedMpd,
    base: &str,
    mpd_url: &str,
    params: &MpdProxyParams,
    out: String,
)
    requires
        call_ensures(build_hls_master, (parsed, base, mpd_url, params), out),
    ensures
        exists|
            best: Seq<char>,
            audio: Seq<ProfileView>,
            video: Seq<ProfileView>,
            blocks: Seq<Seq<Seq<char>>>,
            lines: Seq<Seq<char>>,
        |
            #[trigger] are_master_lines(
                profile_views(parsed.profiles@),
                base@,
                mpd_url@,
                handed(*params),
                best,
                audio,
                video,
                blocks,
                lines,
            ) && out@ == join_texts(lines, "\n"@),
{
    let blocks = lemma_master(
        profile_views(parsed.profiles@),
        base@,
        mpd_url@,
        handed(*params),
    );
}

/// Where a height is wanted, the master playlist offers the tallest video profile
/// that is not taller, or else the least tall.
pub proof fn law_wanted_height(
    parsed: &ParsedMpd,
    base: &str,
    mpd_url: &str,
    params: &MpdProxyParams,
    out: String,
    wanted: u32,
)
    requires
        call_ensures(build_hls_master, (parsed, base, mpd_url, params), out),
        params.resolution matches Some(r) && r@ == decimal(wanted as int) + "p"@,
    ensures
        exists|
            best: Seq<char>,
            audio: Seq<ProfileView>,
            video: Seq<ProfileView>,
            blocks: Seq<Seq<Seq<char>>>,
            lines: Seq<Seq<char>>,
        |
            #[trigger] are_master_lines(
                profile_views(parsed.profiles@),
                base@,
                mpd_url@,
                handed(*params),
                best,
                audio,
                video,
                blocks,
                lines,
            ) && out@ == join_texts(lines, "\n"@) && meets_height(
                profile_views(parsed.profiles@),
                video,
                wanted as int,
            ),
{
    let ps = profile_views(parsed.profiles@);
    let blocks = lemma_master(ps, base@, mpd_url@, handed(*params));
    lemma_meets_height(ps, handed(*params), wanted);
}

/// The height that a resolution names.
proof fn lemma_target(wanted: u32)
    ensures
        target_height(decimal(wanted as int) + "p"@) == wanted,
{
    let d = decimal(wanted as int);
    reveal_strlit("p");
    lemma_digits_only(wanted as int, 'p');
    assert(d.last() != 'p') by {
        assert(d.contains(d.last()));
    }
    lemma_trim_end(d, 'p', 1);
    assert(d + "p"@ =~= d + Seq::new(1, |i: int| 'p'));
    law_decimal_round_trip(wanted as int, u32::MAX as int);
}

/// The one profile that is selected is offered.
proof fn lemma_selected(ps: Seq<ProfileView>, p: MpdParamsView, v: ProfileView, x: ProfileView)
    requires
        p.resolution is Some,
        is_video_of(ps, v),
        wanted_ones(ps, p) == seq![x],
    ensures
        video_choice(ps, p).len() == 1,
        video_choice(ps, p)[0] == x,
{
    lemma_single(ps, p);
    reveal(is_video_offer);
    let w = wanted_ones(ps, p);
    let got = video_choice(ps, p)[0];
    lemma_tall(w, greatest_height(w), got);
    let i = lemma_find(w, got);
}

/// The wanted height is met.
proof fn lemma_meets_height(ps: Seq<ProfileView>, p: MpdParamsView, wanted: u32)
    requires
        p.resolution == Some(decimal(wanted as int) + "p"@),
    ensures
        meets_height(ps, video_choice(ps, p), wanted as int),
{
    lemma_target(wanted);
    let all = of_kind(ps, "video"@);
    let n = all.len() as int;
    lemma_within(all, wanted, n);
    lemma_least(all, n);
    let video = video_choice(ps, p);
    assert forall|v: ProfileView| #[trigger] is_video_of(ps, v) && 0 < v.height
        <= wanted implies video.len() == 1 && video[0].height <= wanted && v.height
        <= video[0].height by {
        lemma_kind(ps, "video"@, v);
        let j = lemma_find(all, v);
        assert(0 < all[j].height <= wanted);
        let i = tallest_within(all, wanted, n)->0;
        lemma_selected(ps, p, v, all[i]);
    }
    if forall|v: ProfileView| #[trigger] is_video_of(ps, v) ==> !(0 < v.height <= wanted) {
        assert forall|v: ProfileView| #[trigger] is_video_of(ps, v) && 0
            < v.height implies video.len() == 1 && 0 < video[0].height <= v.height by {
            lemma_kind(ps, "video"@, v);
            let j = lemma_find(all, v);
            assert(0 < all[j].height);
            if let Some(i) = tallest_within(all, wanted, n) {
                lemma_at(all, i);
                lemma_kind(ps, "video"@, all[i]);
                assert(is_video_of(ps, all[i]));
            }
            let k = least_tall(all, n)->0;
            lemma_selected(ps, p, v, all[k]);
        }
    }
}

} // verus!
