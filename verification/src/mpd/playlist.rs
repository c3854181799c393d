//! HLS playlists made of DASH profiles.

use vstd::prelude::*;

use crate::mpd::processor::{
    at_least_one, compute_live_media_sequence, compute_live_playlist_depth, depth_safety,
    live_depth, live_sequence, text_or, ParsedMpd,
};
use crate::mpd::types::{profile_views, MpdProfile, MpdSegment, ProfileView, SegmentView};
use crate::mpd::urls::{
    build_init_url, build_playlist_url, build_segment_url, init_url, playlist_url, segment_url,
    MpdParamsView, MpdProxyParams, SegmentUrlArgs,
};
use crate::text::{
    begins, borrow_opt, chars, contains, decimal, decimal_text, holds, join, join_texts, opt_str,
    opt_text, parse_u32, parse_unsigned, same, starts_with, texts, trim_end_char, trim_end_of,
};

verus! {

// ---------------------------------------------------------------------------
// Selections of profiles
// ---------------------------------------------------------------------------

/// The profiles at some positions.
pub open spec fn picked(ps: Seq<MpdProfile>, idx: Seq<usize>) -> Seq<ProfileView> {
    Seq::new(idx.len(), |i: int| ps[idx[i] as int]@)
}

/// Every position is one of a profile.
pub open spec fn are_positions(idx: Seq<usize>, n: nat) -> bool {
    forall|i: int| 0 <= i < idx.len() ==> (#[trigger] idx[i]) < n
}

/// One more position.
proof fn lemma_picked_push(ps: Seq<MpdProfile>, idx: Seq<usize>, k: usize)
    requires
        k < ps.len(),
    ensures
        picked(ps, idx.push(k)) == picked(ps, idx).push(ps[k as int]@),
{
    assert(picked(ps, idx.push(k)) =~= picked(ps, idx).push(ps[k as int]@));
}

/// The profiles whose media type holds a word.
pub open spec fn of_kind(s: Seq<ProfileView>, word: Seq<char>) -> Seq<ProfileView>
    decreases s.len(),
{
    if s.len() == 0 {
        Seq::empty()
    } else if contains(s.last().mime_type, word) {
        of_kind(s.drop_last(), word).push(s.last())
    } else {
        of_kind(s.drop_last(), word)
    }
}

/// The height that a resolution names, such as `1080p`.
pub open spec fn target_height(target: Seq<char>) -> u32 {
    match parse_unsigned(trim_end_char(target, 'p'), u32::MAX as int) {
        Some(n) => n as u32,
        None => 1080,
    }
}

/// Of the first `n` profiles the first of the tallest that are not taller than
/// the target.
pub open spec fn tallest_within(s: Seq<ProfileView>, target: u32, n: int) -> Option<int>
    decreases n,
{
    if n <= 0 {
        None
    } else {
        let best = tallest_within(s, target, n - 1);
        let h = s[n - 1].height;
        if 0 < h <= target && (best is None || h > s[best->0].height) {
            Some(n - 1)
        } else {
            best
        }
    }
}

/// Of the first `n` profiles the last of the least tall.
pub open spec fn least_tall(s: Seq<ProfileView>, n: int) -> Option<int>
    decreases n,
{
    if n <= 0 {
        None
    } else {
        let best = least_tall(s, n - 1);
        let h = s[n - 1].height;
        if 0 < h && (best is None || h <= s[best->0].height) {
            Some(n - 1)
        } else {
            best
        }
    }
}

/// The one profile at or below the wanted height, or else the least tall one.
/// Where no profile has a height, all stay.
pub open spec fn by_resolution(s: Seq<ProfileView>, target: Seq<char>) -> Seq<ProfileView> {
    match tallest_within(s, target_height(target), s.len() as int) {
        Some(i) => seq![s[i]],
        None => match least_tall(s, s.len() as int) {
            Some(i) => seq![s[i]],
            None => s,
        },
    }
}

/// The greatest height.
pub open spec fn greatest_height(s: Seq<ProfileView>) -> u32
    decreases s.len(),
{
    if s.len() == 0 {
        0
    } else {
        let rest = greatest_height(s.drop_last());
        if s.last().height > rest {
            s.last().height
        } else {
            rest
        }
    }
}

/// The profiles of at least a height.
pub open spec fn at_least_tall(s: Seq<ProfileView>, height: u32) -> Seq<ProfileView>
    decreases s.len(),
{
    if s.len() == 0 {
        Seq::empty()
    } else if s.last().height >= height {
        at_least_tall(s.drop_last(), height).push(s.last())
    } else {
        at_least_tall(s.drop_last(), height)
    }
}

/// What profiles are ordered by: the default one first, then the bandwidth.
pub open spec fn rank(p: ProfileView, default: Option<Seq<char>>) -> int {
    (if default == Some(p.id) {
        0x1_0000_0000_0000_0000int
    } else {
        0
    }) + p.bandwidth
}

/// Profiles with one more, put behind those of no lower rank.
pub open spec fn with_profile(
    s: Seq<ProfileView>,
    p: ProfileView,
    default: Option<Seq<char>>,
) -> Seq<ProfileView>
    decreases s.len(),
{
    if s.len() == 0 || rank(s.last(), default) >= rank(p, default) {
        s.push(p)
    } else {
        with_profile(s.drop_last(), p, default).push(s.last())
    }
}

/// Profiles in the order of their rank, the highest first; equals stay in order.
pub open spec fn by_rank(s: Seq<ProfileView>, default: Option<Seq<char>>) -> Seq<ProfileView>
    decreases s.len(),
{
    if s.len() == 0 {
        Seq::empty()
    } else {
        with_profile(by_rank(s.drop_last(), default), s.last(), default)
    }
}

/// What profiles are told apart by.
#[derive(Clone, Copy, PartialEq, Eq, Structural)]
pub enum Feature {
    /// The representation.
    Representation,
    /// The height.
    Height,
    /// The language.
    Language,
}

/// The language of a profile; `und` where it has none.
pub open spec fn lang_of(p: ProfileView) -> Seq<char> {
    text_or(p.lang, "und"@)
}

/// Two profiles are alike.
pub open spec fn alike(t: Feature, a: ProfileView, b: ProfileView) -> bool {
    match t {
        Feature::Representation => a.rep_id == b.rep_id,
        Feature::Height => a.height == b.height,
        Feature::Language => lang_of(a) == lang_of(b),
    }
}

/// One of the first `n` profiles is like `p`.
pub open spec fn has_alike(t: Feature, s: Seq<ProfileView>, p: ProfileView, n: int) -> bool {
    exists|j: int| 0 <= j < n && alike(t, #[trigger] s[j], p)
}

/// Of the first `n` profiles the first of each that are alike.
pub open spec fn firsts(t: Feature, s: Seq<ProfileView>, n: int) -> Seq<ProfileView>
    decreases n,
{
    if n <= 0 {
        Seq::empty()
    } else if has_alike(t, s, s[n - 1], n - 1) {
        firsts(t, s, n - 1)
    } else {
        firsts(t, s, n - 1).push(s[n - 1])
    }
}

/// At most the first `k`.
pub open spec fn at_most(s: Seq<ProfileView>, k: int) -> Seq<ProfileView> {
    if s.len() > k {
        s.take(k)
    } else {
        s
    }
}

/// The video profiles of a master playlist: the wanted resolution alone, or in
/// TS mode the tallest alone, or else at most five of different heights; the
/// highest bandwidth of each representation, highest first.
pub open spec fn video_choice(ps: Seq<ProfileView>, p: MpdParamsView) -> Seq<ProfileView> {
    let all = of_kind(ps, "video"@);
    let wanted = match p.resolution {
        Some(r) => by_resolution(all, r),
        None => all,
    };
    let tall = if p.remux_to_ts {
        at_least_tall(wanted, greatest_height(wanted))
    } else {
        wanted
    };
    let ranked = by_rank(tall, None);
    let reps = firsts(Feature::Representation, ranked, ranked.len() as int);
    if p.resolution is Some || p.remux_to_ts {
        at_most(reps, 1)
    } else {
        at_most(firsts(Feature::Height, reps, reps.len() as int), 5)
    }
}

/// A profile in English.
pub open spec fn is_english(p: ProfileView) -> bool {
    p.lang matches Some(l) && starts_with(l, "en"@)
}

/// Of the first `n` profiles the last of those with the highest bandwidth, among
/// the English ones or all.
pub open spec fn best_audio(s: Seq<ProfileView>, english: bool, n: int) -> Option<int>
    decreases n,
{
    if n <= 0 {
        None
    } else {
        let best = best_audio(s, english, n - 1);
        let p = s[n - 1];
        if (!english || is_english(p)) && (best is None || p.bandwidth >= s[best->0].bandwidth) {
            Some(n - 1)
        } else {
            best
        }
    }
}

/// The default audio profile: English preferred, then the highest bandwidth.
pub open spec fn default_audio(s: Seq<ProfileView>) -> Option<Seq<char>> {
    match best_audio(s, true, s.len() as int) {
        Some(i) => Some(s[i].id),
        None => match best_audio(s, false, s.len() as int) {
            Some(i) => Some(s[i].id),
            None => None,
        },
    }
}

/// The first profile from `i` on with an identifier.
pub open spec fn first_with_id(s: Seq<ProfileView>, id: Option<Seq<char>>, i: int) -> Option<int>
    decreases s.len() - i,
{
    if i < 0 || i >= s.len() {
        None
    } else if id == Some(s[i].id) {
        Some(i)
    } else {
        first_with_id(s, id, i + 1)
    }
}

/// The codec of the default audio profile, where it names one.
pub open spec fn audio_codec(s: Seq<ProfileView>) -> Option<Seq<char>> {
    let codecs = match first_with_id(s, default_audio(s), 0) {
        Some(i) => Some(s[i].codecs),
        None => if s.len() > 0 {
            Some(s[0].codecs)
        } else {
            None
        },
    };
    if codecs matches Some(c) && c.len() > 0 {
        codecs
    } else {
        None
    }
}

/// The audio profiles of a master playlist: at most four of different
/// languages, the default one first.
pub open spec fn audio_choice(s: Seq<ProfileView>) -> Seq<ProfileView> {
    let ranked = by_rank(s, default_audio(s));
    at_most(firsts(Feature::Language, ranked, ranked.len() as int), 4)
}

// ---------------------------------------------------------------------------
// Master playlists
// ---------------------------------------------------------------------------

/// `YES` or `NO`.
pub open spec fn yes_no(b: bool) -> Seq<char> {
    if b {
        "YES"@
    } else {
        "NO"@
    }
}

/// The line of an audio profile.
pub open spec fn audio_line(
    p: ProfileView,
    default: Option<Seq<char>>,
    base: Seq<char>,
    mpd_url: Seq<char>,
    params: MpdParamsView,
) -> Seq<char> {
    let d = yes_no(default == Some(p.id));
    "#EXT-X-MEDIA:TYPE=AUDIO,GROUP-ID=\"audio\",NAME=\"Audio "@ + lang_of(p) + " ("@ + decimal(
        p.bandwidth as int,
    ) + ")\",DEFAULT="@ + d + ",AUTOSELECT="@ + d + ",LANGUAGE=\""@ + lang_of(p) + "\",URI=\""@
        + playlist_url(base, mpd_url, p.id, params) + "\""@
}

/// The codecs of a video profile with its audio.
pub open spec fn variant_codecs(p: ProfileView, codec: Option<Seq<char>>) -> Seq<char> {
    match codec {
        Some(c) => p.codecs + ","@ + c,
        None => p.codecs,
    }
}

/// The first line of a video profile; its URL is the second.
pub open spec fn video_line(
    p: ProfileView,
    audio: Seq<ProfileView>,
    remux_to_ts: bool,
) -> Seq<char> {
    "#EXT-X-STREAM-INF:BANDWIDTH="@ + decimal(p.bandwidth as int) + ",RESOLUTION="@ + decimal(
        p.width as int,
    ) + "x"@ + decimal(p.height as int) + ",CODECS=\""@ + variant_codecs(p, audio_codec(audio))
        + "\""@ + (if remux_to_ts {
        Seq::empty()
    } else {
        ",FRAME-RATE="@ + p.frame_rate_text
    }) + (if audio.len() > 0 {
        ",AUDIO=\"audio\""@
    } else {
        Seq::empty()
    })
}

/// The two lines before all others.
pub open spec fn head_lines(remux_to_ts: bool) -> Seq<Seq<char>> {
    seq![
        "#EXTM3U"@,
        if remux_to_ts {
            "#EXT-X-VERSION:3"@
        } else {
            "#EXT-X-VERSION:6"@
        },
    ]
}

/// The lines of audio profiles.
pub open spec fn audio_lines(
    chosen: Seq<ProfileView>,
    default: Option<Seq<char>>,
    base: Seq<char>,
    mpd_url: Seq<char>,
    params: MpdParamsView,
) -> Seq<Seq<char>> {
    Seq::new(chosen.len(), |i: int| audio_line(chosen[i], default, base, mpd_url, params))
}

/// The lines of video profiles, two for each.
pub open spec fn video_lines(
    chosen: Seq<ProfileView>,
    audio: Seq<ProfileView>,
    base: Seq<char>,
    mpd_url: Seq<char>,
    params: MpdParamsView,
) -> Seq<Seq<char>>
    decreases chosen.len(),
{
    if chosen.len() == 0 {
        Seq::empty()
    } else {
        video_lines(chosen.drop_last(), audio, base, mpd_url, params).push(
            video_line(chosen.last(), audio, params.remux_to_ts),
        ).push(playlist_url(base, mpd_url, chosen.last().id, params))
    }
}

/// The lines of a master playlist.
pub open spec fn master_lines(
    ps: Seq<ProfileView>,
    base: Seq<char>,
    mpd_url: Seq<char>,
    params: MpdParamsView,
) -> Seq<Seq<char>> {
    let audio = of_kind(ps, "audio"@);
    head_lines(params.remux_to_ts) + audio_lines(
        audio_choice(audio),
        default_audio(audio),
        base,
        mpd_url,
        params,
    ) + video_lines(video_choice(ps, params), audio, base, mpd_url, params)
}

/// The positions of the profiles whose media type holds a word.
fn pick_kind(ps: &Vec<MpdProfile>, word: &str) -> (r: Vec<usize>)
    ensures
        are_positions(r@, ps@.len()),
        picked(ps@, r@) == of_kind(profile_views(ps@), word@),
{
    let mut out: Vec<usize> = Vec::new();
    let ghost all = profile_views(ps@);
    let mut i: usize = 0;
    assert(picked(ps@, out@) =~= of_kind(all.take(0), word@));
    while i < ps.len()
        invariant
            i <= ps.len(),
            all == profile_views(ps@),
            are_positions(out@, ps@.len()),
            picked(ps@, out@) == of_kind(all.take(i as int), word@),
        decreases ps.len() - i,
    {
        assert(all.take(i + 1).drop_last() =~= all.take(i as int));
        assert(all.take(i + 1).last() == ps@[i as int]@);
        if holds(ps[i].mime_type.as_str(), word) {
            proof {
                lemma_picked_push(ps@, out@, i);
            }
            out.push(i);
        }
        i += 1;
    }
    assert(all.take(ps@.len() as int) =~= all);
    out
}

/// Selects by resolution.
fn filter_by_resolution(ps: &Vec<MpdProfile>, idx: Vec<usize>, target: &str) -> (r: Vec<usize>)
    requires
        are_positions(idx@, ps@.len()),
    ensures
        are_positions(r@, ps@.len()),
        picked(ps@, r@) == by_resolution(picked(ps@, idx@), target@),
{
    let wanted: u32 = match parse_u32(trim_end_of(target, 'p').as_str()) {
        Some(n) => n,
        None => 1080,
    };
    let ghost s = picked(ps@, idx@);
    let mut within: Option<usize> = None;
    let mut least: Option<usize> = None;
    let mut i: usize = 0;
    while i < idx.len()
        invariant
            i <= idx.len(),
            s == picked(ps@, idx@),
            are_positions(idx@, ps@.len()),
            within matches Some(b) ==> b < i,
            least matches Some(b) ==> b < i,
            match within {
                Some(b) => tallest_within(s, wanted, i as int) == Some(b as int),
                None => tallest_within(s, wanted, i as int) is None,
            },
            match least {
                Some(b) => least_tall(s, i as int) == Some(b as int),
                None => least_tall(s, i as int) is None,
            },
        decreases idx.len() - i,
    {
        let h: u32 = ps[idx[i]].height;
        assert(s[i as int].height == h);
        let taller: bool = match within {
            Some(b) => {
                assert(s[b as int].height == ps@[idx@[b as int] as int].height);
                h > ps[idx[b]].height
            },
            None => true,
        };
        if 0 < h && h <= wanted && taller {
            within = Some(i);
        }
        let lower: bool = match least {
            Some(b) => {
                assert(s[b as int].height == ps@[idx@[b as int] as int].height);
                h <= ps[idx[b]].height
            },
            None => true,
        };
        if 0 < h && lower {
            least = Some(i);
        }
        i += 1;
    }
    let one: Option<usize> = match within {
        Some(b) => Some(b),
        None => least,
    };
    match one {
        Some(b) => {
            let mut out: Vec<usize> = Vec::new();
            out.push(idx[b]);
            assert(picked(ps@, out@) =~= seq![s[b as int]]);
            out
        },
        None => idx,
    }
}

/// Keeps the tallest profiles.
fn keep_tallest(ps: &Vec<MpdProfile>, idx: &Vec<usize>) -> (r: Vec<usize>)
    requires
        are_positions(idx@, ps@.len()),
    ensures
        are_positions(r@, ps@.len()),
        picked(ps@, r@) == at_least_tall(
            picked(ps@, idx@),
            greatest_height(picked(ps@, idx@)),
        ),
{
    let ghost s = picked(ps@, idx@);
    let mut top: u32 = 0;
    let mut i: usize = 0;
    while i < idx.len()
        invariant
            i <= idx.len(),
            s == picked(ps@, idx@),
            are_positions(idx@, ps@.len()),
            top == greatest_height(s.take(i as int)),
        decreases idx.len() - i,
    {
        assert(s.take(i + 1).drop_last() =~= s.take(i as int));
        assert(s.take(i + 1).last() == ps@[idx@[i as int] as int]@);
        if ps[idx[i]].height > top {
            top = ps[idx[i]].height;
        }
        i += 1;
    }
    assert(s.take(idx@.len() as int) =~= s);
    let mut out: Vec<usize> = Vec::new();
    i = 0;
    assert(picked(ps@, out@) =~= at_least_tall(s.take(0), top));
    while i < idx.len()
        invariant
            i <= idx.len(),
            s == picked(ps@, idx@),
            are_positions(idx@, ps@.len()),
            are_positions(out@, ps@.len()),
            picked(ps@, out@) == at_least_tall(s.take(i as int), top),
        decreases idx.len() - i,
    {
        assert(s.take(i + 1).drop_last() =~= s.take(i as int));
        assert(s.take(i + 1).last() == ps@[idx@[i as int] as int]@);
        if ps[idx[i]].height >= top {
            proof {
                lemma_picked_push(ps@, out@, idx@[i as int]);
            }
            out.push(idx[i]);
        }
        i += 1;
    }
    out
}

/// Where the new profile goes.
proof fn lemma_with_profile(
    s: Seq<ProfileView>,
    p: ProfileView,
    default: Option<Seq<char>>,
    pos: int,
)
    requires
        0 <= pos <= s.len(),
        forall|k: int|
            pos <= k < s.len() ==> rank(#[trigger] s[k], default) < rank(p, default),
        pos > 0 ==> rank(s[pos - 1], default) >= rank(p, default),
    ensures
        with_profile(s, p, default) == s.insert(pos, p),
    decreases s.len(),
{
    if pos == s.len() {
        assert(s.insert(pos, p) =~= s.push(p));
    } else {
        assert(s[s.len() - 1] == s.last());
        let init = s.drop_last();
        assert forall|k: int| pos <= k < init.len() implies rank(#[trigger] init[k], default)
            < rank(p, default) by {
            assert(init[k] == s[k]);
        }
        lemma_with_profile(init, p, default, pos);
        assert(s.insert(pos, p) =~= init.insert(pos, p).push(s.last()));
    }
}

/// Whether an identifier is the default one.
fn is_default(p: &MpdProfile, default: Option<&str>) -> (r: bool)
    ensures
        r == (opt_str(default) == Some(p@.id)),
{
    match default {
        Some(d) => same(d, p.id.as_str()),
        None => false,
    }
}

/// What a profile is ordered by.
fn rank_of(p: &MpdProfile, default: Option<&str>) -> (r: u128)
    ensures
        r == rank(p@, opt_str(default)),
{
    if is_default(p, default) {
        0x1_0000_0000_0000_0000u128 + p.bandwidth as u128
    } else {
        p.bandwidth as u128
    }
}

/// Orders profiles by rank.
fn sort_by_rank(ps: &Vec<MpdProfile>, idx: &Vec<usize>, default: Option<&str>) -> (r: Vec<usize>)
    requires
        are_positions(idx@, ps@.len()),
    ensures
        are_positions(r@, ps@.len()),
        picked(ps@, r@) == by_rank(picked(ps@, idx@), opt_str(default)),
{
    let ghost s = picked(ps@, idx@);
    let ghost d = opt_str(default);
    let mut out: Vec<usize> = Vec::new();
    let mut i: usize = 0;
    assert(picked(ps@, out@) =~= by_rank(s.take(0), d));
    while i < idx.len()
        invariant
            i <= idx.len(),
            s == picked(ps@, idx@),
            d == opt_str(default),
            are_positions(idx@, ps@.len()),
            are_positions(out@, ps@.len()),
            picked(ps@, out@) == by_rank(s.take(i as int), d),
        decreases idx.len() - i,
    {
        let k: usize = idx[i];
        let r: u128 = rank_of(&ps[k], default);
        let ghost before = picked(ps@, out@);
        let mut pos: usize = out.len();
        while pos > 0 && rank_of(&ps[out[pos - 1]], default) < r
            invariant
                pos <= out.len(),
                d == opt_str(default),
                are_positions(out@, ps@.len()),
                before == picked(ps@, out@),
                forall|j: int| pos <= j < before.len() ==> rank(#[trigger] before[j], d) < r,
            decreases pos,
        {
            assert(before[pos - 1] == ps@[out@[pos - 1] as int]@);
            pos -= 1;
        }
        proof {
            if pos > 0 {
                assert(before[pos - 1] == ps@[out@[pos - 1] as int]@);
            }
            lemma_with_profile(before, ps@[k as int]@, d, pos as int);
            assert(s.take(i + 1).drop_last() =~= s.take(i as int));
            assert(s.take(i + 1).last() == ps@[k as int]@);
        }
        let ghost old_out = out@;
        out.insert(pos, k);
        proof {
            assert(picked(ps@, out@) =~= before.insert(pos as int, ps@[k as int]@));
            assert forall|j: int| 0 <= j < out@.len() implies (#[trigger] out@[j]) < ps@.len() by {
                if j < pos {
                    assert(out@[j] == old_out[j]);
                } else if j > pos {
                    assert(out@[j] == old_out[j - 1]);
                }
            }
        }
        i += 1;
    }
    assert(s.take(idx@.len() as int) =~= s);
    out
}

/// Whether two profiles are alike.
fn are_alike(t: Feature, a: &MpdProfile, b: &MpdProfile) -> (r: bool)
    ensures
        r == alike(t, a@, b@),
{
    match t {
        Feature::Representation => same(a.rep_id.as_str(), b.rep_id.as_str()),
        Feature::Height => a.height == b.height,
        Feature::Language => same(lang_text(a), lang_text(b)),
    }
}

/// The language of a profile.
fn lang_text(p: &MpdProfile) -> (r: &str)
    ensures
        r@ == lang_of(p@),
{
    match &p.lang {
        Some(l) => l.as_str(),
        None => "und",
    }
}

/// Keeps the first profile of each that are alike.
fn keep_firsts(t: Feature, ps: &Vec<MpdProfile>, idx: &Vec<usize>) -> (r: Vec<usize>)
    requires
        are_positions(idx@, ps@.len()),
    ensures
        are_positions(r@, ps@.len()),
        picked(ps@, r@) == firsts(t, picked(ps@, idx@), idx@.len() as int),
{
    let ghost s = picked(ps@, idx@);
    let mut out: Vec<usize> = Vec::new();
    let mut i: usize = 0;
    assert(picked(ps@, out@) =~= firsts(t, s, 0));
    while i < idx.len()
        invariant
            i <= idx.len(),
            s == picked(ps@, idx@),
            are_positions(idx@, ps@.len()),
            are_positions(out@, ps@.len()),
            picked(ps@, out@) == firsts(t, s, i as int),
        decreases idx.len() - i,
    {
        let mut seen: bool = false;
        let mut j: usize = 0;
        while j < i
            invariant
                j <= i < idx.len(),
                s == picked(ps@, idx@),
                are_positions(idx@, ps@.len()),
                seen == has_alike(t, s, s[i as int], j as int),
            decreases i - j,
        {
            assert(s[j as int] == ps@[idx@[j as int] as int]@);
            assert(s[i as int] == ps@[idx@[i as int] as int]@);
            if are_alike(t, &ps[idx[j]], &ps[idx[i]]) {
                seen = true;
            }
            j += 1;
        }
        if !seen {
            proof {
                lemma_picked_push(ps@, out@, idx@[i as int]);
            }
            out.push(idx[i]);
        }
        i += 1;
    }
    out
}

/// Keeps at most the first `k` profiles.
fn keep_at_most(ps: &Vec<MpdProfile>, idx: Vec<usize>, k: usize) -> (r: Vec<usize>)
    requires
        are_positions(idx@, ps@.len()),
    ensures
        are_positions(r@, ps@.len()),
        picked(ps@, r@) == at_most(picked(ps@, idx@), k as int),
{
    let mut out = idx;
    if out.len() > k {
        out.truncate(k);
        assert(picked(ps@, out@) =~= picked(ps@, idx@).take(k as int));
        assert forall|i: int| 0 <= i < out@.len() implies (#[trigger] out@[i]) < ps@.len() by {
            assert(out@[i] == idx@[i]);
        }
    }
    out
}

/// Chooses the video profiles of a master playlist.
fn choose_video(ps: &Vec<MpdProfile>, params: &MpdProxyParams) -> (r: Vec<usize>)
    ensures
        are_positions(r@, ps@.len()),
        picked(ps@, r@) == video_choice(profile_views(ps@), params@),
{
    let mut idx = pick_kind(ps, "video");
    if let Some(res) = &params.resolution {
        idx = filter_by_resolution(ps, idx, res.as_str());
    }
    if params.remux_to_ts {
        idx = keep_tallest(ps, &idx);
    }
    let ranked = sort_by_rank(ps, &idx, None);
    assert(picked(ps@, ranked@).len() == ranked@.len());
    let reps = keep_firsts(Feature::Representation, ps, &ranked);
    if params.resolution.is_some() || params.remux_to_ts {
        keep_at_most(ps, reps, 1)
    } else {
        assert(picked(ps@, reps@).len() == reps@.len());
        let heights = keep_firsts(Feature::Height, ps, &reps);
        keep_at_most(ps, heights, 5)
    }
}

/// Finds the best audio profile.
fn find_best_audio(ps: &Vec<MpdProfile>, idx: &Vec<usize>, english: bool) -> (r: Option<usize>)
    requires
        are_positions(idx@, ps@.len()),
    ensures
        match r {
            Some(b) => b < idx@.len() && best_audio(
                picked(ps@, idx@),
                english,
                idx@.len() as int,
            ) == Some(b as int),
            None => best_audio(picked(ps@, idx@), english, idx@.len() as int) is None,
        },
{
    let ghost s = picked(ps@, idx@);
    let mut best: Option<usize> = None;
    let mut i: usize = 0;
    while i < idx.len()
        invariant
            i <= idx.len(),
            s == picked(ps@, idx@),
            are_positions(idx@, ps@.len()),
            match best {
                Some(b) => b < i && best_audio(s, english, i as int) == Some(b as int),
                None => best_audio(s, english, i as int) is None,
            },
        decreases idx.len() - i,
    {
        let p = &ps[idx[i]];
        assert(s[i as int] == p@);
        let fits: bool = !english || match &p.lang {
            Some(l) => begins(l.as_str(), "en"),
            None => false,
        };
        let better: bool = match best {
            Some(b) => {
                assert(s[b as int] == ps@[idx@[b as int] as int]@);
                p.bandwidth >= ps[idx[b]].bandwidth
            },
            None => true,
        };
        if fits && better {
            best = Some(i);
        }
        i += 1;
    }
    best
}

/// Finds the default audio profile.
fn find_default_audio<'a>(ps: &'a Vec<MpdProfile>, idx: &Vec<usize>) -> (r: Option<&'a str>)
    requires
        are_positions(idx@, ps@.len()),
    ensures
        opt_str(r) == default_audio(picked(ps@, idx@)),
{
    assert(picked(ps@, idx@).len() == idx@.len());
    let best: Option<usize> = match find_best_audio(ps, idx, true) {
        Some(b) => Some(b),
        None => find_best_audio(ps, idx, false),
    };
    match best {
        Some(b) => Some(ps[idx[b]].id.as_str()),
        None => None,
    }
}

/// Finds the codec of the default audio profile.
fn find_audio_codec<'a>(ps: &'a Vec<MpdProfile>, idx: &Vec<usize>, default: Option<&str>) -> (r:
    Option<&'a str>)
    requires
        are_positions(idx@, ps@.len()),
        opt_str(default) == default_audio(picked(ps@, idx@)),
    ensures
        opt_str(r) == audio_codec(picked(ps@, idx@)),
{
    let ghost s = picked(ps@, idx@);
    let ghost d = opt_str(default);
    if idx.len() == 0 {
        return None;
    }
    let mut at: usize = 0;
    let mut found: bool = false;
    let mut i: usize = 0;
    while i < idx.len() && !found
        invariant
            i <= idx.len(),
            at < idx.len(),
            s == picked(ps@, idx@),
            d == opt_str(default),
            are_positions(idx@, ps@.len()),
            first_with_id(s, d, 0) == if found {
                Some(at as int)
            } else {
                first_with_id(s, d, i as int)
            },
            !found ==> at == 0,
        decreases idx.len() - i,
    {
        assert(s[i as int] == ps@[idx@[i as int] as int]@);
        if is_default(&ps[idx[i]], default) {
            at = i;
            found = true;
        }
        i += 1;
    }
    assert(s[at as int] == ps@[idx@[at as int] as int]@);
    let codecs = ps[idx[at]].codecs.as_str();
    if chars(codecs).len() > 0 {
        Some(codecs)
    } else {
        None
    }
}

/// The texts of one more line.
proof fn lemma_texts_push(lines: Seq<String>, line: String)
    ensures
        texts(lines.push(line)) == texts(lines).push(line@),
{
    assert(texts(lines.push(line)) =~= texts(lines).push(line@));
}

/// Writes the line of an audio profile.
fn audio_text(
    p: &MpdProfile,
    default: Option<&str>,
    proxy_base: &str,
    mpd_url: &str,
    params: &MpdProxyParams,
) -> (r: String)
    ensures
        r@ == audio_line(p@, opt_str(default), proxy_base@, mpd_url@, params@),
{
    let d = if is_default(p, default) {
        "YES"
    } else {
        "NO"
    };
    let lang = lang_text(p);
    let mut t = "#EXT-X-MEDIA:TYPE=AUDIO,GROUP-ID=\"audio\",NAME=\"Audio ".to_owned();
    t.push_str(lang);
    t.push_str(" (");
    t.push_str(decimal_text(p.bandwidth).as_str());
    t.push_str(")\",DEFAULT=");
    t.push_str(d);
    t.push_str(",AUTOSELECT=");
    t.push_str(d);
    t.push_str(",LANGUAGE=\"");
    t.push_str(lang);
    t.push_str("\",URI=\"");
    t.push_str(build_playlist_url(proxy_base, mpd_url, p.id.as_str(), params).as_str());
    t.push_str("\"");
    t
}

/// Writes the first line of a video profile.
fn video_text(
    p: &MpdProfile,
    codec: Option<&str>,
    has_audio: bool,
    remux_to_ts: bool,
    Ghost(audio): Ghost<Seq<ProfileView>>,
) -> (r: String)
    requires
        opt_str(codec) == audio_codec(audio),
        has_audio == (audio.len() > 0),
    ensures
        r@ == video_line(p@, audio, remux_to_ts),
{
    let mut t = "#EXT-X-STREAM-INF:BANDWIDTH=".to_owned();
    t.push_str(decimal_text(p.bandwidth).as_str());
    t.push_str(",RESOLUTION=");
    t.push_str(decimal_text(p.width as u64).as_str());
    t.push_str("x");
    t.push_str(decimal_text(p.height as u64).as_str());
    t.push_str(",CODECS=\"");
    let mut codecs = p.codecs.clone();
    if let Some(c) = codec {
        codecs.push_str(",");
        codecs.push_str(c);
    }
    t.push_str(codecs.as_str());
    t.push_str("\"");
    let ghost before = t@;
    if !remux_to_ts {
        let rate = crate::text::concat(",FRAME-RATE=", p.frame_rate_text.as_str());
        t.push_str(rate.as_str());
    }
    assert(t@ =~= before + (if remux_to_ts {
        Seq::empty()
    } else {
        ",FRAME-RATE="@ + p@.frame_rate_text
    }));
    let ghost middle = t@;
    if has_audio {
        t.push_str(",AUDIO=\"audio\"");
    }
    assert(t@ =~= middle + (if audio.len() > 0 {
        ",AUDIO=\"audio\""@
    } else {
        Seq::empty()
    }));
    t
}

/// Builds the HLS master playlist of a manifest.
pub fn build_hls_master(
    parsed: &ParsedMpd,
    proxy_base: &str,
    mpd_url: &str,
    params: &MpdProxyParams,
) -> (r: String)
    ensures
        r@ == join_texts(
            master_lines(profile_views(parsed.profiles@), proxy_base@, mpd_url@, params@),
            "\n"@,
        ),
{
    let ps = &parsed.profiles;
    let ghost all = profile_views(ps@);
    let audio = pick_kind(ps, "audio");
    let ghost a = picked(ps@, audio@);
    let video = choose_video(ps, params);
    let default = find_default_audio(ps, &audio);
    let codec = find_audio_codec(ps, &audio, default);
    let ghost d = opt_str(default);
    assert(a.len() == audio@.len());
    let ranked = sort_by_rank(ps, &audio, default);
    assert(picked(ps@, ranked@).len() == ranked@.len());
    let langs = keep_firsts(Feature::Language, ps, &ranked);
    let tracks = keep_at_most(ps, langs, 4);
    let ghost chosen = picked(ps@, tracks@);
    assert(chosen == audio_choice(a));
    let mut lines: Vec<String> = Vec::new();
    lines.push("#EXTM3U".to_owned());
    lines.push(
        if params.remux_to_ts {
            "#EXT-X-VERSION:3".to_owned()
        } else {
            "#EXT-X-VERSION:6".to_owned()
        },
    );
    let ghost head = head_lines(params.remux_to_ts);
    assert(texts(lines@) =~= head);
    let ghost al = audio_lines(chosen, d, proxy_base@, mpd_url@, params@);
    let mut i: usize = 0;
    assert(head + al.take(0) =~= head);
    while i < tracks.len()
        invariant
            i <= tracks.len(),
            ps == &parsed.profiles,
            chosen == picked(ps@, tracks@),
            are_positions(tracks@, ps@.len()),
            d == opt_str(default),
            al == audio_lines(chosen, d, proxy_base@, mpd_url@, params@),
            texts(lines@) == head + al.take(i as int),
        decreases tracks.len() - i,
    {
        let line = audio_text(&ps[tracks[i]], default, proxy_base, mpd_url, params);
        proof {
            assert(chosen[i as int] == ps@[tracks@[i as int] as int]@);
            assert(line@ == al[i as int]);
            lemma_texts_push(lines@, line);
            assert(head + al.take(i + 1) =~= (head + al.take(i as int)).push(al[i as int]));
        }
        lines.push(line);
        i += 1;
    }
    assert(al.take(al.len() as int) =~= al);
    let ghost front = head + al;
    let ghost vs = picked(ps@, video@);
    i = 0;
    assert(front + video_lines(vs.take(0), a, proxy_base@, mpd_url@, params@) =~= front);
    while i < video.len()
        invariant
            i <= video.len(),
            ps == &parsed.profiles,
            vs == picked(ps@, video@),
            are_positions(video@, ps@.len()),
            opt_str(codec) == audio_codec(a),
            a.len() == audio@.len(),
            texts(lines@) == front + video_lines(
                vs.take(i as int),
                a,
                proxy_base@,
                mpd_url@,
                params@,
            ),
        decreases video.len() - i,
    {
        let p = &ps[video[i]];
        let line = video_text(p, codec, audio.len() > 0, params.remux_to_ts, Ghost(a));
        let url = build_playlist_url(proxy_base, mpd_url, p.id.as_str(), params);
        proof {
            let upto = vs.take(i + 1);
            assert(upto.drop_last() =~= vs.take(i as int));
            assert(upto.last() == p@);
            lemma_texts_push(lines@, line);
            lemma_texts_push(lines@.push(line), url);
            let rest = video_lines(vs.take(i as int), a, proxy_base@, mpd_url@, params@);
            assert(front + rest.push(line@).push(url@) =~= (front + rest).push(line@).push(url@));
        }
        lines.push(line);
        lines.push(url);
        i += 1;
    }
    assert(vs.take(vs.len() as int) =~= vs);
    join(&lines, "\n")
}

// ---------------------------------------------------------------------------
// What holds of the selections
// ---------------------------------------------------------------------------

/// The ranks do not rise.
pub open spec fn is_ranked(s: Seq<ProfileView>, default: Option<Seq<char>>) -> bool {
    forall|i: int, j: int|
        0 <= i < j < s.len() ==> rank(#[trigger] s[i], default) >= rank(#[trigger] s[j], default)
}

/// Putting a profile in keeps the order and all profiles.
proof fn lemma_with_profile_ranked(
    s: Seq<ProfileView>,
    p: ProfileView,
    default: Option<Seq<char>>,
)
    requires
        is_ranked(s, default),
    ensures
        is_ranked(with_profile(s, p, default), default),
        with_profile(s, p, default).to_multiset() == s.to_multiset().insert(p),
        forall|i: int|
            0 <= i < with_profile(s, p, default).len() ==> rank(
                #[trigger] with_profile(s, p, default)[i],
                default,
            ) >= rank(p, default) || (s.len() > 0 && rank(
                with_profile(s, p, default)[i],
                default,
            ) >= rank(s.last(), default)),
    decreases s.len(),
{
    broadcast use vstd::seq_lib::group_to_multiset_ensures;

    let out = with_profile(s, p, default);
    if s.len() == 0 || rank(s.last(), default) >= rank(p, default) {
        assert forall|i: int, j: int| 0 <= i < j < out.len() implies rank(
            #[trigger] out[i],
            default,
        ) >= rank(#[trigger] out[j], default) by {
            if j == s.len() {
                if i < s.len() - 1 {
                    assert(rank(s[i], default) >= rank(s[s.len() - 1], default));
                }
            } else {
                assert(out[i] == s[i] && out[j] == s[j]);
            }
        }
        assert forall|i: int| 0 <= i < out.len() implies rank(#[trigger] out[i], default) >= rank(
            p,
            default,
        ) by {
            if i < s.len() - 1 {
                assert(rank(s[i], default) >= rank(s[s.len() - 1], default));
            }
        }
    } else {
        let init = s.drop_last();
        assert(is_ranked(init, default)) by {
            assert forall|i: int, j: int| 0 <= i < j < init.len() implies rank(
                #[trigger] init[i],
                default,
            ) >= rank(#[trigger] init[j], default) by {
                assert(init[i] == s[i] && init[j] == s[j]);
            }
        }
        lemma_with_profile_ranked(init, p, default);
        let front = with_profile(init, p, default);
        assert forall|i: int| 0 <= i < front.len() implies rank(#[trigger] front[i], default)
            >= rank(s.last(), default) by {
            if init.len() > 0 {
                assert(init.last() == s[s.len() - 2]);
                assert(rank(s[s.len() - 2], default) >= rank(s[s.len() - 1], default));
            }
        }
        assert forall|i: int, j: int| 0 <= i < j < out.len() implies rank(
            #[trigger] out[i],
            default,
        ) >= rank(#[trigger] out[j], default) by {
            assert(out[i] == front[i]);
            if j < front.len() {
                assert(out[j] == front[j]);
            }
        }
        assert(s =~= init.push(s.last()));
        assert(out.to_multiset() =~= s.to_multiset().insert(p));
        assert forall|i: int| 0 <= i < out.len() implies rank(#[trigger] out[i], default) >= rank(
            s.last(),
            default,
        ) by {
            if i < front.len() {
                assert(out[i] == front[i]);
            }
        }
    }
}

/// Ordering by rank keeps all profiles and puts a higher rank first.
pub proof fn law_by_rank(s: Seq<ProfileView>, default: Option<Seq<char>>)
    ensures
        is_ranked(by_rank(s, default), default),
        by_rank(s, default).to_multiset() == s.to_multiset(),
        by_rank(s, default).len() == s.len(),
    decreases s.len(),
{
    broadcast use vstd::seq_lib::group_to_multiset_ensures;

    if s.len() > 0 {
        law_by_rank(s.drop_last(), default);
        lemma_with_profile_ranked(by_rank(s.drop_last(), default), s.last(), default);
        assert(s =~= s.drop_last().push(s.last()));
        assert(by_rank(s, default).to_multiset().len() == s.to_multiset().len());
    } else {
        assert(s =~= Seq::empty());
    }
}

/// The best of some profiles is one of them.
proof fn lemma_best_audio(s: Seq<ProfileView>, english: bool, n: int)
    requires
        0 <= n <= s.len(),
    ensures
        best_audio(s, english, n) matches Some(i) ==> 0 <= i < n,
        !english && n > 0 ==> best_audio(s, english, n) is Some,
    decreases n,
{
    if n > 0 {
        lemma_best_audio(s, english, n - 1);
    }
}

/// The first of the firsts is the first.
proof fn lemma_firsts_head(t: Feature, s: Seq<ProfileView>, n: int)
    requires
        0 < n <= s.len(),
    ensures
        firsts(t, s, n).len() > 0,
        firsts(t, s, n)[0] == s[0],
    decreases n,
{
    if n > 1 {
        lemma_firsts_head(t, s, n - 1);
    } else {
        assert(firsts(t, s, 0) =~= Seq::empty());
    }
}

/// The default audio track is always among the tracks of a master playlist, and
/// the first of them.
pub proof fn law_default_audio_comes_first(s: Seq<ProfileView>)
    requires
        s.len() > 0,
    ensures
        audio_choice(s).len() > 0,
        default_audio(s) == Some(audio_choice(s)[0].id),
{
    broadcast use vstd::seq_lib::group_to_multiset_ensures;

    let d = default_audio(s);
    lemma_best_audio(s, true, s.len() as int);
    lemma_best_audio(s, false, s.len() as int);
    assert(d is Some);
    let i = match best_audio(s, true, s.len() as int) {
        Some(i) => i,
        None => best_audio(s, false, s.len() as int)->0,
    };
    assert(d == Some(s[i].id));
    law_by_rank(s, d);
    let ranked = by_rank(s, d);
    assert(s.to_multiset().count(s[i]) > 0);
    assert(ranked.contains(s[i]));
    let k = choose|k: int| 0 <= k < ranked.len() && ranked[k] == s[i];
    assert(rank(ranked[0], d) >= rank(ranked[k], d));
    assert(d == Some(ranked[0].id));
    lemma_firsts_head(Feature::Language, ranked, ranked.len() as int);
}

/// Every one of the firsts is one of the first `n` profiles.
proof fn lemma_firsts_from(t: Feature, s: Seq<ProfileView>, n: int, k: int)
    requires
        0 <= n <= s.len(),
        0 <= k < firsts(t, s, n).len(),
    ensures
        exists|j: int| 0 <= j < n && #[trigger] s[j] == firsts(t, s, n)[k],
    decreases n,
{
    if n > 0 {
        let rest = firsts(t, s, n - 1);
        if k < rest.len() {
            lemma_firsts_from(t, s, n - 1, k);
            let j = choose|j: int| 0 <= j < n - 1 && #[trigger] s[j] == rest[k];
            assert(s[j] == firsts(t, s, n)[k]);
        } else {
            assert(s[n - 1] == firsts(t, s, n)[k]);
        }
    }
}

/// No two of the firsts are alike.
pub proof fn law_firsts_differ(t: Feature, s: Seq<ProfileView>, n: int, i: int, j: int)
    requires
        0 <= n <= s.len(),
        0 <= i < j < firsts(t, s, n).len(),
    ensures
        !alike(t, firsts(t, s, n)[i], firsts(t, s, n)[j]),
    decreases n,
{
    let rest = firsts(t, s, n - 1);
    if j < rest.len() {
        law_firsts_differ(t, s, n - 1, i, j);
        assert(firsts(t, s, n)[i] == rest[i] && firsts(t, s, n)[j] == rest[j]);
    } else {
        lemma_firsts_from(t, s, n - 1, i);
        let k = choose|k: int| 0 <= k < n - 1 && #[trigger] s[k] == rest[i];
        assert(firsts(t, s, n)[i] == rest[i]);
        assert(firsts(t, s, n)[j] == s[n - 1]);
        assert(!has_alike(t, s, s[n - 1], n - 1));
        assert(!alike(t, s[k], s[n - 1]));
    }
}

/// A master playlist offers at most five video variants, and a single one where
/// a resolution is asked for or segments are remuxed; it offers at most four
/// audio tracks.
pub proof fn law_master_is_capped(ps: Seq<ProfileView>, p: MpdParamsView)
    ensures
        video_choice(ps, p).len() <= 5,
        p.resolution is Some || p.remux_to_ts ==> video_choice(ps, p).len() <= 1,
        audio_choice(of_kind(ps, "audio"@)).len() <= 4,
{
}

// ---------------------------------------------------------------------------
// Media playlists
// ---------------------------------------------------------------------------

/// The segments of the first `n` profiles, each with its profile.
pub open spec fn merged(profiles: Seq<ProfileView>, n: int) -> Seq<(SegmentView, ProfileView)>
    decreases n,
{
    if n <= 0 {
        Seq::empty()
    } else {
        let p = profiles[n - 1];
        merged(profiles, n - 1) + Seq::new(p.segments.len(), |i: int| (p.segments[i], p))
    }
}

/// Where a playlist begins in `total` segments: a live one holds the last
/// `depth`.
pub open spec fn window_from(total: int, is_live: bool, depth: int) -> int {
    if is_live && depth < total {
        total - depth
    } else {
        0
    }
}

/// The start offset of a playlist: live playlists have one in any case.
pub open spec fn effective_offset(is_live: bool, start_offset: Option<Seq<char>>) -> Option<
    Seq<char>,
> {
    match start_offset {
        Some(t) => Some(t),
        None => if is_live {
            Some("-30.0"@)
        } else {
            None
        },
    }
}

/// The greatest duration of the first `n` segments, rounded up to seconds.
pub open spec fn longest(w: Seq<(SegmentView, ProfileView)>, n: int) -> u64
    decreases n,
{
    if n <= 0 {
        0
    } else {
        let rest = longest(w, n - 1);
        let e = w[n - 1].0.extinf;
        if e.positive && e.ceil > rest {
            e.ceil
        } else {
            rest
        }
    }
}

/// What is remembered from segment to segment.
pub struct WindowState {
    /// A segment was left out since the last one that was written.
    pub gap: bool,
    /// The initialization section that was written last.
    pub init: Option<Seq<char>>,
}

/// What a media playlist is written for.
pub struct PlaylistContext {
    pub base: Seq<char>,
    pub params: MpdParamsView,
    pub is_live: bool,
    /// For each segment of the window whether it is left out.
    pub skips: Option<Seq<bool>>,
}

/// A segment of the window is left out.
pub open spec fn is_left_out(c: PlaylistContext, i: int) -> bool {
    c.skips matches Some(s) && i < s.len() && s[i]
}

/// The lines of the initialization section, where it changes: a discontinuity
/// before any but the first.
pub open spec fn map_lines(c: PlaylistContext, st: WindowState, p: ProfileView) -> Seq<Seq<char>> {
    let this = text_or(p.init_url, ""@);
    if c.params.remux_to_ts || st.init == Some(this) {
        Seq::empty()
    } else {
        (if st.init is Some {
            seq!["#EXT-X-DISCONTINUITY"@]
        } else {
            Seq::empty()
        }) + (if this.len() > 0 {
            seq![
                "#EXT-X-MAP:URI=\""@ + init_url(
                    c.base,
                    this,
                    p.mime_type,
                    p.init_range,
                    c.params,
                ) + "\""@,
            ]
        } else {
            Seq::empty()
        })
    }
}

/// The state behind the initialization section.
pub open spec fn map_state(c: PlaylistContext, st: WindowState, p: ProfileView) -> WindowState {
    let this = text_or(p.init_url, ""@);
    if c.params.remux_to_ts || st.init == Some(this) {
        st
    } else {
        WindowState { gap: st.gap && st.init is None, init: Some(this) }
    }
}

/// The lines of a segment behind its initialization section.
pub open spec fn segment_lines(
    c: PlaylistContext,
    gap: bool,
    s: SegmentView,
    p: ProfileView,
) -> Seq<Seq<char>> {
    (if gap {
        seq!["#EXT-X-DISCONTINUITY"@]
    } else {
        Seq::empty()
    }) + (if s.program_date_time is Some && !c.params.remux_to_ts {
        seq!["#EXT-X-PROGRAM-DATE-TIME:"@ + s.program_date_time->0]
    } else {
        Seq::empty()
    }) + seq![
        "#EXTINF:"@ + s.extinf.text + ","@,
        segment_url(
            c.base,
            SegmentUrlArgs {
                init_url: text_or(p.init_url, ""@),
                segment_url: s.media,
                mime_type: p.mime_type,
                is_live: c.is_live,
                use_map: !c.params.remux_to_ts,
                init_range: p.init_range,
                seg_init_range: s.init_range,
                segment_range: s.media_range,
            },
            c.params,
        ),
    ]
}

/// The state behind segment `i` of the window.
pub open spec fn window_state(
    c: PlaylistContext,
    w: Seq<(SegmentView, ProfileView)>,
    n: int,
) -> WindowState
    decreases n,
{
    if n <= 0 {
        WindowState { gap: false, init: None }
    } else {
        let st = window_state(c, w, n - 1);
        if is_left_out(c, n - 1) {
            WindowState { gap: true, ..st }
        } else {
            WindowState { gap: false, ..map_state(c, st, w[n - 1].1) }
        }
    }
}

/// The lines of the first `n` segments of the window.
pub open spec fn window_lines(
    c: PlaylistContext,
    w: Seq<(SegmentView, ProfileView)>,
    n: int,
) -> Seq<Seq<char>>
    decreases n,
{
    if n <= 0 {
        Seq::empty()
    } else {
        let rest = window_lines(c, w, n - 1);
        let st = window_state(c, w, n - 1);
        if is_left_out(c, n - 1) {
            rest
        } else {
            rest + map_lines(c, st, w[n - 1].1) + segment_lines(
                c,
                map_state(c, st, w[n - 1].1).gap,
                w[n - 1].0,
                w[n - 1].1,
            )
        }
    }
}

/// The lines between the head of a playlist and its segments.
pub open spec fn playlist_head(
    c: PlaylistContext,
    w: Seq<(SegmentView, ProfileView)>,
    offset: Option<Seq<char>>,
) -> Seq<Seq<char>> {
    let ts = c.params.remux_to_ts;
    let longest_seconds = longest(w, w.len() as int);
    (match offset {
        Some(t) => seq![
            "#EXT-X-START:TIME-OFFSET="@ + t + ",PRECISE="@ + yes_no(!ts),
        ],
        None => Seq::empty(),
    }) + seq![
        "#EXT-X-TARGETDURATION:"@ + decimal(
            if ts {
                longest_seconds + 1
            } else {
                longest_seconds as int
            },
        ),
        "#EXT-X-MEDIA-SEQUENCE:"@ + decimal(
            if c.is_live {
                live_sequence(w[0].0, w[0].1, w[0].1.segments) as int
            } else {
                at_least_one(w[0].0.number) as int
            },
        ),
    ] + (if c.is_live {
        Seq::empty()
    } else {
        seq!["#EXT-X-PLAYLIST-TYPE:VOD"@]
    })
}

/// The lines of a media playlist.
pub open spec fn media_lines(
    c: PlaylistContext,
    all: Seq<(SegmentView, ProfileView)>,
    offset: Option<Seq<char>>,
    depth: int,
) -> Seq<Seq<char>> {
    let w = all.skip(window_from(all.len() as int, c.is_live, depth));
    if all.len() == 0 {
        head_lines(c.params.remux_to_ts)
    } else {
        head_lines(c.params.remux_to_ts) + playlist_head(c, w, offset) + window_lines(
            c,
            w,
            w.len() as int,
        ) + (if c.is_live {
            Seq::empty()
        } else {
            seq!["#EXT-X-ENDLIST"@]
        })
    }
}

/// The profiles behind references.
pub open spec fn refs_view(profiles: Seq<&MpdProfile>) -> Seq<ProfileView> {
    Seq::new(profiles.len(), |i: int| profiles[i]@)
}

/// A position among merged segments: the profile and the segment in it.
pub type Place = (usize, usize);

/// The segments at some places.
pub open spec fn placed(profiles: Seq<&MpdProfile>, places: Seq<(usize, usize)>) -> Seq<
    (SegmentView, ProfileView),
> {
    Seq::new(
        places.len(),
        |i: int|
            (
                profiles[places[i].0 as int].segments@[places[i].1 as int]@,
                profiles[places[i].0 as int]@,
            ),
    )
}

/// Every place is one of a segment.
pub open spec fn are_places(profiles: Seq<&MpdProfile>, places: Seq<(usize, usize)>) -> bool {
    forall|i: int|
        0 <= i < places.len() ==> (#[trigger] places[i]).0 < profiles.len() && places[i].1
            < profiles[places[i].0 as int].segments@.len()
}

/// Merges the segments of profiles.
fn merge_places(profiles: &Vec<&MpdProfile>) -> (r: Vec<Place>)
    ensures
        are_places(profiles@, r@),
        placed(profiles@, r@) == merged(refs_view(profiles@), profiles@.len() as int),
{
    let ghost views = refs_view(profiles@);
    let mut out: Vec<Place> = Vec::new();
    let mut p: usize = 0;
    assert(placed(profiles@, out@) =~= merged(views, 0));
    while p < profiles.len()
        invariant
            p <= profiles.len(),
            views == refs_view(profiles@),
            are_places(profiles@, out@),
            placed(profiles@, out@) == merged(views, p as int),
        decreases profiles.len() - p,
    {
        let segments = &profiles[p].segments;
        let ghost before = placed(profiles@, out@);
        let ghost pairs = Seq::new(
            views[p as int].segments.len(),
            |i: int| (views[p as int].segments[i], views[p as int]),
        );
        let mut i: usize = 0;
        assert(before + pairs.take(0) =~= before);
        while i < segments.len()
            invariant
                i <= segments.len(),
                p < profiles.len(),
                views == refs_view(profiles@),
                *segments == profiles@[p as int].segments,
                pairs == Seq::new(
                    views[p as int].segments.len(),
                    |i: int| (views[p as int].segments[i], views[p as int]),
                ),
                are_places(profiles@, out@),
                placed(profiles@, out@) == before + pairs.take(i as int),
            decreases segments.len() - i,
        {
            let ghost held = placed(profiles@, out@);
            let ghost old_out = out@;
            out.push((p, i));
            proof {
                assert(placed(profiles@, out@) =~= held.push(pairs[i as int]));
                assert(before + pairs.take(i + 1) =~= (before + pairs.take(i as int)).push(
                    pairs[i as int],
                ));
                assert forall|k: int| 0 <= k < out@.len() implies (#[trigger] out@[k]).0
                    < profiles@.len() && out@[k].1 < profiles@[out@[k].0 as int].segments@.len() by {
                    if k < old_out.len() {
                        assert(out@[k] == old_out[k]);
                    }
                }
            }
            i += 1;
        }
        assert(pairs.take(pairs.len() as int) =~= pairs);
        p += 1;
    }
    out
}

/// For each merged segment its duration's ordering number, where the duration is
/// above zero; the median of these is what a start offset is measured in.
pub open spec fn positive_keys(all: Seq<(SegmentView, ProfileView)>, n: int) -> Seq<u64>
    decreases n,
{
    if n <= 0 {
        Seq::empty()
    } else if all[n - 1].0.extinf.positive {
        positive_keys(all, n - 1).push(all[n - 1].0.extinf.key)
    } else {
        positive_keys(all, n - 1)
    }
}

/// The ordering numbers of the positive durations of all segments.
pub fn duration_keys(profiles: &Vec<&MpdProfile>) -> (r: Vec<u64>)
    ensures
        ({
            let all = merged(refs_view(profiles@), profiles@.len() as int);
            r@ == positive_keys(all, all.len() as int)
        }),
{
    let places = merge_places(profiles);
    let ghost all = placed(profiles@, places@);
    let mut out: Vec<u64> = Vec::new();
    let mut i: usize = 0;
    while i < places.len()
        invariant
            i <= places.len(),
            are_places(profiles@, places@),
            all == placed(profiles@, places@),
            out@ == positive_keys(all, i as int),
        decreases places.len() - i,
    {
        let place = places[i];
        let s = &profiles[place.0].segments[place.1];
        assert(all[i as int].0 == s@);
        if s.extinf.positive {
            out.push(s.extinf.key);
        }
        i += 1;
    }
    out
}

/// The segments of a playlist's window, as their ordering numbers' positions:
/// how many segments there are before it.
pub fn window_start(
    total: usize,
    is_live: bool,
    is_ts_mode: bool,
    segs_behind: Option<usize>,
    configured_depth: usize,
) -> (r: usize)
    requires
        segs_behind matches Some(n) ==> n + depth_safety(is_ts_mode) <= usize::MAX,
    ensures
        r == window_from(
            total as int,
            is_live,
            live_depth(is_ts_mode, segs_behind, configured_depth),
        ),
        r <= total,
        total > 0 ==> r < total,
{
    if !is_live {
        return 0;
    }
    let depth: usize = compute_live_playlist_depth(is_ts_mode, segs_behind, configured_depth);
    if depth < total {
        total - depth
    } else {
        0
    }
}

/// A live playlist holds the last segments, as many as its depth, or all where
/// there are no more.
pub proof fn law_live_window(total: int, depth: int)
    requires
        0 <= total,
        1 <= depth,
    ensures
        total - window_from(total, true, depth) == if depth < total {
            depth
        } else {
            total
        },
        window_from(total, false, depth) == 0,
{
}

/// Two profiles that agree in all but their segments.
pub open spec fn agree_but_in_segments(p: ProfileView, q: ProfileView) -> bool {
    q == (ProfileView { segments: q.segments, ..p })
}

/// The segments of the first `n` profiles, one behind the other.
pub open spec fn joined_segments(profiles: Seq<ProfileView>, n: int) -> Seq<SegmentView>
    decreases n,
{
    if n <= 0 {
        Seq::empty()
    } else {
        joined_segments(profiles, n - 1) + profiles[n - 1].segments
    }
}

/// The same segments, with profiles that agree in all but their segments.
pub open spec fn are_same_segments(
    a: Seq<(SegmentView, ProfileView)>,
    b: Seq<(SegmentView, ProfileView)>,
) -> bool {
    &&& a.len() == b.len()
    &&& forall|i: int|
        0 <= i < a.len() ==> (#[trigger] a[i]).0 == b[i].0 && agree_but_in_segments(a[i].1, b[i].1)
}

/// The merged segments are those of the profiles, each with a profile like the
/// first.
proof fn lemma_merged(profiles: Seq<ProfileView>, p: ProfileView, n: int)
    requires
        0 <= n <= profiles.len(),
        forall|i: int| 0 <= i < profiles.len() ==> agree_but_in_segments(p, #[trigger] profiles[i]),
    ensures
        merged(profiles, n).len() == joined_segments(profiles, n).len(),
        forall|i: int|
            0 <= i < merged(profiles, n).len() ==> (#[trigger] merged(profiles, n)[i]).0
                == joined_segments(profiles, n)[i] && agree_but_in_segments(
                p,
                merged(profiles, n)[i].1,
            ),
    decreases n,
{
    if n > 0 {
        lemma_merged(profiles, p, n - 1);
        let rest = merged(profiles, n - 1);
        let last = profiles[n - 1];
        assert forall|i: int| 0 <= i < merged(profiles, n).len() implies (#[trigger] merged(
            profiles,
            n,
        )[i]).0 == joined_segments(profiles, n)[i] && agree_but_in_segments(
            p,
            merged(profiles, n)[i].1,
        ) by {
            if i < rest.len() {
                assert(merged(profiles, n)[i] == rest[i]);
            } else {
                assert(merged(profiles, n)[i] == (last.segments[i - rest.len()], last));
            }
        }
    }
}

/// What is written of segments does not depend on what other segments their
/// profiles have.
proof fn lemma_alike_windows(
    c: PlaylistContext,
    a: Seq<(SegmentView, ProfileView)>,
    b: Seq<(SegmentView, ProfileView)>,
    n: int,
)
    requires
        are_same_segments(a, b),
        0 <= n <= a.len(),
    ensures
        window_state(c, a, n) == window_state(c, b, n),
        window_lines(c, a, n) == window_lines(c, b, n),
        longest(a, n) == longest(b, n),
        positive_keys(a, n) == positive_keys(b, n),
    decreases n,
{
    if n > 0 {
        lemma_alike_windows(c, a, b, n - 1);
        assert(a[n - 1].0 == b[n - 1].0 && agree_but_in_segments(a[n - 1].1, b[n - 1].1));
    }
}

/// Periods whose profiles agree in all but their segments give the playlist of a
/// single period that holds the segments of all of them: they are merged before
/// the playlist is cut to its depth. Of a live playlist this is said where its
/// sequence number does not rest on the durations of the first profile's segments,
/// that is where the segments are numbered or the usual duration is known.
pub proof fn law_periods_are_merged(
    c: PlaylistContext,
    profiles: Seq<ProfileView>,
    offset: Option<Seq<char>>,
    depth: int,
)
    requires
        profiles.len() > 0,
        forall|i: int|
            0 <= i < profiles.len() ==> agree_but_in_segments(profiles[0], #[trigger] profiles[i]),
        !c.is_live || profiles[0].start_number_explicit || profiles[0].nominal_duration is Some,
        1 <= depth,
    ensures
        ({
            let n = profiles.len() as int;
            let one = ProfileView { segments: joined_segments(profiles, n), ..profiles[0] };
            let a = merged(profiles, n);
            let b = merged(seq![one], 1);
            &&& media_lines(c, a, offset, depth) == media_lines(c, b, offset, depth)
            &&& positive_keys(a, a.len() as int) == positive_keys(b, b.len() as int)
        }),
{
    let n = profiles.len() as int;
    let one = ProfileView { segments: joined_segments(profiles, n), ..profiles[0] };
    let single = seq![one];
    let a = merged(profiles, n);
    let b = merged(single, 1);
    lemma_merged(profiles, profiles[0], n);
    lemma_merged(single, profiles[0], 1);
    assert(joined_segments(single, 1) =~= one.segments) by {
        assert(joined_segments(single, 0) =~= Seq::empty());
    }
    assert forall|i: int| 0 <= i < a.len() implies (#[trigger] a[i]).0 == b[i].0
        && agree_but_in_segments(a[i].1, b[i].1) by {
        assert(agree_but_in_segments(profiles[0], a[i].1));
        assert(agree_but_in_segments(profiles[0], b[i].1));
    }
    lemma_alike_windows(c, a, b, a.len() as int);
    if a.len() > 0 {
        let from = window_from(a.len() as int, c.is_live, depth);
        let v = a.skip(from);
        let w = b.skip(from);
        assert forall|i: int| 0 <= i < v.len() implies (#[trigger] v[i]).0 == w[i].0
            && agree_but_in_segments(v[i].1, w[i].1) by {
            assert(v[i] == a[from + i] && w[i] == b[from + i]);
        }
        lemma_alike_windows(c, v, w, v.len() as int);
        assert(v[0] == a[from]);
        assert(agree_but_in_segments(profiles[0], v[0].1));
        assert(v[0].0 == w[0].0 && agree_but_in_segments(v[0].1, w[0].1));
    }
}

/// Two periods whose profiles agree in all but their segments give the playlist of
/// a single period that holds the segments of the one and then those of the other.
pub proof fn law_two_periods_are_merged(
    c: PlaylistContext,
    p: ProfileView,
    q: ProfileView,
    offset: Option<Seq<char>>,
    depth: int,
)
    requires
        agree_but_in_segments(p, q),
        !c.is_live || p.start_number_explicit || p.nominal_duration is Some,
        1 <= depth,
    ensures
        media_lines(c, merged(seq![p, q], 2), offset, depth) == media_lines(
            c,
            merged(seq![ProfileView { segments: p.segments + q.segments, ..p }], 1),
            offset,
            depth,
        ),
{
    let both = seq![p, q];
    reveal_with_fuel(joined_segments, 3);
    assert(joined_segments(both, 2) =~= p.segments + q.segments);
    law_periods_are_merged(c, both, offset, depth);
}

/// Writes the lines of the initialization section, where it changes.
fn push_map(
    lines: &mut Vec<String>,
    p: &MpdProfile,
    current: &mut Option<String>,
    gap: &mut bool,
    proxy_base: &str,
    params: &MpdProxyParams,
    Ghost(c): Ghost<PlaylistContext>,
)
    requires
        c.base == proxy_base@,
        c.params == params@,
    ensures
        ({
            let st = WindowState { gap: *old(gap), init: opt_text(*old(current)) };
            &&& texts(final(lines)@) == texts(old(lines)@) + map_lines(c, st, p@)
            &&& map_state(c, st, p@) == (WindowState {
                gap: *final(gap),
                init: opt_text(*final(current)),
            })
        }),
{
    let ghost st = WindowState { gap: *gap, init: opt_text(*current) };
    let ghost before = texts(lines@);
    if params.remux_to_ts {
        assert(before + map_lines(c, st, p@) =~= before);
        return;
    }
    let this = match &p.init_url {
        Some(u) => u.clone(),
        None => "".to_owned(),
    };
    let unchanged: bool = match &*current {
        Some(u) => same(u.as_str(), this.as_str()),
        None => false,
    };
    if unchanged {
        assert(before + map_lines(c, st, p@) =~= before);
        return;
    }
    if current.is_some() {
        let line = "#EXT-X-DISCONTINUITY".to_owned();
        proof {
            lemma_texts_push(lines@, line);
        }
        lines.push(line);
        *gap = false;
    }
    if chars(this.as_str()).len() > 0 {
        let url = build_init_url(
            proxy_base,
            this.as_str(),
            p.mime_type.as_str(),
            borrow_opt(&p.init_range),
            params,
        );
        let mut line = "#EXT-X-MAP:URI=\"".to_owned();
        line.push_str(url.as_str());
        line.push_str("\"");
        proof {
            lemma_texts_push(lines@, line);
        }
        lines.push(line);
    }
    *current = Some(this);
    assert(texts(lines@) =~= before + map_lines(c, st, p@));
}

/// Writes the lines of a segment.
fn push_segment(
    lines: &mut Vec<String>,
    s: &MpdSegment,
    p: &MpdProfile,
    gap: bool,
    is_live: bool,
    proxy_base: &str,
    params: &MpdProxyParams,
    Ghost(c): Ghost<PlaylistContext>,
)
    requires
        c.base == proxy_base@,
        c.params == params@,
        c.is_live == is_live,
    ensures
        texts(final(lines)@) == texts(old(lines)@) + segment_lines(c, gap, s@, p@),
{
    let ghost before = texts(lines@);
    if gap {
        let line = "#EXT-X-DISCONTINUITY".to_owned();
        proof {
            lemma_texts_push(lines@, line);
        }
        lines.push(line);
    }
    if !params.remux_to_ts {
        if let Some(t) = &s.program_date_time {
            let line = crate::text::concat("#EXT-X-PROGRAM-DATE-TIME:", t.as_str());
            proof {
                lemma_texts_push(lines@, line);
            }
            lines.push(line);
        }
    }
    let mut line = "#EXTINF:".to_owned();
    line.push_str(s.extinf.text.as_str());
    line.push_str(",");
    proof {
        lemma_texts_push(lines@, line);
    }
    lines.push(line);
    let init = match &p.init_url {
        Some(u) => u.as_str(),
        None => "",
    };
    let url = build_segment_url(
        proxy_base,
        init,
        s.media.as_str(),
        p.mime_type.as_str(),
        is_live,
        !params.remux_to_ts,
        borrow_opt(&p.init_range),
        borrow_opt(&s.init_range),
        borrow_opt(&s.media_range),
        params,
    );
    proof {
        lemma_texts_push(lines@, url);
    }
    lines.push(url);
    assert(texts(lines@) =~= before + segment_lines(c, gap, s@, p@));
}

/// The longest duration is one of the segments' own.
proof fn lemma_longest(w: Seq<(SegmentView, ProfileView)>, n: int)
    requires
        0 <= n <= w.len(),
        forall|i: int| 0 <= i < w.len() ==> (#[trigger] w[i]).0.extinf.ceil < u64::MAX,
    ensures
        longest(w, n) < u64::MAX,
    decreases n,
{
    if n > 0 {
        lemma_longest(w, n - 1);
        assert(w[n - 1].0.extinf.ceil < u64::MAX);
    }
}

/// The greatest duration of the segments from place `from` on.
fn longest_seconds(profiles: &Vec<&MpdProfile>, places: &Vec<Place>, from: usize) -> (r: u64)
    requires
        are_places(profiles@, places@),
        from <= places@.len(),
    ensures
        ({
            let w = placed(profiles@, places@).skip(from as int);
            r == longest(w, w.len() as int)
        }),
{
    let ghost w = placed(profiles@, places@).skip(from as int);
    let n: usize = places.len() - from;
    let mut seconds: u64 = 0;
    let mut i: usize = 0;
    while i < n
        invariant
            i <= n,
            n == w.len(),
            from + n == places.len(),
            are_places(profiles@, places@),
            w == placed(profiles@, places@).skip(from as int),
            seconds == longest(w, i as int),
        decreases n - i,
    {
        let place = places[from + i];
        let s = &profiles[place.0].segments[place.1];
        assert(w[i as int].0 == s@);
        if s.extinf.positive && s.extinf.ceil > seconds {
            seconds = s.extinf.ceil;
        }
        i += 1;
    }
    seconds
}

/// Writes the lines between the head of a playlist and its segments.
fn push_head(
    lines: &mut Vec<String>,
    first_segment: &MpdSegment,
    first_profile: &MpdProfile,
    seconds: u64,
    offset: Option<&str>,
    is_live: bool,
    ts: bool,
    Ghost(c): Ghost<PlaylistContext>,
    Ghost(w): Ghost<Seq<(SegmentView, ProfileView)>>,
)
    requires
        c.is_live == is_live,
        c.params.remux_to_ts == ts,
        w.len() > 0,
        w[0] == (first_segment@, first_profile@),
        seconds == longest(w, w.len() as int),
        ts ==> seconds < u64::MAX,
    ensures
        texts(final(lines)@) == texts(old(lines)@) + playlist_head(c, w, opt_str(offset)),
{
    let ghost before = texts(lines@);
    if let Some(t) = offset {
        let mut line = "#EXT-X-START:TIME-OFFSET=".to_owned();
        line.push_str(t);
        line.push_str(",PRECISE=");
        line.push_str(
            if ts {
                "NO"
            } else {
                "YES"
            },
        );
        proof {
            lemma_texts_push(lines@, line);
        }
        lines.push(line);
    }
    let target: u64 = if ts {
        seconds + 1
    } else {
        seconds
    };
    let sequence: u64 = if is_live {
        compute_live_media_sequence(first_segment, first_profile, &first_profile.segments)
    } else if first_segment.number > 1 {
        first_segment.number
    } else {
        1
    };
    let target_line = crate::text::concat("#EXT-X-TARGETDURATION:", decimal_text(target).as_str());
    proof {
        lemma_texts_push(lines@, target_line);
    }
    lines.push(target_line);
    let sequence_line = crate::text::concat(
        "#EXT-X-MEDIA-SEQUENCE:",
        decimal_text(sequence).as_str(),
    );
    proof {
        lemma_texts_push(lines@, sequence_line);
    }
    lines.push(sequence_line);
    if !is_live {
        let line = "#EXT-X-PLAYLIST-TYPE:VOD".to_owned();
        proof {
            lemma_texts_push(lines@, line);
        }
        lines.push(line);
    }
    assert(texts(lines@) =~= before + playlist_head(c, w, opt_str(offset)));
}

/// Writes the lines of the segments from place `from` on.
#[verifier::rlimit(60)]
#[verifier::spinoff_prover]
fn push_window(
    lines: &mut Vec<String>,
    profiles: &Vec<&MpdProfile>,
    places: &Vec<Place>,
    from: usize,
    is_live: bool,
    proxy_base: &str,
    params: &MpdProxyParams,
    skips: Option<&Vec<bool>>,
    Ghost(c): Ghost<PlaylistContext>,
)
    requires
        are_places(profiles@, places@),
        from <= places@.len(),
        c == (PlaylistContext {
            base: proxy_base@,
            params: params@,
            is_live,
            skips: match skips {
                Some(s) => Some(s@),
                None => None,
            },
        }),
    ensures
        ({
            let w = placed(profiles@, places@).skip(from as int);
            texts(final(lines)@) == texts(old(lines)@) + window_lines(c, w, w.len() as int)
        }),
{
    let ghost w = placed(profiles@, places@).skip(from as int);
    let ghost front = texts(lines@);
    let n: usize = places.len() - from;
    let mut gap: bool = false;
    let mut current: Option<String> = None;
    let mut i: usize = 0;
    assert(front + window_lines(c, w, 0) =~= front);
    while i < n
        invariant
            i <= n,
            n == w.len(),
            from + n == places.len(),
            are_places(profiles@, places@),
            w == placed(profiles@, places@).skip(from as int),
            c == (PlaylistContext {
                base: proxy_base@,
                params: params@,
                is_live,
                skips: match skips {
                    Some(s) => Some(s@),
                    None => None,
                },
            }),
            window_state(c, w, i as int) == (WindowState { gap, init: opt_text(current) }),
            texts(lines@) == front + window_lines(c, w, i as int),
        decreases n - i,
    {
        let place = places[from + i];
        let p = profiles[place.0];
        let s = &p.segments[place.1];
        assert(w[i as int] == (s@, p@));
        let left_out: bool = match skips {
            Some(v) => i < v.len() && v[i],
            None => false,
        };
        assert(left_out == is_left_out(c, i as int));
        let ghost st = window_state(c, w, i as int);
        let ghost before = window_lines(c, w, i as int);
        if left_out {
            gap = true;
        } else {
            push_map(lines, p, &mut current, &mut gap, proxy_base, params, Ghost(c));
            let ghost ml = map_lines(c, st, p@);
            push_segment(lines, s, p, gap, is_live, proxy_base, params, Ghost(c));
            let ghost sl = segment_lines(c, gap, s@, p@);
            assert(front + (before + ml + sl) =~= front + before + ml + sl);
            gap = false;
        }
        i += 1;
    }
}

/// Builds the HLS media playlist of one or more profiles, whose segments are
/// merged in order before a live playlist is cut to its depth.
///
/// `start_offset` is the offset as it is written, `segs_behind` how many
/// segments a negative offset spans, and `skips` says for each segment of the
/// window whether it is left out.
#[allow(clippy::too_many_arguments)]
pub fn build_hls_media_playlist(
    parsed: &ParsedMpd,
    profiles: &Vec<&MpdProfile>,
    proxy_base: &str,
    params: &MpdProxyParams,
    skips: Option<&Vec<bool>>,
    start_offset: Option<&str>,
    segs_behind: Option<usize>,
    configured_depth: usize,
) -> (r: String)
    requires
        segs_behind matches Some(n) ==> n + depth_safety(params.remux_to_ts) <= usize::MAX,
        params.remux_to_ts ==> forall|p: int, i: int|
            0 <= p < profiles@.len() && 0 <= i < profiles@[p].segments@.len() ==> (
            #[trigger] profiles@[p].segments@[i]).extinf.ceil < u64::MAX,
    ensures
        r@ == join_texts(
            media_lines(
                PlaylistContext {
                    base: proxy_base@,
                    params: params@,
                    is_live: parsed.is_live,
                    skips: match skips {
                        Some(s) => Some(s@),
                        None => None,
                    },
                },
                merged(refs_view(profiles@), profiles@.len() as int),
                effective_offset(parsed.is_live, opt_str(start_offset)),
                live_depth(params.remux_to_ts, segs_behind, configured_depth),
            ),
            "\n"@,
        ),
{
    let is_live: bool = parsed.is_live;
    let ts: bool = params.remux_to_ts;
    let ghost c = PlaylistContext {
        base: proxy_base@,
        params: params@,
        is_live,
        skips: match skips {
            Some(s) => Some(s@),
            None => None,
        },
    };
    let mut lines: Vec<String> = Vec::new();
    lines.push("#EXTM3U".to_owned());
    lines.push(
        if ts {
            "#EXT-X-VERSION:3".to_owned()
        } else {
            "#EXT-X-VERSION:6".to_owned()
        },
    );
    let ghost head = head_lines(ts);
    assert(texts(lines@) =~= head);
    let places = merge_places(profiles);
    let ghost all = placed(profiles@, places@);
    assert(all.len() == places@.len());
    if places.len() == 0 {
        return join(&lines, "\n");
    }
    let offset: Option<&str> = match start_offset {
        Some(t) => Some(t),
        None => if is_live {
            Some("-30.0")
        } else {
            None
        },
    };
    let from: usize = window_start(places.len(), is_live, ts, segs_behind, configured_depth);
    let ghost w = all.skip(from as int);
    proof {
        if ts {
            assert forall|i: int| 0 <= i < w.len() implies (#[trigger] w[i]).0.extinf.ceil
                < u64::MAX by {
                let place = places@[from + i];
                assert(profiles@[place.0 as int].segments@[place.1 as int].extinf.ceil < u64::MAX);
            }
            lemma_longest(w, w.len() as int);
        }
    }
    let seconds: u64 = longest_seconds(profiles, &places, from);
    let first = places[from];
    let first_profile = profiles[first.0];
    let first_segment = &first_profile.segments[first.1];
    assert(w[0] == (first_segment@, first_profile@));
    push_head(
        &mut lines,
        first_segment,
        first_profile,
        seconds,
        offset,
        is_live,
        ts,
        Ghost(c),
        Ghost(w),
    );
    push_window(
        &mut lines,
        profiles,
        &places,
        from,
        is_live,
        proxy_base,
        params,
        skips,
        Ghost(c),
    );
    let ghost body = head + playlist_head(c, w, opt_str(offset)) + window_lines(
        c,
        w,
        w.len() as int,
    );
    if !is_live {
        let line = "#EXT-X-ENDLIST".to_owned();
        proof {
            lemma_texts_push(lines@, line);
        }
        lines.push(line);
        assert(texts(lines@) =~= body + seq!["#EXT-X-ENDLIST"@]);
    } else {
        assert(texts(lines@) =~= body + Seq::empty());
    }
    join(&lines, "\n")
}

} // verus!
