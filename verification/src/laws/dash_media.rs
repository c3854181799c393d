//! Laws on the media playlists that are made of a DASH manifest.

use vstd::prelude::*;

use crate::laws::dash_urls::{handed, init_link, lemma_init_link, lemma_segment_link, segment_link};
use crate::mpd::playlist::{
    build_hls_media_playlist, head_lines, is_left_out, longest, map_lines, map_state, merged,
    playlist_head, refs_view, segment_lines, window_lines, window_state, PlaylistContext,
};
use crate::mpd::processor::{
    compute_live_media_sequence, compute_live_playlist_depth, resolve_nominal_duration, ParsedMpd,
};
use crate::mpd::types::{MpdProfile, MpdSegment, ProfileView, SegmentView};
use crate::mpd::urls::{MpdParamsView, MpdProxyParams, SegmentUrlArgs};
use crate::text::{decimal, join_texts, opt_str};

verus! {

/// The segments of the first `n` profiles in turn, each with its profile.
pub open spec fn in_turn(profiles: Seq<ProfileView>, n: int) -> Seq<(SegmentView, ProfileView)>
    decreases n,
{
    if n <= 0 {
        Seq::empty()
    } else {
        in_turn(profiles, n - 1) + Seq::new(
            profiles[n - 1].segments.len(),
            |i: int| (profiles[n - 1].segments[i], profiles[n - 1]),
        )
    }
}

/// The two readings of merged segments agree.
proof fn lemma_in_turn(profiles: Seq<ProfileView>, n: int)
    ensures
        in_turn(profiles, n) == merged(profiles, n),
    decreases n,
{
    if n > 0 {
        lemma_in_turn(profiles, n - 1);
        let p = profiles[n - 1];
        assert(Seq::new(p.segments.len(), |i: int| (p.segments[i], p)) =~= Seq::new(
            profiles[n - 1].segments.len(),
            |i: int| (profiles[n - 1].segments[i], profiles[n - 1]),
        ));
    }
}

/// The greater of two numbers.
pub open spec fn greater(a: int, b: int) -> int {
    if a > b {
        a
    } else {
        b
    }
}

/// How many segments a live playlist holds: as many as are configured, at least
/// fifteen, or twenty when segments are remuxed, and enough for what a start offset
/// spans and some more.
pub open spec fn held(ts: bool, behind: Option<usize>, configured: usize) -> int {
    let least = greater(
        configured as int,
        if ts {
            20
        } else {
            15
        },
    );
    match behind {
        Some(n) => greater(
            least,
            n + if ts {
                10int
            } else {
                12
            },
        ),
        None => least,
    }
}

/// How many segments are held.
pub proof fn law_playlist_depth(ts: bool, behind: Option<usize>, configured: usize, r: usize)
    requires
        call_ensures(compute_live_playlist_depth, (ts, behind, configured), r),
        behind matches Some(n) ==> n + 12 <= usize::MAX,
    ensures
        r == held(ts, behind, configured),
{
}

/// The initialization section of a profile; empty where it has none.
pub open spec fn section(p: ProfileView) -> Seq<char> {
    match p.init_url {
        Some(u) => u,
        None => Seq::empty(),
    }
}

/// What a playlist is written for.
pub struct Order {
    pub base: Seq<char>,
    pub params: MpdParamsView,
    pub is_live: bool,
    pub skips: Option<Seq<bool>>,
}

/// A segment of the window is left out.
pub open spec fn drops(o: Order, i: int) -> bool {
    o.skips matches Some(s) && i < s.len() && s[i]
}

/// The duration of a segment and its URL.
pub open spec fn entry_lines(o: Order, s: SegmentView, p: ProfileView) -> Seq<Seq<char>> {
    seq![
        "#EXTINF:"@ + s.extinf.text + ","@,
        segment_link(
            o.base,
            section(p),
            s.media,
            p.mime_type,
            o.is_live,
            !o.params.remux_to_ts,
            if s.init_range is Some {
                s.init_range
            } else {
                p.init_range
            },
            s.media_range,
            o.params,
        ),
    ]
}

/// The date and time of a segment, where it has one and segments are not remuxed.
pub open spec fn date_lines(o: Order, s: SegmentView) -> Seq<Seq<char>> {
    if s.program_date_time is Some && !o.params.remux_to_ts {
        seq!["#EXT-X-PROGRAM-DATE-TIME:"@ + s.program_date_time->0]
    } else {
        Seq::empty()
    }
}

/// The line of an initialization section, where there is one.
pub open spec fn section_lines(o: Order, p: ProfileView) -> Seq<Seq<char>> {
    if section(p).len() > 0 {
        seq![
            "#EXT-X-MAP:URI=\""@ + init_link(
                o.base,
                section(p),
                p.mime_type,
                p.init_range,
                o.params,
            ) + "\""@,
        ]
    } else {
        Seq::empty()
    }
}

/// Segment `k` is the last one before `i` that is not left out.
pub open spec fn is_kept_before(o: Order, i: int, k: int) -> bool {
    &&& 0 <= k < i
    &&& !drops(o, k)
    &&& forall|l: int| k < l < i ==> #[trigger] drops(o, l)
}

/// All segments before `i` are left out.
pub open spec fn is_first_kept(o: Order, i: int) -> bool {
    forall|l: int| 0 <= l < i ==> #[trigger] drops(o, l)
}

/// A discontinuity, where the segment before `i` is left out.
pub open spec fn gap_lines(o: Order, i: int) -> Seq<Seq<char>> {
    if i > 0 && drops(o, i - 1) {
        seq!["#EXT-X-DISCONTINUITY"@]
    } else {
        Seq::empty()
    }
}

/// `block` is what is written of segment `i` of the window. One that is left out
/// leaves nothing. Else there are its date, its duration and its URL. Before them,
/// unless segments are remuxed, stands the initialization section where it is not
/// that of the segment written before, behind a discontinuity where there is such a
/// segment. A segment behind one that was left out has a discontinuity before it, and
/// none has two.
pub open spec fn is_block(
    o: Order,
    w: Seq<(SegmentView, ProfileView)>,
    i: int,
    block: Seq<Seq<char>>,
) -> bool {
    let own = date_lines(o, w[i].0) + entry_lines(o, w[i].0, w[i].1);
    if drops(o, i) {
        block.len() == 0
    } else if o.params.remux_to_ts {
        block == gap_lines(o, i) + own
    } else {
        &&& is_first_kept(o, i) ==> block == section_lines(o, w[i].1) + gap_lines(o, i) + own
        &&& forall|k: int| #[trigger]
            is_kept_before(o, i, k) ==> block == if section(w[i].1) == section(w[k].1) {
                gap_lines(o, i) + own
            } else {
                seq!["#EXT-X-DISCONTINUITY"@] + section_lines(o, w[i].1) + own
            }
    }
}

/// The longest duration, rounded up to seconds.
pub open spec fn is_longest(w: Seq<(SegmentView, ProfileView)>, seconds: int) -> bool {
    &&& forall|i: int|
        0 <= i < w.len() && (#[trigger] w[i]).0.extinf.positive ==> w[i].0.extinf.ceil <= seconds
    &&& seconds == 0 || exists|i: int|
        0 <= i < w.len() && (#[trigger] w[i]).0.extinf.positive && w[i].0.extinf.ceil == seconds
}

/// The sequence number of a playlist that begins with a segment.
pub open spec fn is_sequence(
    is_live: bool,
    first: (SegmentView, ProfileView),
    n: int,
) -> bool {
    &&& n >= 1
    &&& !is_live || first.1.start_number_explicit ==> n == greater(first.0.number as int, 1)
    &&& is_live && !first.1.start_number_explicit && first.0.time is None ==> n == greater(
        first.0.number as int,
        1,
    )
    &&& is_live && !first.1.start_number_explicit && first.0.time is Some && (
    first.1.nominal_duration matches Some(d) && d > 0) ==> n == greater(
        first.0.time->0 as int / first.1.nominal_duration->0 as int,
        1,
    )
}

/// The start offset of a playlist: live ones begin half a minute before their end
/// where nothing else is asked for.
pub open spec fn start_lines(o: Order, offset: Option<Seq<char>>) -> Seq<Seq<char>> {
    let precise = if o.params.remux_to_ts {
        "NO"@
    } else {
        "YES"@
    };
    match offset {
        Some(t) => seq!["#EXT-X-START:TIME-OFFSET="@ + t + ",PRECISE="@ + precise],
        None => if o.is_live {
            seq!["#EXT-X-START:TIME-OFFSET="@ + "-30.0"@ + ",PRECISE="@ + precise]
        } else {
            Seq::empty()
        },
    }
}

/// The lines of a media playlist over the segments of its window.
pub open spec fn are_media_lines(
    o: Order,
    w: Seq<(SegmentView, ProfileView)>,
    offset: Option<Seq<char>>,
    seconds: int,
    sequence: int,
    blocks: Seq<Seq<Seq<char>>>,
    lines: Seq<Seq<char>>,
) -> bool {
    &&& is_longest(w, seconds)
    &&& is_sequence(o.is_live, w[0], sequence)
    &&& blocks.len() == w.len()
    &&& forall|i: int| 0 <= i < w.len() ==> is_block(o, w, i, #[trigger] blocks[i])
    &&& lines == seq![
        "#EXTM3U"@,
        if o.params.remux_to_ts {
            "#EXT-X-VERSION:3"@
        } else {
            "#EXT-X-VERSION:6"@
        },
    ] + start_lines(o, offset) + seq![
        "#EXT-X-TARGETDURATION:"@ + decimal(
            if o.params.remux_to_ts {
                seconds + 1
            } else {
                seconds
            },
        ),
        "#EXT-X-MEDIA-SEQUENCE:"@ + decimal(sequence),
    ] + (if o.is_live {
        Seq::empty()
    } else {
        seq!["#EXT-X-PLAYLIST-TYPE:VOD"@]
    }) + blocks.flatten() + (if o.is_live {
        Seq::empty()
    } else {
        seq!["#EXT-X-ENDLIST"@]
    })
}

/// What is written of segment `i` of the window.
spec fn block_at(c: PlaylistContext, w: Seq<(SegmentView, ProfileView)>, i: int) -> Seq<Seq<char>> {
    let st = window_state(c, w, i);
    if is_left_out(c, i) {
        Seq::empty()
    } else {
        map_lines(c, st, w[i].1) + segment_lines(
            c,
            map_state(c, st, w[i].1).gap,
            w[i].0,
            w[i].1,
        )
    }
}

/// The lines of a window are those of its segments.
proof fn lemma_blocks(c: PlaylistContext, w: Seq<(SegmentView, ProfileView)>, n: int)
    requires
        0 <= n <= w.len(),
    ensures
        window_lines(c, w, n) == Seq::new(n as nat, |i: int| block_at(c, w, i)).flatten(),
    decreases n,
{
    let all = Seq::new(n as nat, |i: int| block_at(c, w, i));
    if n == 0 {
        assert(all =~= Seq::empty());
        assert(window_lines(c, w, n) =~= all.flatten());
    } else {
        lemma_blocks(c, w, n - 1);
        let rest = Seq::new((n - 1) as nat, |i: int| block_at(c, w, i));
        let last = block_at(c, w, n - 1);
        assert(all =~= rest.push(last));
        rest.lemma_flatten_push(last);
        assert(window_lines(c, w, n) =~= window_lines(c, w, n - 1) + last);
    }
}

/// What is remembered before segment `n`.
proof fn lemma_state(
    c: PlaylistContext,
    o: Order,
    w: Seq<(SegmentView, ProfileView)>,
    n: int,
)
    requires
        0 <= n <= w.len(),
        c.params == o.params,
        c.skips == o.skips,
    ensures
        window_state(c, w, n).gap == (n > 0 && drops(o, n - 1)),
        c.params.remux_to_ts ==> window_state(c, w, n).init is None,
        !c.params.remux_to_ts && is_first_kept(o, n) ==> window_state(c, w, n).init is None,
        !c.params.remux_to_ts ==> forall|k: int| #[trigger]
            is_kept_before(o, n, k) ==> window_state(c, w, n).init == Some(section(w[k].1)),
    decreases n,
{
    if n > 0 {
        lemma_state(c, o, w, n - 1);
        lemma_section(w[n - 1].1);
        assert(is_left_out(c, n - 1) == drops(o, n - 1));
        if is_first_kept(o, n) {
            assert(is_first_kept(o, n - 1));
            assert(drops(o, n - 1));
        }
        assert forall|k: int| #[trigger] is_kept_before(o, n, k) && !c.params.remux_to_ts implies
            window_state(c, w, n).init == Some(section(w[k].1)) by {
            if k < n - 1 {
                assert(drops(o, n - 1));
                assert(is_kept_before(o, n - 1, k));
            }
        }
    }
}

/// The two readings of an initialization section agree.
proof fn lemma_section(p: ProfileView)
    ensures
        section(p) == crate::mpd::processor::text_or(p.init_url, ""@),
{
    reveal_strlit("");
    assert(""@ =~= Seq::<char>::empty());
}

/// What is written of a segment.
#[verifier::rlimit(30)]
proof fn lemma_block(
    c: PlaylistContext,
    o: Order,
    w: Seq<(SegmentView, ProfileView)>,
    i: int,
)
    requires
        0 <= i < w.len(),
        c.base == o.base,
        c.params == o.params,
        c.is_live == o.is_live,
        c.skips == o.skips,
    ensures
        is_block(o, w, i, block_at(c, w, i)),
{
    let (s, p) = w[i];
    let st = window_state(c, w, i);
    lemma_section(p);
    lemma_init_link(c.base, section(p), p.mime_type, p.init_range, c.params);
    lemma_segment_link(
        c.base,
        SegmentUrlArgs {
            init_url: section(p),
            segment_url: s.media,
            mime_type: p.mime_type,
            is_live: c.is_live,
            use_map: !c.params.remux_to_ts,
            init_range: p.init_range,
            seg_init_range: s.init_range,
            segment_range: s.media_range,
        },
        c.params,
    );
    let own = date_lines(o, s) + entry_lines(o, s, p);
    let ml = map_lines(c, st, p);
    let gap = map_state(c, st, p).gap;
    let disc = if gap {
        seq!["#EXT-X-DISCONTINUITY"@]
    } else {
        Seq::empty()
    };
    if !is_left_out(c, i) {
        let block = block_at(c, w, i);
        lemma_state(c, o, w, i);
        assert(segment_lines(c, gap, s, p) =~= disc + own);
        assert(block =~= ml + disc + own);
        if o.params.remux_to_ts {
            assert(disc == gap_lines(o, i));
            assert(ml + disc =~= gap_lines(o, i));
        } else {
            if is_first_kept(o, i) {
                assert(ml =~= section_lines(o, p));
                assert(disc == gap_lines(o, i));
            }
            assert forall|k: int| #[trigger] is_kept_before(o, i, k) implies block == if section(p)
                == section(w[k].1) {
                gap_lines(o, i) + own
            } else {
                seq!["#EXT-X-DISCONTINUITY"@] + section_lines(o, p) + own
            } by {
                lemma_section(w[k].1);
                if section(p) == section(w[k].1) {
                    assert(disc == gap_lines(o, i));
                    assert(ml + disc =~= gap_lines(o, i));
                } else {
                    assert(ml =~= seq!["#EXT-X-DISCONTINUITY"@] + section_lines(o, p));
                    assert(disc =~= Seq::empty());
                    assert(ml + disc =~= ml);
                }
            }
        }
    }
}

/// The longest duration.
proof fn lemma_longest(w: Seq<(SegmentView, ProfileView)>, n: int)
    requires
        0 <= n <= w.len(),
    ensures
        forall|i: int|
            0 <= i < n && (#[trigger] w[i]).0.extinf.positive
                ==> w[i].0.extinf.ceil <= longest(w, n),
        longest(w, n) == 0 || exists|i: int|
            0 <= i < n && (#[trigger] w[i]).0.extinf.positive
                && w[i].0.extinf.ceil == longest(w, n),
    decreases n,
{
    if n > 0 {
        lemma_longest(w, n - 1);
        let e = w[n - 1].0.extinf;
        if e.positive && e.ceil > longest(w, n - 1) {
            assert(w[n - 1].0.extinf.ceil == longest(w, n));
        } else if longest(w, n - 1) != 0 {
            let i = choose|i: int|
                0 <= i < n - 1 && (#[trigger] w[i]).0.extinf.positive && w[i].0.extinf.ceil
                    == longest(w, n - 1);
            assert(w[i].0.extinf.ceil == longest(w, n));
        }
    }
}

/// The segments that a playlist holds: all of them, or of a live stream the last.
pub open spec fn window(
    all: Seq<(SegmentView, ProfileView)>,
    is_live: bool,
    depth: int,
) -> Seq<(SegmentView, ProfileView)> {
    if is_live && depth < all.len() {
        all.skip(all.len() - depth)
    } else {
        all
    }
}

/// What a playlist is written for.
pub open spec fn order(
    base: Seq<char>,
    params: MpdParamsView,
    is_live: bool,
    skips: Option<&Vec<bool>>,
) -> Order {
    Order {
        base,
        params,
        is_live,
        skips: match skips {
            Some(s) => Some(s@),
            None => None,
        },
    }
}

/// The lines before the segments of a playlist.
#[verifier::rlimit(30)]
proof fn lemma_head(
    c: PlaylistContext,
    o: Order,
    w: Seq<(SegmentView, ProfileView)>,
    offset: Option<Seq<char>>,
    seconds: int,
    sequence: int,
)
    requires
        c.params == o.params,
        c.is_live == o.is_live,
        seconds == longest(w, w.len() as int),
        sequence == if c.is_live {
            crate::mpd::processor::live_sequence(w[0].0, w[0].1, w[0].1.segments) as int
        } else {
            crate::mpd::processor::at_least_one(w[0].0.number) as int
        },
    ensures
        head_lines(c.params.remux_to_ts) + playlist_head(
            c,
            w,
            crate::mpd::playlist::effective_offset(c.is_live, offset),
        ) == seq![
            "#EXTM3U"@,
            if o.params.remux_to_ts {
                "#EXT-X-VERSION:3"@
            } else {
                "#EXT-X-VERSION:6"@
            },
        ] + start_lines(o, offset) + seq![
            "#EXT-X-TARGETDURATION:"@ + decimal(
                if o.params.remux_to_ts {
                    seconds + 1
                } else {
                    seconds
                },
            ),
            "#EXT-X-MEDIA-SEQUENCE:"@ + decimal(sequence),
        ] + (if o.is_live {
            Seq::empty()
        } else {
            seq!["#EXT-X-PLAYLIST-TYPE:VOD"@]
        }),
{
    let eff = crate::mpd::playlist::effective_offset(c.is_live, offset);
    let head = head_lines(c.params.remux_to_ts);
    let typ = if o.is_live {
        Seq::<Seq<char>>::empty()
    } else {
        seq!["#EXT-X-PLAYLIST-TYPE:VOD"@]
    };
    let two = seq![
        "#EXT-X-TARGETDURATION:"@ + decimal(
            if o.params.remux_to_ts {
                seconds + 1
            } else {
                seconds
            },
        ),
        "#EXT-X-MEDIA-SEQUENCE:"@ + decimal(sequence),
    ];
    let start = start_lines(o, offset);
    assert(playlist_head(c, w, eff) == start + two + typ);
    assert(head + (start + two + typ) =~= head + start + two + typ);
}

/// The lines of a media playlist.
#[verifier::rlimit(30)]
proof fn lemma_media_lines(
    c: PlaylistContext,
    o: Order,
    all: Seq<(SegmentView, ProfileView)>,
    offset: Option<Seq<char>>,
    depth: int,
) -> (r: (int, int, Seq<Seq<Seq<char>>>))
    requires
        all.len() > 0,
        depth >= 1,
        c.base == o.base,
        c.params == o.params,
        c.is_live == o.is_live,
        c.skips == o.skips,
    ensures
        are_media_lines(
            o,
            window(all, o.is_live, depth),
            offset,
            r.0,
            r.1,
            r.2,
            crate::mpd::playlist::media_lines(
                c,
                all,
                crate::mpd::playlist::effective_offset(c.is_live, offset),
                depth,
            ),
        ),
{
    let w = window(all, o.is_live, depth);
    let from = crate::mpd::playlist::window_from(all.len() as int, c.is_live, depth);
    assert(all.skip(from) =~= w);
    let blocks = Seq::new(w.len(), |i: int| block_at(c, w, i));
    lemma_blocks(c, w, w.len() as int);
    lemma_longest(w, w.len() as int);
    assert forall|i: int| 0 <= i < w.len() implies is_block(o, w, i, #[trigger] blocks[i]) by {
        lemma_block(c, o, w, i);
    }
    let seconds = longest(w, w.len() as int) as int;
    let sequence = if c.is_live {
        crate::mpd::processor::live_sequence(w[0].0, w[0].1, w[0].1.segments) as int
    } else {
        crate::mpd::processor::at_least_one(w[0].0.number) as int
    };
    assert(is_sequence(o.is_live, w[0], sequence));
    lemma_head(c, o, w, offset, seconds, sequence);
    (seconds, sequence, blocks)
}

/// A media playlist: the segments of its profiles in turn, those of a live one cut
/// to the last that are held, between the lines that begin and end it.
pub proof fn law_media_playlist(
    parsed: &ParsedMpd,
    profiles: &Vec<&MpdProfile>,
    base: &str,
    params: &MpdProxyParams,
    skips: Option<&Vec<bool>>,
    offset: Option<&str>,
    behind: Option<usize>,
    configured: usize,
    out: String,
)
    requires
        call_ensures(
            build_hls_media_playlist,
            (parsed, profiles, base, params, skips, offset, behind, configured),
            out,
        ),
        in_turn(refs_view(profiles@), profiles@.len() as int).len() > 0,
    ensures
        exists|seconds: int, sequence: int, blocks: Seq<Seq<Seq<char>>>, lines: Seq<Seq<char>>|
            #[trigger] are_media_lines(
                order(base@, handed(*params), parsed.is_live, skips),
                window(
                    in_turn(refs_view(profiles@), profiles@.len() as int),
                    parsed.is_live,
                    held(params.remux_to_ts, behind, configured),
                ),
                opt_str(offset),
                seconds,
                sequence,
                blocks,
                lines,
            ) && out@ == join_texts(lines, "\n"@),
{
    let all = in_turn(refs_view(profiles@), profiles@.len() as int);
    lemma_in_turn(refs_view(profiles@), profiles@.len() as int);
    let depth = held(params.remux_to_ts, behind, configured);
    let o = order(base@, handed(*params), parsed.is_live, skips);
    let c = PlaylistContext {
        base: base@,
        params: params@,
        is_live: parsed.is_live,
        skips: match skips {
            Some(s) => Some(s@),
            None => None,
        },
    };
    let r = lemma_media_lines(c, o, all, opt_str(offset), depth);
    let lines = crate::mpd::playlist::media_lines(
        c,
        all,
        crate::mpd::playlist::effective_offset(c.is_live, opt_str(offset)),
        depth,
    );
    assert(depth == crate::mpd::processor::live_depth(params.remux_to_ts, behind, configured));
    assert(out@ == join_texts(lines, "\n"@));
}

/// The sequence number of a live playlist. Where the manifest does not number its
/// segments and the profile's usual duration is not known, that of its segments is
/// taken.
pub proof fn law_live_sequence(
    first: &MpdSegment,
    profile: &MpdProfile,
    segments: &Vec<MpdSegment>,
    usual: Option<u64>,
    r: u64,
)
    requires
        call_ensures(compute_live_media_sequence, (first, profile, segments), r),
        call_ensures(resolve_nominal_duration, (segments,), usual),
    ensures
        r >= 1,
        profile.segment_template_start_number_explicit ==> r == greater(first.number as int, 1),
        first.time is None ==> r == greater(first.number as int, 1),
        !profile.segment_template_start_number_explicit && first.time is Some && (
        profile.nominal_duration_mpd_timescale matches Some(d) && d > 0) ==> r == greater(
            first.time->0 as int / profile.nominal_duration_mpd_timescale->0 as int,
            1,
        ),
        !profile.segment_template_start_number_explicit && first.time is Some
            && profile.nominal_duration_mpd_timescale is None && (usual matches Some(d) && d > 0)
            ==> r == greater(first.time->0 as int / usual->0 as int, 1),
        profile.nominal_duration_mpd_timescale is None && usual is None ==> r == greater(
            first.number as int,
            1,
        ),
{
}

} // verus!
