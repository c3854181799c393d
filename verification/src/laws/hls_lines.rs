//! Laws on playlists that are rewritten line by line.

use vstd::prelude::*;

use crate::hls::manifest::{
    are_pieces, are_vod_lines, is_piece, is_segment_link, is_vod_line, plan_at, segment_head,
    skipped, state_at, tag_line_kind, ManifestOptions, ManifestProcessor, ParamsView, ProcessorView,
    ProxyParams,
};
use crate::laws::hls::{
    is_line_link, is_path_of, is_served_extension, is_text_with_link, lemma_line_link,
    lemma_relinked, line_kind, told, uri_mark,
};
use crate::laws::urls::is_base;
use crate::text::{contains, lines_text, lowercase, opt_text, starts_with, trim_text};
use crate::utils::url::resolved;

verus! {

/// The line that begins a playlist.
pub open spec fn is_header(l: Seq<char>) -> bool {
    trim_text(l) == "#EXTM3U"@
}

/// The line that announces a segment.
pub open spec fn is_announcement(l: Seq<char>) -> bool {
    !is_header(l) && starts_with(l, "#EXTINF:"@)
}

/// A line that is a link.
pub open spec fn is_link_line(l: Seq<char>) -> bool {
    !is_header(l) && !starts_with(l, "#EXTINF:"@) && !starts_with(l, "#"@) && trim_text(l).len() > 0
}

/// A tag line with a URI.
pub open spec fn is_uri_tag(l: Seq<char>) -> bool {
    !is_header(l) && !is_announcement(l) && !is_link_line(l) && contains(l, "URI="@)
}

/// A line that breaks the timeline.
pub open spec fn is_break(l: Seq<char>) -> bool {
    !is_header(l) && !is_announcement(l) && !is_link_line(l) && !is_uri_tag(l) && starts_with(
        l,
        "#EXT-X-DISCONTINUITY"@,
    )
}

/// A line that says that the stream is finished.
pub open spec fn says_finished(l: Seq<char>) -> bool {
    ||| starts_with(trim_text(l), "#EXT-X-ENDLIST"@)
    ||| starts_with(trim_text(l), "#EXT-X-PLAYLIST-TYPE:"@) && contains(
        lowercase(trim_text(l)),
        "vod"@,
    )
}

/// How many segments are announced before a line.
pub open spec fn announced(ls: Seq<Seq<char>>, n: int) -> nat
    decreases n,
{
    if n <= 0 {
        0
    } else {
        announced(ls, n - 1) + if is_announcement(ls[n - 1]) {
            1nat
        } else {
            0
        }
    }
}

/// A segment is left out, by its number.
pub open spec fn is_dropped(skips: Option<Vec<bool>>, k: nat) -> bool {
    skips matches Some(s) && k < s@.len() && s@[k as int]
}

/// Line `j` announces the segment of line `i`.
pub open spec fn announces(ls: Seq<Seq<char>>, j: int, i: int) -> bool {
    &&& 0 <= j < i
    &&& is_announcement(ls[j])
    &&& forall|k: int| j < k < i ==> !is_announcement(#[trigger] ls[k]) && !is_link_line(ls[k])
}

/// The link of line `i` is written: it is not left out. Where segments may be left
/// out, links that nothing announces are left out too.
pub open spec fn is_kept(ls: Seq<Seq<char>>, skips: Option<Vec<bool>>, i: int) -> bool {
    is_link_line(ls[i]) && (skips is None || exists|j: int|
        #[trigger] announces(ls, j, i) && !is_dropped(skips, announced(ls, j)))
}

/// A segment was left out before line `i`, and neither a link nor a break was
/// written since.
pub open spec fn is_behind_gap(ls: Seq<Seq<char>>, skips: Option<Vec<bool>>, i: int) -> bool {
    exists|j: int|
        #![trigger announced(ls, j)]
        0 <= j < i && is_announcement(ls[j]) && is_dropped(skips, announced(ls, j))
            && forall|k: int|
            j < k < i ==> !is_break(#[trigger] ls[k]) && !is_kept(ls, skips, k)
}

/// `piece` is a link behind its announcement, and behind a break where a segment was
/// left out before it.
pub open spec fn is_link_piece(
    piece: Seq<char>,
    ls: Seq<Seq<char>>,
    i: int,
    b: Seq<char>,
    p: ParamsView,
    opts: ManifestOptions,
    base_url: Seq<char>,
    path: Seq<char>,
    extension: Seq<char>,
) -> bool {
    exists|before: Seq<char>, announcement: Seq<char>, link: Seq<char>|
        #![trigger before + announcement + link]
        {
            &&& before == if is_behind_gap(ls, opts.skips, i) {
                "#EXT-X-DISCONTINUITY\n"@
            } else {
                Seq::empty()
            }
            &&& forall|j: int| #[trigger] announces(ls, j, i) ==> announcement == ls[j] + "\n"@
            &&& (forall|j: int| !#[trigger] announces(ls, j, i)) ==> announcement.len() == 0
            &&& is_line_link(link, b, p, opts, resolved(base_url, ls[i]), path, extension)
            &&& piece == before + announcement + link + "\n"@
        }
}

/// `piece` is a tag line with its URI replaced.
pub open spec fn is_tag_line_piece(
    piece: Seq<char>,
    line: Seq<char>,
    b: Seq<char>,
    p: ParamsView,
    opts: ManifestOptions,
    base_url: Seq<char>,
    head: Seq<char>,
    uri: Seq<char>,
    tail: Seq<char>,
    extension: Seq<char>,
) -> bool {
    exists|t: Seq<char>| #[trigger]
        is_text_with_link(
            t,
            head,
            tail,
            b,
            p,
            opts,
            line_kind(line),
            resolved(base_url, uri),
            extension,
        ) && piece == t + "\n"@
}

/// The start offset goes behind the first header, unless the stream is finished and
/// it is not forced.
pub open spec fn takes_offset(ls: Seq<Seq<char>>, opts: ManifestOptions, i: int) -> bool {
    &&& opts.start_offset is Some
    &&& opts.force_start_offset || forall|k: int|
        0 <= k < ls.len() ==> !says_finished(#[trigger] ls[k])
    &&& forall|k: int| 0 <= k < i ==> !is_header(#[trigger] ls[k])
}

/// `piece` is what line `i` becomes.
pub open spec fn is_line_piece(
    piece: Seq<char>,
    ls: Seq<Seq<char>>,
    i: int,
    b: Seq<char>,
    p: ParamsView,
    opts: ManifestOptions,
    base_url: Seq<char>,
) -> bool {
    let l = ls[i];
    if is_header(l) {
        piece == l + "\n"@ + if takes_offset(ls, opts, i) {
            "#EXT-X-START:TIME-OFFSET="@ + opts.start_offset->0@ + ",PRECISE=YES\n"@
        } else {
            Seq::empty()
        }
    } else if is_announcement(l) {
        piece.len() == 0
    } else if is_link_line(l) {
        if is_kept(ls, opts.skips, i) {
            forall|path: Seq<char>, extension: Seq<char>|
                is_path_of(resolved(base_url, l), path) && is_served_extension(path, extension)
                    ==> #[trigger] is_link_piece(piece, ls, i, b, p, opts, base_url, path,
                        extension)
        } else {
            piece.len() == 0
        }
    } else if is_uri_tag(l) {
        forall|
            head: Seq<char>,
            uri: Seq<char>,
            tail: Seq<char>,
            path: Seq<char>,
            extension: Seq<char>,
        |
            #![trigger is_path_of(resolved(base_url, uri), path), is_tag_line_piece(piece, l, b,
                p, opts, base_url, head, uri, tail, extension)]
            l == head + uri_mark() + uri + "\""@ + tail && !contains(head, uri_mark())
                && !uri.contains('"') && is_path_of(resolved(base_url, uri), path)
                && is_served_extension(path, extension) ==> is_tag_line_piece(
                piece,
                l,
                b,
                p,
                opts,
                base_url,
                head,
                uri,
                tail,
                extension,
            )
    } else {
        piece == l + "\n"@
    }
}

/// The pieces of a line by line rewrite.
proof fn lemma_pieces(
    v: ProcessorView,
    base_url: Seq<char>,
    ls: Seq<Seq<char>>,
    n: int,
    out: Seq<char>,
) -> (pieces: Seq<Seq<char>>)
    requires
        are_pieces(v, base_url, ls, n, out),
        0 <= n,
    ensures
        pieces.len() == n,
        out == pieces.flatten(),
        forall|i: int| 0 <= i < n
            ==> is_piece(v, base_url, plan_at(v, ls, i), #[trigger] pieces[i]),
    decreases n,
{
    if n == 0 {
        let none = Seq::<Seq<char>>::empty();
        assert(none.flatten() =~= Seq::<char>::empty());
        none
    } else {
        let (before, piece) = choose|before: Seq<char>, piece: Seq<char>|
            #![trigger before + piece]
            are_pieces(v, base_url, ls, n - 1, before) && is_piece(
                v,
                base_url,
                plan_at(v, ls, n - 1),
                piece,
            ) && out == before + piece;
        let rest = lemma_pieces(v, base_url, ls, n - 1, before);
        let all = rest.push(piece);
        rest.lemma_flatten_push(piece);
        assert forall|i: int| 0 <= i < n implies is_piece(
            v,
            base_url,
            plan_at(v, ls, i),
            #[trigger] all[i],
        ) by {
            if i < n - 1 {
                assert(all[i] == rest[i]);
            }
        }
        all
    }
}

/// Nothing else announces a segment.
proof fn lemma_announces_once(ls: Seq<Seq<char>>, j: int, k: int, i: int)
    requires
        announces(ls, j, i),
        announces(ls, k, i),
    ensures
        j == k,
{
    if j < k {
        assert(is_announcement(ls[k]));
    }
    if k < j {
        assert(is_announcement(ls[j]));
    }
}

/// What is remembered before line `n`.
#[verifier::rlimit(30)]
proof fn lemma_state(v: ProcessorView, ls: Seq<Seq<char>>, opts: ManifestOptions, n: int)
    requires
        0 <= n <= ls.len(),
        v.skips == crate::hls::manifest::skip_view(opts.skips),
    ensures
        state_at(v, ls, n).seen == announced(ls, n),
        forall|j: int| #[trigger]
            announces(ls, j, n) ==> state_at(v, ls, n).pending == if is_dropped(
                opts.skips,
                announced(ls, j),
            ) {
                None
            } else {
                Some(ls[j])
            },
        (forall|j: int| !#[trigger] announces(ls, j, n)) ==> state_at(v, ls, n).pending is None,
        state_at(v, ls, n).gap <==> is_behind_gap(ls, opts.skips, n),
        state_at(v, ls, n).offset_done ==> exists|k: int| 0 <= k < n && is_header(#[trigger] ls[k]),
    decreases n,
{
    if n > 0 {
        let m = n - 1;
        let l = ls[m];
        lemma_state(v, ls, opts, m);
        let st = state_at(v, ls, m);
        let now = state_at(v, ls, n);
        assert(skipped(v, st.seen) == is_dropped(opts.skips, announced(ls, m)));
        // Announcements.
        if is_announcement(l) {
            assert(announces(ls, m, n));
            assert forall|j: int| #[trigger] announces(ls, j, n) implies j == m by {
                lemma_announces_once(ls, j, m, n);
            }
        } else if is_link_line(l) {
            assert forall|j: int| !#[trigger] announces(ls, j, n) by {
                if announces(ls, j, n) {
                    if j < m {
                        assert(!is_link_line(ls[m]));
                    }
                }
            }
            if now.pending is Some {
                assert(st.pending is None);
            }
        } else {
            assert forall|j: int| #[trigger] announces(ls, j, n) implies announces(ls, j, m) by {}
            assert forall|j: int| #[trigger] announces(ls, j, m) implies announces(ls, j, n) by {}
            if forall|j: int| !#[trigger] announces(ls, j, n) {
                assert forall|j: int| !#[trigger] announces(ls, j, m) by {
                    assert(!announces(ls, j, n));
                }
            }
        }
        // Gaps.
        lemma_kept(v, ls, opts, m);
        if is_announcement(l) && is_dropped(opts.skips, announced(ls, m)) {
            assert(is_behind_gap(ls, opts.skips, n)) by {
                assert(announced(ls, m) >= 0);
            }
        } else {
            if is_behind_gap(ls, opts.skips, n) {
                let j = choose|j: int|
                    #![trigger announced(ls, j)]
                    0 <= j < n && is_announcement(ls[j]) && is_dropped(
                        opts.skips,
                        announced(ls, j),
                    ) && forall|k: int|
                        j < k < n ==> !is_break(#[trigger] ls[k]) && !is_kept(ls, opts.skips, k);
                assert(j != m);
                assert(!is_break(ls[m]) && !is_kept(ls, opts.skips, m));
                assert(announced(ls, j) >= 0);
                assert(is_behind_gap(ls, opts.skips, m));
            }
            if is_behind_gap(ls, opts.skips, m) && !is_break(l) && !is_kept(ls, opts.skips, m) {
                let j = choose|j: int|
                    #![trigger announced(ls, j)]
                    0 <= j < m && is_announcement(ls[j]) && is_dropped(
                        opts.skips,
                        announced(ls, j),
                    ) && forall|k: int|
                        j < k < m ==> !is_break(#[trigger] ls[k]) && !is_kept(ls, opts.skips, k);
                assert forall|k: int| j < k < n implies !is_break(#[trigger] ls[k]) && !is_kept(
                    ls,
                    opts.skips,
                    k,
                ) by {}
                assert(announced(ls, j) >= 0);
                assert(is_behind_gap(ls, opts.skips, n));
            }
        }
        if now.offset_done {
            if st.offset_done {
                let k = choose|k: int| 0 <= k < m && is_header(#[trigger] ls[k]);
                assert(is_header(ls[k]));
            } else {
                assert(is_header(ls[m]));
            }
        }
    } else {
        assert forall|j: int| !#[trigger] announces(ls, j, 0) by {}
    }
}

/// A link is kept where its announcement is remembered.
proof fn lemma_kept(v: ProcessorView, ls: Seq<Seq<char>>, opts: ManifestOptions, m: int)
    requires
        0 <= m < ls.len(),
        v.skips == crate::hls::manifest::skip_view(opts.skips),
        forall|j: int| #[trigger]
            announces(ls, j, m) ==> state_at(v, ls, m).pending == if is_dropped(
                opts.skips,
                announced(ls, j),
            ) {
                None
            } else {
                Some(ls[j])
            },
        (forall|j: int| !#[trigger] announces(ls, j, m)) ==> state_at(v, ls, m).pending is None,
    ensures
        is_kept(ls, opts.skips, m) <==> is_link_line(ls[m]) && (v.skips is None || state_at(
            v,
            ls,
            m,
        ).pending is Some),
{
    if is_link_line(ls[m]) && v.skips is Some {
        if state_at(v, ls, m).pending is Some {
            let j = choose|j: int| #[trigger] announces(ls, j, m);
            assert(announces(ls, j, m));
            assert(!is_dropped(opts.skips, announced(ls, j)));
        }
        if is_kept(ls, opts.skips, m) {
            let j = choose|j: int| #[trigger]
                announces(ls, j, m) && !is_dropped(opts.skips, announced(ls, j));
            assert(announces(ls, j, m));
        }
    }
}

/// The start offset is put in behind the first header.
proof fn lemma_offset(v: ProcessorView, ls: Seq<Seq<char>>, n: int)
    requires
        0 <= n <= ls.len(),
        crate::hls::manifest::wants_offset(v, are_vod_lines(ls)),
        exists|k: int| 0 <= k < n && is_header(#[trigger] ls[k]),
    ensures
        state_at(v, ls, n).offset_done,
    decreases n,
{
    let k = choose|k: int| 0 <= k < n && is_header(#[trigger] ls[k]);
    if k < n - 1 {
        assert(is_header(ls[k]));
        lemma_offset(v, ls, n - 1);
    }
}

/// The lines of a finished stream are those of which one says so.
proof fn lemma_finished(ls: Seq<Seq<char>>)
    ensures
        are_vod_lines(ls) <==> exists|k: int| 0 <= k < ls.len() && says_finished(#[trigger] ls[k]),
{
    if are_vod_lines(ls) {
        let k = choose|k: int| 0 <= k < ls.len() && is_vod_line(#[trigger] ls[k]);
        assert(says_finished(ls[k]));
    }
    if exists|k: int| 0 <= k < ls.len() && says_finished(#[trigger] ls[k]) {
        let k = choose|k: int| 0 <= k < ls.len() && says_finished(#[trigger] ls[k]);
        assert(is_vod_line(ls[k]));
    }
}

/// What one line becomes.
#[verifier::rlimit(30)]
proof fn lemma_line_piece(
    v: ProcessorView,
    ls: Seq<Seq<char>>,
    i: int,
    b: Seq<char>,
    opts: ManifestOptions,
    base_url: Seq<char>,
    piece: Seq<char>,
)
    requires
        0 <= i < ls.len(),
        is_base(v.base, b),
        v.no_proxy == opts.no_proxy,
        v.key_only_proxy == opts.key_only_proxy,
        v.force_playlist_proxy == opts.force_playlist_proxy,
        v.skips == crate::hls::manifest::skip_view(opts.skips),
        v.start_offset == opt_text(opts.start_offset),
        v.force_start_offset == opts.force_start_offset,
        is_piece(v, base_url, plan_at(v, ls, i), piece),
    ensures
        is_line_piece(piece, ls, i, b, v.params, opts, base_url),
{
    let l = ls[i];
    lemma_state(v, ls, opts, i);
    lemma_kept(v, ls, opts, i);
    lemma_finished(ls);
    let st = state_at(v, ls, i);
    if is_header(l) {
        if takes_offset(ls, opts, i) {
            assert(!st.offset_done);
        } else if crate::hls::manifest::wants_offset(v, are_vod_lines(ls)) {
            lemma_offset(v, ls, i);
        }
        assert(l + "\n"@ + Seq::<char>::empty() =~= l + "\n"@);
        if takes_offset(ls, opts, i) {
            assert(piece =~= l + "\n"@ + ("#EXT-X-START:TIME-OFFSET="@ + opts.start_offset->0@
                + ",PRECISE=YES\n"@));
        }
    } else if is_announcement(l) {
    } else if is_link_line(l) {
        if is_kept(ls, opts.skips, i) {
            let head = segment_head(st.gap, st.pending);
            let u = choose|u: Seq<char>| #[trigger]
                is_segment_link(v, base_url, l, u) && piece == head + u + "\n"@;
            let before = if st.gap {
                "#EXT-X-DISCONTINUITY\n"@
            } else {
                Seq::empty()
            };
            let announcement = match st.pending {
                Some(e) => e + "\n"@,
                None => Seq::<char>::empty(),
            };
            assert forall|path: Seq<char>, extension: Seq<char>|
                is_path_of(resolved(base_url, l), path) && is_served_extension(
                    path,
                    extension,
                ) implies #[trigger] is_link_piece(
                piece,
                ls,
                i,
                b,
                v.params,
                opts,
                base_url,
                path,
                extension,
            ) by {
                lemma_line_link(v, b, opts, base_url, l, path, extension, u);
                assert(piece =~= before + announcement + u + "\n"@);
                if opts.skips is Some {
                    let j = choose|j: int| #[trigger]
                        announces(ls, j, i) && !is_dropped(opts.skips, announced(ls, j));
                    assert forall|k: int| #[trigger] announces(ls, k, i) implies announcement
                        == ls[k] + "\n"@ by {
                        lemma_announces_once(ls, j, k, i);
                    }
                }
            }
        }
    } else if is_uri_tag(l) {
        let t = choose|t: Seq<char>| #[trigger]
            crate::hls::manifest::is_relinked(v, base_url, l, tag_line_kind(l), t) && piece == t
                + "\n"@;
        assert forall|
            head: Seq<char>,
            uri: Seq<char>,
            tail: Seq<char>,
            path: Seq<char>,
            extension: Seq<char>,
        |
            l == head + uri_mark() + uri + "\""@ + tail && !contains(head, uri_mark())
                && !uri.contains('"') && #[trigger] is_path_of(resolved(base_url, uri), path)
                && is_served_extension(path, extension) implies #[trigger] is_tag_line_piece(
            piece,
            l,
            b,
            v.params,
            opts,
            base_url,
            head,
            uri,
            tail,
            extension,
        ) by {
            lemma_relinked(
                v,
                b,
                opts,
                line_kind(l),
                base_url,
                head,
                uri,
                tail,
                path,
                extension,
                t,
            );
        }
    }
}

/// A playlist that is rewritten line by line: links are replaced, each behind the
/// line that announces it, segments that are left out vanish and leave a break, the
/// URIs of tags are replaced, the start offset goes behind the first header, and
/// every other line stays as it is.
pub proof fn law_line_by_line(
    base: &str,
    params: ProxyParams,
    opts: ManifestOptions,
    processor: &ManifestProcessor,
    content: &str,
    base_url: &str,
    out: String,
    b: Seq<char>,
)
    requires
        call_ensures(ManifestProcessor::new, (base, params, opts), *processor),
        call_ensures(ManifestProcessor::process_lines, (processor, content, base_url), out),
        is_base(base@, b),
    ensures
        exists|pieces: Seq<Seq<char>>|
            pieces.len() == lines_text(content@).len() && out@ == #[trigger] pieces.flatten()
                && forall|i: int|
                0 <= i < pieces.len() ==> is_line_piece(
                    #[trigger] pieces[i],
                    lines_text(content@),
                    i,
                    b,
                    told(params),
                    opts,
                    base_url@,
                ),
{
    lemma_lines_of(processor@, b, opts, base_url@, content@, out@);
}

/// The pieces of a text that is rewritten line by line.
pub proof fn lemma_lines_of(
    v: ProcessorView,
    b: Seq<char>,
    opts: ManifestOptions,
    base_url: Seq<char>,
    content: Seq<char>,
    out: Seq<char>,
)
    requires
        is_base(v.base, b),
        v.no_proxy == opts.no_proxy,
        v.key_only_proxy == opts.key_only_proxy,
        v.force_playlist_proxy == opts.force_playlist_proxy,
        v.skips == crate::hls::manifest::skip_view(opts.skips),
        v.start_offset == opt_text(opts.start_offset),
        v.force_start_offset == opts.force_start_offset,
        crate::hls::manifest::is_line_rewrite(v, base_url, content, out),
    ensures
        exists|pieces: Seq<Seq<char>>|
            pieces.len() == lines_text(content).len() && out == #[trigger] pieces.flatten()
                && forall|i: int|
                0 <= i < pieces.len() ==> is_line_piece(
                    #[trigger] pieces[i],
                    lines_text(content),
                    i,
                    b,
                    v.params,
                    opts,
                    base_url,
                ),
{
    let ls = lines_text(content);
    let pieces = lemma_pieces(v, base_url, ls, ls.len() as int, out);
    assert forall|i: int| 0 <= i < pieces.len() implies is_line_piece(
        #[trigger] pieces[i],
        ls,
        i,
        b,
        v.params,
        opts,
        base_url,
    ) by {
        lemma_line_piece(v, ls, i, b, opts, base_url, pieces[i]);
    }
}

} // verus!
