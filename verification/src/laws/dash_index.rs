//! Laws on segment indexes of either version, and on where an index stands.

use vstd::prelude::*;

use crate::laws::dash_requests::{four, two};
use crate::mpd::sidx::{
    big_endian, fragment_views, fragments, head_at, is_media, is_sidx_at, parse_sidx_fragments,
    reference_count, reference_size, reference_start, sidx_fragments, sidx_from, SidxFragment,
    SidxHead,
};

verus! {

/// Eight bytes, the greatest one first.
pub open spec fn eight(s: Seq<u8>, at: int) -> int {
    four(s, at) * 0x1_0000_0000 + four(s, at + 4)
}

/// The two readings of a number agree.
proof fn lemma_read(s: Seq<u8>, at: int)
    ensures
        big_endian(s, at, 2) == two(s, at),
        big_endian(s, at, 4) == four(s, at),
        big_endian(s, at, 8) == eight(s, at),
{
    reveal_with_fuel(big_endian, 9);
}

/// Where the references of an index begin: its version decides.
pub open spec fn references_at(s: Seq<u8>) -> int {
    if s[8] == 0 {
        32
    } else {
        40
    }
}

/// Where the first reference points to, behind the index.
pub open spec fn first_offset(s: Seq<u8>) -> int {
    if s[8] == 0 {
        four(s, 24)
    } else {
        eight(s, 28)
    }
}

/// A segment index of `n` references.
pub open spec fn is_index_of(s: Seq<u8>, n: int) -> bool {
    &&& 0 <= n
    &&& s.len() >= references_at(s) + 12 * n
    &&& s.len() >= 40
    &&& s.subrange(4, 8) == seq![115u8, 105, 100, 120]
    &&& four(s, 0) >= 8
    &&& n == if s[8] == 0 {
        two(s, 30)
    } else {
        two(s, 38)
    }
}

/// The first four bytes of reference `i`: the highest bit says that it points to
/// another index, the others how long it is.
pub open spec fn word(s: Seq<u8>, i: int) -> int {
    four(s, references_at(s) + 12 * i)
}

/// How long what reference `i` points to is.
pub open spec fn length_of(s: Seq<u8>, i: int) -> int {
    if word(s, i) >= 0x8000_0000 {
        word(s, i) - 0x8000_0000
    } else {
        word(s, i)
    }
}

/// How long what the first `i` references point to is.
pub open spec fn length_before(s: Seq<u8>, i: int) -> int
    decreases i,
{
    if i <= 0 {
        0
    } else {
        length_before(s, i - 1) + length_of(s, i - 1)
    }
}

/// The lengths of references.
proof fn lemma_lengths(s: Seq<u8>, h: SidxHead, n: int)
    requires
        0 <= n,
        h.at == references_at(s),
    ensures
        reference_start(s, h, n) == h.first + length_before(s, n),
        0 <= length_before(s, n) <= n * 0x8000_0000,
        forall|i: int| 0 <= i < n ==> #[trigger] reference_size(s, h, i) == length_of(s, i),
    decreases n,
{
    if n > 0 {
        lemma_lengths(s, h, n - 1);
        lemma_read(s, h.at + 12 * (n - 1));
        let w = word(s, n - 1);
        assert(0 <= w < 0x1_0000_0000);
        assert(reference_size(s, h, n - 1) == w % 0x8000_0000);
        if w >= 0x8000_0000 {
            assert(w % 0x8000_0000 == w - 0x8000_0000) by (nonlinear_arith)
                requires
                    0x8000_0000 <= w < 0x1_0000_0000,
            ;
        }
    }
}

/// The fragments of an index and the references that they come from.
proof fn lemma_media(s: Seq<u8>, h: SidxHead, n: int) -> (places: Seq<int>)
    requires
        0 <= n,
        h.at == references_at(s),
    ensures
        places.len() == fragments(s, h, n).len(),
        forall|k: int|
            0 <= k < places.len() ==> {
                let i = #[trigger] places[k];
                let f = fragments(s, h, n)[k];
                &&& 0 <= i < n
                &&& f.start == reference_start(s, h, i)
                &&& f.end == reference_start(s, h, i + 1) - 1
                &&& f.duration == big_endian(s, h.at + 12 * i + 4, 4)
                &&& f.timescale == h.timescale
            },
        forall|k: int, l: int| 0 <= k < l < places.len() ==> places[k] < places[l],
        forall|i: int| 0 <= i < n ==> (#[trigger] places.contains(i) <==> is_media(s, h, i)),
    decreases n,
{
    if n <= 0 {
        Seq::empty()
    } else {
        let before = lemma_media(s, h, n - 1);
        if is_media(s, h, n - 1) {
            let places = before.push(n - 1);
            assert(places[before.len() as int] == n - 1);
            assert forall|i: int| 0 <= i < n implies (#[trigger] places.contains(i) <==> is_media(
                s,
                h,
                i,
            )) by {
                if i < n - 1 {
                    assert(before.contains(i) <==> is_media(s, h, i));
                    if before.contains(i) {
                        let k = choose|k: int| 0 <= k < before.len() && before[k] == i;
                        assert(places[k] == i);
                    }
                    if places.contains(i) {
                        let k = choose|k: int| 0 <= k < places.len() && places[k] == i;
                        assert(before[k] == i);
                    }
                }
            }
            places
        } else {
            assert forall|i: int| 0 <= i < n implies (#[trigger] before.contains(i) <==> is_media(
                s,
                h,
                i,
            )) by {
                if i == n - 1 && before.contains(i) {
                    let k = choose|k: int| 0 <= k < before.len() && before[k] == i;
                }
            }
            before
        }
    }
}

/// The head of an index.
proof fn lemma_head(s: Seq<u8>, at: int, n: int)
    requires
        is_index_of(s, n),
    ensures
        sidx_from(s, 0) == Some(0int),
        head_at(s, 0, at) == Some(
            SidxHead {
                timescale: four(s, 16),
                first: at + four(s, 0) + first_offset(s),
                count: n,
                at: references_at(s),
            },
        ),
{
    lemma_read(s, 0);
    lemma_read(s, 16);
    lemma_read(s, 24);
    lemma_read(s, 28);
    lemma_read(s, 30);
    lemma_read(s, 38);
    let name = s.subrange(4, 8);
    assert(name[0] == s[4] && name[1] == s[5] && name[2] == s[6] && name[3] == s[7]);
}

/// Each reference to media is a fragment, in order; those to other indexes are none,
/// but what they point to takes its room. The first reference begins behind the
/// index, as far as the index says.
pub proof fn law_index_references(
    data: &[u8],
    at: u64,
    out: Vec<SidxFragment>,
    n: int,
) -> (places: Seq<int>)
    requires
        call_ensures(parse_sidx_fragments, (data, at), out),
        is_index_of(data@, n),
        at + first_offset(data@) <= 0x4000_0000_0000_0000,
    ensures
        places.len() == out@.len(),
        forall|k: int, l: int| 0 <= k < l < places.len() ==> places[k] < places[l],
        forall|i: int|
            0 <= i < n ==> (#[trigger] places.contains(i) <==> word(data@, i) < 0x8000_0000),
        forall|k: int|
            0 <= k < places.len() ==> {
                let i = #[trigger] places[k];
                &&& 0 <= i < n
                &&& out@[k].start == at + four(data@, 0) + first_offset(data@) + length_before(
                    data@,
                    i,
                )
                &&& out@[k].end + 1 == out@[k].start + length_of(data@, i)
                &&& out@[k].duration_timescale == four(
                    data@,
                    references_at(data@) + 12 * i + 4,
                )
                &&& out@[k].timescale == four(data@, 16)
            },
{
    let s = data@;
    lemma_head(s, at as int, n);
    let h = head_at(s, 0, at as int)->0;
    let r = references_at(s);
    assert(reference_count(s, h) == n) by {
        assert((s.len() - r) / 12 >= n) by (nonlinear_arith)
            requires
                s.len() >= r + 12 * n,
        ;
    }
    lemma_lengths(s, h, n);
    assert(n < 0x1_0000);
    assert(0 <= four(s, 0) < 0x1_0000_0000);
    assert(reference_start(s, h, n) <= u64::MAX);
    let places = lemma_media(s, h, n);
    assert(fragment_views(out@) == fragments(s, h, n));
    assert forall|i: int| 0 <= i < n implies (#[trigger] places.contains(i) <==> word(s, i)
        < 0x8000_0000) by {
        lemma_read(s, r + 12 * i);
    }
    assert forall|k: int| 0 <= k < places.len() implies {
        let i = #[trigger] places[k];
        &&& 0 <= i < n
        &&& out@[k].start == at + four(s, 0) + first_offset(s) + length_before(s, i)
        &&& out@[k].end + 1 == out@[k].start + length_of(s, i)
        &&& out@[k].duration_timescale == four(s, r + 12 * i + 4)
        &&& out@[k].timescale == four(s, 16)
    } by {
        let i = places[k];
        lemma_read(s, r + 12 * i + 4);
        lemma_lengths(s, h, i);
        lemma_lengths(s, h, i + 1);
        assert(fragment_views(out@)[k] == out@[k]@);
    }
    places
}

/// Without a box of at least its head's size there is no index, nor where a box that
/// is no index reaches beyond the data.
pub proof fn law_no_index(data: &[u8], at: u64, out: Vec<SidxFragment>)
    requires
        call_ensures(parse_sidx_fragments, (data, at), out),
        data@.len() < 8 || four(data@, 0) < 8 || (four(data@, 0) > data@.len()
            && data@.subrange(4, 8) != seq![115u8, 105, 100, 120]),
    ensures
        out@.len() == 0,
{
    let s = data@;
    assert(fragment_views(out@).len() == out@.len());
    if s.len() >= 8 {
        lemma_read(s, 0);
        if is_sidx_at(s, 0) {
            assert(s.subrange(4, 8) =~= seq![115u8, 105, 100, 120]);
        }
    }
}

/// Numbers do not depend on what stands before them.
proof fn lemma_read_behind(s: Seq<u8>, t: Seq<u8>, d: int, at: int, n: int)
    requires
        0 <= d <= s.len(),
        s.skip(d) == t,
        0 <= at,
        at + n <= t.len(),
    ensures
        big_endian(s, d + at, n) == big_endian(t, at, n),
    decreases n,
{
    if n > 0 {
        lemma_read_behind(s, t, d, at, n - 1);
        assert(s[d + at + n - 1] == t[at + n - 1]);
    }
}

/// Where an index is found does not depend on what stands before.
proof fn lemma_found_behind(s: Seq<u8>, t: Seq<u8>, d: int, at: int)
    requires
        0 <= d <= s.len(),
        s.skip(d) == t,
        0 <= at,
    ensures
        match sidx_from(t, at) {
            Some(k) => sidx_from(s, d + at) == Some(d + k) && at <= k && k + 8 <= t.len(),
            None => sidx_from(s, d + at) is None,
        },
    decreases t.len() - at,
{
    if at + 8 <= t.len() {
        lemma_read_behind(s, t, d, at, 4);
        assert(s[d + at + 4] == t[at + 4] && s[d + at + 5] == t[at + 5] && s[d + at + 6]
            == t[at + 6] && s[d + at + 7] == t[at + 7]);
        let size = big_endian(t, at, 4);
        if size >= 8 && !is_sidx_at(t, at) && at + size <= t.len() {
            lemma_found_behind(s, t, d, at + size);
        }
    }
}

/// The fragments of an index do not depend on what stands before it.
proof fn lemma_fragments_behind(
    s: Seq<u8>,
    t: Seq<u8>,
    d: int,
    g: SidxHead,
    h: SidxHead,
    n: int,
)
    requires
        0 <= d <= s.len(),
        s.skip(d) == t,
        0 <= n,
        0 <= h.at,
        h.at + 12 * n <= t.len(),
        g == (SidxHead { at: d + h.at, ..h }),
    ensures
        reference_start(s, g, n) == reference_start(t, h, n),
        fragments(s, g, n) == fragments(t, h, n),
    decreases n,
{
    if n > 0 {
        lemma_fragments_behind(s, t, d, g, h, n - 1);
        lemma_read_behind(s, t, d, h.at + 12 * (n - 1), 4);
        lemma_read_behind(s, t, d, h.at + 12 * (n - 1) + 4, 4);
        assert(g.at + 12 * (n - 1) == d + (h.at + 12 * (n - 1)));
        assert(g.at + 12 * (n - 1) + 4 == d + (h.at + 12 * (n - 1) + 4));
    }
}

/// The head of an index does not depend on what stands before it.
proof fn lemma_head_behind(s: Seq<u8>, t: Seq<u8>, d: int, at: int, offset: int)
    requires
        0 <= d <= s.len(),
        s.skip(d) == t,
        0 <= at,
        at + 8 <= t.len(),
    ensures
        match head_at(t, at, offset + d) {
            Some(h) => head_at(s, d + at, offset) == Some(SidxHead { at: d + h.at, ..h }) && 0
                <= h.at <= t.len() && 0 <= h.count,
            None => head_at(s, d + at, offset) is None,
        },
{
    lemma_read_behind(s, t, d, at, 4);
    lemma_read(t, at + 30);
    lemma_read(t, at + 38);
    if at + 12 <= t.len() {
        assert(s[d + at + 8] == t[at + 8]);
        if at + 32 <= t.len() {
            lemma_read_behind(s, t, d, at + 16, 4);
            lemma_read_behind(s, t, d, at + 24, 4);
            lemma_read_behind(s, t, d, at + 30, 2);
        }
        if at + 40 <= t.len() {
            lemma_read_behind(s, t, d, at + 28, 8);
            lemma_read_behind(s, t, d, at + 38, 2);
        }
    }
}

/// An index that stands behind another box is read as it is read alone, at the
/// position in the file that it has.
pub proof fn law_index_behind_a_box(
    data: &[u8],
    rest: &[u8],
    at: u64,
    at_rest: u64,
    out: Vec<SidxFragment>,
    of_rest: Vec<SidxFragment>,
    length: int,
)
    requires
        call_ensures(parse_sidx_fragments, (data, at), out),
        call_ensures(parse_sidx_fragments, (rest, at_rest), of_rest),
        8 <= length <= data@.len(),
        four(data@, 0) == length,
        data@.subrange(4, 8) != seq![115u8, 105, 100, 120],
        rest@ == data@.skip(length),
        at_rest == at + length,
    ensures
        fragment_views(out@) == fragment_views(of_rest@),
{
    let s = data@;
    let t = rest@;
    lemma_read(s, 0);
    if is_sidx_at(s, 0) {
        assert(s.subrange(4, 8) =~= seq![115u8, 105, 100, 120]);
    }
    lemma_found_behind(s, t, length, 0);
    assert(sidx_from(s, 0) == sidx_from(s, length));
    if let Some(k) = sidx_from(t, 0) {
        lemma_head_behind(s, t, length, k, at as int);
        if let Some(h) = head_at(t, k, at_rest as int) {
            let g = SidxHead { at: length + h.at, ..h };
            let n = reference_count(t, h);
            assert(reference_count(s, g) == n);
            lemma_count(t, h);
            lemma_fragments_behind(s, t, length, g, h, n);
        }
    }
    assert(sidx_fragments(s, at as int) == sidx_fragments(t, at_rest as int));
}

/// The references that are read lie in the data.
proof fn lemma_count(s: Seq<u8>, h: SidxHead)
    requires
        0 <= h.at <= s.len(),
        0 <= h.count,
    ensures
        0 <= reference_count(s, h),
        h.at + 12 * reference_count(s, h) <= s.len(),
{
}

} // verus!
