//! Segment index boxes.

use vstd::prelude::*;

verus! {

/// One media subsegment that a segment index describes.
pub struct SidxFragment {
    /// Its first byte in the media file.
    pub start: u64,
    /// Its last byte in the media file.
    pub end: u64,
    /// Its duration in ticks.
    pub duration_timescale: u64,
    /// Ticks per second.
    pub timescale: u32,
}

/// The number in `n` bytes from `at` on, most significant byte first.
pub open spec fn big_endian(s: Seq<u8>, at: int, n: int) -> int
    decreases n,
{
    if n <= 0 {
        0
    } else {
        big_endian(s, at, n - 1) * 256 + s[at + n - 1]
    }
}

/// The box at `at` is a segment index.
pub open spec fn is_sidx_at(s: Seq<u8>, at: int) -> bool {
    s[at + 4] == 115 && s[at + 5] == 105 && s[at + 6] == 100 && s[at + 7] == 120
}

/// Where the first segment index from the box at `at` on begins. Boxes follow
/// one another; one that is smaller than its header ends the search.
pub open spec fn sidx_from(s: Seq<u8>, at: int) -> Option<int>
    decreases s.len() - at,
{
    if at < 0 || at + 8 > s.len() {
        None
    } else {
        let size = big_endian(s, at, 4);
        if size < 8 {
            None
        } else if is_sidx_at(s, at) {
            Some(at)
        } else if at + size > s.len() {
            None
        } else {
            sidx_from(s, at + size)
        }
    }
}

/// What a segment index says before its references.
pub struct SidxHead {
    /// Ticks per second.
    pub timescale: int,
    /// The position in the file that the first reference begins at.
    pub first: int,
    /// How many references there are.
    pub count: int,
    /// Where the references begin in the data.
    pub at: int,
}

/// The head of the segment index at `at`. The first reference begins behind the
/// box, after the first offset.
pub open spec fn head_at(s: Seq<u8>, at: int, file_offset: int) -> Option<SidxHead> {
    let box_end = file_offset + at + big_endian(s, at, 4);
    if at + 12 > s.len() {
        None
    } else if s[at + 8] == 0 {
        if at + 32 > s.len() {
            None
        } else {
            Some(
                SidxHead {
                    timescale: big_endian(s, at + 16, 4),
                    first: box_end + big_endian(s, at + 24, 4),
                    count: big_endian(s, at + 30, 2),
                    at: at + 32,
                },
            )
        }
    } else {
        if at + 40 > s.len() {
            None
        } else {
            Some(
                SidxHead {
                    timescale: big_endian(s, at + 16, 4),
                    first: box_end + big_endian(s, at + 28, 8),
                    count: big_endian(s, at + 38, 2),
                    at: at + 40,
                },
            )
        }
    }
}

/// A fragment, by its numbers.
pub struct FragmentView {
    pub start: int,
    pub end: int,
    pub duration: int,
    pub timescale: int,
}

impl View for SidxFragment {
    type V = FragmentView;

    open spec fn view(&self) -> FragmentView {
        FragmentView {
            start: self.start as int,
            end: self.end as int,
            duration: self.duration_timescale as int,
            timescale: self.timescale as int,
        }
    }
}

/// Fragments, by their numbers.
pub open spec fn fragment_views(v: Seq<SidxFragment>) -> Seq<FragmentView> {
    Seq::new(v.len(), |i: int| v[i]@)
}

/// How many references there are in the data, of those that are announced.
pub open spec fn reference_count(s: Seq<u8>, h: SidxHead) -> int {
    let fit = (s.len() - h.at) / 12;
    if h.count <= fit {
        h.count
    } else {
        fit
    }
}

/// The size of reference `i`: its field without the highest bit.
pub open spec fn reference_size(s: Seq<u8>, h: SidxHead, i: int) -> int {
    big_endian(s, h.at + 12 * i, 4) % 0x8000_0000
}

/// Reference `i` is one of media: the highest bit of its field is not set.
pub open spec fn is_media(s: Seq<u8>, h: SidxHead, i: int) -> bool {
    big_endian(s, h.at + 12 * i, 4) < 0x8000_0000
}

/// Where reference `i` begins in the file: the references follow one another.
pub open spec fn reference_start(s: Seq<u8>, h: SidxHead, i: int) -> int
    decreases i,
{
    if i <= 0 {
        h.first
    } else {
        reference_start(s, h, i - 1) + reference_size(s, h, i - 1)
    }
}

/// The fragments of the first `n` references: those of media.
pub open spec fn fragments(s: Seq<u8>, h: SidxHead, n: int) -> Seq<FragmentView>
    decreases n,
{
    if n <= 0 {
        Seq::empty()
    } else if is_media(s, h, n - 1) {
        fragments(s, h, n - 1).push(
            FragmentView {
                start: reference_start(s, h, n - 1),
                end: reference_start(s, h, n) - 1,
                duration: big_endian(s, h.at + 12 * (n - 1) + 4, 4),
                timescale: h.timescale,
            },
        )
    } else {
        fragments(s, h, n - 1)
    }
}

/// The fragments of data that begins at `file_offset` in its file. There are
/// none where the data holds no readable segment index, or one that points
/// beyond what a position can be.
pub open spec fn sidx_fragments(s: Seq<u8>, file_offset: int) -> Seq<FragmentView> {
    match sidx_from(s, 0) {
        None => Seq::empty(),
        Some(at) => match head_at(s, at, file_offset) {
            None => Seq::empty(),
            Some(h) => {
                let n = reference_count(s, h);
                if reference_start(s, h, n) > u64::MAX {
                    Seq::empty()
                } else {
                    fragments(s, h, n)
                }
            },
        },
    }
}

/// Positions do not fall.
proof fn lemma_reference_start(s: Seq<u8>, h: SidxHead, i: int, j: int)
    requires
        0 <= i <= j,
    ensures
        reference_start(s, h, i) <= reference_start(s, h, j),
    decreases j,
{
    if i < j {
        lemma_reference_start(s, h, i, j - 1);
    }
}

/// A fragment of the first `n` references ends before reference `n` begins.
proof fn lemma_fragment_bounds(s: Seq<u8>, h: SidxHead, n: int, k: int)
    requires
        0 <= n,
        0 <= k < fragments(s, h, n).len(),
    ensures
        fragments(s, h, n)[k].end < reference_start(s, h, n),
        h.first <= fragments(s, h, n)[k].start <= fragments(s, h, n)[k].end + 1,
    decreases n,
{
    let rest = fragments(s, h, n - 1);
    lemma_reference_start(s, h, n - 1, n);
    lemma_reference_start(s, h, 0, n - 1);
    if k < rest.len() {
        lemma_fragment_bounds(s, h, n - 1, k);
        assert(fragments(s, h, n)[k] == rest[k]);
    }
}

/// The fragments of a segment index lie one behind the other and do not
/// overlap.
pub proof fn law_fragments_are_disjoint(s: Seq<u8>, h: SidxHead, n: int, i: int, j: int)
    requires
        0 <= n,
        0 <= i < j < fragments(s, h, n).len(),
    ensures
        fragments(s, h, n)[i].end < fragments(s, h, n)[j].start,
    decreases n,
{
    let rest = fragments(s, h, n - 1);
    if j < rest.len() {
        law_fragments_are_disjoint(s, h, n - 1, i, j);
        assert(fragments(s, h, n)[i] == rest[i]);
        assert(fragments(s, h, n)[j] == rest[j]);
    } else {
        assert(fragments(s, h, n)[i] == rest[i]);
        lemma_fragment_bounds(s, h, n - 1, i);
    }
}

/// A number of `n` bytes is below 256 to the power of `n`.
proof fn lemma_big_endian_bound(s: Seq<u8>, at: int, n: int)
    requires
        0 <= n <= 8,
    ensures
        0 <= big_endian(s, at, n) < vstd::arithmetic::power2::pow2((8 * n) as nat),
    decreases n,
{
    vstd::arithmetic::power2::lemma2_to64();
    if n > 0 {
        lemma_big_endian_bound(s, at, n - 1);
        vstd::arithmetic::power2::lemma_pow2_adds((8 * (n - 1)) as nat, 8);
        let p = vstd::arithmetic::power2::pow2((8 * (n - 1)) as nat);
        let x = big_endian(s, at, n - 1);
        assert(x * 256 + s[at + n - 1] < p * 256) by (nonlinear_arith)
            requires
                0 <= s[at + n - 1] < 256,
                0 <= x < p,
        ;
    }
}

/// Reads `n` bytes from `at` on, most significant byte first.
fn read_number(s: &[u8], at: usize, n: usize) -> (r: u64)
    requires
        n <= 8,
        at + n <= s@.len(),
    ensures
        r == big_endian(s@, at as int, n as int),
        n == 4 ==> r < 0x1_0000_0000,
        n == 2 ==> r < 0x1_0000,
{
    let len: usize = s.len();
    let mut r: u64 = 0;
    let mut i: usize = 0;
    proof {
        lemma_big_endian_bound(s@, at as int, n as int);
        vstd::arithmetic::power2::lemma2_to64();
        vstd::arithmetic::power2::lemma2_to64_rest();
    }
    while i < n
        invariant
            i <= n <= 8,
            at + n <= len == s@.len(),
            r == big_endian(s@, at as int, i as int),
        decreases n - i,
    {
        proof {
            lemma_big_endian_bound(s@, at as int, i + 1);
            vstd::arithmetic::power2::lemma2_to64();
            vstd::arithmetic::power2::lemma2_to64_rest();
            if i + 1 < 8 {
                vstd::arithmetic::power2::lemma_pow2_strictly_increases((8 * (i + 1)) as nat, 64);
            }
            assert(big_endian(s@, at as int, i + 1) == r * 256 + s@[at + i]);
        }
        r = r * 256 + s[at + i] as u64;
        i += 1;
    }
    r
}

/// Finds the segment index.
fn find_sidx(s: &[u8]) -> (r: Option<usize>)
    ensures
        match r {
            Some(at) => sidx_from(s@, 0) == Some(at as int) && at + 8 <= s@.len()
                && big_endian(s@, at as int, 4) >= 8,
            None => sidx_from(s@, 0) is None,
        },
{
    let mut at: usize = 0;
    loop
        invariant
            at <= s@.len(),
            sidx_from(s@, 0) == sidx_from(s@, at as int),
        decreases s@.len() - at,
    {
        if s.len() - at < 8 {
            return None;
        }
        let size: u64 = read_number(s, at, 4);
        if size < 8 {
            return None;
        }
        if s[at + 4] == 115 && s[at + 5] == 105 && s[at + 6] == 100 && s[at + 7] == 120 {
            return Some(at);
        }
        if size > (s.len() - at) as u64 {
            return None;
        }
        at += size as usize;
    }
}

/// Reads the fragments that the first segment index of `data` describes.
/// `index_range_start` is the position of `data` in its file.
pub fn parse_sidx_fragments(data: &[u8], index_range_start: u64) -> (r: Vec<SidxFragment>)
    ensures
        fragment_views(r@) == sidx_fragments(data@, index_range_start as int),
{
    let mut out: Vec<SidxFragment> = Vec::new();
    assert(fragment_views(out@) =~= Seq::empty());
    let at: usize = match find_sidx(data) {
        Some(at) => at,
        None => {
            return out;
        },
    };
    if data.len() - at < 12 {
        return out;
    }
    let version: u8 = data[at + 8];
    let need: usize = if version == 0 {
        32
    } else {
        40
    };
    if data.len() - at < need {
        return out;
    }
    let timescale: u64 = read_number(data, at + 16, 4);
    let first_offset: u64;
    let count: u64;
    if version == 0 {
        first_offset = read_number(data, at + 24, 4);
        count = read_number(data, at + 30, 2);
    } else {
        first_offset = read_number(data, at + 28, 8);
        count = read_number(data, at + 38, 2);
    }
    let box_size: u64 = read_number(data, at, 4);
    let first: u128 = index_range_start as u128 + at as u128 + box_size as u128
        + first_offset as u128;
    let len: usize = data.len();
    let from: usize = at + need;
    let ghost h = SidxHead {
        timescale: timescale as int,
        first: first as int,
        count: count as int,
        at: from as int,
    };
    assert(head_at(data@, at as int, index_range_start as int) == Some(h));
    let fit: u64 = ((data.len() - from) / 12) as u64;
    let n: u64 = if count <= fit {
        count
    } else {
        fit
    };
    assert(n == reference_count(data@, h));
    let mut start: u128 = first;
    let mut i: u64 = 0;
    while i < n
        invariant
            i <= n < 0x1_0000,
            n <= (data@.len() - from) / 12,
            from <= len == data@.len(),
            h.at == from,
            h.first >= 8,
            h.timescale == timescale,
            timescale < 0x1_0000_0000,
            start == reference_start(data@, h, i as int),
            start < 0x8_0000_0000_0000_0000 + 0x8000_0000 * i,
            i == 0 || start <= u64::MAX,
            fragment_views(out@) == fragments(data@, h, i as int),
            n == reference_count(data@, h),
            sidx_fragments(data@, index_range_start as int) == if reference_start(
                data@,
                h,
                n as int,
            ) > u64::MAX {
                Seq::empty()
            } else {
                fragments(data@, h, n as int)
            },
        decreases n - i,
    {
        let off: usize = from + 12 * (i as usize);
        let field: u64 = read_number(data, off, 4);
        let duration: u64 = read_number(data, off + 4, 4);
        let size: u64 = field % 0x8000_0000;
        let next: u128 = start + size as u128;
        proof {
            lemma_reference_start(data@, h, i + 1, n as int);
            assert(next == reference_start(data@, h, i + 1));
        }
        if next > u64::MAX as u128 {
            out = Vec::new();
            assert(fragment_views(out@) =~= Seq::empty());
            return out;
        }
        if field < 0x8000_0000 {
            let ghost before = fragment_views(out@);
            assert(next > 0) by {
                lemma_reference_start(data@, h, 0, i + 1);
            }
            let fragment = SidxFragment {
                start: start as u64,
                end: (next - 1) as u64,
                duration_timescale: duration,
                timescale: timescale as u32,
            };
            let ghost view = fragment@;
            out.push(fragment);
            assert(fragment_views(out@) =~= before.push(view));
        }
        start = next;
        i += 1;
    }
    if start > u64::MAX as u128 {
        out = Vec::new();
        assert(fragment_views(out@) =~= Seq::empty());
    }
    out
}

} // verus!
