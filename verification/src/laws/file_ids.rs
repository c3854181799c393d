//! Laws on the identifiers of files: what is written into one is read from it.

use vstd::prelude::*;

use crate::codec::base64url_decoded;
use crate::laws::texts::lemma_trim_end;
use crate::telegram::media_ref::{
    body_view, byte_string, decode_file_id, file_id_body, little_endian, unpacked, DecodedFileId,
    FileIdView,
};
use crate::text::trim_end_char;

verus! {

/// The bytes of a number, the least first.
pub open spec fn number_bytes(n: int, count: nat) -> Seq<u8>
    decreases count,
{
    if count == 0 {
        Seq::empty()
    } else {
        seq![(n % 256) as u8] + number_bytes(n / 256, (count - 1) as nat)
    }
}

/// A power of 256.
pub open spec fn byte_limit(count: nat) -> int
    decreases count,
{
    if count == 0 {
        1
    } else {
        256 * byte_limit((count - 1) as nat)
    }
}

/// A run of a packed text: a byte that is not 0, or zeros and how many of them.
pub struct Run {
    /// The byte.
    pub byte: u8,
    /// How many zeros, where it is 0.
    pub zeros: u8,
}

/// A run as it is packed.
pub open spec fn packed_run(r: Run) -> Seq<u8> {
    if r.byte == 0 {
        seq![0u8, r.zeros]
    } else {
        seq![r.byte]
    }
}

/// What a run stands for.
pub open spec fn plain_run(r: Run) -> Seq<u8> {
    if r.byte == 0 {
        Seq::new(r.zeros as nat, |i: int| 0u8)
    } else {
        seq![r.byte]
    }
}

/// No run of zeros is empty.
pub open spec fn are_runs(runs: Seq<Run>) -> bool {
    forall|i: int| 0 <= i < runs.len() ==> (#[trigger] runs[i]).byte != 0 || runs[i].zeros != 0
}

/// Runs as they are packed.
pub open spec fn packed_runs(runs: Seq<Run>) -> Seq<u8>
    decreases runs.len(),
{
    if runs.len() == 0 {
        Seq::empty()
    } else {
        packed_run(runs[0]) + packed_runs(runs.drop_first())
    }
}

/// What runs stand for.
pub open spec fn plain_runs(runs: Seq<Run>) -> Seq<u8>
    decreases runs.len(),
{
    if runs.len() == 0 {
        Seq::empty()
    } else {
        plain_run(runs[0]) + plain_runs(runs.drop_first())
    }
}

/// A byte string: its length, its bytes, and padding up to a multiple of four.
pub open spec fn is_byte_string(head: Seq<u8>, bytes: Seq<u8>, padding: Seq<u8>) -> bool {
    &&& padding.len() < 4
    &&& (head.len() + bytes.len() + padding.len()) % 4 == 0
    &&& {
        ||| bytes.len() < 254 && head == seq![bytes.len() as u8]
        ||| bytes.len() < 0x100_0000 && head == seq![254u8] + number_bytes(bytes.len() as int, 3)
    }
}

/// The closing bytes of an identifier: its version, and from version 4 on the minor
/// version before it.
pub open spec fn is_version(tail: Seq<u8>) -> bool {
    ||| tail.len() == 1 && tail[0] < 4
    ||| tail.len() == 2 && tail[1] >= 4
}

/// A number without its sign, in 32 bits.
pub open spec fn unsigned32(n: i32) -> int {
    if n < 0 {
        n + 0x1_0000_0000
    } else {
        n as int
    }
}

/// A number without its sign, in 64 bits.
pub open spec fn unsigned64(n: i64) -> int {
    if n < 0 {
        n + 0x1_0000_0000_0000_0000
    } else {
        n as int
    }
}

/// Packed runs are unpacked.
proof fn lemma_unpacked(s: Seq<u8>, before: Seq<u8>, runs: Seq<Run>)
    requires
        are_runs(runs),
        s == before + packed_runs(runs),
    ensures
        unpacked(s, before.len() as int) == plain_runs(runs),
    decreases runs.len(),
{
    if runs.len() > 0 {
        let r = runs[0];
        let rest = runs.drop_first();
        let i = before.len() as int;
        assert(are_runs(rest)) by {
            assert forall|k: int| 0 <= k < rest.len() implies (#[trigger] rest[k]).byte != 0
                || rest[k].zeros != 0 by {
                assert(rest[k] == runs[k + 1]);
            }
        }
        let next = before + packed_run(r);
        assert(s =~= next + packed_runs(rest));
        lemma_unpacked(s, next, rest);
        assert(s[i] == packed_run(r)[0]);
        if r.byte == 0 {
            assert(s[i + 1] == r.zeros);
            assert(Seq::new(s[i + 1] as nat, |k: int| 0u8) =~= plain_run(r));
        }
    }
}

/// A number is read from its bytes.
proof fn lemma_number(s: Seq<u8>, at: int, n: int, count: nat)
    requires
        0 <= n < byte_limit(count),
        0 <= at,
        at + count <= s.len(),
        s.subrange(at, at + count) == number_bytes(n, count),
    ensures
        little_endian(s, at, count as int) == n,
    decreases count,
{
    if count > 0 {
        let m = (count - 1) as nat;
        assert(n / 256 < byte_limit(m)) by (nonlinear_arith)
            requires
                n < 256 * byte_limit(m),
        ;
        lemma_number_len(n / 256, m);
        assert(number_bytes(n, count)[0] == (n % 256) as u8);
        assert(s.subrange(at, at + count)[0] == s[at]);
        assert(number_bytes(n, count).skip(1) =~= number_bytes(n / 256, m));
        assert(s.subrange(at, at + count).skip(1) =~= s.subrange(at + 1, at + 1 + m));
        lemma_number(s, at + 1, n / 256, m);
        assert(n == n % 256 + 256 * (n / 256));
    }
}

/// How many bytes a number has.
proof fn lemma_number_len(n: int, count: nat)
    ensures
        number_bytes(n, count).len() == count,
    decreases count,
{
    if count > 0 {
        lemma_number_len(n / 256, (count - 1) as nat);
    }
}

/// The limits of the numbers in an identifier.
proof fn lemma_limits()
    ensures
        byte_limit(3) == 0x100_0000,
        byte_limit(4) == 0x1_0000_0000,
        byte_limit(8) == 0x1_0000_0000_0000_0000,
{
    reveal_with_fuel(byte_limit, 9);
}

/// What an identifier holds before its version.
pub open spec fn body(
    kind: int,
    dc: i32,
    head: Seq<u8>,
    reference: Seq<u8>,
    padding: Seq<u8>,
    id: i64,
    hash: i64,
    rest: Seq<u8>,
) -> Seq<u8> {
    number_bytes(kind, 4) + number_bytes(unsigned32(dc), 4) + head + reference + padding
        + number_bytes(unsigned64(id), 8) + number_bytes(unsigned64(hash), 8) + rest
}

/// The version is cut off.
proof fn lemma_versions(s: Seq<u8>, tail: Seq<u8>)
    requires
        is_version(tail),
    ensures
        file_id_body(s + tail) == Some(s),
{
    let plain = s + tail;
    assert(plain.last() == tail.last());
    assert(plain.take(s.len() as int) =~= s);
    if tail.len() == 1 {
        assert(plain.drop_last() =~= s);
    }
}

/// The parts of an identifier and where they stand.
proof fn lemma_places(
    kind: int,
    dc: i32,
    head: Seq<u8>,
    reference: Seq<u8>,
    padding: Seq<u8>,
    id: i64,
    hash: i64,
    rest: Seq<u8>,
)
    requires
        0 <= kind < 0x1_0000_0000,
    ensures
        ({
            let s = body(kind, dc, head, reference, padding, id, hash, rest);
            let from = 8 + head.len() as int;
            let at = from + reference.len() + padding.len();
            &&& at + 16 <= s.len()
            &&& little_endian(s, 0, 4) == kind
            &&& little_endian(s, 4, 4) == unsigned32(dc)
            &&& s.subrange(8, from) == head
            &&& s.subrange(from, from + reference.len()) == reference
            &&& little_endian(s, at, 8) == unsigned64(id)
            &&& little_endian(s, at + 8, 8) == unsigned64(hash)
        }),
{
    let s = body(kind, dc, head, reference, padding, id, hash, rest);
    let k4 = number_bytes(kind, 4);
    let d4 = number_bytes(unsigned32(dc), 4);
    let i8 = number_bytes(unsigned64(id), 8);
    let h8 = number_bytes(unsigned64(hash), 8);
    lemma_number_len(kind, 4);
    lemma_number_len(unsigned32(dc), 4);
    lemma_number_len(unsigned64(id), 8);
    lemma_number_len(unsigned64(hash), 8);
    lemma_limits();
    assert(s.subrange(0, 4) =~= k4);
    assert(s.subrange(4, 8) =~= d4);
    lemma_number(s, 0, kind, 4);
    lemma_number(s, 4, unsigned32(dc), 4);
    let from: int = 8 + head.len() as int;
    let at: int = from + reference.len() + padding.len();
    assert(s.subrange(8, from) =~= head);
    assert(s.subrange(from, from + reference.len()) =~= reference);
    assert(s.subrange(at, at + 8) =~= i8);
    assert(s.subrange(at + 8, at + 16) =~= h8);
    lemma_number(s, at, unsigned64(id), 8);
    lemma_number(s, at + 8, unsigned64(hash), 8);
}

/// An identifier without a file reference.
proof fn lemma_without_reference(
    kind: int,
    dc: i32,
    head: Seq<u8>,
    reference: Seq<u8>,
    padding: Seq<u8>,
    id: i64,
    hash: i64,
    rest: Seq<u8>,
)
    requires
        0 <= kind < 0x1_0000_0000,
        (kind / 0x100_0000) % 2 == 0,
        (kind / 0x200_0000) % 2 == 0,
        head.len() == 0 && reference.len() == 0 && padding.len() == 0,
    ensures
        body_view(body(kind, dc, head, reference, padding, id, hash, rest)) == Some(
            FileIdView { id, access_hash: hash, file_reference: Seq::empty(), dc_id: dc },
        ),
{
    lemma_places(kind, dc, head, reference, padding, id, hash, rest);
}

/// What is padded to a multiple of four.
proof fn lemma_padded(n: int, p: int)
    requires
        0 <= n,
        0 <= p < 4,
    ensures
        (1 + n + p) % 4 == 0 ==> (n + 4) / 4 * 4 == 1 + n + p,
        (4 + n + p) % 4 == 0 ==> (n + 3) / 4 * 4 == n + p,
{
}

/// A byte string is read.
proof fn lemma_byte_string(s: Seq<u8>, head: Seq<u8>, bytes: Seq<u8>, padding: Seq<u8>)
    requires
        is_byte_string(head, bytes, padding),
        8 + head.len() + bytes.len() + padding.len() <= s.len(),
        s.subrange(8, 8 + head.len() as int) == head,
    ensures
        byte_string(s, 8) == Some(
            (
                8 + head.len() as int,
                bytes.len() as int,
                8 + head.len() + bytes.len() + padding.len() as int,
            ),
        ),
{
    let n = bytes.len() as int;
    lemma_padded(n, padding.len() as int);
    if n < 254 && head == seq![n as u8] {
        assert(head.len() == 1);
        assert(s.subrange(8, 9)[0] == s[8]);
        assert(s[8] == n as u8);
    } else {
        let n3 = number_bytes(n, 3);
        lemma_number_len(n, 3);
        lemma_limits();
        assert(head.len() == 4);
        assert(s.subrange(8, 12)[0] == s[8]);
        assert(s.subrange(9, 12) =~= s.subrange(8, 12).skip(1));
        assert(head.skip(1) =~= n3);
        lemma_number(s, 9, n, 3);
    }
}

/// An identifier with a file reference.
proof fn lemma_with_reference(
    kind: int,
    dc: i32,
    head: Seq<u8>,
    reference: Seq<u8>,
    padding: Seq<u8>,
    id: i64,
    hash: i64,
    rest: Seq<u8>,
)
    requires
        0 <= kind < 0x1_0000_0000,
        (kind / 0x100_0000) % 2 == 0,
        (kind / 0x200_0000) % 2 == 1,
        is_byte_string(head, reference, padding),
    ensures
        body_view(body(kind, dc, head, reference, padding, id, hash, rest)) == Some(
            FileIdView { id, access_hash: hash, file_reference: reference, dc_id: dc },
        ),
{
    let s = body(kind, dc, head, reference, padding, id, hash, rest);
    lemma_places(kind, dc, head, reference, padding, id, hash, rest);
    lemma_byte_string(s, head, reference, padding);
}

/// What an identifier holds is read from it: the number of the data centre, the file
/// reference, the document's number and its access hash.
pub proof fn law_file_ids(
    file_id: &str,
    out: Option<DecodedFileId>,
    text: Seq<char>,
    padded: nat,
    runs: Seq<Run>,
    kind: int,
    dc: i32,
    head: Seq<u8>,
    reference: Seq<u8>,
    padding: Seq<u8>,
    id: i64,
    hash: i64,
    rest: Seq<u8>,
    tail: Seq<u8>,
)
    requires
        call_ensures(decode_file_id, (file_id,), out),
        file_id@ == text + Seq::new(padded, |i: int| '='),
        text.len() > 0 ==> text.last() != '=',
        base64url_decoded(text) == Ok::<Seq<u8>, Seq<char>>(packed_runs(runs)),
        are_runs(runs),
        0 <= kind < 0x1_0000_0000,
        (kind / 0x100_0000) % 2 == 0,
        if (kind / 0x200_0000) % 2 == 1 {
            is_byte_string(head, reference, padding)
        } else {
            head.len() == 0 && reference.len() == 0 && padding.len() == 0
        },
        plain_runs(runs) == body(kind, dc, head, reference, padding, id, hash, rest) + tail,
        is_version(tail),
    ensures
        out matches Some(d) && d.id == id && d.access_hash == hash && d.file_reference@
            == reference && d.dc_id == dc,
{
    lemma_trim_end(text, '=', padded);
    assert(trim_end_char(file_id@, '=') == text);
    let packed = packed_runs(runs);
    assert(packed =~= Seq::<u8>::empty() + packed);
    lemma_unpacked(packed, Seq::empty(), runs);
    let s = body(kind, dc, head, reference, padding, id, hash, rest);
    assert(plain_runs(runs) == s + tail);
    lemma_versions(s, tail);
    if (kind / 0x200_0000) % 2 == 1 {
        lemma_with_reference(kind, dc, head, reference, padding, id, hash, rest);
    } else {
        lemma_without_reference(kind, dc, head, reference, padding, id, hash, rest);
        assert(reference =~= Seq::empty());
    }
}

} // verus!
