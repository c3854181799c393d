//! The lines of a playlist that are not tags.

use vstd::prelude::*;

use crate::text::{lemma_split_concat_from, matches_at, split_text};

verus! {

/// A text without line feeds.
pub open spec fn unbroken(s: Seq<char>) -> bool {
    !s.contains('\n')
}

/// An optional text without line feeds.
pub open spec fn opt_unbroken(s: Option<Seq<char>>) -> bool {
    s matches Some(t) ==> unbroken(t)
}

/// A line that is neither empty nor a tag or comment.
pub open spec fn is_bare(line: Seq<char>) -> bool {
    line.len() > 0 && line[0] != '#'
}

/// The lines that are neither empty nor tags or comments.
pub open spec fn bare_of(lines: Seq<Seq<char>>) -> Seq<Seq<char>>
    decreases lines.len(),
{
    if lines.len() == 0 {
        Seq::empty()
    } else if is_bare(lines.last()) {
        bare_of(lines.drop_last()).push(lines.last())
    } else {
        bare_of(lines.drop_last())
    }
}

/// The lines of a text that are neither empty nor tags or comments.
pub open spec fn bare_lines(s: Seq<char>) -> Seq<Seq<char>> {
    bare_of(split_text(s, '\n'))
}

/// The bare lines of two lists are those of the one and then those of the other.
proof fn lemma_bare_of_concat(a: Seq<Seq<char>>, b: Seq<Seq<char>>)
    ensures
        bare_of(a + b) == bare_of(a) + bare_of(b),
    decreases b.len(),
{
    if b.len() == 0 {
        assert(a + b =~= a);
        assert(bare_of(a) + bare_of(b) =~= bare_of(a));
    } else {
        lemma_bare_of_concat(a, b.drop_last());
        assert((a + b).drop_last() =~= a + b.drop_last());
        assert((a + b).last() == b.last());
        assert(bare_of(a + b) =~= bare_of(a) + bare_of(b));
    }
}

/// The bare lines of a text are those before a line feed and then those behind it.
pub proof fn lemma_bare_lines_concat(a: Seq<char>, b: Seq<char>)
    ensures
        bare_lines(a + seq!['\n'] + b) == bare_lines(a) + bare_lines(b),
{
    lemma_split_concat_from(a, '\n', b, 0);
    lemma_bare_of_concat(split_text(a, '\n'), split_text(b, '\n'));
}

// ---------------------------------------------------------------------------
// Attribute lists
// ---------------------------------------------------------------------------

/// The ASCII bytes of a text.
pub open spec fn ascii_bytes(s: Seq<char>) -> Seq<u8> {
    Seq::new(s.len(), |i: int| s[i] as u8)
}

/// The first position from `i` on that holds the byte `b`, or the length.
pub open spec fn next_byte(s: Seq<u8>, b: u8, i: int) -> int
    decreases s.len() - i,
{
    if i < 0 || i >= s.len() {
        s.len() as int
    } else if s[i] == b {
        i
    } else {
        next_byte(s, b, i + 1)
    }
}

/// The rest of a line from `i` on, up to a line feed or carriage return.
pub open spec fn rest_of_line(s: Seq<u8>, i: int) -> Seq<u8>
    decreases s.len() - i,
{
    if i < 0 || i >= s.len() || s[i] == 10 || s[i] == 13 {
        Seq::empty()
    } else {
        seq![s[i]] + rest_of_line(s, i + 1)
    }
}

/// A list of attributes `NAME=VALUE` with commas between them, where a value that
/// begins with a quote ends with the next one.
pub open spec fn is_attribute_list(s: Seq<u8>) -> bool
    decreases s.len(),
{
    let eq = next_byte(s, 61, 0);
    if s.len() == 0 {
        true
    } else if eq < 0 || eq >= s.len() {
        false
    } else {
        let value = s.skip(eq + 1);
        let quote = next_byte(value, 34, 1);
        let comma = next_byte(value, 44, 0);
        if value.len() > 0 && value[0] == 34 {
            if quote < 1 || quote >= value.len() {
                false
            } else {
                quote + 1 == value.len() || (value[quote + 1] == 44 && is_attribute_list(
                    value.skip(quote + 2),
                ))
            }
        } else {
            comma < 0 || comma >= value.len() || is_attribute_list(value.skip(comma + 1))
        }
    }
}

/// The tags whose attributes are written back as they were read.
pub open spec fn attribute_tags() -> Seq<Seq<char>> {
    seq![
        "#EXT-X-MEDIA:"@,
        "#EXT-X-STREAM-INF:"@,
        "#EXT-X-I-FRAME-STREAM-INF:"@,
        "#EXT-X-SESSION-DATA:"@,
        "#EXT-X-SESSION-KEY:"@,
        "#EXT-X-KEY:"@,
        "#EXT-X-DATERANGE:"@,
    ]
}

/// Every tag with attributes has a list of them on its own line, so that no
/// attribute reaches into the next one.
pub open spec fn closed_attributes(content: Seq<u8>) -> bool {
    forall|t: int, p: int|
        0 <= t < attribute_tags().len() && #[trigger] matches_at(
            content,
            ascii_bytes(attribute_tags()[t]),
            p,
        ) ==> is_attribute_list(rest_of_line(content, p + attribute_tags()[t].len()))
}

} // verus!
