//! Laws on how texts are cut, trimmed and read.

use vstd::prelude::*;

use crate::laws::texts::lemma_uncut;
use crate::proxy::handler::{content_length, decode_destination};
use crate::text::{
    after, all_digits, before, chop_cr, decimal, decimal_signed_text, decimal_text, is_space, join,
    law_decimal_round_trip, lemma_decimal, lemma_split_concat_from, lemma_split_join, lines,
    none_hold, opt_text, parse_i64, parse_u32, parse_u64, split, split_text, texts, to_ascii_lower,
    trim, trim_end_space, trim_start_space, trim_text,
};
use crate::utils::base64_url::{decode_base64_url, encode_url_to_base64};

verus! {

/// A line and how it ends: with a line feed alone, or a carriage return before it.
pub struct Line {
    /// The line.
    pub text: Seq<char>,
    /// A carriage return follows it.
    pub returned: bool,
}

/// The lines of a text, each with its end.
pub open spec fn ended(ls: Seq<Line>) -> Seq<char>
    decreases ls.len(),
{
    if ls.len() == 0 {
        Seq::empty()
    } else {
        ended(ls.drop_last()) + ls.last().text + (if ls.last().returned {
            seq!['\r']
        } else {
            Seq::empty()
        }) + seq!['\n']
    }
}

/// No line feed stands in a line, and no carriage return at its end.
pub open spec fn are_lines(ls: Seq<Line>) -> bool {
    forall|i: int|
        0 <= i < ls.len() ==> !(#[trigger] ls[i]).text.contains('\n') && (ls[i].text.len() > 0
            ==> ls[i].text.last() != '\r')
}

/// The texts of lines.
pub open spec fn line_texts(ls: Seq<Line>) -> Seq<Seq<char>> {
    Seq::new(ls.len(), |i: int| ls[i].text)
}

/// The pieces of a text that ends with a line feed.
proof fn lemma_ended(ls: Seq<Line>)
    requires
        are_lines(ls),
    ensures
        ({
            let pieces = split_text(ended(ls), '\n');
            &&& pieces.len() == ls.len() + 1
            &&& pieces.last().len() == 0
            &&& forall|i: int|
                0 <= i < ls.len() ==> chop_cr(#[trigger] pieces[i]) == ls[i].text
        }),
    decreases ls.len(),
{
    if ls.len() == 0 {
        lemma_uncut(Seq::empty(), '\n');
    } else {
        let init = ls.drop_last();
        assert forall|i: int| 0 <= i < init.len() implies !(#[trigger] init[i]).text.contains('\n')
            && (init[i].text.len() > 0 ==> init[i].text.last() != '\r') by {
            assert(init[i] == ls[i]);
        }
        lemma_ended(init);
        let last = ls.last();
        assert(last == ls[ls.len() - 1]);
        let piece = last.text + if last.returned {
            seq!['\r']
        } else {
            Seq::empty()
        };
        assert(!piece.contains('\n')) by {
            if piece.contains('\n') {
                let i = choose|i: int| 0 <= i < piece.len() && piece[i] == '\n';
                assert(last.text[i] == '\n');
            }
        }
        assert(chop_cr(piece) =~= last.text);
        let before = ended(init);
        let none = Seq::<char>::empty();
        assert(ended(ls) =~= before + piece + seq!['\n'] + none);
        lemma_split_concat_from(before + piece, '\n', none, 0);
        lemma_uncut(none, '\n');
        lemma_glued(before, piece, '\n');
        let p = split_text(before, '\n');
        let pieces = split_text(ended(ls), '\n');
        assert(pieces =~= p.drop_last() + seq![p.last() + piece] + seq![none]);
        assert(p.last() + piece =~= piece);
        assert forall|i: int| 0 <= i < ls.len() implies chop_cr(#[trigger] pieces[i])
            == ls[i].text by {
            if i < init.len() {
                assert(pieces[i] == p[i]);
                assert(init[i] == ls[i]);
            }
        }
    }
}

/// What follows a text without a separator goes to its last piece.
proof fn lemma_glued(a: Seq<char>, b: Seq<char>, c: char)
    requires
        !b.contains(c),
    ensures
        split_text(a, c).len() > 0,
        split_text(a + b, c) == split_text(a, c).drop_last().push(split_text(a, c).last() + b),
    decreases a.len(),
{
    crate::text::lemma_next_char(a, c, 0);
    let j = crate::text::next_char(a, c, 0);
    if j >= a.len() {
        assert(!a.contains(c));
        lemma_uncut(a, c);
        assert(!(a + b).contains(c)) by {
            if (a + b).contains(c) {
                let i = choose|i: int| 0 <= i < (a + b).len() && (a + b)[i] == c;
                if i < a.len() {
                    assert(a[i] == c);
                } else {
                    assert(b[i - a.len()] == c);
                }
            }
        }
        lemma_uncut(a + b, c);
        assert(seq![a].drop_last().push(a + b) =~= seq![a + b]);
    } else {
        let head = a.take(j);
        let rest = a.skip(j + 1);
        assert(a =~= head + seq![c] + rest);
        assert(a + b =~= head + seq![c] + (rest + b));
        lemma_split_concat_from(head, c, rest, 0);
        lemma_split_concat_from(head, c, rest + b, 0);
        lemma_glued(rest, b, c);
        let h = split_text(head, c);
        let r = split_text(rest, c);
        assert((h + r).drop_last().push((h + r).last() + b) =~= h + r.drop_last().push(
            r.last() + b,
        ));
    }
}

/// A text is cut into its lines, without their ends; what follows the last end is a
/// line where it is not empty.
pub proof fn law_lines(text: &str, out: Vec<String>, ls: Seq<Line>, rest: Seq<char>)
    requires
        call_ensures(lines, (text,), out),
        are_lines(ls),
        !rest.contains('\n'),
        text@ == ended(ls) + rest,
    ensures
        rest.len() == 0 ==> texts(out@) == line_texts(ls),
        rest.len() > 0 ==> texts(out@) == line_texts(ls).push(rest),
{
    lemma_ended(ls);
    lemma_glued(ended(ls), rest, '\n');
    let p = split_text(ended(ls), '\n');
    let pieces = split_text(text@, '\n');
    assert(p.last() + rest =~= rest);
    assert(pieces =~= p.drop_last().push(rest));
    let chopped = Seq::new((pieces.len() - 1) as nat, |i: int| chop_cr(pieces[i]));
    assert forall|i: int| 0 <= i < ls.len() implies chopped[i] == ls[i].text by {
        assert(pieces[i] == p[i]);
    }
    assert(chopped =~= line_texts(ls));
}

/// Texts that were joined by a separator are split at it again.
pub proof fn law_split_and_join(
    parts: &Vec<String>,
    separator: &str,
    c: char,
    joined: String,
    text: &str,
    out: Vec<String>,
)
    requires
        separator@ == seq![c],
        call_ensures(join, (parts, separator), joined),
        text@ == joined@,
        call_ensures(split, (text, c), out),
        parts@.len() > 0,
        none_hold(texts(parts@), c),
    ensures
        texts(out@) == texts(parts@),
{
    assert(texts(parts@).len() == parts@.len());
    lemma_split_join(texts(parts@), c);
}

/// A text is cut at the first separator.
pub proof fn law_cuts(
    text: &str,
    c: char,
    a: Seq<char>,
    b: Seq<char>,
    first: String,
    second: Option<String>,
)
    requires
        call_ensures(before, (text, c), first),
        call_ensures(after, (text, c), second),
        !a.contains(c),
    ensures
        text@ == a + seq![c] + b ==> first@ == a && opt_text(second) == Some(b),
        text@ == a ==> first@ == a && second is None,
{
    crate::laws::texts::lemma_cut(a, c, b);
    lemma_uncut(a, c);
}

/// White space alone.
pub open spec fn all_space(s: Seq<char>) -> bool {
    forall|i: int| 0 <= i < s.len() ==> is_blank(#[trigger] s[i])
}

/// A blank, a tab, a line end or another white space.
pub open spec fn is_blank(c: char) -> bool {
    c == ' ' || c == '\t' || c == '\n' || c == '\r' || c == '\u{b}' || c == '\u{c}' || c
        == '\u{85}' || c == '\u{a0}' || c == '\u{3000}'
}

/// White space at the end.
proof fn lemma_space_end(s: Seq<char>, b: Seq<char>)
    requires
        all_space(b),
        s.len() > 0 ==> !is_space(s.last()),
    ensures
        trim_end_space(s + b) == s,
    decreases b.len(),
{
    if b.len() > 0 {
        let init = b.drop_last();
        assert(is_blank(b[b.len() - 1]));
        assert forall|i: int| 0 <= i < init.len() implies is_blank(#[trigger] init[i]) by {
            assert(is_blank(b[i]));
        }
        lemma_space_end(s, init);
        assert((s + b).drop_last() =~= s + init);
        assert((s + b).last() == b.last());
    } else {
        assert(s + b =~= s);
    }
}

/// White space in front.
proof fn lemma_space_front(a: Seq<char>, s: Seq<char>)
    requires
        all_space(a),
        s.len() > 0 ==> !is_space(s[0]),
    ensures
        trim_start_space(a + s) == s,
    decreases a.len(),
{
    if a.len() > 0 {
        let rest = a.drop_first();
        assert(is_blank(a[0]));
        assert forall|i: int| 0 <= i < rest.len() implies is_blank(#[trigger] rest[i]) by {
            assert(is_blank(a[i + 1]));
        }
        lemma_space_front(rest, s);
        assert((a + s).drop_first() =~= rest + s);
    } else {
        assert(a + s =~= s);
    }
}

/// A text that begins and ends with visible characters.
pub open spec fn is_seen(s: Seq<char>) -> bool {
    s.len() > 0 && 33 <= (s[0] as u32) < 127 && 33 <= (s.last() as u32) < 127
}

/// White space on both sides.
pub proof fn lemma_trimmed(a: Seq<char>, s: Seq<char>, b: Seq<char>)
    requires
        all_space(a) && all_space(b),
        is_seen(s),
    ensures
        trim_text(a + s + b) == s,
{
    assert(a + s + b =~= a + (s + b));
    assert((s + b)[0] == s[0]);
    lemma_space_front(a, s + b);
    lemma_space_end(s, b);
}

/// White space around a text is cut off, and nothing of the text.
pub proof fn law_trim(text: &str, out: String, a: Seq<char>, s: Seq<char>, b: Seq<char>)
    requires
        call_ensures(trim, (text,), out),
        all_space(a) && all_space(b),
        is_seen(s),
        text@ == a + s + b,
    ensures
        out@ == s,
{
    lemma_trimmed(a, s, b);
}

/// A number is read back from its decimal digits; what is out of range, or has
/// anything else in it, is no number.
pub proof fn law_numbers(n: u64, written: String, text: &str, r64: Option<u64>, r32: Option<u32>)
    requires
        call_ensures(decimal_text, (n,), written),
        text@ == written@,
        call_ensures(parse_u64, (text,), r64),
        call_ensures(parse_u32, (text,), r32),
    ensures
        r64 == Some(n),
        r32 == if n <= u32::MAX {
            Some(n as u32)
        } else {
            None
        },
{
    law_decimal_round_trip(n as int, u64::MAX as int);
    if n <= u32::MAX {
        law_decimal_round_trip(n as int, u32::MAX as int);
    }
    lemma_decimal(n as int);
}

/// A number with a sign is read back.
pub proof fn law_signed_numbers(n: i64, written: String, text: &str, r: Option<i64>)
    requires
        call_ensures(decimal_signed_text, (n,), written),
        text@ == written@,
        call_ensures(parse_i64, (text,), r),
    ensures
        r == Some(n),
        n < 0 ==> written@[0] == '-',
        n >= 0 ==> all_digits(written@),
{
    if n < 0 {
        lemma_decimal(-(n as int));
        assert((seq!['-'] + decimal(-(n as int))).skip(1) =~= decimal(-(n as int)));
    } else {
        law_decimal_round_trip(n as int, i64::MAX as int);
        lemma_decimal(n as int);
        let c = decimal(n as int)[0];
        assert(crate::text::is_digit(c));
    }
}

/// A text with a character that is no digit, its sign aside, is no number.
pub proof fn law_no_numbers(text: &str, r: Option<u64>, length: u64, i: int)
    requires
        call_ensures(parse_u64, (text,), r),
        call_ensures(content_length, (Some(text),), length),
        text@.len() == 0 || 0 < i < text@.len() && !('0' <= text@[i] <= '9'),
    ensures
        r is None,
        length == 0,
{
    if text@.len() > 0 {
        let rest = text@.skip(1);
        assert(rest[i - 1] == text@[i]);
        assert(!crate::text::is_digit(text@[i]));
        assert(!all_digits(rest));
        assert(!all_digits(text@));
    }
}

/// The announced length of a body.
pub proof fn law_announced_length(text: &str, n: u64, length: u64, none: u64)
    requires
        call_ensures(content_length, (Some(text),), length),
        call_ensures(content_length, (None::<&str>,), none),
        text@ == decimal(n as int),
    ensures
        length == n,
        none == 0,
{
    law_decimal_round_trip(n as int, u64::MAX as int);
}

/// Letter case is dropped from ASCII letters alone.
pub proof fn law_lower_case(text: &str, out: String, i: int)
    requires
        call_ensures(to_ascii_lower, (text,), out),
        0 <= i < text@.len(),
    ensures
        out@.len() == text@.len(),
        !('A' <= out@[i] <= 'Z'),
        !('A' <= text@[i] <= 'Z') ==> out@[i] == text@[i],
        'A' <= text@[i] <= 'Z' ==> out@[i] as u32 == text@[i] as u32 + 32,
{
}

/// A destination that is an encoded web URL is decoded; any other is kept.
pub proof fn law_decoded_destinations(
    url: &str,
    encoded: String,
    text: &str,
    of_encoded: String,
    plain: &str,
    as_url: Option<String>,
    of_plain: String,
)
    requires
        call_ensures(encode_url_to_base64, (url,), encoded),
        text@ == encoded@,
        call_ensures(decode_destination, (text,), of_encoded),
        crate::text::starts_with(url@, "http://"@) || crate::text::starts_with(url@, "https://"@),
        call_ensures(decode_base64_url, (plain,), as_url),
        call_ensures(decode_destination, (plain,), of_plain),
    ensures
        of_encoded@ == url@,
        as_url is None ==> of_plain@ == plain@,
        as_url matches Some(u) ==> of_plain@ == u@,
{
}

} // verus!
