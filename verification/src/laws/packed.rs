//! Laws on packed scripts.

use vstd::prelude::*;

use crate::extractor::packed::{
    code_digit, code_value, code_word, is_packed, is_word_char, unpack_packed_js, unpacked_from,
    word_end,
};
use crate::extractor::patterns::group_of;
use crate::text::{contains, decimal, join_texts, law_decimal_round_trip, none_hold};

verus! {

/// The digit of a code: `0` to `9`, `a` to `z`, then `A` to `Z`.
pub open spec fn digit_of(d: int) -> char {
    if d < 10 {
        (48 + d) as u8 as char
    } else if d < 36 {
        (87 + d) as u8 as char
    } else {
        (29 + d) as u8 as char
    }
}

/// A number as a code.
pub open spec fn code_of(n: int, radix: int) -> Seq<char>
    decreases n,
    when 0 <= n && 2 <= radix
    via code_of_decreases
{
    if n < radix {
        seq![digit_of(n)]
    } else {
        code_of(n / radix, radix).push(digit_of(n % radix))
    }
}

#[via_fn]
proof fn code_of_decreases(n: int, radix: int) {
    if n >= radix {
        assert(0 <= n / radix < n) by (nonlinear_arith)
            requires
                2 <= radix <= n,
        ;
    }
}

/// A part of a script: the code of a word, and what stands behind it.
pub struct Part {
    /// The word's place in the list.
    pub word: int,
    /// What is not part of a word.
    pub between: Seq<char>,
}

/// Something stands between the words, and each place is in reach of the list.
pub open spec fn are_parts(parts: Seq<Part>, words: Seq<Seq<char>>) -> bool {
    forall|i: int|
        0 <= i < parts.len() ==> 0 <= (#[trigger] parts[i]).word < words.len()
            && parts[i].between.len() > 0 && forall|k: int|
            0 <= k < parts[i].between.len() ==> !is_word_char(#[trigger] parts[i].between[k])
}

/// A script with its words as codes.
pub open spec fn coded(parts: Seq<Part>, radix: int) -> Seq<char>
    decreases parts.len(),
{
    if parts.len() == 0 {
        Seq::empty()
    } else {
        code_of(parts[0].word, radix) + parts[0].between + coded(parts.drop_first(), radix)
    }
}

/// A script with its words; an empty one stands for its own code.
pub open spec fn spelled(parts: Seq<Part>, radix: int, words: Seq<Seq<char>>) -> Seq<char>
    decreases parts.len(),
{
    if parts.len() == 0 {
        Seq::empty()
    } else {
        (if words[parts[0].word].len() > 0 {
            words[parts[0].word]
        } else {
            code_of(parts[0].word, radix)
        }) + parts[0].between + spelled(parts.drop_first(), radix, words)
    }
}

/// A code is read as its number.
proof fn lemma_code(n: int, radix: int, limit: int)
    requires
        0 <= n < limit,
        2 <= radix <= 62,
    ensures
        code_of(n, radix).len() > 0,
        code_value(code_of(n, radix), radix, limit) == Some(n),
        forall|k: int| 0 <= k < code_of(n, radix).len()
            ==> is_word_char(#[trigger] code_of(n, radix)[k]),
    decreases n,
{
    let code = code_of(n, radix);
    if n < radix {
        assert(code.drop_last() =~= Seq::empty());
        assert(code_value(code.drop_last(), radix, limit) == Some(0int));
        assert(code_digit(digit_of(n)) == Some(n));
        assert(code.last() == digit_of(n));
        assert(0 * radix + n == n) by (nonlinear_arith);
    } else {
        let d = n % radix;
        assert(0 <= d < radix && n == (n / radix) * radix + d && 0 <= n / radix < n)
            by (nonlinear_arith)
            requires
                d == n % radix,
                2 <= radix <= n,
        ;
        lemma_code(n / radix, radix, limit);
        assert(code.drop_last() =~= code_of(n / radix, radix));
        assert(code_digit(digit_of(d)) == Some(d));
        assert(code.last() == digit_of(d));
    }
}

/// Where a word ends.
proof fn lemma_word_end(s: Seq<char>, i: int, j: int)
    requires
        0 <= i <= j <= s.len(),
        forall|k: int| i <= k < j ==> is_word_char(#[trigger] s[k]),
        j < s.len() ==> !is_word_char(s[j]),
    ensures
        word_end(s, i) == j,
    decreases j - i,
{
    if i < j {
        assert(is_word_char(s[i]));
        lemma_word_end(s, i + 1, j);
    }
}

/// What is not part of a word is kept.
proof fn lemma_between(s: Seq<char>, radix: int, words: Seq<Seq<char>>, i: int, j: int)
    requires
        0 <= i <= j <= s.len(),
        forall|k: int| i <= k < j ==> !is_word_char(#[trigger] s[k]),
    ensures
        unpacked_from(s, radix, words, i) == s.subrange(i, j) + unpacked_from(s, radix, words, j),
    decreases j - i,
{
    if i < j {
        assert(!is_word_char(s[i]));
        lemma_between(s, radix, words, i + 1, j);
        assert(seq![s[i]] + (s.subrange(i + 1, j) + unpacked_from(s, radix, words, j))
            =~= s.subrange(i, j) + unpacked_from(s, radix, words, j));
    } else {
        assert(s.subrange(i, j) + unpacked_from(s, radix, words, j) =~= unpacked_from(
            s,
            radix,
            words,
            j,
        ));
    }
}

/// The parts of a script are spelled out.
proof fn lemma_parts(
    s: Seq<char>,
    before: Seq<char>,
    parts: Seq<Part>,
    radix: int,
    words: Seq<Seq<char>>,
)
    requires
        are_parts(parts, words),
        2 <= radix <= 62,
        s == before + coded(parts, radix),
    ensures
        unpacked_from(s, radix, words, before.len() as int) == spelled(parts, radix, words),
    decreases parts.len(),
{
    if parts.len() > 0 {
        let p = parts[0];
        let rest = parts.drop_first();
        assert(are_parts(rest, words)) by {
            assert forall|i: int| 0 <= i < rest.len() implies 0 <= (#[trigger] rest[i]).word
                < words.len() && rest[i].between.len() > 0 && forall|k: int|
                0 <= k < rest[i].between.len() ==> !is_word_char(
                    #[trigger] rest[i].between[k],
                ) by {
                assert(rest[i] == parts[i + 1]);
            }
        }
        let code = code_of(p.word, radix);
        lemma_code(p.word, radix, words.len() as int);
        let i = before.len() as int;
        let j = i + code.len();
        let m = j + p.between.len();
        let next = before + code + p.between;
        assert(s =~= next + coded(rest, radix));
        lemma_parts(s, next, rest, radix, words);
        assert(s.subrange(i, j) =~= code);
        assert(s.subrange(j, m) =~= p.between);
        assert forall|k: int| i <= k < j implies is_word_char(#[trigger] s[k]) by {
            assert(s[k] == code[k - i]);
        }
        assert forall|k: int| j <= k < m implies !is_word_char(#[trigger] s[k]) by {
            assert(s[k] == p.between[k - j]);
        }
        lemma_word_end(s, i, j);
        lemma_between(s, radix, words, j, m);
        assert(is_word_char(s[i]));
        let w = code_word(code, radix, words);
        assert(w + (p.between + spelled(rest, radix, words)) =~= w + p.between + spelled(
            rest,
            radix,
            words,
        ));
    } else {
        assert(s.len() == before.len());
    }
}

/// A packed script is spelled out: each code stands for the word in its place, and
/// all else is kept.
pub proof fn law_packed_scripts(
    html: &str,
    out: Option<String>,
    parts: Seq<Part>,
    radix: int,
    words: Seq<Seq<char>>,
)
    requires
        call_ensures(unpack_packed_js, (html,), out),
        2 <= radix <= 62,
        words.len() > 0 && none_hold(words, '|'),
        are_parts(parts, words),
        ({
            let p = "(?s)\\}\\('(.*)',\\s*(\\d+),\\s*(\\d+),\\s*'(.*?)'\\.split\\('\\|'\\)"@;
            &&& group_of(p, html@, 1) == Some(coded(parts, radix))
            &&& group_of(p, html@, 2) == Some(decimal(radix))
            &&& group_of(p, html@, 4) == Some(join_texts(words, "|"@))
        }),
    ensures
        out matches Some(s) && s@ == spelled(parts, radix, words),
{
    law_decimal_round_trip(radix, u32::MAX as int);
    reveal_strlit("|");
    assert("|"@ =~= seq!['|']);
    crate::text::lemma_split_join(words, '|');
    let s = coded(parts, radix);
    assert(s =~= Seq::<char>::empty() + s);
    lemma_parts(s, Seq::empty(), parts, radix, words);
}

/// Scripts without the packer's opening are not packed.
pub proof fn law_packed_pages(html: &str, out: bool, a: Seq<char>, b: Seq<char>)
    requires
        call_ensures(is_packed, (html,), out),
    ensures
        html@ == a + "eval(function(p,a,c,k,e,"@ + b ==> out,
        !contains(html@, "eval(function("@) ==> !out,
{
    let p = "eval(function(p,a,c,k,e,"@;
    let q = "eval(function("@;
    reveal_strlit("eval(function(p,a,c,k,e,");
    reveal_strlit("eval(function(");
    if html@ == a + p + b {
        assert(html@.subrange(a.len() as int, a.len() as int + p.len()) =~= p);
        assert(crate::text::matches_at(html@, p, a.len() as int));
    }
    if contains(html@, p) {
        let i = choose|i: int| crate::text::matches_at(html@, p, i);
        assert(p.take(q.len() as int) =~= q);
        assert(html@.subrange(i, i + q.len()) =~= html@.subrange(i, i + p.len()).take(
            q.len() as int,
        ));
        assert(crate::text::matches_at(html@, q, i));
    }
}

} // verus!
