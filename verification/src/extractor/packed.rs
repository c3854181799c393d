//! Scripts packed by replacing words with short codes.

use vstd::prelude::*;

use crate::extractor::patterns::{find_group, group_of};
use crate::text::{
    chars, contains, holds, opt_text, parse_u32, parse_unsigned, slice_text, split, split_text,
    texts,
};

verus! {

/// Whether a page holds a packed script.
pub fn is_packed(html: &str) -> (r: bool)
    ensures
        r == contains(html@, "eval(function(p,a,c,k,e,"@),
{
    holds(html, "eval(function(p,a,c,k,e,")
}

/// The arguments of a packed script: its text, the radix of the codes, their
/// number, and the words.
pub open spec fn packed_arguments() -> Seq<char> {
    "(?s)\\}\\('(.*)',\\s*(\\d+),\\s*(\\d+),\\s*'(.*?)'\\.split\\('\\|'\\)"@
}

/// A letter, a digit or an underscore.
pub open spec fn is_word_char(c: char) -> bool {
    ||| 'a' <= c && c <= 'z'
    ||| 'A' <= c && c <= 'Z'
    ||| '0' <= c && c <= '9'
    ||| c == '_'
}

/// The value of a digit of a code: `0-9`, `a-z`, `A-Z` count up to 61.
pub open spec fn code_digit(c: char) -> Option<int> {
    if '0' <= c && c <= '9' {
        Some(c as u32 - 48)
    } else if 'a' <= c && c <= 'z' {
        Some(c as u32 - 87)
    } else if 'A' <= c && c <= 'Z' {
        Some(c as u32 - 29)
    } else {
        None
    }
}

/// The number that a code stands for in a radix, as long as it stays below
/// `limit`.
pub open spec fn code_value(code: Seq<char>, radix: int, limit: int) -> Option<int>
    decreases code.len(),
{
    if code.len() == 0 {
        Some(0)
    } else {
        match (code_value(code.drop_last(), radix, limit), code_digit(code.last())) {
            (Some(high), Some(d)) => if d < radix && high * radix + d < limit {
                Some(high * radix + d)
            } else {
                None
            },
            _ => None,
        }
    }
}

/// What a code stands for: its word, or itself where there is none.
pub open spec fn code_word(code: Seq<char>, radix: int, words: Seq<Seq<char>>) -> Seq<char> {
    match code_value(code, radix, words.len() as int) {
        Some(n) => if words[n].len() > 0 {
            words[n]
        } else {
            code
        },
        None => code,
    }
}

/// Where the run of word characters that holds position `i` ends.
pub open spec fn word_end(s: Seq<char>, i: int) -> int
    decreases s.len() - i,
{
    if i < 0 || i >= s.len() || !is_word_char(s[i]) {
        i
    } else {
        word_end(s, i + 1)
    }
}

/// A text from `i` on with its codes replaced.
pub open spec fn unpacked_from(s: Seq<char>, radix: int, words: Seq<Seq<char>>, i: int) -> Seq<char>
    decreases s.len() - i,
    when 0 <= i <= s.len()
    via unpacked_from_decreases
{
    if i >= s.len() {
        Seq::empty()
    } else if is_word_char(s[i]) {
        let j = word_end(s, i);
        code_word(s.subrange(i, j), radix, words) + unpacked_from(s, radix, words, j)
    } else {
        seq![s[i]] + unpacked_from(s, radix, words, i + 1)
    }
}

#[via_fn]
proof fn unpacked_from_decreases(s: Seq<char>, radix: int, words: Seq<Seq<char>>, i: int) {
    if i < s.len() && is_word_char(s[i]) {
        lemma_word_end(s, i);
    }
}

/// A run ends behind its start and within the text.
proof fn lemma_word_end(s: Seq<char>, i: int)
    requires
        0 <= i <= s.len(),
    ensures
        i <= word_end(s, i) <= s.len(),
        i < s.len() && is_word_char(s[i]) ==> i < word_end(s, i),
    decreases s.len() - i,
{
    if i < s.len() && is_word_char(s[i]) {
        lemma_word_end(s, i + 1);
    }
}

/// The script that a packed script stands for.
pub open spec fn unpacked_script(html: Seq<char>) -> Option<Seq<char>> {
    let p = packed_arguments();
    match (group_of(p, html, 1), group_of(p, html, 2), group_of(p, html, 4)) {
        (Some(text), Some(radix), Some(words)) => match parse_unsigned(radix, u32::MAX as int) {
            Some(r) => Some(unpacked_from(text, r, split_text(words, '|'), 0)),
            None => None,
        },
        _ => None,
    }
}

/// Whether a character is a letter, a digit or an underscore.
fn word_char(c: char) -> (r: bool)
    ensures
        r == is_word_char(c),
{
    ('a' <= c && c <= 'z') || ('A' <= c && c <= 'Z') || ('0' <= c && c <= '9') || c == '_'
}

/// A code whose beginning stands for nothing stands for nothing.
proof fn lemma_code_prefix(code: Seq<char>, radix: int, limit: int, n: int)
    requires
        0 <= n <= code.len(),
        code_value(code.take(n), radix, limit) is None,
    ensures
        code_value(code, radix, limit) is None,
    decreases code.len() - n,
{
    if n < code.len() {
        assert(code.take(n + 1).drop_last() =~= code.take(n));
        lemma_code_prefix(code, radix, limit, n + 1);
    } else {
        assert(code.take(n) =~= code);
    }
}

/// The number that `v[from..to]` stands for.
fn read_code(v: &Vec<char>, from: usize, to: usize, radix: u32, limit: usize) -> (r: Option<usize>)
    requires
        from < to <= v.len(),
    ensures
        match r {
            Some(n) => n < limit && code_value(
                v@.subrange(from as int, to as int),
                radix as int,
                limit as int,
            ) == Some(n as int),
            None => code_value(v@.subrange(from as int, to as int), radix as int, limit as int)
                is None,
        },
{
    let ghost code = v@.subrange(from as int, to as int);
    let mut value: usize = 0;
    let mut i: usize = from;
    assert(code.take(0) =~= Seq::<char>::empty());
    while i < to
        invariant
            from <= i <= to <= v.len(),
            code == v@.subrange(from as int, to as int),
            code_value(code.take(i - from), radix as int, limit as int) == Some(value as int),
            i > from ==> value < limit,
        decreases to - i,
    {
        let c = v[i];
        let digit: u32 = if '0' <= c && c <= '9' {
            c as u32 - 48
        } else if 'a' <= c && c <= 'z' {
            c as u32 - 87
        } else if 'A' <= c && c <= 'Z' {
            c as u32 - 29
        } else {
            u32::MAX
        };
        assert(value as int * radix as int <= usize::MAX as int * u32::MAX as int)
            by (nonlinear_arith)
            requires
                value <= usize::MAX,
                radix <= u32::MAX,
        ;
        let next: u128 = value as u128 * radix as u128 + digit as u128;
        proof {
            let t = code.take(i - from + 1);
            assert(t.drop_last() =~= code.take(i - from));
            assert(t.last() == c);
        }
        if digit >= radix || next >= limit as u128 {
            proof {
                lemma_code_prefix(code, radix as int, limit as int, i - from + 1);
            }
            return None;
        }
        value = next as usize;
        i += 1;
    }
    assert(code.take(to - from) =~= code);
    Some(value)
}

/// Replaces the codes of a text.
fn unpack_text(s: &str, radix: u32, words: &Vec<String>) -> (r: String)
    ensures
        r@ == unpacked_from(s@, radix as int, texts(words@), 0),
{
    let v = chars(s);
    let ghost w = texts(words@);
    let mut r = String::new();
    let mut i: usize = 0;
    assert(r@ + unpacked_from(s@, radix as int, w, 0) =~= unpacked_from(s@, radix as int, w, 0));
    while i < v.len()
        invariant
            i <= v.len(),
            v@ == s@,
            w == texts(words@),
            r@ + unpacked_from(s@, radix as int, w, i as int) == unpacked_from(
                s@,
                radix as int,
                w,
                0,
            ),
        decreases v.len() - i,
    {
        let ghost before = r@;
        let ghost at = i as int;
        if word_char(v[i]) {
            let mut j: usize = i;
            while j < v.len() && word_char(v[j])
                invariant
                    i <= j <= v.len(),
                    v@ == s@,
                    word_end(s@, i as int) == word_end(s@, j as int),
                decreases v.len() - j,
            {
                j += 1;
            }
            proof {
                lemma_word_end(s@, at);
            }
            let code = slice_text(&v, i, j);
            let ghost value = code_word(s@.subrange(at, j as int), radix as int, w);
            match read_code(&v, i, j, radix, words.len()) {
                Some(n) => {
                    assert(w[n as int] == words@[n as int]@);
                    if chars(words[n].as_str()).len() > 0 {
                        r.push_str(words[n].as_str());
                    } else {
                        r.push_str(code.as_str());
                    }
                },
                None => {
                    r.push_str(code.as_str());
                },
            }
            assert(r@ == before + value);
            i = j;
            assert(r@ + unpacked_from(s@, radix as int, w, i as int) =~= before + (value
                + unpacked_from(s@, radix as int, w, i as int)));
        } else {
            r.push(v[i]);
            i += 1;
            assert(r@ + unpacked_from(s@, radix as int, w, i as int) =~= before + (seq![s@[at]]
                + unpacked_from(s@, radix as int, w, i as int)));
        }
    }
    assert(r@ + Seq::<char>::empty() =~= r@);
    r
}

/// Unpacks the first packed script of a page.
pub fn unpack_packed_js(html: &str) -> (r: Option<String>)
    ensures
        opt_text(r) == unpacked_script(html@),
{
    let p = "(?s)\\}\\('(.*)',\\s*(\\d+),\\s*(\\d+),\\s*'(.*?)'\\.split\\('\\|'\\)";
    match (find_group(p, html, 1), find_group(p, html, 2), find_group(p, html, 4)) {
        (Some(text), Some(radix), Some(words)) => match parse_u32(radix.as_str()) {
            Some(n) => {
                let list = split(words.as_str(), '|');
                Some(unpack_text(text.as_str(), n, &list))
            },
            None => None,
        },
        _ => None,
    }
}

} // verus!
