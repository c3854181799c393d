//! URL templates of DASH segments.

use vstd::prelude::*;

use crate::text::{
    after, after_char, before, before_char, chars, decimal, decimal_text, lemma_next_char,
    next_char, next_pos, parse_u32, parse_unsigned, same, slice_text,
};

verus! {

/// What a template is filled with.
pub struct TemplateArgs {
    pub representation_id: Seq<char>,
    pub bandwidth: u64,
    pub number: u64,
    pub time: u64,
}

/// As many zeros.
pub open spec fn zeros(n: int) -> Seq<char> {
    Seq::new(
        if n > 0 {
            n as nat
        } else {
            0
        },
        |i: int| '0',
    )
}

/// A number in decimal notation, filled up with zeros to a width.
pub open spec fn padded(n: u64, width: int) -> Seq<char> {
    zeros(width - decimal(n as int).len()) + decimal(n as int)
}

/// The width of a format tag: nothing, or `%0<width>d`.
pub open spec fn format_width(ident: Seq<char>) -> Option<int> {
    match after_char(ident, '%') {
        None => Some(0),
        Some(f) => if f.len() >= 2 && f[0] == '0' && f.last() == 'd' && crate::text::is_digit(
            f[1],
        ) {
            parse_unsigned(f.subrange(1, f.len() - 1), u32::MAX as int)
        } else {
            None
        },
    }
}

/// What an identifier between dollar signs stands for. The empty one stands for
/// a dollar sign, an unknown one for itself.
pub open spec fn identifier_value(ident: Seq<char>, a: TemplateArgs) -> Seq<char> {
    let name = before_char(ident, '%');
    let width = format_width(ident);
    if ident.len() == 0 {
        "$"@
    } else if ident == "RepresentationID"@ {
        a.representation_id
    } else if width is Some && name == "Bandwidth"@ {
        padded(a.bandwidth, width->0)
    } else if width is Some && name == "Number"@ {
        padded(a.number, width->0)
    } else if width is Some && name == "Time"@ {
        padded(a.time, width->0)
    } else {
        "$"@ + ident + "$"@
    }
}

/// A template from `i` on with its identifiers replaced.
pub open spec fn expanded_from(t: Seq<char>, a: TemplateArgs, i: int) -> Seq<char>
    decreases t.len() - i,
    when 0 <= i <= t.len()
    via expanded_from_decreases
{
    let j = next_char(t, '$', i);
    let k = next_char(t, '$', j + 1);
    if j >= t.len() || k >= t.len() {
        t.subrange(i, t.len() as int)
    } else {
        t.subrange(i, j) + identifier_value(t.subrange(j + 1, k), a) + expanded_from(t, a, k + 1)
    }
}

#[via_fn]
proof fn expanded_from_decreases(t: Seq<char>, a: TemplateArgs, i: int) {
    lemma_next_char(t, '$', i);
    if next_char(t, '$', i) < t.len() {
        lemma_next_char(t, '$', next_char(t, '$', i) + 1);
    }
}

/// A template with its identifiers replaced.
pub open spec fn expanded(t: Seq<char>, a: TemplateArgs) -> Seq<char> {
    expanded_from(t, a, 0)
}

/// Writes a number with leading zeros.
fn padded_text(n: u64, width: u32) -> (r: String)
    ensures
        r@ == padded(n, width as int),
{
    let digits = decimal_text(n);
    let len: usize = chars(digits.as_str()).len();
    let mut r = String::new();
    let mut k: u32 = 0;
    while k < width && (width - k) as usize > len
        invariant
            k <= width,
            len == decimal(n as int).len(),
            r@ == zeros(k as int),
            k == 0 || k <= width - len,
        decreases width - k,
    {
        r.push('0');
        k += 1;
        assert(r@ =~= zeros(k as int));
    }
    assert(zeros(width - len) =~= r@);
    r.push_str(digits.as_str());
    r
}

/// Reads the width of a format tag.
fn read_width(ident: &str) -> (r: Option<u32>)
    ensures
        match r {
            Some(w) => format_width(ident@) == Some(w as int),
            None => format_width(ident@) is None,
        },
{
    match after(ident, '%') {
        None => Some(0),
        Some(f) => {
            let v = chars(f.as_str());
            if v.len() >= 2 && v[0] == '0' && v[v.len() - 1] == 'd' && '0' <= v[1] && v[1] <= '9' {
                parse_u32(slice_text(&v, 1, v.len() - 1).as_str())
            } else {
                None
            }
        },
    }
}

/// What an identifier stands for.
fn identifier_text(ident: &str, representation_id: &str, bandwidth: u64, number: u64, time: u64)
    -> (r: String)
    ensures
        r@ == identifier_value(
            ident@,
            TemplateArgs { representation_id: representation_id@, bandwidth, number, time },
        ),
{
    if chars(ident).len() == 0 {
        return "$".to_owned();
    }
    if same(ident, "RepresentationID") {
        return representation_id.to_owned();
    }
    let name = before(ident, '%');
    if let Some(width) = read_width(ident) {
        if same(name.as_str(), "Bandwidth") {
            return padded_text(bandwidth, width);
        }
        if same(name.as_str(), "Number") {
            return padded_text(number, width);
        }
        if same(name.as_str(), "Time") {
            return padded_text(time, width);
        }
    }
    let mut r = "$".to_owned();
    r.push_str(ident);
    r.push_str("$");
    r
}

/// Fills a template in. A segment without a time begins at time 0.
pub fn expand_template(
    template: &str,
    representation_id: &str,
    bandwidth: u64,
    number: u64,
    time: Option<u64>,
) -> (r: String)
    ensures
        r@ == expanded(
            template@,
            TemplateArgs {
                representation_id: representation_id@,
                bandwidth,
                number,
                time: match time {
                    Some(t) => t,
                    None => 0,
                },
            },
        ),
{
    let start: u64 = match time {
        Some(t) => t,
        None => 0,
    };
    let ghost a = TemplateArgs {
        representation_id: representation_id@,
        bandwidth,
        number,
        time: start,
    };
    let v = chars(template);
    let mut r = String::new();
    let mut i: usize = 0;
    assert(r@ + expanded_from(v@, a, 0) =~= expanded(template@, a));
    loop
        invariant
            v@ == template@,
            i <= v.len(),
            start == match time {
                Some(t) => t,
                None => 0,
            },
            a == (TemplateArgs {
                representation_id: representation_id@,
                bandwidth,
                number,
                time: start,
            }),
            r@ + expanded_from(v@, a, i as int) == expanded(template@, a),
        decreases v.len() - i,
    {
        let ghost before = r@;
        let j: usize = next_pos(&v, '$', i);
        let k: usize = if j < v.len() {
            next_pos(&v, '$', j + 1)
        } else {
            v.len()
        };
        if j >= v.len() || k >= v.len() {
            r.push_str(slice_text(&v, i, v.len()).as_str());
            return r;
        }
        let ident = slice_text(&v, j + 1, k);
        r.push_str(slice_text(&v, i, j).as_str());
        let value = identifier_text(ident.as_str(), representation_id, bandwidth, number, start);
        r.push_str(value.as_str());
        assert(r@ + expanded_from(v@, a, k + 1) =~= before + (v@.subrange(i as int, j as int)
            + value@ + expanded_from(v@, a, k + 1)));
        i = k + 1;
    }
}

/// A template without dollar signs stands for itself.
pub proof fn law_plain_template(t: Seq<char>, a: TemplateArgs)
    requires
        !t.contains('$'),
    ensures
        expanded(t, a) == t,
{
    lemma_next_char(t, '$', 0);
    if next_char(t, '$', 0) < t.len() {
        assert(t[next_char(t, '$', 0)] == '$');
    }
    assert(t.subrange(0, t.len() as int) =~= t);
}

} // verus!
