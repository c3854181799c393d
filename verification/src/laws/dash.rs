//! Laws on the profiles and segments of a DASH manifest.

use vstd::prelude::*;

use crate::laws::texts::{lemma_cut, lemma_digits_only, lemma_uncut};
use crate::mpd::processor::{base_of, generate_from_entries, iso8601, TimelineEntry};
use crate::mpd::template::{
    expand_template, expanded, expanded_from, format_width, identifier_value, padded, zeros,
    TemplateArgs,
};
use crate::mpd::types::{
    segment_views, AdaptationSet, MpdProfile, MpdSegment, Representation, SegmentTemplate,
};
use crate::text::{
    before_char, contains, decimal, law_decimal_round_trip, lemma_next_char, lemma_next_char_shift,
    next_char, opt_text,
};
use crate::utils::url::resolved;

verus! {

// ---------------------------------------------------------------------------
// Templates
// ---------------------------------------------------------------------------

/// A number in decimal notation behind as many zeros as fill it up to a width.
pub open spec fn is_padded(s: Seq<char>, n: int, width: int) -> bool {
    let d = decimal(n);
    let fill = width - d.len();
    s == d || (fill > 0 && s == Seq::new(fill as nat, |i: int| '0') + d)
}

/// The number is filled up where it is shorter than the width.
pub open spec fn fills(s: Seq<char>, n: int, width: int) -> bool {
    is_padded(s, n, width) && s.len() >= width
}

/// What an identifier is replaced by: a number, or a number of a width.
pub open spec fn is_number_of(
    ident: Seq<char>,
    name: Seq<char>,
    n: int,
    value: Seq<char>,
) -> bool {
    &&& ident == name ==> value == decimal(n)
    &&& forall|w: u32|
        ident == #[trigger] width_ident(name, w) ==> fills(value, n, w as int)
}

/// An identifier with a width, such as `Number%05d`.
pub open spec fn width_ident(name: Seq<char>, w: u32) -> Seq<char> {
    name + "%0"@ + decimal(w as int) + "d"@
}

/// What an identifier stands for.
pub open spec fn stands_for(
    ident: Seq<char>,
    id: Seq<char>,
    bandwidth: u64,
    number: u64,
    time: u64,
    value: Seq<char>,
) -> bool {
    &&& ident.len() == 0 ==> value == "$"@
    &&& ident == "RepresentationID"@ ==> value == id
    &&& is_number_of(ident, "Bandwidth"@, bandwidth as int, value)
    &&& is_number_of(ident, "Number"@, number as int, value)
    &&& is_number_of(ident, "Time"@, time as int, value)
}

/// What is written behind a place does not depend on what stands before it.
proof fn lemma_expanded_shift(x: Seq<char>, t: Seq<char>, a: TemplateArgs, k: int, i: int)
    requires
        0 <= k <= x.len(),
        x.skip(k) == t,
        0 <= i <= t.len(),
    ensures
        expanded_from(x, a, k + i) == expanded_from(t, a, i),
    decreases t.len() - i,
{
    lemma_next_char_shift(x, t, '$', k, i);
    lemma_next_char(t, '$', i);
    let j = next_char(t, '$', i);
    if j < t.len() {
        lemma_next_char_shift(x, t, '$', k, j + 1);
        lemma_next_char(t, '$', j + 1);
        let m = next_char(t, '$', j + 1);
        if m < t.len() {
            lemma_expanded_shift(x, t, a, k, m + 1);
            assert(x.subrange(k + i, k + j) =~= t.subrange(i, j));
            assert(x.subrange(k + j + 1, k + m) =~= t.subrange(j + 1, m));
        } else {
            assert(x.subrange(k + i, x.len() as int) =~= t.subrange(i, t.len() as int));
        }
    } else {
        lemma_next_char(t, '$', t.len() as int);
        assert(x.subrange(k + i, x.len() as int) =~= t.subrange(i, t.len() as int));
    }
}

/// A template with an identifier in front.
pub proof fn lemma_first_identifier(
    prefix: Seq<char>,
    ident: Seq<char>,
    rest: Seq<char>,
    a: TemplateArgs,
)
    requires
        !prefix.contains('$'),
        !ident.contains('$'),
    ensures
        expanded(prefix + "$"@ + ident + "$"@ + rest, a) == prefix + identifier_value(ident, a)
            + expanded(rest, a),
{
    reveal_strlit("$");
    let t = prefix + "$"@ + ident + "$"@ + rest;
    let tail = ident + seq!['$'] + rest;
    let j = prefix.len() as int;
    assert(t =~= prefix + seq!['$'] + tail);
    lemma_cut(prefix, '$', tail);
    assert(t.skip(j + 1) =~= tail);
    lemma_next_char_shift(t, tail, '$', j + 1, 0);
    lemma_cut(ident, '$', rest);
    let k = j + 1 + ident.len();
    assert(next_char(t, '$', j + 1) == k);
    assert(t.subrange(0, j) =~= prefix);
    assert(t.subrange(j + 1, k) =~= ident);
    assert(t.skip(k + 1) =~= rest);
    lemma_expanded_shift(t, rest, a, k + 1, 0);
}

/// Numbers are filled up with zeros.
proof fn lemma_padded(n: u64, w: int)
    requires
        0 <= w,
    ensures
        fills(padded(n, w), n as int, w),
        w == 0 ==> padded(n, w) == decimal(n as int),
{
    let d = decimal(n as int);
    let fill = w - d.len();
    if fill > 0 {
        assert(zeros(fill) =~= Seq::new(fill as nat, |i: int| '0'));
    } else {
        assert(zeros(fill) =~= Seq::empty());
        assert(zeros(fill) + d =~= d);
    }
}

/// The name and the width of an identifier.
proof fn lemma_width_ident(name: Seq<char>, w: u32)
    requires
        !name.contains('%'),
    ensures
        before_char(width_ident(name, w), '%') == name,
        format_width(width_ident(name, w)) == Some(w as int),
{
    reveal_strlit("%0");
    reveal_strlit("d");
    let d = decimal(w as int);
    let f = seq!['0'] + d + seq!['d'];
    lemma_digits_only(w as int, 'd');
    assert(width_ident(name, w) =~= name + seq!['%'] + f);
    lemma_cut(name, '%', f);
    assert(f.subrange(1, f.len() - 1) =~= d);
    assert(f[1] == d[0]);
    law_decimal_round_trip(w as int, u32::MAX as int);
}

/// What an identifier stands for.
proof fn lemma_stands_for(ident: Seq<char>, a: TemplateArgs)
    ensures
        stands_for(
            ident,
            a.representation_id,
            a.bandwidth,
            a.number,
            a.time,
            identifier_value(ident, a),
        ),
{
    reveal_strlit("RepresentationID");
    reveal_strlit("Bandwidth");
    reveal_strlit("Number");
    reveal_strlit("Time");
    let value = identifier_value(ident, a);
    let names = seq!["Bandwidth"@, "Number"@, "Time"@];
    assert(!"Bandwidth"@.contains('%') && !"Number"@.contains('%') && !"Time"@.contains('%'));
    lemma_padded(a.bandwidth, 0);
    lemma_padded(a.number, 0);
    lemma_padded(a.time, 0);
    lemma_uncut("Bandwidth"@, '%');
    lemma_uncut("Number"@, '%');
    lemma_uncut("Time"@, '%');
    assert("Bandwidth"@[0] == 'B' && "Number"@[0] == 'N' && "Time"@[0] == 'T');
    assert forall|w: u32| ident == #[trigger] width_ident("Bandwidth"@, w) implies fills(
        value,
        a.bandwidth as int,
        w as int,
    ) by {
        lemma_width_ident("Bandwidth"@, w);
        lemma_padded(a.bandwidth, w as int);
        assert(ident[0] == 'B');
    }
    assert forall|w: u32| ident == #[trigger] width_ident("Number"@, w) implies fills(
        value,
        a.number as int,
        w as int,
    ) by {
        lemma_width_ident("Number"@, w);
        lemma_padded(a.number, w as int);
        assert(ident[0] == 'N');
    }
    assert forall|w: u32| ident == #[trigger] width_ident("Time"@, w) implies fills(
        value,
        a.time as int,
        w as int,
    ) by {
        lemma_width_ident("Time"@, w);
        lemma_padded(a.time, w as int);
        assert(ident[0] == 'T');
    }
}

/// An identifier of a template is replaced by what it stands for, the text before it
/// stays, and what follows it is filled in alike.
pub proof fn law_template_identifiers(
    template: &str,
    rest: &str,
    id: &str,
    bandwidth: u64,
    number: u64,
    time: Option<u64>,
    out: String,
    out_rest: String,
    prefix: Seq<char>,
    ident: Seq<char>,
)
    requires
        call_ensures(expand_template, (template, id, bandwidth, number, time), out),
        call_ensures(expand_template, (rest, id, bandwidth, number, time), out_rest),
        template@ == prefix + "$"@ + ident + "$"@ + rest@,
        !prefix.contains('$'),
        !ident.contains('$'),
    ensures
        exists|value: Seq<char>|
            out@ == #[trigger] (prefix + value + out_rest@) && stands_for(
                ident,
                id@,
                bandwidth,
                number,
                match time {
                    Some(t) => t,
                    None => 0,
                },
                value,
            ),
{
    let a = TemplateArgs {
        representation_id: id@,
        bandwidth,
        number,
        time: match time {
            Some(t) => t,
            None => 0,
        },
    };
    lemma_first_identifier(prefix, ident, rest@, a);
    lemma_stands_for(ident, a);
}

/// What stands between the signs and is no identifier stays as it is: another name, or
/// a width that is not written with a leading zero and a closing `d`.
pub proof fn law_other_identifiers(
    template: &str,
    rest: &str,
    id: &str,
    bandwidth: u64,
    number: u64,
    time: Option<u64>,
    out: String,
    out_rest: String,
    prefix: Seq<char>,
    name: Seq<char>,
    format: Seq<char>,
)
    requires
        call_ensures(expand_template, (template, id, bandwidth, number, time), out),
        call_ensures(expand_template, (rest, id, bandwidth, number, time), out_rest),
        !prefix.contains('$'),
        !name.contains('$') && !name.contains('%') && name.len() > 0,
        !format.contains('$'),
    ensures
        template@ == prefix + "$"@ + name + "$"@ + rest@ && name != "RepresentationID"@ && name
            != "Bandwidth"@ && name != "Number"@ && name != "Time"@ ==> out@ == prefix + "$"@ + name
            + "$"@ + out_rest@,
        template@ == prefix + "$"@ + (name + "%"@ + format) + "$"@ + rest@ && (format.len() < 3
            || format[0] != '0' || format.last() != 'd') ==> out@ == prefix + "$"@ + (name + "%"@
            + format) + "$"@ + out_rest@,
{
    let a = TemplateArgs {
        representation_id: id@,
        bandwidth,
        number,
        time: match time {
            Some(t) => t,
            None => 0,
        },
    };
    reveal_strlit("%");
    assert("%"@ =~= seq!['%']);
    let long = name + "%"@ + format;
    assert(long =~= name + seq!['%'] + format);
    crate::laws::texts::lemma_uncut(name, '%');
    crate::laws::texts::lemma_cut(name, '%', format);
    reveal_strlit("RepresentationID");
    assert(!"RepresentationID"@.contains('%'));
    assert(long[name.len() as int] == '%');
    assert(long != "RepresentationID"@) by {
        if long == "RepresentationID"@ {
            assert("RepresentationID"@.contains('%'));
        }
    }
    assert(!long.contains('$')) by {
        if long.contains('$') {
            let i = choose|i: int| 0 <= i < long.len() && long[i] == '$';
            if i < name.len() {
                assert(name[i] == '$');
            } else if i > name.len() {
                assert(format[i - name.len() - 1] == '$');
            }
        }
    }
    lemma_first_identifier(prefix, name, rest@, a);
    lemma_first_identifier(prefix, long, rest@, a);
    assert(prefix + ("$"@ + name + "$"@) + out_rest@ =~= prefix + "$"@ + name + "$"@ + out_rest@);
    assert(prefix + ("$"@ + long + "$"@) + out_rest@ =~= prefix + "$"@ + long + "$"@ + out_rest@);
    if format.len() == 2 && format[0] == '0' && format.last() == 'd' {
        assert(format[1] == 'd');
    }
}

/// A template without identifiers stands for itself.
pub proof fn law_template_without_identifiers(
    template: &str,
    id: &str,
    bandwidth: u64,
    number: u64,
    time: Option<u64>,
    out: String,
)
    requires
        call_ensures(expand_template, (template, id, bandwidth, number, time), out),
        !template@.contains('$'),
    ensures
        out@ == template@,
{
    let a = TemplateArgs {
        representation_id: id@,
        bandwidth,
        number,
        time: match time {
            Some(t) => t,
            None => 0,
        },
    };
    crate::mpd::template::law_plain_template(template@, a);
}

// ---------------------------------------------------------------------------
// Segments of a template
// ---------------------------------------------------------------------------

/// The template of a representation: its own, or else that of its set.
pub open spec fn is_template(rep: Representation, set: AdaptationSet, t: SegmentTemplate) -> bool {
    rep.segment_template == Some(t) || (rep.segment_template is None && set.segment_template
        == Some(t))
}

/// The base URL of a representation, empty where it has none.
pub open spec fn is_rep_base(rep: Representation, base: Seq<char>) -> bool {
    match rep.base_url {
        Some(u) => base == u@,
        None => base.len() == 0,
    }
}

/// The base URL is read as it is written.
pub proof fn lemma_rep_base(rep: Representation, base: Seq<char>)
    requires
        is_rep_base(rep, base),
    ensures
        base_of(rep) == base,
{
    reveal_strlit("");
    assert(base_of(rep) =~= base);
}

/// Each entry of a timeline becomes a segment, in order: its number, times and
/// duration are the entry's, and its URL is the template filled in with them.
pub proof fn law_timeline_segments(
    profile: &MpdProfile,
    rep: &Representation,
    set: &AdaptationSet,
    mpd_url: &str,
    entries: &Vec<TimelineEntry>,
    out: Vec<MpdSegment>,
    t: SegmentTemplate,
    media: String,
    base: Seq<char>,
    i: int,
)
    requires
        call_ensures(generate_from_entries, (profile, rep, set, mpd_url, entries), out),
        is_template(*rep, *set, t),
        t.media == Some(media),
        is_rep_base(*rep, base),
        0 <= i < entries@.len(),
    ensures
        out@.len() == entries@.len(),
        out@[i].media@ == resolved(
            mpd_url@,
            base + expanded(
                media@,
                TemplateArgs {
                    representation_id: profile.rep_id@,
                    bandwidth: profile.bandwidth,
                    number: entries@[i].number,
                    time: entries@[i].time,
                },
            ),
        ),
        out@[i].number == entries@[i].number,
        out@[i].extinf.text@ == entries@[i].extinf.text@,
        out@[i].extinf.positive == entries@[i].extinf.positive,
        out@[i].extinf.ceil == entries@[i].extinf.ceil,
        out@[i].extinf.key == entries@[i].extinf.key,
        entries@[i].time > 0 ==> out@[i].time == Some(entries@[i].time),
        entries@[i].time == 0 ==> out@[i].time is None,
        entries@[i].duration > 0 ==> out@[i].duration_mpd_timescale == Some(entries@[i].duration),
        entries@[i].start_secs matches Some(s) ==> opt_text(out@[i].program_date_time) == iso8601(
            s,
        ),
        entries@[i].start_secs is None ==> out@[i].program_date_time is None,
        out@[i].media_range is None,
{
    lemma_rep_base(*rep, base);
    assert(segment_views(out@).len() == out@.len());
    assert(segment_views(out@)[i] == out@[i]@);
}

/// A template with one identifier: the URL of each segment holds what the identifier
/// stands for at its place. With `Time` that is the start of the segment, with
/// `Number` its number.
pub proof fn law_segment_urls(
    profile: &MpdProfile,
    rep: &Representation,
    set: &AdaptationSet,
    mpd_url: &str,
    entries: &Vec<TimelineEntry>,
    out: Vec<MpdSegment>,
    t: SegmentTemplate,
    media: String,
    base: Seq<char>,
    prefix: Seq<char>,
    ident: Seq<char>,
    suffix: Seq<char>,
    i: int,
)
    requires
        call_ensures(generate_from_entries, (profile, rep, set, mpd_url, entries), out),
        is_template(*rep, *set, t),
        t.media == Some(media),
        media@ == prefix + "$"@ + ident + "$"@ + suffix,
        !prefix.contains('$'),
        !ident.contains('$'),
        !suffix.contains('$'),
        is_rep_base(*rep, base),
        0 <= i < entries@.len(),
    ensures
        exists|value: Seq<char>| #[trigger]
            stands_for(
                ident,
                profile.rep_id@,
                profile.bandwidth,
                entries@[i].number,
                entries@[i].time,
                value,
            ) && out@[i].media@ == resolved(mpd_url@, base + prefix + value + suffix),
        ident == "Time"@ ==> out@[i].media@ == resolved(
            mpd_url@,
            base + prefix + decimal(entries@[i].time as int) + suffix,
        ),
        ident == "Number"@ ==> out@[i].media@ == resolved(
            mpd_url@,
            base + prefix + decimal(entries@[i].number as int) + suffix,
        ),
{
    law_timeline_segments(profile, rep, set, mpd_url, entries, out, t, media, base, i);
    let a = TemplateArgs {
        representation_id: profile.rep_id@,
        bandwidth: profile.bandwidth,
        number: entries@[i].number,
        time: entries@[i].time,
    };
    lemma_first_identifier(prefix, ident, suffix, a);
    crate::mpd::template::law_plain_template(suffix, a);
    lemma_stands_for(ident, a);
    let value = identifier_value(ident, a);
    assert(base + (prefix + value + suffix) =~= base + prefix + value + suffix);
    assert(stands_for(
        ident,
        profile.rep_id@,
        profile.bandwidth,
        entries@[i].number,
        entries@[i].time,
        value,
    ));
}

/// Different starts give different names: what a template with `$Time$` is filled in
/// to tells any two segments of a timeline apart.
pub proof fn law_times_are_told_apart(
    template: &str,
    id: &str,
    bandwidth: u64,
    number: u64,
    other_number: u64,
    time: u64,
    other_time: u64,
    out: String,
    other_out: String,
    prefix: Seq<char>,
    suffix: Seq<char>,
)
    requires
        call_ensures(expand_template, (template, id, bandwidth, number, Some(time)), out),
        call_ensures(
            expand_template,
            (template, id, bandwidth, other_number, Some(other_time)),
            other_out,
        ),
        template@ == prefix + "$Time$"@ + suffix,
        !prefix.contains('$'),
        !suffix.contains('$'),
    ensures
        out@ == other_out@ <==> time == other_time,
{
    reveal_strlit("$Time$");
    reveal_strlit("$");
    reveal_strlit("Time");
    assert(template@ =~= prefix + "$"@ + "Time"@ + "$"@ + suffix);
    let a = TemplateArgs { representation_id: id@, bandwidth, number, time };
    let c = TemplateArgs {
        representation_id: id@,
        bandwidth,
        number: other_number,
        time: other_time,
    };
    lemma_first_identifier(prefix, "Time"@, suffix, a);
    lemma_first_identifier(prefix, "Time"@, suffix, c);
    crate::mpd::template::law_plain_template(suffix, a);
    crate::mpd::template::law_plain_template(suffix, c);
    lemma_stands_for("Time"@, a);
    lemma_stands_for("Time"@, c);
    let x = decimal(time as int);
    let y = decimal(other_time as int);
    if out@ == other_out@ {
        assert(out@.len() == prefix.len() + x.len() + suffix.len());
        assert(other_out@.len() == prefix.len() + y.len() + suffix.len());
        let n = prefix.len() as int;
        assert(out@.subrange(n, n + x.len()) =~= x);
        assert(other_out@.subrange(n, n + x.len()) =~= y);
        law_decimal_round_trip(time as int, u64::MAX as int);
        law_decimal_round_trip(other_time as int, u64::MAX as int);
    }
}

} // verus!
