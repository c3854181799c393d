//! Laws on texts that the other laws rest on.

use vstd::prelude::*;

use crate::text::{
    after_char, before_char, contains, decimal, find_first, find_from, is_digit,
    lemma_contains_find, lemma_decimal, lemma_find_from, lemma_next_char, matches_at, next_char,
    replace_from, split_text, starts_with, strip_prefix_text, trim_end_char, trim_start_char,
    trim_text,
};

verus! {

/// What stands behind a prefix.
pub proof fn lemma_prefix(p: Seq<char>, s: Seq<char>)
    ensures
        starts_with(p + s, p),
        strip_prefix_text(p + s, p) == Some(s),
{
    assert((p + s).subrange(0, p.len() as int) =~= p);
    assert((p + s).skip(p.len() as int) =~= s);
}

/// A text is cut at the first separator.
pub proof fn lemma_cut(a: Seq<char>, c: char, b: Seq<char>)
    requires
        !a.contains(c),
    ensures
        next_char(a + seq![c] + b, c, 0) == a.len(),
        before_char(a + seq![c] + b, c) == a,
        after_char(a + seq![c] + b, c) == Some(b),
{
    let s = a + seq![c] + b;
    lemma_next_char(s, c, 0);
    let n = next_char(s, c, 0);
    assert(s[a.len() as int] == c);
    if n < a.len() {
        assert(a[n] == s[n]);
    }
    assert(n == a.len());
    assert(s.subrange(0, n) =~= a);
    assert(s.skip(n + 1) =~= b);
}

/// A text without the separator is not cut.
pub proof fn lemma_uncut(a: Seq<char>, c: char)
    requires
        !a.contains(c),
    ensures
        next_char(a, c, 0) == a.len(),
        before_char(a, c) == a,
        after_char(a, c) is None,
        split_text(a, c) == seq![a],
{
    lemma_next_char(a, c, 0);
    let n = next_char(a, c, 0);
    if n < a.len() {
        assert(a[n] == c);
    }
    assert(a.subrange(0, a.len() as int) =~= a);
}

/// Decimal notation holds digits alone.
pub proof fn lemma_digits_only(n: int, c: char)
    requires
        0 <= n,
        !is_digit(c),
    ensures
        !decimal(n).contains(c),
        decimal(n).len() > 0,
        is_digit(decimal(n)[0]),
{
    lemma_decimal(n);
    if decimal(n).contains(c) {
        let i = choose|i: int| 0 <= i < decimal(n).len() && decimal(n)[i] == c;
        assert(is_digit(decimal(n)[i]));
    }
    assert(is_digit(decimal(n)[0]));
}

/// Decimal notation has no white space round it.
pub proof fn lemma_trimmed_digits(n: int)
    requires
        0 <= n,
    ensures
        trim_text(decimal(n)) == decimal(n),
{
    lemma_decimal(n);
    let d = decimal(n);
    assert(is_digit(d[0]));
    assert(is_digit(d[d.len() - 1]));
}

/// Characters that are cut off at the start are cut off whatever follows.
pub proof fn lemma_trim_start(s: Seq<char>, c: char)
    requires
        s.len() > 0 ==> s[0] != c,
    ensures
        trim_start_char(s, c) == s,
        trim_start_char(seq![c] + s, c) == s,
{
    let t = seq![c] + s;
    assert(t.drop_first() =~= s);
    assert(trim_start_char(s, c) == s);
    assert(trim_start_char(t, c) == trim_start_char(t.drop_first(), c));
}

/// Slashes at the end are cut off.
pub proof fn lemma_trim_end(s: Seq<char>, c: char, n: nat)
    requires
        s.len() > 0 ==> s.last() != c,
    ensures
        trim_end_char(s + Seq::new(n, |i: int| c), c) == s,
    decreases n,
{
    let t = s + Seq::new(n, |i: int| c);
    if n == 0 {
        assert(t =~= s);
    } else {
        assert(t.drop_last() =~= s + Seq::new((n - 1) as nat, |i: int| c));
        lemma_trim_end(s, c, (n - 1) as nat);
    }
}

// ---------------------------------------------------------------------------
// Replacing
// ---------------------------------------------------------------------------

/// A pattern whose first element does not come again in it.
pub open spec fn begins_once<T>(p: Seq<T>) -> bool {
    p.len() > 0 && forall|k: int| 0 < k < p.len() ==> (#[trigger] p[k]) != p[0]
}

/// Where a pattern stands once, that place is found first.
pub proof fn lemma_found_once<T>(a: Seq<T>, p: Seq<T>, b: Seq<T>)
    requires
        begins_once(p),
        !contains(a, p),
    ensures
        find_first(a + p + b, p) == Some(a.len() as int),
{
    let s = a + p + b;
    assert(s.subrange(a.len() as int, (a.len() + p.len()) as int) =~= p);
    assert(matches_at(s, p, a.len() as int));
    lemma_find_from(s, p, 0);
    let j = find_first(s, p)->0;
    if j < a.len() {
        if j + p.len() <= a.len() {
            assert(a.subrange(j, j + p.len()) =~= s.subrange(j, j + p.len()));
            assert(matches_at(a, p, j));
        } else {
            let k = a.len() - j;
            assert(s.subrange(j, j + p.len())[k] == s[a.len() as int]);
            assert(s[a.len() as int] == p[0]);
            assert(p[k] == p[0]);
        }
    }
}

/// What is replaced in a text that holds the pattern once.
pub proof fn lemma_replaced_once<T>(a: Seq<T>, p: Seq<T>, b: Seq<T>, by: Seq<T>)
    requires
        begins_once(p),
        !contains(a, p),
        !contains(b, p),
    ensures
        replace_from(a + p + b, p, by, 0) == a + by + b,
{
    let s = a + p + b;
    let n = (a.len() + p.len()) as int;
    lemma_found_once(a, p, b);
    lemma_find_from(s, p, n);
    if let Some(k) = find_from(s, p, n) {
        assert(b.subrange(k - n, k - n + p.len()) =~= s.subrange(k, k + p.len()));
        assert(matches_at(b, p, k - n));
    }
    assert(s.subrange(n, s.len() as int) =~= b);
    assert(s.subrange(0, a.len() as int) =~= a);
    assert(find_from(s, p, n) is None);
    assert(replace_from(s, p, by, n) == b);
}

/// Nothing is replaced in a text that does not hold the pattern.
pub proof fn lemma_replaced_nowhere<T>(a: Seq<T>, p: Seq<T>, by: Seq<T>)
    requires
        p.len() > 0,
        !contains(a, p),
    ensures
        replace_from(a, p, by, 0) == a,
{
    lemma_contains_find(a, p);
    assert(a.subrange(0, a.len() as int) =~= a);
}

/// Two sequences that have no element in common.
pub open spec fn have_none_in_common<T>(a: Seq<T>, b: Seq<T>) -> bool {
    forall|i: int, j: int|
        0 <= i < a.len() && 0 <= j < b.len() ==> (#[trigger] a[i]) != (#[trigger] b[j])
}

/// Where all places are replaced by something of other elements, the pattern is
/// gone.
pub proof fn lemma_replaced_all<T>(s: Seq<T>, p: Seq<T>, by: Seq<T>, i: int)
    requires
        0 <= i <= s.len(),
        p.len() > 0,
        by.len() > 0,
        have_none_in_common(p, by),
    ensures
        !contains(replace_from(s, p, by, i), p),
    decreases s.len() - i,
{
    lemma_find_from(s, p, i);
    let r = replace_from(s, p, by, i);
    match find_from(s, p, i) {
        None => {
            if contains(r, p) {
                let k = choose|k: int| matches_at(r, p, k);
                assert(s.subrange(i + k, i + k + p.len()) =~= r.subrange(k, k + p.len()));
                assert(matches_at(s, p, i + k));
            }
        },
        Some(j) => {
            let front = s.subrange(i, j);
            let rest = replace_from(s, p, by, (j + p.len()) as int);
            lemma_replaced_all(s, p, by, (j + p.len()) as int);
            assert(r == front + by + rest);
            if contains(r, p) {
                let k = choose|k: int| matches_at(r, p, k);
                let at = r.subrange(k, k + p.len());
                let n = front.len() as int;
                let m = n + by.len();
                if k + p.len() <= n {
                    assert(s.subrange(i + k, i + k + p.len()) =~= at);
                    assert(matches_at(s, p, i + k));
                } else if k >= m {
                    assert(rest.subrange(k - m, k - m + p.len()) =~= at);
                    assert(matches_at(rest, p, k - m));
                } else if k <= n {
                    assert(at[n - k] == by[0]);
                    assert(p[n - k] == by[0]);
                } else {
                    assert(at[0] == by[k - n]);
                    assert(p[0] == by[k - n]);
                }
            }
        },
    }
}

} // verus!
