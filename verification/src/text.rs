//! Text primitives over sequences of characters.
//!
//! Every function here has a specification function of the same meaning, so
//! that the rest of the library can state its results as plain sequences.

use vstd::prelude::*;

verus! {

// ---------------------------------------------------------------------------
// Building strings
// ---------------------------------------------------------------------------

/// `String::push_str` of std: appends the characters of `s`.
pub assume_specification[ String::push_str ](t: &mut String, s: &str)
    ensures
        final(t)@ == old(t)@ + s@,
;

/// `String::push` of std: appends one character.
pub assume_specification[ String::push ](t: &mut String, c: char)
    ensures
        final(t)@ == old(t)@.push(c),
;

/// The texts of a sequence of strings.
pub open spec fn texts(v: Seq<String>) -> Seq<Seq<char>> {
    Seq::new(v.len(), |i: int| v[i]@)
}

/// The text of an optional string.
pub open spec fn opt_text(s: Option<String>) -> Option<Seq<char>> {
    match s {
        Some(t) => Some(t@),
        None => None,
    }
}

/// The text of an optional string slice.
pub open spec fn opt_str(s: Option<&str>) -> Option<Seq<char>> {
    match s {
        Some(t) => Some(t@),
        None => None,
    }
}

/// A copy of an optional string.
pub fn copy_opt(s: &Option<String>) -> (r: Option<String>)
    ensures
        r == *s,
{
    match s {
        Some(t) => Some(t.clone()),
        None => None,
    }
}

/// Borrows an optional string.
pub fn borrow_opt(s: &Option<String>) -> (r: Option<&str>)
    ensures
        opt_str(r) == opt_text(*s),
{
    match s {
        Some(t) => Some(t.as_str()),
        None => None,
    }
}

/// Two texts one after the other.
pub fn concat(a: &str, b: &str) -> (r: String)
    ensures
        r@ == a@ + b@,
{
    let mut r = a.to_owned();
    r.push_str(b);
    r
}

/// The characters of a string.
pub fn chars(s: &str) -> (v: Vec<char>)
    ensures
        v@ == s@,
{
    let mut v: Vec<char> = Vec::new();
    for c in it: s.chars()
        invariant
            it.seq() == s@,
            v@ == s@.take(it.index()),
    {
        v.push(c);
        assert(s@.take(it.index() + 1) =~= s@.take(it.index()).push(c));
    }
    assert(s@.take(s@.len() as int) =~= s@);
    v
}

/// The text of the characters `v[from..to]`.
pub fn slice_text(v: &Vec<char>, from: usize, to: usize) -> (r: String)
    requires
        from <= to <= v.len(),
    ensures
        r@ == v@.subrange(from as int, to as int),
{
    let mut r = String::new();
    let mut i: usize = from;
    while i < to
        invariant
            from <= i <= to <= v.len(),
            r@ == v@.subrange(from as int, i as int),
        decreases to - i,
    {
        r.push(v[i]);
        i += 1;
        assert(v@.subrange(from as int, i as int) =~= v@.subrange(from as int, i - 1).push(v@[i - 1]));
    }
    r
}

/// Whether two texts are the same.
pub fn same(a: &str, b: &str) -> (r: bool)
    ensures
        r == (a@ == b@),
{
    let x = chars(a);
    let y = chars(b);
    if x.len() != y.len() {
        return false;
    }
    let mut i: usize = 0;
    while i < x.len()
        invariant
            i <= x.len(),
            x.len() == y.len(),
            x@ == a@,
            y@ == b@,
            forall|j: int| 0 <= j < i ==> a@[j] == b@[j],
        decreases x.len() - i,
    {
        if x[i] != y[i] {
            return false;
        }
        i += 1;
    }
    assert(a@ =~= b@);
    true
}

// ---------------------------------------------------------------------------
// Searching
// ---------------------------------------------------------------------------

/// `p` stands in `s` at position `i`.
pub open spec fn matches_at<T>(s: Seq<T>, p: Seq<T>, i: int) -> bool {
    0 <= i && i + p.len() <= s.len() && s.subrange(i, i + p.len()) == p
}

/// `p` stands somewhere in `s`.
pub open spec fn contains<T>(s: Seq<T>, p: Seq<T>) -> bool {
    exists|i: int| matches_at(s, p, i)
}

/// `s` begins with `p`.
pub open spec fn starts_with(s: Seq<char>, p: Seq<char>) -> bool {
    matches_at(s, p, 0)
}

/// `s` ends with `p`.
pub open spec fn ends_with(s: Seq<char>, p: Seq<char>) -> bool {
    matches_at(s, p, s.len() - p.len())
}

/// The first position from `i` on at which `p` stands in `s`.
pub open spec fn find_from<T>(s: Seq<T>, p: Seq<T>, i: int) -> Option<int>
    decreases s.len() + 1 - i,
{
    if i < 0 || i + p.len() > s.len() {
        None
    } else if matches_at(s, p, i) {
        Some(i)
    } else {
        find_from(s, p, i + 1)
    }
}

/// The first position at which `p` stands in `s`.
pub open spec fn find_first<T>(s: Seq<T>, p: Seq<T>) -> Option<int> {
    find_from(s, p, 0)
}

/// What `find_from` says, in terms of `matches_at`.
pub proof fn lemma_find_from<T>(s: Seq<T>, p: Seq<T>, i: int)
    requires
        0 <= i,
    ensures
        find_from(s, p, i) is None ==> forall|k: int| i <= k ==> !matches_at(s, p, k),
        find_from(s, p, i) matches Some(j) ==> i <= j && matches_at(s, p, j) && forall|k: int|
            i <= k < j ==> !matches_at(s, p, k),
    decreases s.len() + 1 - i,
{
    if i + p.len() <= s.len() && !matches_at(s, p, i) {
        lemma_find_from(s, p, i + 1);
    }
}

/// Searching and containing agree.
pub proof fn lemma_contains_find<T>(s: Seq<T>, p: Seq<T>)
    ensures
        contains(s, p) <==> find_first(s, p) is Some,
{
    lemma_find_from(s, p, 0);
}

/// Whether `p` stands in `v` at `i`.
fn matches_here(v: &Vec<char>, p: &Vec<char>, i: usize) -> (r: bool)
    requires
        i <= v.len(),
    ensures
        r == matches_at(v@, p@, i as int),
{
    if p.len() > v.len() - i {
        return false;
    }
    let mut k: usize = 0;
    while k < p.len()
        invariant
            k <= p.len(),
            i + p.len() <= v.len(),
            forall|j: int| 0 <= j < k ==> v@[i + j] == p@[j],
        decreases p.len() - k,
    {
        if v[i + k] != p[k] {
            assert(v@.subrange(i as int, i + p@.len())[k as int] != p@[k as int]);
            return false;
        }
        k += 1;
    }
    assert(v@.subrange(i as int, i + p@.len()) =~= p@);
    true
}

/// The first position from `from` on at which `p` stands in `v`.
pub fn find_in(v: &Vec<char>, p: &Vec<char>, from: usize) -> (r: Option<usize>)
    requires
        from <= v.len(),
    ensures
        match r {
            Some(j) => find_from(v@, p@, from as int) == Some(j as int),
            None => find_from(v@, p@, from as int) is None,
        },
{
    let mut i: usize = from;
    loop
        invariant
            from <= i <= v.len(),
            find_from(v@, p@, from as int) == find_from(v@, p@, i as int),
        decreases v.len() - i,
    {
        if p.len() > v.len() - i {
            return None;
        }
        if matches_here(v, p, i) {
            return Some(i);
        }
        assert(i < v.len()) by {
            if i == v.len() {
                assert(v@.subrange(i as int, i as int) =~= p@);
            }
        }
        i += 1;
    }
}

/// The position, in characters, of the first `p` in `s`.
pub fn find(s: &str, p: &str) -> (r: Option<usize>)
    ensures
        match r {
            Some(j) => find_first(s@, p@) == Some(j as int) && j + p@.len() <= s@.len(),
            None => find_first(s@, p@) is None,
        },
{
    proof {
        lemma_find_from(s@, p@, 0);
    }
    find_in(&chars(s), &chars(p), 0)
}

/// Whether `p` stands in `s`.
pub fn holds(s: &str, p: &str) -> (r: bool)
    ensures
        r == contains(s@, p@),
{
    proof {
        lemma_contains_find(s@, p@);
    }
    find(s, p).is_some()
}

/// Whether `s` begins with `p`.
pub fn begins(s: &str, p: &str) -> (r: bool)
    ensures
        r == starts_with(s@, p@),
{
    matches_here(&chars(s), &chars(p), 0)
}

/// Whether `s` ends with `p`.
pub fn ends(s: &str, p: &str) -> (r: bool)
    ensures
        r == ends_with(s@, p@),
{
    let v = chars(s);
    let q = chars(p);
    if q.len() > v.len() {
        return false;
    }
    matches_here(&v, &q, v.len() - q.len())
}

/// What follows `p` in `s` where `s` begins with `p`.
pub open spec fn strip_prefix_text(s: Seq<char>, p: Seq<char>) -> Option<Seq<char>> {
    if starts_with(s, p) {
        Some(s.skip(p.len() as int))
    } else {
        None
    }
}

/// What follows `p` in `s` where `s` begins with `p`.
pub fn strip_prefix(s: &str, p: &str) -> (r: Option<String>)
    ensures
        opt_text(r) == strip_prefix_text(s@, p@),
{
    if begins(s, p) {
        let v = chars(s);
        let n: usize = chars(p).len();
        let r = slice_text(&v, n, v.len());
        assert(r@ =~= s@.skip(p@.len() as int));
        Some(r)
    } else {
        None
    }
}

// ---------------------------------------------------------------------------
// Splitting and joining
// ---------------------------------------------------------------------------

/// The first position from `i` on that holds `c`, or the length.
pub open spec fn next_char(s: Seq<char>, c: char, i: int) -> int
    decreases s.len() - i,
{
    if i < 0 || i >= s.len() {
        s.len() as int
    } else if s[i] == c {
        i
    } else {
        next_char(s, c, i + 1)
    }
}

/// What `next_char` says.
pub proof fn lemma_next_char(s: Seq<char>, c: char, i: int)
    requires
        0 <= i <= s.len(),
    ensures
        i <= next_char(s, c, i) <= s.len(),
        next_char(s, c, i) < s.len() ==> s[next_char(s, c, i)] == c,
        forall|k: int| i <= k < next_char(s, c, i) ==> s[k] != c,
    decreases s.len() - i,
{
    if i < s.len() && s[i] != c {
        lemma_next_char(s, c, i + 1);
    }
}

/// The pieces of `s` from `i` on, cut at each `c`.
pub open spec fn split_from(s: Seq<char>, c: char, i: int) -> Seq<Seq<char>>
    decreases s.len() - i,
    when 0 <= i <= s.len()
    via split_from_decreases
{
    let j = next_char(s, c, i);
    if j >= s.len() {
        seq![s.subrange(i, s.len() as int)]
    } else {
        seq![s.subrange(i, j)] + split_from(s, c, j + 1)
    }
}

#[via_fn]
proof fn split_from_decreases(s: Seq<char>, c: char, i: int) {
    lemma_next_char(s, c, i);
}

/// The pieces of `s`, cut at each `c`: one more than there are `c` in `s`.
pub open spec fn split_text(s: Seq<char>, c: char) -> Seq<Seq<char>> {
    split_from(s, c, 0)
}

/// The first position from `from` on that holds `c`, or the length.
pub fn next_pos(v: &Vec<char>, c: char, from: usize) -> (r: usize)
    requires
        from <= v.len(),
    ensures
        r == next_char(v@, c, from as int),
        from <= r <= v.len(),
{
    let mut i: usize = from;
    while i < v.len() && v[i] != c
        invariant
            from <= i <= v.len(),
            next_char(v@, c, from as int) == next_char(v@, c, i as int),
        decreases v.len() - i,
    {
        i += 1;
    }
    i
}

/// The pieces of `s`, cut at each `c`.
pub fn split(s: &str, c: char) -> (r: Vec<String>)
    ensures
        texts(r@) == split_text(s@, c),
{
    let v = chars(s);
    let mut r: Vec<String> = Vec::new();
    let mut i: usize = 0;
    loop
        invariant
            v@ == s@,
            i <= v.len(),
            texts(r@) + split_from(s@, c, i as int) == split_text(s@, c),
        decreases v.len() - i,
    {
        let j: usize = next_pos(&v, c, i);
        let ghost before = texts(r@);
        let piece = slice_text(&v, i, j);
        let ghost p = piece@;
        r.push(piece);
        assert(texts(r@) =~= before.push(p));
        if j >= v.len() {
            assert(texts(r@) =~= before + split_from(s@, c, i as int));
            return r;
        }
        assert(texts(r@) + split_from(s@, c, j + 1) =~= before + (seq![p] + split_from(
            s@,
            c,
            j + 1,
        )));
        i = j + 1;
    }
}

/// `s` up to the first `c`.
pub open spec fn before_char(s: Seq<char>, c: char) -> Seq<char> {
    s.subrange(0, next_char(s, c, 0))
}

/// `s` up to the first `c`.
pub fn before(s: &str, c: char) -> (r: String)
    ensures
        r@ == before_char(s@, c),
{
    let v = chars(s);
    let n: usize = next_pos(&v, c, 0);
    slice_text(&v, 0, n)
}

/// What follows the first `c` of `s`, where there is one.
pub open spec fn after_char(s: Seq<char>, c: char) -> Option<Seq<char>> {
    if next_char(s, c, 0) < s.len() {
        Some(s.skip(next_char(s, c, 0) + 1))
    } else {
        None
    }
}

/// What follows the first `c` of `s`, where there is one.
pub fn after(s: &str, c: char) -> (r: Option<String>)
    ensures
        opt_text(r) == after_char(s@, c),
{
    let v = chars(s);
    let n: usize = next_pos(&v, c, 0);
    if n < v.len() {
        let r = slice_text(&v, n + 1, v.len());
        assert(r@ =~= s@.skip(n + 1));
        Some(r)
    } else {
        None
    }
}

/// The position behind the last `c` of `s`, or 0.
pub open spec fn behind_last(s: Seq<char>, c: char) -> int
    decreases s.len(),
{
    if s.len() == 0 {
        0
    } else if s.last() == c {
        s.len() as int
    } else {
        behind_last(s.drop_last(), c)
    }
}

/// What follows the last `c` of `s`, or all of `s` where it holds none.
pub open spec fn after_last_char(s: Seq<char>, c: char) -> Seq<char> {
    s.skip(behind_last(s, c))
}

/// What follows the last `c` of `s`, or all of `s` where it holds none.
pub fn after_last(s: &str, c: char) -> (r: String)
    ensures
        r@ == after_last_char(s@, c),
{
    let v = chars(s);
    let mut n: usize = v.len();
    assert(s@.take(n as int) =~= s@);
    while n > 0 && v[n - 1] != c
        invariant
            v@ == s@,
            n <= v.len(),
            behind_last(s@, c) == behind_last(s@.take(n as int), c),
        decreases n,
    {
        assert(s@.take(n as int).drop_last() =~= s@.take(n - 1));
        n -= 1;
    }
    let r = slice_text(&v, n, v.len());
    assert(r@ =~= s@.skip(n as int));
    r
}

/// Whether `s` holds `c`.
pub fn has_char(s: &str, c: char) -> (r: bool)
    ensures
        r == s@.contains(c),
{
    let v = chars(s);
    proof {
        lemma_next_char(s@, c, 0);
    }
    next_pos(&v, c, 0) < v.len()
}

/// The parts one after the other with `sep` between each two.
pub open spec fn join_texts(parts: Seq<Seq<char>>, sep: Seq<char>) -> Seq<char>
    decreases parts.len(),
{
    if parts.len() == 0 {
        Seq::empty()
    } else if parts.len() == 1 {
        parts[0]
    } else {
        join_texts(parts.drop_last(), sep) + sep + parts.last()
    }
}

/// The parts one after the other with `sep` between each two.
pub fn join(parts: &Vec<String>, sep: &str) -> (r: String)
    ensures
        r@ == join_texts(texts(parts@), sep@),
{
    let mut r = String::new();
    let mut i: usize = 0;
    while i < parts.len()
        invariant
            i <= parts.len(),
            r@ == join_texts(texts(parts@).take(i as int), sep@),
        decreases parts.len() - i,
    {
        if i > 0 {
            r.push_str(sep);
        }
        r.push_str(parts[i].as_str());
        i += 1;
        proof {
            let t = texts(parts@).take(i as int);
            assert(t.drop_last() =~= texts(parts@).take(i - 1));
            if i == 1 {
                assert(r@ =~= parts@[0]@);
            }
        }
    }
    assert(texts(parts@).take(parts@.len() as int) =~= texts(parts@));
    r
}

/// Searching in the end of a text is searching in that end alone.
pub proof fn lemma_next_char_shift(x: Seq<char>, b: Seq<char>, c: char, k: int, i: int)
    requires
        0 <= k <= x.len(),
        x.skip(k) == b,
        0 <= i <= b.len(),
    ensures
        next_char(x, c, k + i) == k + next_char(b, c, i),
    decreases b.len() - i,
{
    if i < b.len() {
        assert(b[i] == x[k + i]);
        if b[i] != c {
            lemma_next_char_shift(x, b, c, k, i + 1);
        }
    }
}

/// Splitting the end of a text is splitting that end alone.
proof fn lemma_split_shift(x: Seq<char>, b: Seq<char>, c: char, k: int, i: int)
    requires
        0 <= k <= x.len(),
        x.skip(k) == b,
        0 <= i <= b.len(),
    ensures
        split_from(x, c, k + i) == split_from(b, c, i),
    decreases b.len() - i,
{
    lemma_next_char_shift(x, b, c, k, i);
    lemma_next_char(b, c, i);
    let j = next_char(b, c, i);
    assert(x.subrange(k + i, k + j) =~= b.subrange(i, j));
    if j < b.len() {
        lemma_split_shift(x, b, c, k, j + 1);
    }
}

/// A separator splits a text into the pieces before it and those behind it.
pub proof fn lemma_split_concat_from(a: Seq<char>, c: char, b: Seq<char>, i: int)
    requires
        0 <= i <= a.len(),
    ensures
        split_from(a + seq![c] + b, c, i) == split_from(a, c, i) + split_text(b, c),
    decreases a.len() - i,
{
    let x = a + seq![c] + b;
    lemma_next_char(a, c, i);
    lemma_next_char(x, c, i);
    let j = next_char(a, c, i);
    assert(next_char(x, c, i) == j) by {
        let m = next_char(x, c, i);
        if m < j {
            assert(x[m] == a[m]);
        }
        if j < m {
            assert(x[j] == c);
        }
    }
    assert(x.subrange(i, j) =~= a.subrange(i, j));
    if j < a.len() {
        lemma_split_concat_from(a, c, b, j + 1);
        assert(split_from(x, c, i) =~= split_from(a, c, i) + split_text(b, c));
    } else {
        assert(x.skip(j + 1) =~= b);
        lemma_split_shift(x, b, c, j + 1, 0);
        assert(split_from(x, c, i) =~= split_from(a, c, i) + split_text(b, c));
    }
}

/// No piece holds the separator.
pub open spec fn none_hold(parts: Seq<Seq<char>>, c: char) -> bool {
    forall|i: int| 0 <= i < parts.len() ==> !(#[trigger] parts[i]).contains(c)
}

/// The pieces of a split do not hold the separator.
pub proof fn lemma_split_pieces(s: Seq<char>, c: char, i: int)
    requires
        0 <= i <= s.len(),
    ensures
        none_hold(split_from(s, c, i), c),
    decreases s.len() - i,
{
    lemma_next_char(s, c, i);
    let j = next_char(s, c, i);
    if j < s.len() {
        lemma_split_pieces(s, c, j + 1);
        assert forall|k: int| 0 <= k < split_from(s, c, i).len() implies !(#[trigger] split_from(
            s,
            c,
            i,
        )[k]).contains(c) by {
            if k > 0 {
                assert(split_from(s, c, i)[k] == split_from(s, c, j + 1)[k - 1]);
            }
        }
    }
}

/// Splitting a joined text gives the parts back, where none holds the
/// separator.
pub proof fn lemma_split_join(parts: Seq<Seq<char>>, c: char)
    requires
        parts.len() > 0,
        none_hold(parts, c),
    ensures
        split_text(join_texts(parts, seq![c]), c) == parts,
    decreases parts.len(),
{
    let last = parts.last();
    assert(split_text(last, c) =~= seq![last]) by {
        lemma_next_char(last, c, 0);
        assert(next_char(last, c, 0) == last.len()) by {
            if next_char(last, c, 0) < last.len() {
                assert(last.contains(c));
            }
        }
        assert(last.subrange(0, last.len() as int) =~= last);
    }
    if parts.len() == 1 {
        assert(parts =~= seq![last]);
    } else {
        let init = parts.drop_last();
        assert(none_hold(init, c)) by {
            assert forall|i: int| 0 <= i < init.len() implies !(#[trigger] init[i]).contains(c) by {
                assert(init[i] == parts[i]);
            }
        }
        lemma_split_join(init, c);
        lemma_split_concat_from(join_texts(init, seq![c]), c, last, 0);
        assert(parts =~= init + seq![last]);
    }
}

/// `s` from `i` on with each `p` replaced by `by`, found from the left.
pub open spec fn replace_from<T>(s: Seq<T>, p: Seq<T>, by: Seq<T>, i: int) -> Seq<T>
    decreases s.len() - i,
    when 0 <= i <= s.len() && p.len() > 0
    via replace_from_decreases::<T>
{
    match find_from(s, p, i) {
        None => s.subrange(i, s.len() as int),
        Some(j) => s.subrange(i, j) + by + replace_from(s, p, by, j + p.len()),
    }
}

#[via_fn]
proof fn replace_from_decreases<T>(s: Seq<T>, p: Seq<T>, by: Seq<T>, i: int) {
    lemma_find_from(s, p, i);
}

/// `s` with each `p` replaced by `by`, found from the left.
pub open spec fn replace_text(s: Seq<char>, p: Seq<char>, by: Seq<char>) -> Seq<char> {
    replace_from(s, p, by, 0)
}

/// `s` with each `p` replaced by `by`, found from the left.
pub fn replace(s: &str, p: &str, by: &str) -> (r: String)
    requires
        p@.len() > 0,
    ensures
        r@ == replace_text(s@, p@, by@),
{
    let v = chars(s);
    let q = chars(p);
    let mut r = String::new();
    let mut i: usize = 0;
    loop
        invariant
            v@ == s@,
            q@ == p@,
            p@.len() > 0,
            i <= v.len(),
            r@ + replace_from(s@, p@, by@, i as int) == replace_text(s@, p@, by@),
        decreases v.len() - i,
    {
        proof {
            lemma_find_from(s@, p@, i as int);
        }
        let ghost before = r@;
        match find_in(&v, &q, i) {
            None => {
                r.push_str(slice_text(&v, i, v.len()).as_str());
                return r;
            },
            Some(j) => {
                r.push_str(slice_text(&v, i, j).as_str());
                r.push_str(by);
                assert(r@ + replace_from(s@, p@, by@, j + p@.len()) =~= before + (s@.subrange(
                    i as int,
                    j as int,
                ) + by@ + replace_from(s@, p@, by@, j + p@.len())));
                i = j + q.len();
            },
        }
    }
}

/// `s` with the first `p` replaced by `by`.
pub open spec fn replace_first_text(s: Seq<char>, p: Seq<char>, by: Seq<char>) -> Seq<char> {
    match find_first(s, p) {
        None => s,
        Some(j) => s.subrange(0, j) + by + s.subrange(j + p.len(), s.len() as int),
    }
}

/// `s` with the first `p` replaced by `by`.
pub fn replace_first(s: &str, p: &str, by: &str) -> (r: String)
    ensures
        r@ == replace_first_text(s@, p@, by@),
{
    match find(s, p) {
        None => s.to_owned(),
        Some(j) => {
            let v = chars(s);
            let n: usize = chars(p).len();
            assert(j + n <= v.len());
            let mut r = slice_text(&v, 0, j);
            r.push_str(by);
            r.push_str(slice_text(&v, j + n, v.len()).as_str());
            r
        },
    }
}

// ---------------------------------------------------------------------------
// Trimming
// ---------------------------------------------------------------------------

/// `s` without the `c` at its end.
pub open spec fn trim_end_char(s: Seq<char>, c: char) -> Seq<char>
    decreases s.len(),
{
    if s.len() > 0 && s.last() == c {
        trim_end_char(s.drop_last(), c)
    } else {
        s
    }
}

/// `s` without the `c` at its start.
pub open spec fn trim_start_char(s: Seq<char>, c: char) -> Seq<char>
    decreases s.len(),
{
    if s.len() > 0 && s[0] == c {
        trim_start_char(s.drop_first(), c)
    } else {
        s
    }
}

/// `s` without the `c` at its end.
pub fn trim_end_of(s: &str, c: char) -> (r: String)
    ensures
        r@ == trim_end_char(s@, c),
{
    let v = chars(s);
    let mut n: usize = v.len();
    assert(s@.take(n as int) =~= s@);
    while n > 0 && v[n - 1] == c
        invariant
            v@ == s@,
            n <= v.len(),
            trim_end_char(s@, c) == trim_end_char(s@.take(n as int), c),
        decreases n,
    {
        assert(s@.take(n as int).drop_last() =~= s@.take(n - 1));
        n -= 1;
    }
    slice_text(&v, 0, n)
}

/// `s` without the `c` at its start.
pub fn trim_start_of(s: &str, c: char) -> (r: String)
    ensures
        r@ == trim_start_char(s@, c),
{
    let v = chars(s);
    let mut n: usize = 0;
    assert(s@.skip(0) =~= s@);
    while n < v.len() && v[n] == c
        invariant
            v@ == s@,
            n <= v.len(),
            trim_start_char(s@, c) == trim_start_char(s@.skip(n as int), c),
        decreases v.len() - n,
    {
        assert(s@.skip(n as int).drop_first() =~= s@.skip(n + 1));
        n += 1;
    }
    let r = slice_text(&v, n, v.len());
    assert(r@ =~= s@.skip(n as int));
    r
}

/// The characters of the Unicode property `White_Space`.
pub open spec fn is_space(c: char) -> bool {
    let n = c as u32;
    ||| 9 <= n <= 13
    ||| n == 32
    ||| n == 0x85
    ||| n == 0xa0
    ||| n == 0x1680
    ||| 0x2000 <= n <= 0x200a
    ||| n == 0x2028
    ||| n == 0x2029
    ||| n == 0x202f
    ||| n == 0x205f
    ||| n == 0x3000
}

/// Whether `c` is a white space character.
pub fn space(c: char) -> (r: bool)
    ensures
        r == is_space(c),
{
    let n: u32 = c as u32;
    (9 <= n && n <= 13) || n == 32 || n == 0x85 || n == 0xa0 || n == 0x1680 || (0x2000 <= n && n
        <= 0x200a) || n == 0x2028 || n == 0x2029 || n == 0x202f || n == 0x205f || n == 0x3000
}

/// `s` without white space at its end.
pub open spec fn trim_end_space(s: Seq<char>) -> Seq<char>
    decreases s.len(),
{
    if s.len() > 0 && is_space(s.last()) {
        trim_end_space(s.drop_last())
    } else {
        s
    }
}

/// `s` without white space at its start.
pub open spec fn trim_start_space(s: Seq<char>) -> Seq<char>
    decreases s.len(),
{
    if s.len() > 0 && is_space(s[0]) {
        trim_start_space(s.drop_first())
    } else {
        s
    }
}

/// `s` without white space at either end.
pub open spec fn trim_text(s: Seq<char>) -> Seq<char> {
    trim_end_space(trim_start_space(s))
}

/// `s` without white space at its end.
pub fn trim_end(s: &str) -> (r: String)
    ensures
        r@ == trim_end_space(s@),
{
    let v = chars(s);
    let mut n: usize = v.len();
    assert(s@.take(n as int) =~= s@);
    while n > 0 && space(v[n - 1])
        invariant
            v@ == s@,
            n <= v.len(),
            trim_end_space(s@) == trim_end_space(s@.take(n as int)),
        decreases n,
    {
        assert(s@.take(n as int).drop_last() =~= s@.take(n - 1));
        n -= 1;
    }
    slice_text(&v, 0, n)
}

/// `s` without white space at its start.
pub fn trim_start(s: &str) -> (r: String)
    ensures
        r@ == trim_start_space(s@),
{
    let v = chars(s);
    let mut n: usize = 0;
    assert(s@.skip(0) =~= s@);
    while n < v.len() && space(v[n])
        invariant
            v@ == s@,
            n <= v.len(),
            trim_start_space(s@) == trim_start_space(s@.skip(n as int)),
        decreases v.len() - n,
    {
        assert(s@.skip(n as int).drop_first() =~= s@.skip(n + 1));
        n += 1;
    }
    let r = slice_text(&v, n, v.len());
    assert(r@ =~= s@.skip(n as int));
    r
}

/// `s` without white space at either end.
pub fn trim(s: &str) -> (r: String)
    ensures
        r@ == trim_text(s@),
{
    trim_end(trim_start(s).as_str())
}

// ---------------------------------------------------------------------------
// Lines
// ---------------------------------------------------------------------------

/// `s` without one carriage return at its end.
pub open spec fn chop_cr(s: Seq<char>) -> Seq<char> {
    if s.len() > 0 && s.last() == '\r' {
        s.drop_last()
    } else {
        s
    }
}

/// The lines of `s`: cut at each line feed, with a carriage return before it
/// dropped, and without a last empty line.
pub open spec fn lines_text(s: Seq<char>) -> Seq<Seq<char>> {
    let pieces = split_text(s, '\n');
    let chopped = Seq::new(
        (pieces.len() - 1) as nat,
        |i: int| chop_cr(pieces[i]),
    );
    if pieces.last().len() == 0 {
        chopped
    } else {
        chopped.push(pieces.last())
    }
}

/// A split has at least one piece.
pub proof fn lemma_split_nonempty(s: Seq<char>, c: char, i: int)
    requires
        0 <= i <= s.len(),
    ensures
        split_from(s, c, i).len() > 0,
{
    lemma_next_char(s, c, i);
}

/// The lines of `s`.
pub fn lines(s: &str) -> (r: Vec<String>)
    ensures
        texts(r@) == lines_text(s@),
{
    let pieces = split(s, '\n');
    proof {
        lemma_split_nonempty(s@, '\n', 0);
    }
    let ghost all = split_text(s@, '\n');
    assert(all.len() == pieces.len());
    assert forall|k: int| 0 <= k < pieces.len() implies pieces@[k]@ == all[k] by {
        assert(texts(pieces@)[k] == all[k]);
    }
    let mut r: Vec<String> = Vec::new();
    let mut i: usize = 0;
    while i < pieces.len() - 1
        invariant
            i <= pieces.len() - 1,
            all == split_text(s@, '\n'),
            all.len() == pieces.len(),
            forall|k: int| 0 <= k < pieces.len() ==> pieces@[k]@ == all[k],
            texts(r@) == Seq::new(i as nat, |k: int| chop_cr(all[k])),
        decreases pieces.len() - i,
    {
        let v = chars(pieces[i].as_str());
        let n: usize = if v.len() > 0 && v[v.len() - 1] == '\r' {
            v.len() - 1
        } else {
            v.len()
        };
        let line = slice_text(&v, 0, n);
        assert(line@ =~= chop_cr(all[i as int]));
        let ghost before = texts(r@);
        r.push(line);
        i += 1;
        assert(texts(r@) =~= before.push(line@));
        assert(texts(r@) =~= Seq::new(i as nat, |k: int| chop_cr(all[k])));
    }
    let last = &pieces[pieces.len() - 1];
    if chars(last.as_str()).len() > 0 {
        let ghost before = texts(r@);
        r.push(last.clone());
        assert(texts(r@) =~= before.push(last@));
    }
    r
}

// ---------------------------------------------------------------------------
// Letters and digits
// ---------------------------------------------------------------------------

/// An ASCII letter in lower case, any other character unchanged.
pub open spec fn lower_char(c: char) -> char {
    if 'A' <= c && c <= 'Z' {
        (c as u32 + 32) as char
    } else {
        c
    }
}

/// `s` with its ASCII letters in lower case.
pub open spec fn ascii_lower(s: Seq<char>) -> Seq<char> {
    Seq::new(s.len(), |i: int| lower_char(s[i]))
}

/// `s` with its ASCII letters in lower case.
pub fn to_ascii_lower(s: &str) -> (r: String)
    ensures
        r@ == ascii_lower(s@),
{
    let v = chars(s);
    let mut r = String::new();
    let mut i: usize = 0;
    while i < v.len()
        invariant
            v@ == s@,
            i <= v.len(),
            r@ == ascii_lower(s@).take(i as int),
        decreases v.len() - i,
    {
        let c = v[i];
        if 'A' <= c && c <= 'Z' {
            r.push(((c as u8) + 32) as char);
        } else {
            r.push(c);
        }
        i += 1;
        assert(ascii_lower(s@).take(i as int) =~= ascii_lower(s@).take(i - 1).push(
            lower_char(s@[i - 1]),
        ));
    }
    assert(ascii_lower(s@).take(i as int) =~= ascii_lower(s@));
    r
}

/// The full Unicode lower case mapping of a text.
pub uninterp spec fn lowercase(s: Seq<char>) -> Seq<char>;

/// Every character is ASCII.
pub open spec fn all_ascii(s: Seq<char>) -> bool {
    forall|i: int| 0 <= i < s.len() ==> (#[trigger] s[i] as u32) < 128
}

/// `str::to_lowercase` of std: the Unicode lower case mapping, which on ASCII
/// text is the mapping of `A`-`Z` to `a`-`z`.
pub assume_specification[ str::to_lowercase ](s: &str) -> (r: String)
    ensures
        r@ == lowercase(s@),
        all_ascii(s@) ==> r@ == ascii_lower(s@),
;

/// Whether `c` is an ASCII digit.
pub open spec fn is_digit(c: char) -> bool {
    '0' <= c && c <= '9'
}

/// Every character is an ASCII digit.
pub open spec fn all_digits(s: Seq<char>) -> bool {
    forall|i: int| 0 <= i < s.len() ==> is_digit(#[trigger] s[i])
}

/// The character of a decimal digit.
pub open spec fn digit_char(d: int) -> char {
    (d + 48) as u8 as char
}

/// The number that a digit stands for.
pub open spec fn digit_value(c: char) -> int {
    c as u32 - 48
}

/// A number in decimal notation.
pub open spec fn decimal(n: int) -> Seq<char>
    decreases n,
{
    if n < 10 {
        seq![digit_char(n)]
    } else {
        decimal(n / 10).push(digit_char(n % 10))
    }
}

/// A signed number in decimal notation.
pub open spec fn decimal_signed(n: int) -> Seq<char> {
    if n < 0 {
        seq!['-'] + decimal(-n)
    } else {
        decimal(n)
    }
}

/// The number that a run of digits stands for.
pub open spec fn digits_value(s: Seq<char>) -> int
    decreases s.len(),
{
    if s.len() == 0 {
        0
    } else {
        digits_value(s.drop_last()) * 10 + digit_value(s.last())
    }
}

/// A number in decimal notation.
pub fn decimal_text(n: u64) -> (r: String)
    ensures
        r@ == decimal(n as int),
    decreases n,
{
    if n < 10 {
        let mut r = String::new();
        r.push(((n as u8) + 48) as char);
        assert(r@ =~= seq![digit_char(n as int)]);
        r
    } else {
        let mut r = decimal_text(n / 10);
        r.push((((n % 10) as u8) + 48) as char);
        r
    }
}

/// A signed number in decimal notation.
pub fn decimal_signed_text(n: i64) -> (r: String)
    ensures
        r@ == decimal_signed(n as int),
{
    if n < 0 {
        let mut r = String::new();
        r.push('-');
        let m: u64 = if n == i64::MIN {
            9223372036854775808u64
        } else {
            (-n) as u64
        };
        r.push_str(decimal_text(m).as_str());
        assert(r@ =~= seq!['-'] + decimal(-(n as int)));
        r
    } else {
        decimal_text(n as u64)
    }
}

/// The value of a run of digits does not grow when its end is cut off.
pub proof fn lemma_digits_prefix(s: Seq<char>, n: int)
    requires
        0 <= n <= s.len(),
        all_digits(s),
    ensures
        0 <= digits_value(s.take(n)) <= digits_value(s),
    decreases s.len(),
{
    if n == s.len() {
        assert(s.take(n) =~= s);
        if s.len() > 0 {
            assert(all_digits(s.drop_last()));
            lemma_digits_prefix(s.drop_last(), s.len() - 1);
            assert(s.drop_last().take(s.len() - 1) =~= s.drop_last());
            assert(is_digit(s[s.len() - 1]));
        }
    } else {
        assert(all_digits(s.drop_last()));
        lemma_digits_prefix(s.drop_last(), n);
        assert(s.drop_last().take(n) =~= s.take(n));
        assert(is_digit(s[s.len() - 1]));
    }
}

/// Ten to the power of `n`.
pub open spec fn pow10(n: nat) -> int
    decreases n,
{
    if n == 0 {
        1
    } else {
        10 * pow10((n - 1) as nat)
    }
}

/// Greater powers of ten are greater.
pub proof fn lemma_pow10_monotone(a: nat, b: nat)
    requires
        a <= b,
    ensures
        0 < pow10(a) <= pow10(b),
    decreases b,
{
    if a < b {
        lemma_pow10_monotone(a, (b - 1) as nat);
    } else if a > 0 {
        lemma_pow10_monotone((a - 1) as nat, (a - 1) as nat);
    }
}

/// Decimal notation is a run of digits that stands for the number, with one
/// digit more than the powers of ten below it.
pub proof fn lemma_decimal(n: int)
    requires
        0 <= n,
    ensures
        decimal(n).len() > 0,
        all_digits(decimal(n)),
        digits_value(decimal(n)) == n,
        n > 0 ==> pow10((decimal(n).len() - 1) as nat) <= n,
        n < pow10(decimal(n).len()),
    decreases n,
{
    let s = decimal(n);
    if n < 10 {
        let c = digit_char(n);
        assert(c as u32 == n + 48);
        assert(is_digit(c));
        assert(s.drop_last() =~= Seq::<char>::empty());
        assert(digits_value(s.drop_last()) == 0);
        assert(s.last() == c);
        assert(pow10(1) == 10 * pow10(0));
    } else {
        lemma_decimal(n / 10);
        let c = digit_char(n % 10);
        assert(c as u32 == n % 10 + 48);
        assert(is_digit(c));
        assert(s.drop_last() =~= decimal(n / 10));
        assert forall|i: int| 0 <= i < s.len() implies is_digit(#[trigger] s[i]) by {
            if i < s.len() - 1 {
                assert(s[i] == decimal(n / 10)[i]);
            }
        }
    }
}

/// What stands in front of a run of digits counts by the run's length.
pub proof fn lemma_digits_concat(a: Seq<char>, b: Seq<char>)
    ensures
        digits_value(a + b) == digits_value(a) * pow10(b.len()) + digits_value(b),
    decreases b.len(),
{
    if b.len() == 0 {
        assert(a + b =~= a);
        assert(digits_value(a) * 1 == digits_value(a));
    } else {
        lemma_digits_concat(a, b.drop_last());
        assert((a + b).drop_last() =~= a + b.drop_last());
        assert((a + b).last() == b.last());
        let x = digits_value(a);
        let p = pow10((b.len() - 1) as nat);
        assert((x * p) * 10 == x * (10 * p)) by (nonlinear_arith);
    }
}

/// A number that is written and read again is the same number.
pub proof fn law_decimal_round_trip(n: int, max: int)
    requires
        0 <= n <= max,
    ensures
        parse_unsigned(decimal(n), max) == Some(n),
{
    lemma_decimal(n);
    assert(is_digit(decimal(n)[0]));
}

/// The value of a nonempty run of digits that is at most `max`.
pub open spec fn magnitude(s: Seq<char>, max: int) -> Option<int> {
    if s.len() > 0 && all_digits(s) && digits_value(s) <= max {
        Some(digits_value(s))
    } else {
        None
    }
}

/// An unsigned integer in decimal notation, with an optional plus sign.
pub open spec fn parse_unsigned(s: Seq<char>, max: int) -> Option<int> {
    if s.len() > 0 && s[0] == '+' {
        magnitude(s.skip(1), max)
    } else {
        magnitude(s, max)
    }
}

/// A signed integer in decimal notation, with an optional sign.
pub open spec fn parse_signed(s: Seq<char>, min: int, max: int) -> Option<int> {
    if s.len() > 0 && s[0] == '-' {
        match magnitude(s.skip(1), -min) {
            Some(n) => Some(-n),
            None => None,
        }
    } else {
        parse_unsigned(s, max)
    }
}

/// The value of the digits from `from` on.
fn parse_magnitude(v: &Vec<char>, from: usize, max: u64) -> (r: Option<u64>)
    requires
        from <= v.len(),
    ensures
        match r {
            Some(n) => magnitude(v@.skip(from as int), max as int) == Some(n as int),
            None => magnitude(v@.skip(from as int), max as int) is None,
        },
{
    let ghost d = v@.skip(from as int);
    if from == v.len() {
        return None;
    }
    let mut n: u64 = 0;
    let mut i: usize = from;
    while i < v.len()
        invariant
            from <= i <= v.len(),
            d == v@.skip(from as int),
            all_digits(d.take(i - from)),
            digits_value(d.take(i - from)) == n,
            n <= max,
        decreases v.len() - i,
    {
        let c = v[i];
        assert(d[i - from] == c);
        if !('0' <= c && c <= '9') {
            return None;
        }
        let x: u64 = (c as u32 - 48) as u64;
        let wide: u128 = (n as u128) * 10 + (x as u128);
        proof {
            let t = d.take(i - from + 1);
            assert(t.drop_last() =~= d.take(i - from));
            assert(t.last() == c);
            assert(digits_value(t) == wide);
            assert(all_digits(t)) by {
                assert forall|k: int| 0 <= k < t.len() implies is_digit(#[trigger] t[k]) by {
                    if k < i - from {
                        assert(d.take(i - from)[k] == t[k]);
                    }
                }
            }
            if all_digits(d) {
                lemma_digits_prefix(d, i - from + 1);
            }
        }
        if wide > max as u128 {
            return None;
        }
        n = wide as u64;
        i += 1;
    }
    assert(d.take(i - from) =~= d);
    Some(n)
}

/// Reads an unsigned integer that is at most `max`.
pub fn parse_unsigned_text(s: &str, max: u64) -> (r: Option<u64>)
    ensures
        match r {
            Some(n) => parse_unsigned(s@, max as int) == Some(n as int),
            None => parse_unsigned(s@, max as int) is None,
        },
        r matches Some(n) ==> n <= max,
{
    let v = chars(s);
    if v.len() > 0 && v[0] == '+' {
        parse_magnitude(&v, 1, max)
    } else {
        assert(v@.skip(0) =~= v@);
        parse_magnitude(&v, 0, max)
    }
}

/// Reads an `u64`.
pub fn parse_u64(s: &str) -> (r: Option<u64>)
    ensures
        match r {
            Some(n) => parse_unsigned(s@, u64::MAX as int) == Some(n as int),
            None => parse_unsigned(s@, u64::MAX as int) is None,
        },
{
    parse_unsigned_text(s, u64::MAX)
}

/// Reads an `u32`.
pub fn parse_u32(s: &str) -> (r: Option<u32>)
    ensures
        match r {
            Some(n) => parse_unsigned(s@, u32::MAX as int) == Some(n as int),
            None => parse_unsigned(s@, u32::MAX as int) is None,
        },
{
    match parse_unsigned_text(s, u32::MAX as u64) {
        Some(n) => Some(n as u32),
        None => None,
    }
}

/// Reads an `i64`.
pub fn parse_i64(s: &str) -> (r: Option<i64>)
    ensures
        match r {
            Some(n) => parse_signed(s@, i64::MIN as int, i64::MAX as int) == Some(n as int),
            None => parse_signed(s@, i64::MIN as int, i64::MAX as int) is None,
        },
{
    let v = chars(s);
    if v.len() > 0 && v[0] == '-' {
        match parse_magnitude(&v, 1, 9223372036854775808u64) {
            Some(n) => if n == 9223372036854775808u64 {
                Some(i64::MIN)
            } else {
                Some(-(n as i64))
            },
            None => None,
        }
    } else {
        match parse_unsigned_text(s, i64::MAX as u64) {
            Some(n) => Some(n as i64),
            None => None,
        }
    }
}

} // verus!
