//! A small map from text to text that keeps the order of insertion.

use vstd::prelude::*;

use crate::text::{opt_str, same};

verus! {

/// A list of keys and values, by their texts.
pub type Pairs = Seq<(Seq<char>, Seq<char>)>;

/// No key stands twice.
pub open spec fn unique_keys(s: Pairs) -> bool {
    forall|i: int, j: int| 0 <= i < j < s.len() ==> (#[trigger] s[i]).0 != (#[trigger] s[j]).0
}

/// The value of the first pair with key `k`, from position `i` on.
pub open spec fn lookup_from(s: Pairs, k: Seq<char>, i: int) -> Option<Seq<char>>
    decreases s.len() - i,
{
    if i < 0 || i >= s.len() {
        None
    } else if s[i].0 == k {
        Some(s[i].1)
    } else {
        lookup_from(s, k, i + 1)
    }
}

/// The value of key `k`.
pub open spec fn lookup(s: Pairs, k: Seq<char>) -> Option<Seq<char>> {
    lookup_from(s, k, 0)
}

/// `s` with the value of `k` set to `v`: in its place where `k` is there, else
/// at the end.
pub open spec fn with_pair(s: Pairs, k: Seq<char>, v: Seq<char>) -> Pairs {
    if lookup(s, k) is Some {
        Seq::new(
            s.len(),
            |i: int|
                if s[i].0 == k {
                    (k, v)
                } else {
                    s[i]
                },
        )
    } else {
        s.push((k, v))
    }
}

/// The texts of a list of pairs of strings.
pub open spec fn pair_texts(v: Seq<(String, String)>) -> Pairs {
    Seq::new(v.len(), |i: int| (v[i].0@, v[i].1@))
}

/// What `lookup_from` says.
pub proof fn lemma_lookup_from(s: Pairs, k: Seq<char>, i: int)
    requires
        0 <= i,
    ensures
        lookup_from(s, k, i) is None <==> forall|j: int| i <= j < s.len() ==> (#[trigger] s[j]).0 != k,
        unique_keys(s) ==> forall|j: int|
            i <= j < s.len() && (#[trigger] s[j]).0 == k ==> lookup_from(s, k, i) == Some(s[j].1),
        lookup_from(s, k, i) matches Some(v) ==> exists|j: int|
            i <= j < s.len() && (#[trigger] s[j]) == (k, v),
    decreases s.len() - i,
{
    if i < s.len() {
        lemma_lookup_from(s, k, i + 1);
        if s[i].0 == k {
            assert(s[i] == (k, s[i].1));
        }
    }
}

/// Setting a key leaves the keys unique and gives the value back.
pub proof fn lemma_with_pair(s: Pairs, k: Seq<char>, v: Seq<char>)
    requires
        unique_keys(s),
    ensures
        unique_keys(with_pair(s, k, v)),
        lookup(with_pair(s, k, v), k) == Some(v),
        forall|o: Seq<char>| o != k ==> #[trigger] lookup(with_pair(s, k, v), o) == lookup(s, o),
{
    let t = with_pair(s, k, v);
    lemma_lookup_from(s, k, 0);
    assert(unique_keys(t)) by {
        assert forall|i: int, j: int| 0 <= i < j < t.len() implies (#[trigger] t[i]).0 != (
        #[trigger] t[j]).0 by {
            if j < s.len() {
                assert(s[i].0 != s[j].0);
            } else {
                assert(s[i].0 != k);
            }
        }
    }
    lemma_lookup_from(t, k, 0);
    if lookup(s, k) is Some {
        let j = choose|j: int| 0 <= j < s.len() && (#[trigger] s[j]).0 == k;
        assert(t[j] == (k, v));
    } else {
        assert(t[s.len() as int] == (k, v));
    }
    assert forall|o: Seq<char>| o != k implies #[trigger] lookup(t, o) == lookup(s, o) by {
        lemma_lookup_from(s, o, 0);
        lemma_lookup_from(t, o, 0);
        if lookup(s, o) is Some {
            let j = choose|j: int| 0 <= j < s.len() && (#[trigger] s[j]).0 == o;
            assert(t[j] == s[j]);
        } else {
            assert forall|j: int| 0 <= j < t.len() implies (#[trigger] t[j]).0 != o by {
                if j < s.len() {
                    assert(s[j].0 != o);
                }
            }
        }
    }
}

/// A map from text to text that keeps the order of insertion.
pub struct StringMap {
    pairs: Vec<(String, String)>,
}

impl View for StringMap {
    type V = Pairs;

    closed spec fn view(&self) -> Pairs {
        pair_texts(self.pairs@)
    }
}

impl StringMap {
    /// No key stands twice.
    #[verifier::type_invariant]
    closed spec fn inv(self) -> bool {
        unique_keys(self@)
    }

    /// An empty map.
    pub fn new() -> (r: Self)
        ensures
            r@ == Seq::<(Seq<char>, Seq<char>)>::empty(),
    {
        let r = StringMap { pairs: Vec::new() };
        assert(r@ =~= Seq::empty());
        r
    }

    /// Sets the value of `key`.
    pub fn insert(&mut self, key: &str, value: &str)
        ensures
            final(self)@ == with_pair(old(self)@, key@, value@),
    {
        let mut pairs = self.to_pairs();
        let ghost before = self@;
        let ghost after = with_pair(before, key@, value@);
        proof {
            lemma_with_pair(before, key@, value@);
            lemma_lookup_from(before, key@, 0);
        }
        let mut i: usize = 0;
        let mut found: bool = false;
        while i < pairs.len()
            invariant
                i <= pairs.len(),
                pairs.len() == before.len(),
                after == with_pair(before, key@, value@),
                found <==> exists|j: int| 0 <= j < i && (#[trigger] before[j]).0 == key@,
                lookup(before, key@) is None <==> forall|j: int|
                    0 <= j < before.len() ==> (#[trigger] before[j]).0 != key@,
                forall|j: int|
                    i <= j < before.len() ==> #[trigger] pair_texts(pairs@)[j] == before[j],
                forall|j: int|
                    0 <= j < i ==> #[trigger] pair_texts(pairs@)[j] == if before[j].0 == key@ {
                        (key@, value@)
                    } else {
                        before[j]
                    },
            decreases pairs.len() - i,
        {
            assert(pair_texts(pairs@)[i as int] == before[i as int]);
            let ghost held = pair_texts(pairs@);
            if same(pairs[i].0.as_str(), key) {
                pairs.set(i, (key.to_owned(), value.to_owned()));
                found = true;
            }
            assert forall|j: int| 0 <= j < before.len() && j != i implies #[trigger] pair_texts(
                pairs@,
            )[j] == held[j] by {}
            i += 1;
        }
        if !found {
            let ghost held = pair_texts(pairs@);
            assert(held =~= before);
            pairs.push((key.to_owned(), value.to_owned()));
            assert(pair_texts(pairs@) =~= held.push((key@, value@)));
        } else {
            assert(lookup(before, key@) is Some);
            assert(pair_texts(pairs@) =~= after);
        }
        *self = StringMap { pairs };
    }

    /// The value of `key`.
    pub fn get(&self, key: &str) -> (r: Option<&str>)
        ensures
            opt_str(r) == lookup(self@, key@),
    {
        let mut i: usize = 0;
        while i < self.pairs.len()
            invariant
                i <= self.pairs.len(),
                self@ == pair_texts(self.pairs@),
                lookup(self@, key@) == lookup_from(self@, key@, i as int),
            decreases self.pairs.len() - i,
        {
            if same(self.pairs[i].0.as_str(), key) {
                return Some(self.pairs[i].1.as_str());
            }
            i += 1;
        }
        None
    }

    /// How many keys there are.
    pub fn len(&self) -> (r: usize)
        ensures
            r == self@.len(),
    {
        self.pairs.len()
    }

    /// The key at position `i`.
    pub fn key_at(&self, i: usize) -> (r: &str)
        requires
            i < self@.len(),
        ensures
            r@ == self@[i as int].0,
    {
        self.pairs[i].0.as_str()
    }

    /// The value at position `i`.
    pub fn value_at(&self, i: usize) -> (r: &str)
        requires
            i < self@.len(),
        ensures
            r@ == self@[i as int].1,
    {
        self.pairs[i].1.as_str()
    }

    /// The keys and values, in order.
    pub fn to_pairs(&self) -> (r: Vec<(String, String)>)
        ensures
            pair_texts(r@) == self@,
            unique_keys(self@),
    {
        proof {
            use_type_invariant(self);
        }
        let mut r: Vec<(String, String)> = Vec::new();
        let mut i: usize = 0;
        while i < self.pairs.len()
            invariant
                i <= self.pairs.len(),
                self@ == pair_texts(self.pairs@),
                pair_texts(r@) == self@.take(i as int),
            decreases self.pairs.len() - i,
        {
            let ghost before = r@;
            r.push((self.pairs[i].0.clone(), self.pairs[i].1.clone()));
            i += 1;
            assert(pair_texts(r@) =~= pair_texts(before).push(self@[i - 1]));
            assert(self@.take(i as int) =~= self@.take(i - 1).push(self@[i - 1]));
        }
        assert(self@.take(self@.len() as int) =~= self@);
        r
    }
}

impl Clone for StringMap {
    fn clone(&self) -> (r: Self)
        ensures
            r@ == self@,
    {
        let pairs = self.to_pairs();
        StringMap { pairs }
    }
}

impl Default for StringMap {
    fn default() -> (r: Self)
        ensures
            r@ == Seq::<(Seq<char>, Seq<char>)>::empty(),
    {
        StringMap::new()
    }
}

} // verus!
