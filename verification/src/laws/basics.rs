//! Laws on paths, URLs in base64, medians and access hashes.

use vstd::prelude::*;
use vstd::relations::{sorted_by, total_ordering};
use vstd::seq_lib::lemma_sorted_unique;

use crate::auth::encryption::EncryptionHandler;
use crate::config::{is_good_path, nonempty, normalize_server_path, path_segments, RedisConfig};
use crate::error::AppResult;
use crate::mpd::processor::{
    is_rising, law_sorted_numbers, median, median_low, resolve_nominal_duration, sorted_numbers,
    stated_durations,
};
use crate::mpd::types::{segment_views, MpdSegment, SegmentView};
use crate::telegram::session::{access_hash_of, hash_of};
use crate::text::{
    is_space, join_texts, lemma_split_join, none_hold, opt_text, starts_with, trim_end_char,
};
use crate::utils::base64_url::{decode_base64_url, encode_url_to_base64, is_base64_url};
use crate::utils::url::{joined_url, resolve_url};

verus! {

// ---------------------------------------------------------------------------
// Paths
// ---------------------------------------------------------------------------

/// A character that can stand in a path as it is.
pub open spec fn is_plain(c: char) -> bool {
    ||| 'a' <= c && c <= 'z'
    ||| 'A' <= c && c <= 'Z'
    ||| '0' <= c && c <= '9'
    ||| c == '-'
    ||| c == '_'
    ||| c == '.'
    ||| c == '/'
}

/// Every text of a list has characters.
pub open spec fn all_filled(parts: Seq<Seq<char>>) -> bool {
    forall|i: int| 0 <= i < parts.len() ==> (#[trigger] parts[i]).len() > 0
}

/// Texts with characters are all kept.
proof fn lemma_filled(parts: Seq<Seq<char>>)
    requires
        all_filled(parts),
    ensures
        nonempty(parts) == parts,
    decreases parts.len(),
{
    if parts.len() > 0 {
        let init = parts.drop_last();
        assert forall|i: int| 0 <= i < init.len() implies (#[trigger] init[i]).len() > 0 by {
            assert(parts[i].len() > 0);
        }
        lemma_filled(init);
        assert(parts[parts.len() - 1].len() > 0);
        assert(init.push(parts.last()) =~= parts);
    } else {
        assert(parts =~= Seq::empty());
    }
}

/// An empty text in front is dropped.
proof fn lemma_empty_first(parts: Seq<Seq<char>>)
    ensures
        nonempty(seq![Seq::<char>::empty()] + parts) == nonempty(parts),
    decreases parts.len(),
{
    let all = seq![Seq::<char>::empty()] + parts;
    if parts.len() > 0 {
        assert(all.last() == parts.last());
        assert(all.drop_last() =~= seq![Seq::<char>::empty()] + parts.drop_last());
        lemma_empty_first(parts.drop_last());
    } else {
        assert(all.drop_last() =~= Seq::empty());
        assert(all.last() == Seq::<char>::empty());
        assert(nonempty(all.drop_last()) == Seq::<Seq<char>>::empty());
        assert(parts =~= Seq::empty());
    }
}

/// A path of plain characters is accepted. Its parts are kept, with one slash before
/// each, whether or not there is one in front and one at the end.
pub proof fn law_server_paths(
    path: &str,
    out: Result<String, String>,
    parts: Seq<Seq<char>>,
    front: bool,
    end: bool,
)
    requires
        call_ensures(normalize_server_path, (path,), out),
        parts.len() > 0 && all_filled(parts) && none_hold(parts, '/'),
        path@ == (if front {
            "/"@
        } else {
            Seq::empty()
        }) + join_texts(parts, "/"@) + if end {
            "/"@
        } else {
            Seq::empty()
        },
        forall|i: int| 0 <= i < path@.len() ==> is_plain(#[trigger] path@[i]),
    ensures
        out matches Ok(p) && p@ == "/"@ + join_texts(parts, "/"@),
{
    reveal_strlit("/");
    let slash = seq!['/'];
    assert("/"@ =~= slash);
    assert(is_good_path(path@));
    let none = Seq::<char>::empty();
    let joined = join_texts(parts, slash);
    lemma_split_join(parts, '/');
    lemma_filled(parts);
    // The pieces with what the slash in front adds.
    let before = if front {
        seq![none] + parts
    } else {
        parts
    };
    if front {
        crate::text::lemma_split_concat_from(none, '/', joined, 0);
        crate::laws::texts::lemma_uncut(none, '/');
        assert(none + slash + joined =~= slash + joined);
        lemma_empty_first(parts);
    }
    let head = if front {
        slash + joined
    } else {
        joined
    };
    assert(crate::text::split_text(head, '/') == before);
    assert(nonempty(before) == parts);
    if end {
        crate::text::lemma_split_concat_from(head, '/', none, 0);
        crate::laws::texts::lemma_uncut(none, '/');
        assert(path@ =~= head + slash + none);
        let all = before + seq![none];
        assert(all.last() == none);
        assert(all.drop_last() =~= before);
        assert(path_segments(path@) == parts);
    } else {
        assert(path@ =~= head);
        assert(path_segments(path@) == parts);
    }
}

/// The empty path stays empty. Paths with white space, a query, a fragment or a
/// backslash are refused.
pub proof fn law_other_server_paths(path: &str, out: Result<String, String>, i: int)
    requires
        call_ensures(normalize_server_path, (path,), out),
    ensures
        path@.len() == 0 ==> (out matches Ok(p) && p@.len() == 0),
        0 <= i < path@.len() && (is_space(path@[i]) || path@[i] == '?' || path@[i] == '#'
            || path@[i] == '\\' || (path@[i] as u32) < 32 || path@[i] as u32 == 127) ==> out is Err,
{
    if path@.len() == 0 {
        crate::laws::texts::lemma_uncut(path@, '/');
        let all = seq![path@];
        assert(all.last().len() == 0);
        assert(all.drop_last() =~= Seq::empty());
        assert(nonempty(all.drop_last()) == Seq::<Seq<char>>::empty());
        assert(path_segments(path@).len() == 0);
    }
}

/// A cache is used where its URL is named.
pub proof fn law_enabled_caches(config: &RedisConfig, out: bool)
    requires
        call_ensures(RedisConfig::is_enabled, (config,), out),
    ensures
        out <==> config.url@ != Seq::<char>::empty(),
{
    if config.url@.len() == 0 {
        assert(config.url@ =~= Seq::empty());
    }
}

// ---------------------------------------------------------------------------
// URLs
// ---------------------------------------------------------------------------

/// A web URL that was encoded is decoded, with or without padding.
pub proof fn law_encoded_urls(
    url: &str,
    encoded: String,
    text: &str,
    padding: nat,
    decoded: Option<String>,
    is_one: bool,
)
    requires
        call_ensures(encode_url_to_base64, (url,), encoded),
        text@ == encoded@ + Seq::new(padding, |i: int| '='),
        call_ensures(decode_base64_url, (text,), decoded),
        call_ensures(is_base64_url, (text,), is_one),
        starts_with(url@, "http://"@) || starts_with(url@, "https://"@),
    ensures
        opt_text(decoded) == Some(url@),
        is_one,
{
    lemma_padding(encoded@, padding);
}

/// More padding changes nothing.
proof fn lemma_padding(s: Seq<char>, n: nat)
    ensures
        trim_end_char(s + Seq::new(n, |i: int| '='), '=') == trim_end_char(s, '='),
    decreases n,
{
    let t = s + Seq::new(n, |i: int| '=');
    if n > 0 {
        assert(t.last() == '=');
        assert(t.drop_last() =~= s + Seq::new((n - 1) as nat, |i: int| '='));
        lemma_padding(s, (n - 1) as nat);
    } else {
        assert(t =~= s);
    }
}

/// Only web URLs are decoded, and a text is an encoded URL where it is decoded.
pub proof fn law_decoded_urls(text: &str, decoded: Option<String>, is_one: bool)
    requires
        call_ensures(decode_base64_url, (text,), decoded),
        call_ensures(is_base64_url, (text,), is_one),
    ensures
        is_one <==> decoded is Some,
        decoded matches Some(u) ==> starts_with(u@, "http://"@) || starts_with(u@, "https://"@),
{
}

/// A URL that cannot be joined with a base stays as it is.
pub proof fn law_joined_urls(base: &str, reference: &str, out: String)
    requires
        call_ensures(resolve_url, (base, reference), out),
    ensures
        joined_url(base@, reference@) is None ==> out@ == reference@,
        joined_url(base@, reference@) matches Some(u) ==> out@ == u,
{
}

// ---------------------------------------------------------------------------
// Medians
// ---------------------------------------------------------------------------

/// A rising list is sorted.
proof fn lemma_rising(s: Seq<u64>)
    requires
        is_rising(s),
    ensures
        sorted_by(s, |a: u64, b: u64| a <= b),
{
    let leq = |a: u64, b: u64| a <= b;
    assert forall|i: int, j: int| 0 <= i < j < s.len() implies #[trigger] leq(s[i], s[j]) by {
        assert(s[i] <= s[j]);
    }
}

/// The median of numbers stands in the middle of the same numbers in rising order.
pub proof fn law_medians(
    numbers: &Vec<u64>,
    rising: Seq<u64>,
    upper: Option<u64>,
    lower: Option<u64>,
)
    requires
        call_ensures(median, (numbers,), upper),
        call_ensures(median_low, (numbers,), lower),
        rising.to_multiset() == numbers@.to_multiset(),
        forall|i: int, j: int| 0 <= i < j < rising.len() ==> rising[i] <= rising[j],
    ensures
        rising.len() == 0 ==> upper is None && lower is None,
        rising.len() > 0 ==> upper == Some(rising[rising.len() as int / 2]) && lower == Some(
            rising[(rising.len() - 1) / 2],
        ),
{
    broadcast use vstd::seq_lib::group_to_multiset_ensures;

    lemma_median(numbers@, rising);
}

/// The order of numbers is the only rising one.
proof fn lemma_median(numbers: Seq<u64>, rising: Seq<u64>)
    requires
        rising.to_multiset() == numbers.to_multiset(),
        is_rising(rising),
    ensures
        sorted_numbers(numbers) == rising,
        rising.len() == numbers.len(),
{
    broadcast use vstd::seq_lib::group_to_multiset_ensures;

    let leq = |a: u64, b: u64| a <= b;
    law_sorted_numbers(numbers);
    let s = sorted_numbers(numbers);
    lemma_rising(s);
    lemma_rising(rising);
    assert(total_ordering(leq));
    lemma_sorted_unique(s, rising, leq);
    assert(rising.len() == rising.to_multiset().len());
    assert(numbers.len() == numbers.to_multiset().len());
}

/// The durations that segments state, where all do.
proof fn lemma_stated(segments: Seq<SegmentView>, durations: Seq<u64>, n: int)
    requires
        segments.len() == durations.len(),
        0 <= n <= segments.len(),
        forall|i: int|
            0 <= i < segments.len() ==> (#[trigger] segments[i]).duration_mpd_timescale == Some(
                durations[i],
            ) && durations[i] > 0,
    ensures
        stated_durations(segments, n) == durations.take(n),
    decreases n,
{
    if n > 0 {
        lemma_stated(segments, durations, n - 1);
        assert(segments[n - 1].duration_mpd_timescale == Some(durations[n - 1]));
        assert(durations.take(n) =~= durations.take(n - 1).push(durations[n - 1]));
    } else {
        assert(durations.take(0) =~= Seq::empty());
    }
}

/// The usual duration of segments is the lower median of their durations.
pub proof fn law_usual_duration(
    segments: &Vec<MpdSegment>,
    out: Option<u64>,
    durations: &Vec<u64>,
    lower: Option<u64>,
)
    requires
        call_ensures(resolve_nominal_duration, (segments,), out),
        call_ensures(median_low, (durations,), lower),
        segments@.len() == durations@.len(),
        forall|i: int|
            0 <= i < segments@.len() ==> (#[trigger] segments@[i]).duration_mpd_timescale == Some(
                durations@[i],
            ) && durations@[i] > 0,
    ensures
        out == lower,
{
    let views = segment_views(segments@);
    assert forall|i: int| 0 <= i < views.len() implies (#[trigger] views[i]).duration_mpd_timescale
        == Some(durations@[i]) && durations@[i] > 0 by {
        assert(segments@[i].duration_mpd_timescale == Some(durations@[i]));
    }
    lemma_stated(views, durations@, views.len() as int);
    assert(durations@.take(views.len() as int) =~= durations@);
}

/// Segments that state no duration, or none above 0, do not count.
pub proof fn law_unstated_durations(
    segments: &Vec<MpdSegment>,
    more: &Vec<MpdSegment>,
    out: Option<u64>,
    out_more: Option<u64>,
)
    requires
        call_ensures(resolve_nominal_duration, (segments,), out),
        call_ensures(resolve_nominal_duration, (more,), out_more),
        more@.len() == segments@.len() + 1,
        forall|i: int| 0 <= i < segments@.len() ==> (#[trigger] more@[i])@ == segments@[i]@,
        more@.last().duration_mpd_timescale is None || more@.last().duration_mpd_timescale == Some(
            0u64,
        ),
    ensures
        out_more == out,
{
    let views = segment_views(segments@);
    let all = segment_views(more@);
    assert(all[all.len() - 1] == more@.last()@);
    lemma_stated_alike(views, all, views.len() as int);
}

/// The same segments state the same durations.
proof fn lemma_stated_alike(a: Seq<SegmentView>, b: Seq<SegmentView>, n: int)
    requires
        0 <= n <= a.len() <= b.len(),
        forall|i: int| 0 <= i < a.len() ==> a[i] == #[trigger] b[i],
    ensures
        stated_durations(a, n) == stated_durations(b, n),
    decreases n,
{
    if n > 0 {
        lemma_stated_alike(a, b, n - 1);
        assert(a[n - 1] == b[n - 1]);
    }
}

// ---------------------------------------------------------------------------
// Access hashes
// ---------------------------------------------------------------------------

/// The first hash of the number, from position `i` on.
proof fn lemma_hash(entries: Seq<(i64, Option<i64>)>, id: i64, i: int, k: int)
    requires
        0 <= i <= k <= entries.len(),
        forall|j: int| i <= j < k ==> (#[trigger] entries[j]).0 != id || entries[j].1 is None,
    ensures
        hash_of(entries, id, i) == hash_of(entries, id, k),
    decreases k - i,
{
    if i < k {
        assert(entries[i].0 != id || entries[i].1 is None);
        lemma_hash(entries, id, i + 1, k);
    }
}

/// The access hash of a number is the first that stands beside it, and 0 where there
/// is none.
pub proof fn law_access_hashes(entries: &Vec<(i64, Option<i64>)>, id: i64, out: i64, k: int)
    requires
        call_ensures(access_hash_of, (entries, id), out),
        0 <= k <= entries@.len(),
        forall|j: int| 0 <= j < k ==> (#[trigger] entries@[j]).0 != id || entries@[j].1 is None,
    ensures
        k == entries@.len() ==> out == 0,
        k < entries@.len() && entries@[k].0 == id && entries@[k].1 is Some ==> Some(out)
            == entries@[k].1,
{
    lemma_hash(entries@, id, 0, k);
}

// ---------------------------------------------------------------------------
// Keys
// ---------------------------------------------------------------------------

/// A secret and the same secret with spaces behind it, up to the length of a key, make
/// the same key, and so do secrets that begin with the same bytes of a key's length.
/// Others do not. The empty secret makes none.
pub proof fn law_secret_keys(
    a: &[u8],
    b: &[u8],
    spaces: nat,
    ka: AppResult<EncryptionHandler>,
    kb: AppResult<EncryptionHandler>,
)
    requires
        call_ensures(EncryptionHandler::new, (a,), ka),
        call_ensures(EncryptionHandler::new, (b,), kb),
    ensures
        ka is Ok <==> a@.len() > 0,
        a@.len() > 0 && b@ == a@ + Seq::new(spaces, |i: int| 0x20u8) && b@.len() <= 32
            ==> ka->Ok_0.key() == kb->Ok_0.key(),
        a@.len() >= 32 && b@.len() >= 32 ==> (ka->Ok_0.key() == kb->Ok_0.key() <==> a@.take(32)
            == b@.take(32)),
        0 < a@.len() == b@.len() <= 32 && a@ != b@ ==> ka->Ok_0.key() != kb->Ok_0.key(),
{
    if a@.len() > 0 && b@ == a@ + Seq::new(spaces, |i: int| 0x20u8) && b@.len() <= 32 {
        assert(ka->Ok_0.key() =~= kb->Ok_0.key());
    }
    if a@.len() >= 32 && b@.len() >= 32 {
        assert(ka->Ok_0.key() =~= a@.take(32));
        assert(kb->Ok_0.key() =~= b@.take(32));
    }
    if 0 < a@.len() == b@.len() <= 32 && ka->Ok_0.key() == kb->Ok_0.key() {
        assert(a@ =~= b@) by {
            assert forall|i: int| 0 <= i < a@.len() implies a@[i] == b@[i] by {
                assert(ka->Ok_0.key()[i] == a@[i]);
                assert(kb->Ok_0.key()[i] == b@[i]);
            }
        }
    }
}

} // verus!
