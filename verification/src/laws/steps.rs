//! Laws on what changes a state: scans, streams, caches and maps.

use vstd::prelude::*;

use crate::laws::telegram::is_wanted;
use crate::mpd::handler::expand_segment_base_segments;
use crate::mpd::processor::resolve_nominal_duration;
use crate::mpd::sidx::{fragment_views, SidxFragment};
use crate::mpd::types::{segment_views, Extinf, MpdProfile, MpdSegment};
use crate::string_map::{lemma_with_pair, lookup, unique_keys, StringMap};
use crate::telegram::session::{
    chunk_step, document_from, extract_file_location_from_msgs, first_name, first_video, last_hash,
    law_absorbed_hash_is_cached, least_id, location_of, with_channels, within_limit, ChannelCache,
    ChatMessage, ChunkAction, ChunkEvent, FreshFileLocation, HistoryScan, MessageDocument,
    RangeStream, ScanAction, ScanEvent,
};
use crate::text::{decimal, opt_text};

verus! {

// ---------------------------------------------------------------------------
// Maps
// ---------------------------------------------------------------------------

/// What is set under a key is found under it, and nothing else changes.
pub proof fn law_set_and_get(map: &mut StringMap, key: &str, value: &str)
    requires
        call_ensures(StringMap::insert, (map, key, value), ()),
        unique_keys(old(map)@),
    ensures
        lookup(final(map)@, key@) == Some(value@),
        forall|k: Seq<char>| k != key@
            ==> #[trigger] lookup(final(map)@, k) == lookup(old(map)@, k),
        lookup(old(map)@, key@) is None ==> final(map)@.len() == old(map)@.len() + 1,
        lookup(old(map)@, key@) is Some ==> final(map)@.len() == old(map)@.len(),
        forall|i: int| 0 <= i < old(map)@.len() ==> (#[trigger] final(map)@[i]).0 == old(map)@[i].0,
{
    lemma_with_pair(old(map)@, key@, value@);
}

// ---------------------------------------------------------------------------
// Profiles
// ---------------------------------------------------------------------------

/// A single file is cut into the fragments of its index: each is a byte range of the
/// file, numbered from 1, with its own duration. All else of the profile is kept.
pub proof fn law_cut_files(
    profile: &mut MpdProfile,
    fragments: &Vec<SidxFragment>,
    extinfs: &Vec<Extinf>,
    i: int,
)
    requires
        call_ensures(expand_segment_base_segments, (profile, fragments, extinfs), ()),
        fragments@.len() == extinfs@.len(),
        0 <= i < fragments@.len(),
    ensures
        final(profile)@.segments.len() == fragments@.len(),
        ({
            let s = final(profile)@.segments[i];
            let whole = old(profile)@.segments[0];
            &&& s.media == whole.media
            &&& s.number == (i + 1) as u64
            &&& s.extinf.text == extinfs@[i].text@
            &&& s.media_range == Some(
                decimal(fragments@[i].start as int) + "-"@ + decimal(fragments@[i].end as int),
            )
            &&& s.init_range == whole.init_range
            &&& s.time is None
        }),
        final(profile)@.id == old(profile)@.id,
        final(profile)@.mime_type == old(profile)@.mime_type,
        final(profile)@.init_url == old(profile)@.init_url,
{
    assert(fragment_views(fragments@)[i] == fragments@[i]@);
}

/// Segments are put into a profile as they are. Its usual duration is theirs where it
/// has none of its own.
pub proof fn law_filled_profiles(
    profile: &mut MpdProfile,
    segments: Vec<MpdSegment>,
    same: &Vec<MpdSegment>,
    usual: Option<u64>,
)
    requires
        call_ensures(MpdProfile::fill_segments, (profile, segments), ()),
        same@ == segments@,
        call_ensures(resolve_nominal_duration, (same,), usual),
    ensures
        final(profile)@.segments == segment_views(segments@),
        old(profile)@.nominal_duration is Some ==> final(profile)@.nominal_duration
            == old(profile)@.nominal_duration,
        old(profile)@.nominal_duration is None ==> final(profile)@.nominal_duration == usual,
        final(profile)@.id == old(profile)@.id,
        final(profile)@.init_url == old(profile)@.init_url,
{
}

// ---------------------------------------------------------------------------
// Chunks
// ---------------------------------------------------------------------------

/// A broken connection is made anew, six times at most. Bytes are handed on as they
/// are; none at all are the end of the file. Anything else is an error.
pub proof fn law_chunk_steps(
    reconnects: &mut u32,
    offset: u64,
    event: ChunkEvent,
    out: ChunkAction,
)
    requires
        call_ensures(chunk_step, (reconnects, offset, event), out),
    ensures
        event is Dropped && *old(reconnects) < 6 ==> (out matches ChunkAction::Reconnect {
            delay_ms,
        } && delay_ms == 1500 && *final(reconnects) == *old(reconnects) + 1),
        event is Dropped && *old(reconnects) >= 6 ==> out is Fail,
        event matches ChunkEvent::File(b) ==> (out matches ChunkAction::Done(d) && (b@.len() > 0
            ==> d == Some(b)) && (b@.len() == 0 ==> d is None)),
        event is CdnRedirect || event is Failed ==> out is Fail,
        !(event is Dropped) ==> *final(reconnects) == *old(reconnects),
{
}

/// A chunk of a file gives the bytes of it that lie in the range, and the next chunk
/// begins where it ends.
pub proof fn law_accepted_chunks(
    stream: &mut RangeStream,
    chunk: &Vec<u8>,
    out: (Vec<u8>, bool),
    file: Seq<u8>,
)
    requires
        call_ensures(RangeStream::accept, (stream, chunk), out),
        0 <= old(stream)@.offset,
        old(stream)@.start <= old(stream)@.end < file.len(),
        0 <= old(stream)@.start,
        old(stream)@.offset + chunk@.len() <= file.len(),
        chunk@ == file.subrange(
            old(stream)@.offset,
            old(stream)@.offset + chunk@.len(),
        ),
    ensures
        ({
            let from = if old(stream)@.offset < old(stream)@.start {
                old(stream)@.start
            } else {
                old(stream)@.offset
            };
            let to = if old(stream)@.offset + chunk@.len() < old(stream)@.end + 1 {
                old(stream)@.offset + chunk@.len()
            } else {
                old(stream)@.end + 1
            };
            &&& from < to ==> out.0@ == file.subrange(from, to)
            &&& from >= to ==> out.0@.len() == 0
        }),
        final(stream)@.offset == old(stream)@.offset + chunk@.len(),
        final(stream)@.start == old(stream)@.start && final(stream)@.end == old(stream)@.end,
        out.1 <==> chunk@.len() < 524288 || final(stream)@.offset > old(stream)@.end,
{
    let v = old(stream)@;
    let from = if v.offset < v.start {
        v.start
    } else {
        v.offset
    };
    let to = if v.offset + chunk@.len() < v.end + 1 {
        v.offset + chunk@.len()
    } else {
        v.end + 1
    };
    if from < to {
        assert(chunk@.subrange(from - v.offset, to - v.offset) =~= file.subrange(from, to));
    }
}

// ---------------------------------------------------------------------------
// Channels
// ---------------------------------------------------------------------------

/// The last hash of a number.
proof fn lemma_last_hash(channels: Seq<(i64, Option<i64>)>, id: i64, k: int, n: int)
    requires
        0 <= k < n <= channels.len(),
        channels[k].0 == id && channels[k].1 is Some,
        forall|j: int| k < j < n ==> (#[trigger] channels[j]).0 != id || channels[j].1 is None,
    ensures
        last_hash(channels, id, n) == channels[k].1,
    decreases n,
{
    if k < n - 1 {
        assert(channels[n - 1].0 != id || channels[n - 1].1 is None);
        lemma_last_hash(channels, id, k, n - 1);
    }
}

/// Numbers without a hash are left as they were.
proof fn lemma_kept_hash(m: Map<i64, i64>, channels: Seq<(i64, Option<i64>)>, id: i64, n: int)
    requires
        0 <= n <= channels.len(),
        forall|j: int| 0 <= j < n ==> (#[trigger] channels[j]).0 != id || channels[j].1 is None,
    ensures
        last_hash(channels, id, n) is None,
        with_channels(m, channels, n).contains_key(id) == m.contains_key(id),
        m.contains_key(id) ==> with_channels(m, channels, n)[id] == m[id],
    decreases n,
{
    if n > 0 {
        assert(channels[n - 1].0 != id || channels[n - 1].1 is None);
        lemma_kept_hash(m, channels, id, n - 1);
    }
}

/// The hashes of channels are kept under their numbers, the last one of each; a
/// number without one keeps what it had. The hash of the channel that was looked for
/// is handed back.
pub proof fn law_channel_hashes(
    cache: &mut ChannelCache,
    channels: &Vec<(i64, Option<i64>)>,
    id: i64,
    out: Option<i64>,
    k: int,
)
    requires
        call_ensures(ChannelCache::absorb, (cache, channels, id), out),
    ensures
        0 <= k < channels@.len() && channels@[k].0 == id && channels@[k].1 is Some
            && (forall|j: int|
            k < j < channels@.len() ==> (#[trigger] channels@[j]).0 != id || channels@[j].1
                is None) ==> out == channels@[k].1 && final(cache)@.contains_key(id)
            && Some(final(cache)@[id]) == out,
        (forall|j: int|
            0 <= j < channels@.len() ==> (#[trigger] channels@[j]).0 != id || channels@[j].1
                is None) ==> out is None
                    && final(cache)@.contains_key(id) == old(cache)@.contains_key(id)
                        && (old(cache)@.contains_key(id) ==> final(cache)@[id] == old(cache)@[id]),
{
    let n = channels@.len() as int;
    if 0 <= k < n && channels@[k].0 == id && channels@[k].1 is Some && (forall|j: int|
        k < j < n ==> (#[trigger] channels@[j]).0 != id || channels@[j].1 is None) {
        lemma_last_hash(channels@, id, k, n);
        law_absorbed_hash_is_cached(old(cache)@, channels@, id, n);
    }
    if forall|j: int|
        0 <= j < n ==> (#[trigger] channels@[j]).0 != id || channels@[j].1 is None {
        lemma_kept_hash(old(cache)@, channels@, id, n);
    }
}

// ---------------------------------------------------------------------------
// Scans
// ---------------------------------------------------------------------------

/// The least number is at most any other.
proof fn lemma_least_id(messages: Seq<ChatMessage>, i: int, k: int)
    requires
        0 <= i <= k < messages.len(),
        messages[k].id is Some,
    ensures
        least_id(messages, i) matches Some(n) && n <= messages[k].id->0,
    decreases messages.len() - i,
{
    if i < k {
        lemma_least_id(messages, i + 1, k);
    }
}

/// A scan begins with the message that is named, or else with the newest page.
pub proof fn law_first_steps(
    id: i64,
    message: Option<i32>,
    limit: usize,
    out: (HistoryScan, ScanAction),
)
    requires
        call_ensures(HistoryScan::start, (id, message, limit), out),
    ensures
        message matches Some(m) ==> out.1 == ScanAction::AskMessage(m) && out.0.direct,
        message is None && limit > 0 ==> out.1 == (ScanAction::Ask { delay_ms: 0, offset_id: 0 }),
        message is None && limit == 0 ==> out.1 is NotFound,
        out.0.document_id == id && out.0.messages_left == limit && out.0.attempt == 0,
{
}

/// A page that could not be had is asked for again, three times at most and after
/// longer and longer waits. A request that fails ends the scan.
pub proof fn law_repeated_steps(scan: &mut HistoryScan, event: ScanEvent, out: ScanAction)
    requires
        call_ensures(HistoryScan::step, (scan, event), out),
        !old(scan).direct,
        old(scan).attempt <= 3,
    ensures
        event is Disconnected && old(scan).attempt < 3 ==> (out matches ScanAction::Ask {
            delay_ms,
            offset_id,
        } && offset_id == old(scan).offset_id && delay_ms == (if old(scan).attempt == 0 {
            600u64
        } else if old(scan).attempt == 1 {
            1200
        } else {
            2400
        }) && final(scan).attempt == old(scan).attempt + 1
            && final(scan).messages_left == old(scan).messages_left),
        event is Disconnected && old(scan).attempt == 3 ==> out is NotFound,
        event is Failed || event is NotModified ==> out is NotFound,
{
}

/// A full page without the document leads to the page before its oldest message,
/// while the limit admits more messages. A shorter page is the last.
pub proof fn law_next_pages(
    scan: &mut HistoryScan,
    page: Vec<ChatMessage>,
    out: ScanAction,
    oldest: i32,
    k: int,
)
    requires
        call_ensures(HistoryScan::step, (scan, ScanEvent::Page(page)), out),
        !old(scan).direct,
        forall|i: int|
            0 <= i < page@.len() ==> !is_wanted(#[trigger] page@[i], Some(old(scan).document_id)),
        0 <= k < page@.len() && page@[k].id == Some(oldest) && oldest > 0,
        forall|i: int|
            0 <= i < page@.len() && (#[trigger] page@[i]).id is Some ==> oldest <= page@[i].id->0,
    ensures
        page@.len() >= 100 && old(scan).messages_left > page@.len() ==> out == (ScanAction::Ask {
            delay_ms: 0,
            offset_id: oldest,
        }) && final(scan).messages_left == old(scan).messages_left - page@.len()
            && final(scan).attempt == 0,
        page@.len() < 100 || old(scan).messages_left <= page@.len() ==> out is NotFound,
{
    let looked = within_limit(page@, old(scan).messages_left);
    lemma_unwanted(looked, old(scan).document_id, 0);
    lemma_least_id(page@, 0, k);
    lemma_least_of(page@, 0);
}

/// The least number is that of a message.
proof fn lemma_least_of(messages: Seq<ChatMessage>, i: int)
    requires
        0 <= i <= messages.len(),
    ensures
        least_id(messages, i) matches Some(n) ==> exists|k: int|
            i <= k < messages.len() && (#[trigger] messages[k]).id == Some(n),
    decreases messages.len() - i,
{
    if i < messages.len() {
        lemma_least_of(messages, i + 1);
        if let Some(n) = least_id(messages, i) {
            if messages[i].id != Some(n) {
                let k = choose|k: int|
                    i + 1 <= k < messages.len() && (#[trigger] messages[k]).id == Some(n);
                assert(messages[k].id == Some(n));
            }
        }
    }
}

/// No message carries the document.
proof fn lemma_unwanted(messages: Seq<ChatMessage>, id: i64, i: int)
    requires
        0 <= i,
        forall|k: int| i <= k < messages.len() ==> !is_wanted(#[trigger] messages[k], Some(id)),
    ensures
        document_from(messages, Some(id), i) is None,
    decreases messages.len() - i,
{
    if i < messages.len() {
        assert(!is_wanted(messages[i], Some(id)));
        lemma_unwanted(messages, id, i + 1);
    }
}

/// A message that was asked for by its number is looked at first: where it carries
/// the document, that is found; else the newest page is asked for.
pub proof fn law_direct_steps(
    scan: &mut HistoryScan,
    page: Vec<ChatMessage>,
    out: ScanAction,
    d: MessageDocument,
)
    requires
        call_ensures(HistoryScan::step, (scan, ScanEvent::Page(page)), out),
        old(scan).direct,
        page@.len() == 1,
    ensures
        page@[0].document == Some(d) && d.id == old(scan).document_id ==> (
        out matches ScanAction::Found(l) && l.document_id == d.id && l.access_hash == d.access_hash
            && l.file_reference@ == d.file_reference@ && l.dc_id == d.dc_id),
        page@[0].document is None && old(scan).messages_left > 0 ==> out == (ScanAction::Ask {
            delay_ms: 0,
            offset_id: old(scan).offset_id,
        }) && !final(scan).direct,
{
    reveal_with_fuel(document_from, 3);
}

/// The first name.
proof fn lemma_name(names: Seq<Option<String>>, i: int, k: int)
    requires
        0 <= i <= k <= names.len(),
        forall|j: int| i <= j < k ==> (#[trigger] names[j]) is None,
    ensures
        first_name(names, i) == first_name(names, k),
    decreases k - i,
{
    if i < k {
        assert(names[i] is None);
        lemma_name(names, i + 1, k);
    }
}

/// The first video.
proof fn lemma_video(videos: Seq<Option<crate::telegram::session::VideoInfo>>, i: int, l: int)
    requires
        0 <= i <= l <= videos.len(),
        forall|j: int| i <= j < l ==> (#[trigger] videos[j]) is None,
    ensures
        first_video(videos, i) == first_video(videos, l),
    decreases l - i,
{
    if i < l {
        assert(videos[i] is None);
        lemma_video(videos, i + 1, l);
    }
}

/// A file has the first name and the first video among its document's attributes.
pub proof fn law_document_attributes(
    messages: &Vec<ChatMessage>,
    out: Option<FreshFileLocation>,
    d: MessageDocument,
    k: int,
    l: int,
)
    requires
        call_ensures(extract_file_location_from_msgs, (messages,), out),
        messages@.len() > 0,
        messages@[0].document == Some(d),
        0 <= k <= d.names@.len() && 0 <= l <= d.videos@.len(),
        forall|j: int| 0 <= j < k ==> (#[trigger] d.names@[j]) is None,
        forall|j: int| 0 <= j < l ==> (#[trigger] d.videos@[j]) is None,
    ensures
        out is Some,
        k < d.names@.len() && d.names@[k] is Some ==> opt_text(out->0.file_name) == opt_text(
            d.names@[k],
        ),
        k == d.names@.len() ==> out->0.file_name is None,
        l < d.videos@.len() && d.videos@[l] is Some ==> out->0.video == d.videos@[l],
        l == d.videos@.len() ==> out->0.video is None,
{
    lemma_name(d.names@, 0, k);
    lemma_video(d.videos@, 0, l);
    assert(document_from(messages@, None, 0) == Some(location_of(d)));
    assert(out->0@ == location_of(d));
}

} // verus!
