//! The rules of the DASH endpoints.

use vstd::prelude::*;

use crate::auth::encryption::ProxyData;
use crate::config::Config;
use crate::error::{AppError, AppErrorView, AppResult};
use crate::hls::handler::{carried_headers, is_on};
use crate::mpd::playlist::refs_view;
use crate::mpd::processor::{text_or, ParsedMpd};
use crate::mpd::sidx::{fragment_views, FragmentView, SidxFragment};
use crate::mpd::types::{
    profile_views, segment_views, Extinf, ExtinfView, MpdProfile, MpdSegment, ProfileView,
    SegmentView,
};
use crate::mpd::urls::{MpdParamsView, MpdProxyParams};
use crate::string_map::{lookup, Pairs, StringMap};
use crate::text::{
    after, after_char, before, before_char, chars, concat, contains, copy_opt, decimal,
    decimal_text, has_char, holds, join, join_texts, opt_text, parse_u64, parse_unsigned, same,
    split, split_text, texts,
};

verus! {

// ---------------------------------------------------------------------------
// Parameters
// ---------------------------------------------------------------------------

/// A parameter that is not empty.
pub open spec fn filled(v: Option<Seq<char>>) -> Option<Seq<char>> {
    if v matches Some(t) && t.len() > 0 {
        v
    } else {
        None
    }
}

/// A parameter that is not empty.
fn filled_param(query: &StringMap, name: &str) -> (r: Option<String>)
    ensures
        opt_text(r) == filled(lookup(query@, name@)),
{
    match query.get(name) {
        Some(v) => if chars(v).len() > 0 {
            Some(v.to_owned())
        } else {
            None
        },
        None => None,
    }
}

/// A parameter.
fn param(query: &StringMap, name: &str) -> (r: Option<String>)
    ensures
        opt_text(r) == lookup(query@, name@),
{
    match query.get(name) {
        Some(v) => Some(v.to_owned()),
        None => None,
    }
}

/// Every part is a key with its identifier.
pub open spec fn all_key_pairs(parts: Seq<Seq<char>>) -> bool {
    forall|i: int| 0 <= i < parts.len() ==> (#[trigger] parts[i]).contains(':')
}

/// The identifiers of keys.
pub open spec fn pair_ids(parts: Seq<Seq<char>>) -> Seq<Seq<char>> {
    Seq::new(parts.len(), |i: int| before_char(parts[i], ':'))
}

/// The keys.
pub open spec fn pair_keys(parts: Seq<Seq<char>>) -> Seq<Seq<char>> {
    Seq::new(parts.len(), |i: int| text_or(after_char(parts[i], ':'), ""@))
}

/// The key identifiers and keys of a request. A single parameter may hold both,
/// as `kid:key,kid:key`, where no identifier is given by itself.
pub open spec fn split_keys(key_id: Option<Seq<char>>, key: Option<Seq<char>>) -> (
    Option<Seq<char>>,
    Option<Seq<char>>,
) {
    match key {
        Some(k) => {
            let parts = split_text(k, ',');
            if key_id is None && all_key_pairs(parts) {
                (
                    Some(join_texts(pair_ids(parts), ","@)),
                    Some(join_texts(pair_keys(parts), ","@)),
                )
            } else {
                (key_id, key)
            }
        },
        None => (key_id, key),
    }
}

/// Finds the key identifiers and keys of a request.
fn find_keys(key_id: Option<String>, key: Option<String>) -> (r: (Option<String>, Option<String>))
    ensures
        opt_text(r.0) == split_keys(opt_text(key_id), opt_text(key)).0,
        opt_text(r.1) == split_keys(opt_text(key_id), opt_text(key)).1,
{
    if key_id.is_some() {
        return (key_id, key);
    }
    let k = match key {
        Some(k) => k,
        None => {
            return (None, None);
        },
    };
    let parts = split(k.as_str(), ',');
    let ghost p = split_text(k@, ',');
    assert(texts(parts@) == p);
    let mut ids: Vec<String> = Vec::new();
    let mut keys: Vec<String> = Vec::new();
    let mut i: usize = 0;
    while i < parts.len()
        invariant
            i <= parts.len(),
            key_id is None,
            key == Some(k),
            texts(parts@) == p,
            p == split_text(k@, ','),
            ids.len() == i,
            keys.len() == i,
            forall|j: int| 0 <= j < i ==> (#[trigger] p[j]).contains(':'),
            forall|j: int| 0 <= j < i ==> (#[trigger] ids@[j])@ == pair_ids(p)[j],
            forall|j: int| 0 <= j < i ==> (#[trigger] keys@[j])@ == pair_keys(p)[j],
        decreases parts.len() - i,
    {
        assert(parts@[i as int]@ == p[i as int]);
        let part = parts[i].as_str();
        if !has_char(part, ':') {
            assert(!p[i as int].contains(':'));
            return (None, Some(k));
        }
        ids.push(before(part, ':'));
        keys.push(
            match after(part, ':') {
                Some(t) => t,
                None => "".to_owned(),
            },
        );
        i += 1;
    }
    assert(texts(ids@) =~= pair_ids(p));
    assert(texts(keys@) =~= pair_keys(p));
    (Some(join(&ids, ",")), Some(join(&keys, ",")))
}

/// The parameters of a request that go on to its URLs.
pub open spec fn params_of(data: ProxyData, query: Pairs, config: Config) -> MpdParamsView {
    let keys = split_keys(filled(lookup(query, "key_id"@)), filled(lookup(query, "key"@)));
    MpdParamsView {
        api_password: config.auth.api_password@,
        pass_headers: carried_headers(data.request_headers),
        key_id: keys.0,
        key: keys.1,
        resolution: lookup(query, "resolution"@),
        skip: lookup(query, "skip"@),
        remux_to_ts: match lookup(query, "remux_to_ts"@) {
            Some(v) => is_on(Some(v)),
            None => config.mpd.remux_to_ts,
        },
    }
}

/// Collects the parameters of a request that go on to its URLs.
pub fn build_proxy_params(proxy_data: &ProxyData, query: &StringMap, config: &Config) -> (r:
    MpdProxyParams)
    ensures
        r@ == params_of(*proxy_data, query@, *config),
{
    let (key_id, key) = find_keys(filled_param(query, "key_id"), filled_param(query, "key"));
    MpdProxyParams {
        api_password: config.auth.api_password.clone(),
        pass_headers: match &proxy_data.request_headers {
            Some(h) => h.clone(),
            None => StringMap::new(),
        },
        key_id,
        key,
        resolution: param(query, "resolution"),
        skip: param(query, "skip"),
        remux_to_ts: match query.get("remux_to_ts") {
            Some(v) => same(v, "true") || same(v, "1"),
            None => config.mpd.remux_to_ts,
        },
    }
}

// ---------------------------------------------------------------------------
// Playlists
// ---------------------------------------------------------------------------

/// The profile that a playlist request asks for.
pub fn playlist_profile(query: &StringMap) -> (r: AppResult<String>)
    ensures
        match r {
            Ok(id) => lookup(query@, "profile_id"@) == Some(id@),
            Err(e) => lookup(query@, "profile_id"@) is None && e@ == AppErrorView::BadRequest(
                "Missing profile_id"@,
            ),
        },
{
    match query.get("profile_id") {
        Some(id) => Ok(id.to_owned()),
        None => Err(AppError::BadRequest("Missing profile_id".to_owned())),
    }
}

/// The first `n` profiles with an identifier.
pub open spec fn with_id(ps: Seq<ProfileView>, id: Seq<char>, n: int) -> Seq<ProfileView>
    decreases n,
{
    if n <= 0 {
        Seq::empty()
    } else if ps[n - 1].id == id {
        with_id(ps, id, n - 1).push(ps[n - 1])
    } else {
        with_id(ps, id, n - 1)
    }
}

/// The profiles with an identifier, one for each period that has it.
pub fn matching_profiles<'a>(parsed: &'a ParsedMpd, profile_id: &str) -> (r: AppResult<
    Vec<&'a MpdProfile>,
>)
    ensures
        ({
            let ps = profile_views(parsed.profiles@);
            let want = with_id(ps, profile_id@, ps.len() as int);
            match r {
                Ok(v) => refs_view(v@) == want && want.len() > 0,
                Err(e) => want.len() == 0 && e@ == AppErrorView::Mpd(
                    "Profile "@ + profile_id@ + " not found in MPD"@,
                ),
            }
        }),
{
    let ghost ps = profile_views(parsed.profiles@);
    let mut out: Vec<&MpdProfile> = Vec::new();
    let mut i: usize = 0;
    assert(refs_view(out@) =~= with_id(ps, profile_id@, 0));
    while i < parsed.profiles.len()
        invariant
            i <= parsed.profiles.len(),
            ps == profile_views(parsed.profiles@),
            refs_view(out@) == with_id(ps, profile_id@, i as int),
        decreases parsed.profiles.len() - i,
    {
        let p = &parsed.profiles[i];
        assert(ps[i as int] == p@);
        if same(p.id.as_str(), profile_id) {
            let ghost before = refs_view(out@);
            out.push(p);
            assert(refs_view(out@) =~= before.push(p@));
        }
        i += 1;
    }
    assert(refs_view(out@).len() == out@.len());
    if out.len() == 0 {
        let mut m = "Profile ".to_owned();
        m.push_str(profile_id);
        m.push_str(" not found in MPD");
        return Err(AppError::Mpd(m));
    }
    Ok(out)
}

// ---------------------------------------------------------------------------
// Segment indexes
// ---------------------------------------------------------------------------

/// A segment index to fetch.
pub struct SidxPlan {
    /// The file that holds it.
    pub media: String,
    /// Its byte range.
    pub index_range: String,
    /// The first byte of the range.
    pub start: u64,
}

/// The first byte of a range; 0 where it cannot be read.
pub open spec fn range_start(range: Seq<char>) -> u64 {
    match parse_unsigned(before_char(range, '-'), u64::MAX as int) {
        Some(n) => n as u64,
        None => 0,
    }
}

/// The profile is one file with a segment index.
pub open spec fn has_sidx(p: ProfileView) -> bool {
    p.segments.len() == 1 && filled(p.segments[0].index_range) is Some
}

/// The segment index of a profile that is one file with an index.
pub fn plan_sidx(profile: &MpdProfile) -> (r: Option<SidxPlan>)
    ensures
        match r {
            Some(plan) => {
                &&& has_sidx(profile@)
                &&& plan.media@ == profile@.segments[0].media
                &&& Some(plan.index_range@) == profile@.segments[0].index_range
                &&& plan.start == range_start(plan.index_range@)
            },
            None => !has_sidx(profile@),
        },
{
    if profile.segments.len() != 1 {
        return None;
    }
    let s = &profile.segments[0];
    assert(profile@.segments[0] == s@);
    match &s.index_range {
        Some(range) => if chars(range.as_str()).len() > 0 {
            let start: u64 = match parse_u64(before(range.as_str(), '-').as_str()) {
                Some(n) => n,
                None => 0,
            };
            Some(SidxPlan { media: s.media.clone(), index_range: range.clone(), start })
        } else {
            None
        },
        None => None,
    }
}

/// The segment of a fragment.
pub open spec fn fragment_segment(
    whole: SegmentView,
    f: FragmentView,
    extinf: ExtinfView,
    i: int,
) -> SegmentView {
    SegmentView {
        media: whole.media,
        number: (i + 1) as u64,
        extinf,
        time: None,
        duration_mpd_timescale: None,
        program_date_time: None,
        media_range: Some(decimal(f.start) + "-"@ + decimal(f.end)),
        init_range: whole.init_range,
        index_range: None,
    }
}

/// The segments of a profile with its single file cut into fragments.
pub open spec fn fragment_segments(
    whole: SegmentView,
    fragments: Seq<FragmentView>,
    extinfs: Seq<Extinf>,
) -> Seq<SegmentView> {
    Seq::new(
        fragments.len(),
        |i: int| fragment_segment(whole, fragments[i], extinfs[i]@, i),
    )
}

/// Cuts the single file of a profile into the fragments of its index, the
/// durations of which are given. Without fragments the file stays whole.
pub fn expand_segment_base_segments(
    profile: &mut MpdProfile,
    fragments: &Vec<SidxFragment>,
    extinfs: &Vec<Extinf>,
)
    requires
        has_sidx(old(profile)@),
        fragments@.len() == extinfs@.len(),
    ensures
        final(profile)@ == (ProfileView {
            segments: if fragments@.len() == 0 {
                old(profile)@.segments
            } else {
                fragment_segments(
                    old(profile)@.segments[0],
                    fragment_views(fragments@),
                    extinfs@,
                )
            },
            ..old(profile)@
        }),
{
    if fragments.len() == 0 {
        return;
    }
    let ghost whole = profile@.segments[0];
    let ghost fs = fragment_views(fragments@);
    let media = profile.segments[0].media.clone();
    let init_range = copy_opt(&profile.segments[0].init_range);
    let mut out: Vec<MpdSegment> = Vec::new();
    let mut i: usize = 0;
    while i < fragments.len()
        invariant
            i <= fragments.len(),
            fragments@.len() == extinfs@.len(),
            fs == fragment_views(fragments@),
            media@ == whole.media,
            opt_text(init_range) == whole.init_range,
            out.len() == i,
            forall|j: int|
                0 <= j < i ==> (#[trigger] out@[j])@ == fragment_segment(
                    whole,
                    fs[j],
                    extinfs@[j]@,
                    j,
                ),
        decreases fragments.len() - i,
    {
        let f = &fragments[i];
        let mut range = decimal_text(f.start);
        range.push_str("-");
        range.push_str(decimal_text(f.end).as_str());
        out.push(
            MpdSegment {
                media: media.clone(),
                number: (i + 1) as u64,
                extinf: extinfs[i].clone(),
                time: None,
                duration_mpd_timescale: None,
                program_date_time: None,
                media_range: Some(range),
                init_range: copy_opt(&init_range),
                index_range: None,
            },
        );
        i += 1;
    }
    assert(segment_views(out@) =~= fragment_segments(whole, fs, extinfs@));
    profile.segments = out;
}

// ---------------------------------------------------------------------------
// Segments
// ---------------------------------------------------------------------------

/// The value of a `Range` header for a byte range `start-end`.
pub fn range_header(range: &str) -> (r: String)
    ensures
        r@ == "bytes="@ + range@,
{
    concat("bytes=", range)
}

/// The media type that a segment is sent as: MPEG-TS where it is remuxed or
/// already that, else MP4.
pub open spec fn content_type_of(mime_type: Seq<char>, query: Pairs) -> Seq<char> {
    if is_on(lookup(query, "remux_to_ts"@)) || contains(mime_type, "mp2t"@) || contains(
        mime_type,
        "mpeg-ts"@,
    ) {
        "video/mp2t"@
    } else {
        "video/mp4"@
    }
}

/// The media type that a segment is sent as.
pub fn mime_type_to_content_type(mime_type: &str, query: &StringMap) -> (r: &'static str)
    ensures
        r@ == content_type_of(mime_type@, query@),
{
    let remux: bool = match query.get("remux_to_ts") {
        Some(v) => same(v, "1") || same(v, "true"),
        None => false,
    };
    if remux || holds(mime_type, "mp2t") || holds(mime_type, "mpeg-ts") {
        "video/mp2t"
    } else {
        "video/mp4"
    }
}

/// How a segment is prepared.
#[derive(Clone, Copy, PartialEq, Eq, Structural)]
pub enum SegmentMode {
    /// It is decrypted while it is fetched: a part of a large file.
    DecryptStream,
    /// It is fetched whole and decrypted.
    Decrypt,
    /// It is sent as it is.
    Plain,
}

/// A request for an initialization section.
pub struct InitRequest {
    pub init_url: String,
    pub init_range: Option<String>,
    /// The key identifiers and keys, where both are given.
    pub keys: Option<(String, String)>,
    pub content_type: String,
}

/// A request for a segment.
pub struct SegmentRequest {
    pub init: InitRequest,
    pub segment_url: String,
    pub segment_range: Option<String>,
    /// Whether the playlist names the initialization section by itself.
    pub use_map: bool,
    pub mode: SegmentMode,
}

/// The keys of a request, where both are given.
pub open spec fn keys_of(query: Pairs) -> Option<(Seq<char>, Seq<char>)> {
    match (filled(lookup(query, "key_id"@)), filled(lookup(query, "key"@))) {
        (Some(kid), Some(key)) => Some((kid, key)),
        _ => None,
    }
}

/// Optional keys, by their texts.
pub open spec fn keys_view(k: Option<(String, String)>) -> Option<(Seq<char>, Seq<char>)> {
    match k {
        Some(p) => Some((p.0@, p.1@)),
        None => None,
    }
}

/// The request is for the initialization section that the query names.
pub open spec fn is_init_request(r: InitRequest, query: Pairs) -> bool {
    &&& lookup(query, "init_url"@) == Some(r.init_url@)
    &&& opt_text(r.init_range) == lookup(query, "init_range"@)
    &&& keys_view(r.keys) == keys_of(query)
    &&& r.content_type@ == content_type_of(
        text_or(lookup(query, "mime_type"@), "video/mp4"@),
        query,
    )
}

/// Reads a request for an initialization section.
pub fn init_request(query: &StringMap) -> (r: AppResult<InitRequest>)
    ensures
        match r {
            Ok(i) => is_init_request(i, query@),
            Err(e) => lookup(query@, "init_url"@) is None && e@ == AppErrorView::BadRequest(
                "Missing init_url"@,
            ),
        },
{
    let init_url = match query.get("init_url") {
        Some(u) => u.to_owned(),
        None => {
            return Err(AppError::BadRequest("Missing init_url".to_owned()));
        },
    };
    let mime = match query.get("mime_type") {
        Some(m) => m,
        None => "video/mp4",
    };
    let keys = match (filled_param(query, "key_id"), filled_param(query, "key")) {
        (Some(kid), Some(key)) => Some((kid, key)),
        _ => None,
    };
    Ok(
        InitRequest {
            init_url,
            init_range: param(query, "init_range"),
            keys,
            content_type: mime_type_to_content_type(mime, query).to_owned(),
        },
    )
}

/// How the segment of a query is prepared.
pub open spec fn mode_of(query: Pairs) -> SegmentMode {
    if keys_of(query) is None {
        SegmentMode::Plain
    } else if filled(lookup(query, "segment_range"@)) is Some {
        SegmentMode::DecryptStream
    } else {
        SegmentMode::Decrypt
    }
}

/// Reads a request for a segment.
pub fn segment_request(query: &StringMap) -> (r: AppResult<SegmentRequest>)
    ensures
        match r {
            Ok(s) => {
                &&& is_init_request(s.init, query@)
                &&& lookup(query@, "segment_url"@) == Some(s.segment_url@)
                &&& opt_text(s.segment_range) == filled(lookup(query@, "segment_range"@))
                &&& s.use_map == is_on(lookup(query@, "use_map"@))
                &&& s.mode == mode_of(query@)
            },
            Err(e) => if lookup(query@, "init_url"@) is None {
                e@ == AppErrorView::BadRequest("Missing init_url"@)
            } else {
                lookup(query@, "segment_url"@) is None && e@ == AppErrorView::BadRequest(
                    "Missing segment_url"@,
                )
            },
        },
{
    let init = match init_request(query) {
        Ok(i) => i,
        Err(e) => {
            return Err(e);
        },
    };
    let segment_url = match query.get("segment_url") {
        Some(u) => u.to_owned(),
        None => {
            return Err(AppError::BadRequest("Missing segment_url".to_owned()));
        },
    };
    let use_map: bool = match query.get("use_map") {
        Some(v) => same(v, "true") || same(v, "1"),
        None => false,
    };
    let segment_range = filled_param(query, "segment_range");
    let mode = if init.keys.is_none() {
        SegmentMode::Plain
    } else if segment_range.is_some() {
        SegmentMode::DecryptStream
    } else {
        SegmentMode::Decrypt
    };
    Ok(SegmentRequest { init, segment_url, segment_range, use_map, mode })
}

/// The body of a segment that is sent as it is: behind its initialization
/// section, unless the playlist names that by itself.
pub fn plain_segment_body(init: Vec<u8>, segment: Vec<u8>, use_map: bool) -> (r: Vec<u8>)
    ensures
        r@ == if use_map {
            segment@
        } else {
            init@ + segment@
        },
{
    if use_map {
        return segment;
    }
    let mut out = init;
    out.extend_from_slice(segment.as_slice());
    out
}

} // verus!
