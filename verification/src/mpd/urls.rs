//! The URLs of the DASH endpoints.

use vstd::prelude::*;

use crate::codec::{percent_encode, percent_encoded};
use crate::string_map::{Pairs, StringMap};
use crate::text::{opt_str, opt_text, starts_with};

verus! {

/// Parameters passed through into proxied URLs.
pub struct MpdProxyParams {
    pub api_password: String,
    /// Request headers to forward.
    pub pass_headers: StringMap,
    /// The identifier of the content key, in hexadecimal.
    pub key_id: Option<String>,
    /// The content key, in hexadecimal.
    pub key: Option<String>,
    /// The wanted height, such as `1080p`.
    pub resolution: Option<String>,
    /// Time ranges to leave out.
    pub skip: Option<String>,
    /// Whether segments are remuxed to MPEG-TS.
    pub remux_to_ts: bool,
}

/// Passed parameters, by their texts.
pub struct MpdParamsView {
    pub api_password: Seq<char>,
    pub pass_headers: Pairs,
    pub key_id: Option<Seq<char>>,
    pub key: Option<Seq<char>>,
    pub resolution: Option<Seq<char>>,
    pub skip: Option<Seq<char>>,
    pub remux_to_ts: bool,
}

impl View for MpdProxyParams {
    type V = MpdParamsView;

    open spec fn view(&self) -> MpdParamsView {
        MpdParamsView {
            api_password: self.api_password@,
            pass_headers: self.pass_headers@,
            key_id: opt_text(self.key_id),
            key: opt_text(self.key),
            resolution: opt_text(self.resolution),
            skip: opt_text(self.skip),
            remux_to_ts: self.remux_to_ts,
        }
    }
}

impl Default for MpdProxyParams {
    fn default() -> (r: Self)
        ensures
            r@ == (MpdParamsView {
                api_password: ""@,
                pass_headers: Seq::empty(),
                key_id: None,
                key: None,
                resolution: None,
                skip: None,
                remux_to_ts: false,
            }),
    {
        MpdProxyParams {
            api_password: "".to_owned(),
            pass_headers: StringMap::new(),
            key_id: None,
            key: None,
            resolution: None,
            skip: None,
            remux_to_ts: false,
        }
    }
}

/// An optional parameter behind its name.
pub open spec fn opt_param(name: Seq<char>, value: Option<Seq<char>>) -> Seq<char> {
    match value {
        Some(v) => name + percent_encoded(v),
        None => Seq::empty(),
    }
}

/// Headers as parameters.
pub open spec fn header_params(p: Pairs) -> Seq<char>
    decreases p.len(),
{
    if p.len() == 0 {
        Seq::empty()
    } else {
        header_params(p.drop_last()) + "&h_"@ + percent_encoded(p.last().0) + "="@
            + percent_encoded(p.last().1)
    }
}

/// The content key as parameters.
pub open spec fn key_params(p: MpdParamsView) -> Seq<char> {
    opt_param("&key_id="@, p.key_id) + opt_param("&key="@, p.key)
}

/// The URL of a media playlist.
pub open spec fn playlist_url(
    base: Seq<char>,
    mpd_url: Seq<char>,
    profile_id: Seq<char>,
    p: MpdParamsView,
) -> Seq<char> {
    base + "/proxy/mpd/playlist?d="@ + percent_encoded(mpd_url) + "&profile_id="@ + profile_id
        + "&api_password="@ + percent_encoded(p.api_password) + key_params(p) + opt_param(
        "&skip="@,
        p.skip,
    ) + (if p.remux_to_ts {
        "&remux_to_ts=1"@
    } else {
        Seq::empty()
    }) + header_params(p.pass_headers)
}

/// What the URL of a segment carries.
pub struct SegmentUrlArgs {
    pub init_url: Seq<char>,
    pub segment_url: Seq<char>,
    pub mime_type: Seq<char>,
    pub is_live: bool,
    pub use_map: bool,
    pub init_range: Option<Seq<char>>,
    pub seg_init_range: Option<Seq<char>>,
    pub segment_range: Option<Seq<char>>,
}

/// The URL of a segment. A range of the initialization section that belongs to
/// the segment comes before the profile's.
pub open spec fn segment_url(base: Seq<char>, a: SegmentUrlArgs, p: MpdParamsView) -> Seq<char> {
    base + "/proxy/mpd/segment."@ + (if p.remux_to_ts {
        "ts"@
    } else {
        "mp4"@
    }) + "?init_url="@ + percent_encoded(a.init_url) + "&segment_url="@ + percent_encoded(
        a.segment_url,
    ) + "&mime_type="@ + percent_encoded(a.mime_type) + "&is_live="@ + (if a.is_live {
        "true"@
    } else {
        "false"@
    }) + "&api_password="@ + percent_encoded(p.api_password) + (if a.use_map {
        "&use_map=true"@
    } else {
        Seq::empty()
    }) + opt_param(
        "&init_range="@,
        if a.seg_init_range is Some {
            a.seg_init_range
        } else {
            a.init_range
        },
    ) + opt_param("&segment_range="@, a.segment_range) + key_params(p) + header_params(
        p.pass_headers,
    )
}

/// The URL of an initialization section.
pub open spec fn init_url(
    base: Seq<char>,
    url: Seq<char>,
    mime_type: Seq<char>,
    range: Option<Seq<char>>,
    p: MpdParamsView,
) -> Seq<char> {
    base + "/proxy/mpd/init?init_url="@ + percent_encoded(url) + "&mime_type="@ + percent_encoded(
        mime_type,
    ) + "&api_password="@ + percent_encoded(p.api_password) + opt_param("&init_range="@, range)
        + key_params(p) + header_params(p.pass_headers)
}

/// Appends an optional parameter.
fn push_opt(url: &mut String, name: &str, value: Option<&str>)
    ensures
        final(url)@ == old(url)@ + opt_param(name@, opt_str(value)),
{
    match value {
        Some(v) => {
            url.push_str(name);
            url.push_str(percent_encode(v).as_str());
            assert(url@ =~= old(url)@ + opt_param(name@, opt_str(value)));
        },
        None => {
            assert(url@ =~= old(url)@ + opt_param(name@, opt_str(value)));
        },
    }
}

/// Appends the content key.
fn push_keys(url: &mut String, params: &MpdProxyParams)
    ensures
        final(url)@ == old(url)@ + key_params(params@),
{
    push_opt(url, "&key_id=", crate::text::borrow_opt(&params.key_id));
    push_opt(url, "&key=", crate::text::borrow_opt(&params.key));
    assert(url@ =~= old(url)@ + key_params(params@));
}

/// Appends headers as parameters.
fn push_headers(url: &mut String, headers: &StringMap)
    ensures
        final(url)@ == old(url)@ + header_params(headers@),
{
    let n: usize = headers.len();
    let mut i: usize = 0;
    assert(url@ =~= old(url)@ + header_params(headers@.take(0)));
    while i < n
        invariant
            i <= n,
            n == headers@.len(),
            url@ == old(url)@ + header_params(headers@.take(i as int)),
        decreases n - i,
    {
        assert(headers@.take(i + 1).drop_last() =~= headers@.take(i as int));
        url.push_str("&h_");
        url.push_str(percent_encode(headers.key_at(i)).as_str());
        url.push_str("=");
        url.push_str(percent_encode(headers.value_at(i)).as_str());
        i += 1;
        assert(url@ =~= old(url)@ + header_params(headers@.take(i as int)));
    }
    assert(headers@.take(n as int) =~= headers@);
}

/// Builds the URL of a media playlist.
pub fn build_playlist_url(
    proxy_base: &str,
    mpd_url: &str,
    profile_id: &str,
    params: &MpdProxyParams,
) -> (r: String)
    ensures
        r@ == playlist_url(proxy_base@, mpd_url@, profile_id@, params@),
{
    let mut url = proxy_base.to_owned();
    url.push_str("/proxy/mpd/playlist?d=");
    url.push_str(percent_encode(mpd_url).as_str());
    url.push_str("&profile_id=");
    url.push_str(profile_id);
    url.push_str("&api_password=");
    url.push_str(percent_encode(params.api_password.as_str()).as_str());
    push_keys(&mut url, params);
    push_opt(&mut url, "&skip=", crate::text::borrow_opt(&params.skip));
    let ghost before = url@;
    if params.remux_to_ts {
        url.push_str("&remux_to_ts=1");
    }
    assert(url@ =~= before + (if params.remux_to_ts {
        "&remux_to_ts=1"@
    } else {
        Seq::empty()
    }));
    push_headers(&mut url, &params.pass_headers);
    url
}

/// Builds the URL of a segment.
#[allow(clippy::too_many_arguments)]
pub fn build_segment_url(
    proxy_base: &str,
    init_url: &str,
    segment_url: &str,
    mime_type: &str,
    is_live: bool,
    use_map: bool,
    init_range: Option<&str>,
    seg_init_range: Option<&str>,
    segment_range: Option<&str>,
    params: &MpdProxyParams,
) -> (r: String)
    ensures
        r@ == self::segment_url(
            proxy_base@,
            SegmentUrlArgs {
                init_url: init_url@,
                segment_url: segment_url@,
                mime_type: mime_type@,
                is_live,
                use_map,
                init_range: opt_str(init_range),
                seg_init_range: opt_str(seg_init_range),
                segment_range: opt_str(segment_range),
            },
            params@,
        ),
{
    let mut url = proxy_base.to_owned();
    url.push_str("/proxy/mpd/segment.");
    if params.remux_to_ts {
        url.push_str("ts");
    } else {
        url.push_str("mp4");
    }
    url.push_str("?init_url=");
    url.push_str(percent_encode(init_url).as_str());
    url.push_str("&segment_url=");
    url.push_str(percent_encode(segment_url).as_str());
    url.push_str("&mime_type=");
    url.push_str(percent_encode(mime_type).as_str());
    url.push_str("&is_live=");
    if is_live {
        url.push_str("true");
    } else {
        url.push_str("false");
    }
    url.push_str("&api_password=");
    url.push_str(percent_encode(params.api_password.as_str()).as_str());
    let ghost before = url@;
    if use_map {
        url.push_str("&use_map=true");
    }
    assert(url@ =~= before + (if use_map {
        "&use_map=true"@
    } else {
        Seq::empty()
    }));
    let range = match seg_init_range {
        Some(r) => Some(r),
        None => init_range,
    };
    push_opt(&mut url, "&init_range=", range);
    push_opt(&mut url, "&segment_range=", segment_range);
    push_keys(&mut url, params);
    push_headers(&mut url, &params.pass_headers);
    url
}

/// Builds the URL of an initialization section.
pub fn build_init_url(
    proxy_base: &str,
    url: &str,
    mime_type: &str,
    init_range: Option<&str>,
    params: &MpdProxyParams,
) -> (r: String)
    ensures
        r@ == init_url(proxy_base@, url@, mime_type@, opt_str(init_range), params@),
{
    let mut out = proxy_base.to_owned();
    out.push_str("/proxy/mpd/init?init_url=");
    out.push_str(percent_encode(url).as_str());
    out.push_str("&mime_type=");
    out.push_str(percent_encode(mime_type).as_str());
    out.push_str("&api_password=");
    out.push_str(percent_encode(params.api_password.as_str()).as_str());
    push_opt(&mut out, "&init_range=", init_range);
    push_keys(&mut out, params);
    push_headers(&mut out, &params.pass_headers);
    out
}

/// Every DASH URL begins with the public base URL, path prefix included.
pub proof fn law_mpd_urls_keep_base(
    base: Seq<char>,
    mpd_url: Seq<char>,
    profile_id: Seq<char>,
    a: SegmentUrlArgs,
    p: MpdParamsView,
)
    ensures
        starts_with(playlist_url(base, mpd_url, profile_id, p), base),
        starts_with(segment_url(base, a, p), base),
        starts_with(init_url(base, a.init_url, a.mime_type, a.init_range, p), base),
{
    let n = base.len() as int;
    assert(playlist_url(base, mpd_url, profile_id, p).subrange(0, n) =~= base);
    assert(segment_url(base, a, p).subrange(0, n) =~= base);
    assert(init_url(base, a.init_url, a.mime_type, a.init_range, p).subrange(0, n) =~= base);
}

} // verus!
