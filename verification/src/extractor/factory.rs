//! The registry of video hosts.

use vstd::prelude::*;

use crate::extractor::base::{ExtractorError, ExtractorErrorView};
use crate::string_map::StringMap;
use crate::text::{concat, lowercase, same};

verus! {

/// A video host that there is an extractor for.
#[derive(Clone, Copy, PartialEq, Eq, Structural, Debug)]
pub enum HostKind {
    City,
    DoodStream,
    F16Px,
    Fastream,
    FileLions,
    FileMoon,
    Gupload,
    LiveTV,
    LuluStream,
    Maxstream,
    Mixdrop,
    Okru,
    Sportsonline,
    StreamHG,
    Streamtape,
    StreamWish,
    Supervideo,
    TurboVidPlay,
    Uqload,
    Vavoo,
    VidFast,
    Vidmoly,
    Vidoza,
    VixCloud,
    Voe,
}

/// The host of a name in lower case.
pub open spec fn kind_of(name: Seq<char>) -> Option<HostKind> {
    if name == "doodstream"@ {
        Some(HostKind::DoodStream)
    } else if name == "city"@ {
        Some(HostKind::City)
    } else if name == "filelions"@ {
        Some(HostKind::FileLions)
    } else if name == "filemoon"@ {
        Some(HostKind::FileMoon)
    } else if name == "f16px"@ {
        Some(HostKind::F16Px)
    } else if name == "gupload"@ {
        Some(HostKind::Gupload)
    } else if name == "uqload"@ {
        Some(HostKind::Uqload)
    } else if name == "mixdrop"@ {
        Some(HostKind::Mixdrop)
    } else if name == "streamtape"@ {
        Some(HostKind::Streamtape)
    } else if name == "streamwish"@ {
        Some(HostKind::StreamWish)
    } else if name == "supervideo"@ {
        Some(HostKind::Supervideo)
    } else if name == "turbovidplay"@ {
        Some(HostKind::TurboVidPlay)
    } else if name == "vixcloud"@ {
        Some(HostKind::VixCloud)
    } else if name == "okru"@ {
        Some(HostKind::Okru)
    } else if name == "maxstream"@ {
        Some(HostKind::Maxstream)
    } else if name == "livetv"@ {
        Some(HostKind::LiveTV)
    } else if name == "lulustream"@ {
        Some(HostKind::LuluStream)
    } else if name == "vavoo"@ {
        Some(HostKind::Vavoo)
    } else if name == "vidmoly"@ {
        Some(HostKind::Vidmoly)
    } else if name == "vidoza"@ {
        Some(HostKind::Vidoza)
    } else if name == "fastream"@ {
        Some(HostKind::Fastream)
    } else if name == "voe"@ {
        Some(HostKind::Voe)
    } else if name == "sportsonline"@ {
        Some(HostKind::Sportsonline)
    } else if name == "streamhg"@ {
        Some(HostKind::StreamHG)
    } else if name == "vidfast"@ {
        Some(HostKind::VidFast)
    } else {
        None
    }
}

/// Finds the host of a name in lower case.
fn find_kind(name: &str) -> (r: Option<HostKind>)
    ensures
        r == kind_of(name@),
{
    if same(name, "doodstream") {
        Some(HostKind::DoodStream)
    } else if same(name, "city") {
        Some(HostKind::City)
    } else if same(name, "filelions") {
        Some(HostKind::FileLions)
    } else if same(name, "filemoon") {
        Some(HostKind::FileMoon)
    } else if same(name, "f16px") {
        Some(HostKind::F16Px)
    } else if same(name, "gupload") {
        Some(HostKind::Gupload)
    } else if same(name, "uqload") {
        Some(HostKind::Uqload)
    } else if same(name, "mixdrop") {
        Some(HostKind::Mixdrop)
    } else if same(name, "streamtape") {
        Some(HostKind::Streamtape)
    } else if same(name, "streamwish") {
        Some(HostKind::StreamWish)
    } else if same(name, "supervideo") {
        Some(HostKind::Supervideo)
    } else if same(name, "turbovidplay") {
        Some(HostKind::TurboVidPlay)
    } else if same(name, "vixcloud") {
        Some(HostKind::VixCloud)
    } else if same(name, "okru") {
        Some(HostKind::Okru)
    } else if same(name, "maxstream") {
        Some(HostKind::Maxstream)
    } else if same(name, "livetv") {
        Some(HostKind::LiveTV)
    } else if same(name, "lulustream") {
        Some(HostKind::LuluStream)
    } else if same(name, "vavoo") {
        Some(HostKind::Vavoo)
    } else if same(name, "vidmoly") {
        Some(HostKind::Vidmoly)
    } else if same(name, "vidoza") {
        Some(HostKind::Vidoza)
    } else if same(name, "fastream") {
        Some(HostKind::Fastream)
    } else if same(name, "voe") {
        Some(HostKind::Voe)
    } else if same(name, "sportsonline") {
        Some(HostKind::Sportsonline)
    } else if same(name, "streamhg") {
        Some(HostKind::StreamHG)
    } else if same(name, "vidfast") {
        Some(HostKind::VidFast)
    } else {
        None
    }
}

/// The service that solves access challenges, for the host that needs it.
pub struct Byparr {
    pub url: Option<String>,
    pub timeout: u64,
}

/// The extractor of a host, and what it is made with.
pub struct ExtractorChoice {
    pub kind: HostKind,
    pub request_headers: StringMap,
    pub proxy_url: Option<String>,
    /// Given to the one host that needs it.
    pub byparr: Option<Byparr>,
}

/// Chooses the extractor of a host by its name, letter case aside.
pub fn get_extractor(
    host: &str,
    request_headers: StringMap,
    proxy_url: Option<String>,
    byparr_url: Option<String>,
    byparr_timeout: u64,
) -> (r: Result<ExtractorChoice, ExtractorError>)
    ensures
        match r {
            Ok(c) => {
                &&& kind_of(lowercase(host@)) == Some(c.kind)
                &&& c.request_headers == request_headers
                &&& c.proxy_url == proxy_url
                &&& if c.kind == HostKind::DoodStream {
                    c.byparr == Some(Byparr { url: byparr_url, timeout: byparr_timeout })
                } else {
                    c.byparr is None
                }
            },
            Err(e) => kind_of(lowercase(host@)) is None && e@ == ExtractorErrorView::Extract(
                "Unsupported host: "@ + host@,
            ),
        },
{
    let key = host.to_lowercase();
    match find_kind(key.as_str()) {
        Some(kind) => {
            let byparr = if kind == HostKind::DoodStream {
                Some(Byparr { url: byparr_url, timeout: byparr_timeout })
            } else {
                None
            };
            Ok(ExtractorChoice { kind, request_headers, proxy_url, byparr })
        },
        None => {
            let m = concat("Unsupported host: ", host);
            Err(ExtractorError::extract(m.as_str()))
        },
    }
}

} // verus!
