//! StreamHG.

use vstd::prelude::*;

use crate::extractor::base::{
    extraction_failed, hls_stream, outcome, BaseExtractor, ExtractorError, ExtractorErrorView,
    ExtractorResult, ExtractorResultView,
};
use crate::extractor::packed::{is_packed, unpack_packed_js, unpacked_script};
use crate::extractor::patterns::{find_group, group_of};
use crate::string_map::{Pairs, StringMap};
use crate::text::{contains, opt_text, replace, replace_text};

verus! {

/// The extractor of StreamHG.
pub struct StreamHGExtractor(pub BaseExtractor);

/// The stream URL in a script, without escaped slashes.
pub open spec fn hls2_url(script: Seq<char>) -> Option<Seq<char>> {
    match group_of("\"hls2\":\"([^\"]+)\""@, script, 1) {
        Some(u) => Some(replace_text(u, "\\/"@, "/"@)),
        None => None,
    }
}

/// What a page leads to: the stream URL that it holds, or that its packed
/// script holds.
pub open spec fn page_stream(html: Seq<char>, headers: Pairs) -> Result<
    ExtractorResultView,
    ExtractorErrorView,
> {
    if hls2_url(html) is Some {
        hls_stream(hls2_url(html)->0, headers)
    } else if contains(html, "eval(function(p,a,c,k,e,"@) {
        match unpacked_script(html) {
            None => extraction_failed("StreamHG: failed to unpack JS"@),
            Some(script) => match hls2_url(script) {
                Some(u) => hls_stream(u, headers),
                None => extraction_failed("StreamHG: hls2 URL not found after unpack"@),
            },
        }
    } else {
        extraction_failed("StreamHG: hls2 URL not found"@)
    }
}

impl StreamHGExtractor {
    /// An extractor with headers for its results and a proxy for its requests.
    pub fn new(request_headers: StringMap, proxy_url: Option<String>) -> (r: Self)
        ensures
            r.0.base_headers == request_headers && r.0.proxy_url == proxy_url,
    {
        StreamHGExtractor(BaseExtractor::new(request_headers, proxy_url))
    }

    /// The host's name.
    pub fn host_name(&self) -> (r: &'static str)
        ensures
            r@ == "StreamHG"@,
    {
        "StreamHG"
    }

    /// The stream URL in a script.
    pub fn find_hls2(html: &str) -> (r: Option<String>)
        ensures
            opt_text(r) == hls2_url(html@),
    {
        match find_group("\"hls2\":\"([^\"]+)\"", html, 1) {
            Some(u) => {
                proof {
                    reveal_strlit("\\/");
                }
                Some(replace(u.as_str(), "\\/", "/"))
            },
            None => None,
        }
    }

    /// What a fetched page leads to.
    pub fn extract_page(&self, html: &str) -> (r: Result<ExtractorResult, ExtractorError>)
        ensures
            outcome(r) == page_stream(html@, self.0.base_headers@),
    {
        let url = match Self::find_hls2(html) {
            Some(u) => u,
            None => {
                if !is_packed(html) {
                    return Err(ExtractorError::extract("StreamHG: hls2 URL not found"));
                }
                match unpack_packed_js(html) {
                    None => {
                        return Err(ExtractorError::extract("StreamHG: failed to unpack JS"));
                    },
                    Some(script) => match Self::find_hls2(script.as_str()) {
                        Some(u) => u,
                        None => {
                            return Err(
                                ExtractorError::extract(
                                    "StreamHG: hls2 URL not found after unpack",
                                ),
                            );
                        },
                    },
                }
            },
        };
        Ok(
            ExtractorResult {
                destination_url: url,
                request_headers: self.0.base_headers.clone(),
                mediaflow_endpoint: "hls_manifest_proxy",
            },
        )
    }
}

} // verus!
