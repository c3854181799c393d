//! What all extractors share.

use vstd::prelude::*;

use crate::string_map::{Pairs, StringMap};

verus! {

/// Why an extraction failed.
#[derive(Debug)]
pub enum ExtractorError {
    /// The page is not as expected.
    Extract(String),
    /// The network failed.
    Network(String),
    /// The host answered with an error.
    Http {
        /// The status.
        status: u16,
        /// What happened.
        message: String,
    },
}

/// An extraction error, by its text.
pub enum ExtractorErrorView {
    Extract(Seq<char>),
    Network(Seq<char>),
    Http { status: u16, message: Seq<char> },
}

impl View for ExtractorError {
    type V = ExtractorErrorView;

    open spec fn view(&self) -> ExtractorErrorView {
        match self {
            ExtractorError::Extract(m) => ExtractorErrorView::Extract(m@),
            ExtractorError::Network(m) => ExtractorErrorView::Network(m@),
            ExtractorError::Http { status, message } => ExtractorErrorView::Http {
                status: *status,
                message: message@,
            },
        }
    }
}

impl ExtractorError {
    /// The page is not as expected.
    pub fn extract(message: &str) -> (r: Self)
        ensures
            r@ == ExtractorErrorView::Extract(message@),
    {
        ExtractorError::Extract(message.to_owned())
    }
}

/// Where a stream was found and how it is fetched.
pub struct ExtractorResult {
    pub destination_url: String,
    pub request_headers: StringMap,
    /// The endpoint that serves the stream.
    pub mediaflow_endpoint: &'static str,
}

/// A result, by its texts.
pub struct ExtractorResultView {
    pub destination_url: Seq<char>,
    pub request_headers: Pairs,
    pub mediaflow_endpoint: Seq<char>,
}

impl View for ExtractorResult {
    type V = ExtractorResultView;

    open spec fn view(&self) -> ExtractorResultView {
        ExtractorResultView {
            destination_url: self.destination_url@,
            request_headers: self.request_headers@,
            mediaflow_endpoint: self.mediaflow_endpoint@,
        }
    }
}

/// The outcome of an extraction, by its texts.
pub open spec fn outcome(r: Result<ExtractorResult, ExtractorError>) -> Result<
    ExtractorResultView,
    ExtractorErrorView,
> {
    match r {
        Ok(v) => Ok(v@),
        Err(e) => Err(e@),
    }
}

/// A failed extraction.
pub open spec fn extraction_failed(message: Seq<char>) -> Result<
    ExtractorResultView,
    ExtractorErrorView,
> {
    Err(ExtractorErrorView::Extract(message))
}

/// A stream for the HLS manifest endpoint.
pub open spec fn hls_stream(url: Seq<char>, headers: Pairs) -> Result<
    ExtractorResultView,
    ExtractorErrorView,
> {
    Ok(
        ExtractorResultView {
            destination_url: url,
            request_headers: headers,
            mediaflow_endpoint: "hls_manifest_proxy"@,
        },
    )
}

/// What every extractor is given: headers for the results and a proxy for the
/// requests.
pub struct BaseExtractor {
    pub base_headers: StringMap,
    pub proxy_url: Option<String>,
}

impl BaseExtractor {
    /// An extractor's base.
    pub fn new(request_headers: StringMap, proxy_url: Option<String>) -> (r: Self)
        ensures
            r.base_headers == request_headers && r.proxy_url == proxy_url,
    {
        BaseExtractor { base_headers: request_headers, proxy_url }
    }
}

/// The error of a host that answered with an error status, where it did.
pub fn check_page_status(status: u16, url: &str) -> (r: Result<(), ExtractorError>)
    ensures
        match r {
            Ok(_) => status < 400,
            Err(e) => status >= 400 && e@ == (ExtractorErrorView::Http {
                status,
                message: "HTTP "@ + crate::text::decimal(status as int) + " from "@ + url@,
            }),
        },
{
    if status >= 400 {
        let mut message = "HTTP ".to_owned();
        message.push_str(crate::text::decimal_text(status as u64).as_str());
        message.push_str(" from ");
        message.push_str(url);
        return Err(ExtractorError::Http { status, message });
    }
    Ok(())
}

} // verus!
