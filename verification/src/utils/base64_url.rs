//! Destination URLs in base64, as they stand in the path of a proxy URL.

use vstd::prelude::*;

use crate::codec::{
    base64url_decode_exact, base64url_decoded, base64url_encode, base64url_encoded, bytes_of,
    utf8_text,
};
use crate::text::{begins, opt_text, starts_with, trim_end_char, trim_end_of};

verus! {

/// The base64 text of a URL.
pub open spec fn encoded_url(url: Seq<char>) -> Seq<char> {
    base64url_encoded(vstd::utf8::encode_utf8(url))
}

/// A URL of one of the two web schemes.
pub open spec fn is_web_url(url: Seq<char>) -> bool {
    starts_with(url, "http://"@) || starts_with(url, "https://"@)
}

/// The web URL that a base64 text stands for, with or without padding.
pub open spec fn decoded_url(encoded: Seq<char>) -> Option<Seq<char>> {
    match base64url_decoded(trim_end_char(encoded, '=')) {
        Err(_) => None,
        Ok(bytes) => {
            let url = vstd::utf8::decode_utf8(bytes);
            if vstd::utf8::valid_utf8(bytes) && is_web_url(url) {
                Some(url)
            } else {
                None
            }
        },
    }
}

/// Writes a URL as URL-safe base64 without padding.
pub fn encode_url_to_base64(url: &str) -> (r: String)
    ensures
        r@ == encoded_url(url@),
        is_web_url(url@) ==> decoded_url(r@) == Some(url@),
{
    broadcast use {vstd::utf8::encode_utf8_valid_utf8, vstd::utf8::encode_utf8_decode_utf8};

    let bytes = bytes_of(url);
    let r = base64url_encode(bytes.as_slice());
    proof {
        if r@.len() > 0 {
            assert(crate::codec::is_base64url_char(r@[r@.len() - 1]));
        }
        assert(trim_end_char(r@, '=') == r@);
    }
    r
}

/// Reads a web URL from base64, with or without padding.
pub fn decode_base64_url(encoded: &str) -> (r: Option<String>)
    ensures
        opt_text(r) == decoded_url(encoded@),
{
    match base64url_decode_exact(trim_end_of(encoded, '=').as_str()) {
        Err(_) => None,
        Ok(bytes) => match utf8_text(bytes.as_slice()) {
            None => None,
            Some(url) => if begins(url.as_str(), "http://") || begins(url.as_str(), "https://") {
                Some(url)
            } else {
                None
            },
        },
    }
}

/// Whether a text is a web URL in base64.
pub fn is_base64_url(s: &str) -> (r: bool)
    ensures
        r == decoded_url(s@) is Some,
{
    decode_base64_url(s).is_some()
}

} // verus!
