//! Helpers on URLs.

pub mod base64_url;
pub mod url;
