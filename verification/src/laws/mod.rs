//! What the operations of the library are for: laws on what they return, stated
//! over what callers hand in and get back.

pub mod basics;
pub mod dash;
pub mod dash_index;
pub mod dash_master;
pub mod dash_media;
pub mod dash_plans;
pub mod dash_profiles;
pub mod dash_requests;
pub mod dash_urls;
pub mod extracting;
pub mod file_ids;
pub mod forward;
pub mod hls;
pub mod hls_lines;
pub mod hls_parsed;
pub mod hls_requests;
pub mod packed;
pub mod reading;
pub mod refusals;
pub mod steps;
pub mod streaming;
pub mod telegram;
pub mod texts;
pub mod urls;
