//! The decision logic of a streaming media proxy: playlist rewriting, URL
//! signing, routing, range arithmetic and provider extraction.

pub mod auth;
pub mod codec;
pub mod config;
pub mod error;
pub mod extractor;
pub mod hls;
pub mod laws;
pub mod mpd;
pub mod proxy;
pub mod route_pattern;
pub mod string_map;
pub mod telegram;
pub mod text;
pub mod utils;
