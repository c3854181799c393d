//! Proxy URLs and the rules of the plain stream and forward endpoints.

pub mod forward;
pub mod handler;
pub mod stream;
pub mod urls;
