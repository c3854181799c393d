//! Signed proxy URLs.

pub mod encryption;

pub use encryption::{EncryptionHandler, ProxyData};
