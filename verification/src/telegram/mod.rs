//! Media on Telegram.

pub mod handler;
pub mod media_ref;
pub mod session;
