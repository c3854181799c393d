//! HLS playlists.

pub mod handler;
pub mod lines;
pub mod manifest;
pub mod output;
pub mod playlist;
