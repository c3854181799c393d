//! DASH manifests and the HLS playlists made of them.

pub mod handler;
pub mod playlist;
pub mod processor;
pub mod sidx;
pub mod template;
pub mod types;
pub mod urls;
