//! Extraction of stream URLs from video hosts.

pub mod base;
pub mod factory;
pub mod hosts;
pub mod packed;
pub mod patterns;
