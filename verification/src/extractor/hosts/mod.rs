//! The video hosts.

pub mod filemoon;
pub mod maxstream;
pub mod streamhg;
pub mod vidmoly;
