//! Verified core of a tool that records and checks file digests in
//! extended attributes.

pub mod digest;
pub mod file;
pub mod finders;
pub mod hashutil;
pub mod hex;
pub mod jobs;
pub mod text;
pub mod transmitter;
