//! A verified core for a social-media post downloader.
//!
//! The library resolves a post URL into an ordered list of media descriptors
//! and plans their download: collision-free naming, an atomic-write fetch
//! protocol, and a bounded-concurrency engine model. All I/O (HTTP, the
//! filesystem, the window shell) lives outside the library; the functions here
//! are pure logic with contracts, plus a few trusted wrappers around the
//! HTML and JSON parsers.

pub mod engine;
pub mod fetch;
pub mod json;
pub mod media;
pub mod naming;
pub mod resolver;
