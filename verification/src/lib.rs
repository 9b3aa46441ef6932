//! Core of an image-transcoding proxy: the request-scheduling and caching
//! layer that sits between an HTTP front end and the transcoding work.
//!
//! The crate holds the verified logic: query parsing, cache-key derivation,
//! the byte-bounded result cache with eviction and hit/miss accounting, the
//! bounded FIFO task queue, the per-request coordinator decisions, the
//! grayscale pixel transform, and the quality-to-codec mapping. Network I/O
//! and the codec calls themselves live outside, in the surrounding binary.

pub mod cache;
pub mod coordinator;
pub mod params;
pub mod percent;
pub mod pixels;
pub mod quality;
pub mod queue;
