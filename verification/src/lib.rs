//! A small verified web-service core: route matching over literal and named
//! path segments, a per-session key-value store with an atomic visit counter,
//! and response delivery either as one buffered payload or as an ordered
//! sequence of streamed chunks.
//!
//! The transport (socket handling, header parsing, cookie signing), on-disk
//! file serving and template rendering are collaborators outside this crate:
//! they hand the core plain bytes and take plain bytes back.

pub mod bytesutil;
pub mod handler;
pub mod response;
pub mod router;
pub mod serve;
pub mod session;
