//! Decoded images: memory accounting, caching, decoding and scheduling.
pub mod cache;
pub mod decoder;
pub mod loader;
