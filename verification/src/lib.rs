//! Streaming SHA-256 file digests with progress reporting and cooperative
//! cancellation.
//!
//! The crate holds the decisions of a digest computation and leaves the
//! waiting to its caller: [`hash::DigestEngine`] says what to do next and is
//! told what came of it, and [`commands::HashState`] is the single slot that
//! lets at most one computation stay active.
pub mod commands;
pub mod encoding;
pub mod error;
pub mod hash;
pub mod models;
pub mod runs;
pub mod sha256;
