//! Resolution and download pipeline for marketplace extension artifacts.
//!
//! The library turns partially specified extension references into fully
//! qualified, versioned, platform-specific download requests, selects a
//! matching version from marketplace query responses, and drives resumable,
//! content-decoded downloads through pure decision functions.

pub mod cli;
pub mod extension;
pub mod fetch;
pub mod headers;
pub mod server;
pub mod strutil;
