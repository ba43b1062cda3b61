//! Importer for Quack/Purrly character cards.
//!
//! The library turns upstream character data into Character Card V3
//! documents, embeds them into PNG text chunks, parses cookie jars,
//! classifies upstream HTTP failures, and drives the multi-step
//! acquisition protocol as a state machine.  Network and process I/O
//! live outside the library; every function here is verified.

pub mod error;
pub mod strutil;
pub mod cookies;
pub mod png;
pub mod outside;
pub mod ccv3;
pub mod quack;
pub mod http;
pub mod sidecar;
pub mod server;
pub mod protocol;
pub mod session;
pub mod png_export;

use vstd::prelude::*;

verus! {

/// The version string reported by the status endpoint.
pub const SERVER_VERSION: &'static str = "0.1.0";

} // verus!
