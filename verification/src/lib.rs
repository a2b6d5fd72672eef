//! A confined static file server core: path resolution inside a fixed root,
//! directory listing with deterministic ordering and human-readable
//! formatting, HTTP byte-range negotiation, and an optional basic-auth gate.
//!
//! The surrounding HTTP dispatcher (route binding, streaming, template
//! rendering) is an external collaborator: it hands this library a request
//! path and headers as plain values and receives back either a serving plan
//! for a file or a listing model for a directory.

use vstd::prelude::*;

pub mod auth;
pub mod config;
pub mod humanize;
pub mod index;
pub mod order;
pub mod range;
pub mod resolve;

verus! {

/// The typed failures the core reports to its dispatcher, which maps them to
/// HTTP status codes (path escape to 403/404, not-found to 404, I/O failure
/// to 500, unsatisfiable range to 416).
#[derive(Clone, Copy, Debug, PartialEq, Eq, Structural)]
pub enum ServeError {
    /// The request path would resolve outside the configured root.
    PathEscape,
    /// The resolved target does not exist on the filesystem.
    NotFound,
    /// Reading the directory or an entry's metadata failed mid-operation.
    IoError,
    /// The requested byte range lies entirely beyond the file's size.
    RangeNotSatisfiable,
}

} // verus!
