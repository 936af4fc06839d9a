//! Core of a self-hosted file-storage server: path permission resolution,
//! byte-range delivery, archive entry naming, the single-flight copy/move
//! coordinator, keyword search and signed share links.
use vstd::prelude::*;

pub mod text;
pub mod permission;
pub mod range;
pub mod coordinator;
pub mod search;
pub mod share;
pub mod archive;
pub mod paths;
pub mod db;

verus! {

/// The failures that a request can meet.
#[derive(Debug, Clone, Copy, PartialEq, Eq, Structural)]
pub enum Error {
    /// Malformed or escaping path, conflicting target, malformed range,
    /// admission conflict, or a request that the rules reject.
    BadRequest,
    /// The requester's level is insufficient for the path.
    Unauthorized,
    /// Missing file or unknown task.
    NotFound,
    /// An I/O failure on the way, surfaced as it is and not retried.
    Internal,
}

} // verus!
