//! The request-scoped errors of the service.

use vstd::prelude::*;

verus! {

/// Everything that can go wrong while handling a request.
///
/// The first three variants mirror the error taxonomy of the service: a
/// session identifier that does not decode to exactly 16 bytes, an
/// identifier that was never issued, and an attempt to authenticate a
/// session a second time.  `RandomFailure` stands for the one unrecoverable
/// condition, a failure of the operating system's entropy source.
#[derive(Clone, Copy, Debug, PartialEq, Eq, Structural)]
pub enum SessionError {
    MalformedId,
    NotFound,
    AlreadyAuthenticated,
    RandomFailure,
}

} // verus!
