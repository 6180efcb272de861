//! The two ways a matcher can reject a request.

use vstd::prelude::*;

verus! {

/// Outcome of a matcher that did not accept the request.
///
/// `NotFound` means the path simply did not match this route (wrong
/// literal, unparsable parameter, leftover path at an index point); the
/// caller is free to try another route.  `BadRequest` means the input was
/// structurally disallowed (a `..` traversal attempt), so trying other
/// routes would be wrong.
#[derive(Clone, Copy, Debug, PartialEq, Eq, Structural)]
pub enum Failure {
    NotFound,
    BadRequest,
}

} // verus!
