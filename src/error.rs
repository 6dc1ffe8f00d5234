//! The failures of building and querying the activity database.

use vstd::prelude::*;

verus! {

/// The ways in which building or querying the activity database can fail.
#[derive(Clone, Copy, Debug, PartialEq, Eq, Structural)]
pub enum Error {
    /// A session file could not be opened or read.
    IoFailure,
    /// A decoded session holds a quantity that cannot be normalised.
    MalformedSession,
    /// An activity without laps, or a lap without samples, has no mean.
    EmptyAggregationInput,
    /// Identifier text is not 64 hexadecimal digits.
    InvalidIdentifier,
    /// A well-formed identifier names no activity.
    NotFound,
}

} // verus!
