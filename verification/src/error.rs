//! The ways a report can fail.

use vstd::prelude::*;

verus! {

/// Why no report was produced. Every kind ends the run: there is no retry
/// and no partial output.
#[derive(Debug, Clone, Copy, PartialEq, Eq, Structural)]
pub enum ReportError {
    /// The pod source could not be started at all.
    SourceUnavailable,
    /// The pod source ran and reported failure with this exit code.
    SourceFailed(i32),
    /// The pod list is not JSON, or a pod lacks a required field or holds
    /// it with the wrong type.
    MalformedInput,
    /// A configured pattern is not a valid regular expression.
    InvalidRule,
}

} // verus!
