//! Failures surfaced by the pipeline.
//!
//! Configuration problems (a reserved character in an abbreviation key, an
//! unknown alignment value) abort the affected document's build; a missing
//! highlight fragment means the caller has not yet supplied the external
//! highlighter's reply for a code block.

use vstd::prelude::*;

verus! {

#[derive(Clone, Copy, Debug, PartialEq, Eq, Structural)]
pub enum Error {
    /// An abbreviation key contains `|`, which is reserved as the
    /// separator when the keys are compiled into one matcher pattern.
    ReservedAbbrKey,
    /// A table-of-contents alignment value other than `left` or `right`.
    InvalidAlign,
    /// A code block's highlighted fragment is in neither the cache nor the
    /// supplied replies.
    MissingHighlight,
}

impl Error {
    /// A short description, for callers that log or print failures.
    pub fn message(&self) -> &'static str {
        match self {
            Error::ReservedAbbrKey => "abbreviation key contains the reserved separator `|`",
            Error::InvalidAlign => "toc alignment must be `left` or `right`",
            Error::MissingHighlight => "no highlighted fragment available for a code block",
        }
    }
}

} // verus!
