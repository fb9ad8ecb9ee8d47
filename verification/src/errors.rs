//! Error types of the library.

use vstd::prelude::*;

verus! {

/// Rejection raised while constructing a diagnostic value.
#[derive(Clone, Copy, Debug, PartialEq, Eq, Structural)]
pub enum ModelError {
    /// An error code was supplied but its text is empty; a missing code must
    /// be represented as absence, not as an empty string.
    EmptyCode,
}

/// Failure of a single render call. Both variants report that the data source
/// violated the diagnostic-tree input contract; rendering aborts without
/// emitting anything rather than producing misleading partial output.
#[derive(Clone, Copy, Debug, PartialEq, Eq, Structural)]
pub enum RenderError {
    /// A span's excerpt does not hold exactly one line of text per source
    /// line in `line_start..=line_end`.
    SpanTextLengthMismatch,
    /// A child diagnostic carries a level other than `Note` or `Help`.
    UnsupportedChildLevel,
}

} // verus!
