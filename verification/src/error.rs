//! The two ways in which decoding a chart can go wrong.
use vstd::prelude::*;

verus! {

/// Why a decoding step gave up.
#[derive(Clone, Copy, Debug, PartialEq, Eq, Structural)]
pub enum ChartError {
    /// The bytes are not a chart: a fixed signature did not match, or a read
    /// or a declared length ran past the end of the source. Nothing decoded
    /// after this can be trusted, so every decoder stops at once.
    Format,
    /// A text field does not hold valid text. Text is shown and never acted
    /// upon, so the field readers put a placeholder in its place and go on.
    Encoding,
}

} // verus!
