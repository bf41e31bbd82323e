//! Error taxonomy of the tool, and the per-transform failure scope.

use vstd::prelude::*;

verus! {

/// Every way a tool invocation can fail.
#[derive(Clone, Copy, Debug, PartialEq, Eq, Structural)]
pub enum ToolError {
    /// A menu key that matches no choice.
    InvalidSelection,
    /// A free-form answer that is not one of the accepted forms
    /// (for a yes/no question: exactly `y`, `Y`, `n` or `N`).
    InvalidInput,
    /// A numeric parameter that cannot be parsed, or a scale outside
    /// the accepted range.
    InvalidParameter,
    /// Source data that breaks a transform's precondition: mask and
    /// texture dimensions differ, or dimensions not divisible by the
    /// scale, or a source smaller than the crop target.
    PreconditionViolation,
    /// A file could not be decoded or encoded.
    IOFailure,
    /// No file was chosen in a file-picker prompt.
    SelectionAbort,
}

/// How a transform's precondition failure affects the rest of a batch.
///
/// The three transforms deliberately disagree here: a pixelation or mask
/// precondition failure aborts the whole batch, while a crop target larger
/// than one source only skips that file. The distinction is kept as an
/// explicit per-tool value rather than divergent control flow.
#[derive(Clone, Copy, Debug, PartialEq, Eq, Structural)]
pub enum FailureScope {
    /// The failure ends the whole batch run.
    BatchFatal,
    /// The failure skips the offending file; later files are still processed.
    PerFileSkip,
}

} // verus!
