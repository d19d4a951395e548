//! Error taxonomy for the assembler and the execution engine.

use vstd::prelude::*;

verus! {

/// An assembly-time failure.  Every assembler-time error aborts the current
/// assembly run; none is retried.
#[derive(Clone, Copy, Debug, PartialEq, Eq, Structural)]
pub enum AsmError {
    /// A field value exceeds its bit width.
    Overflow,
    /// A register token resolved to an index outside `0..=31`.
    InvalidRegister,
    /// A register token whose shape matches no resolution rule.
    MalformedMnemonic,
    /// An immediate or shift-amount token that is not a well-formed number.
    MalformedImmediate,
    /// The operand count does not match the matched instruction form.
    ArityMismatch,
    /// A branch or jump names a label that pass one never recorded.
    UndeclaredLabel,
    /// A directive outside the supported set.
    UnsupportedDirective,
    /// A mnemonic found in none of the R, I and J catalogs.
    UnknownMnemonic,
}

/// An execution-time failure.
#[derive(Clone, Copy, Debug, PartialEq, Eq, Structural)]
pub enum ExecError {
    /// The address lies inside a mapped region but beyond its current
    /// backing length.  Recoverable: callers may substitute zero.
    MemoryObviouslyUninitializedAccess,
    /// The address lies inside no mapped region.  Fatal.
    MemoryUnknownAccess,
    /// The fetched word decodes to an operation outside the modeled subset.
    /// Fatal: the engine is a partial reference model.
    UnimplementedInstruction,
}

} // verus!
