//! The error taxonomy of the compiler.
//!
//! Every stage either completes or aborts the compilation unit with one of
//! these errors, together with positional context: a character index for
//! lexical errors, the offending name for lowering errors, an op index for
//! emission errors.

use vstd::prelude::*;

use crate::parser::Component;

verus! {

/// A fatal error of one compilation unit.
#[derive(Debug, PartialEq, Eq)]
pub enum CompileError {
    /// A character that starts no identifier, number or operator spelling.
    /// `index` is the character position in the source text.
    LexError { index: usize },
    /// The forced final reduction left anything other than exactly one
    /// top-level construct; `residual` is the stack as it stood.
    SyntaxError { residual: Vec<Component> },
    /// A name was referenced before any declaration bound it.
    UnboundVariable { name: String },
    /// A construct (control flow, an op kind the emitter has no encoding
    /// for) reached a stage that does not support it.
    UnsupportedConstruct,
    /// Reserved for a misconfigured register pool; the greedy allocator
    /// itself never reports it.
    RegisterAllocationExhausted,
    /// Spill emission needed more simultaneously borrowed scratch registers
    /// than the pool holds. `op_index` is the op being emitted.
    OutOfScratchRegisters { op_index: usize },
}

} // verus!
