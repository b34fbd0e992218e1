//! Compilation targets.
use crate::ir::Ir;
use vstd::prelude::*;

verus! {

/// A back end that turns the intermediate representation into code for some
/// machine.
pub trait Target {
    /// Compilation output.
    type Output;
    /// Codegen error type.
    type Error;

    /// Generates code for the program.
    fn codegen(ir: &Ir) -> Result<Self::Output, Self::Error>;
}

} // verus!
