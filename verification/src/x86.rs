//! The native-code back-end. Only the bytecode back-end does real work;
//! this one accepts an intermediate program and emits nothing.
use vstd::prelude::*;
use crate::ir::IntermediateLanguage;

verus! {

/// A compiler from the intermediate representation to x86-64 machine code
/// that emits nothing.
pub struct x86_64Compiler {}

impl x86_64Compiler {
    /// Accepts an intermediate program and emits nothing.
    pub fn compileToX86_64FromIntermediate(intermediateLanguage: IntermediateLanguage) {
        let _ = intermediateLanguage;
    }
}

} // verus!
