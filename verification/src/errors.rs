//! The fatal-error taxonomy of the toolchain. Assembly errors abort
//! assembly with no partial output; run-time errors abort execution of the
//! virtual machine.
use vstd::prelude::*;

verus! {

/// A fatal error raised while parsing or assembling a program.
#[derive(Clone, Copy, Debug, PartialEq, Eq, Structural)]
pub enum AsmError {
    /// An operand beginning with `r` or `s` is not a register name.
    UnknownRegister,
    /// An instruction mnemonic is not in the instruction table.
    UnknownMnemonic,
    /// A control-transfer operand names a label that is never defined.
    UnknownLabel,
    /// The same label name is defined twice.
    DuplicateLabel,
    /// The required entry label `main` is never defined.
    MissingMain,
    /// A `#` directive other than `#include` and the `#/` comment.
    UnknownDirective,
    /// An `#include` directive without a path operand.
    MalformedInclude,
}

/// A fatal error raised while the virtual machine executes a program.
#[derive(Clone, Copy, Debug, PartialEq, Eq, Structural)]
pub enum VmError {
    /// An opcode outside the range 1 through 26.
    BadOpcode,
    /// A register index outside the range 0 through 9.
    BadRegister,
    /// A heap access beyond the allocated length.
    HeapOutOfBounds,
    /// A `div` whose divisor evaluates to zero.
    DivideByZero,
    /// A `ret` with an empty call stack.
    EmptyCallStack,
    /// An interrupt number with no service routine.
    BadInterrupt,
    /// A `putc` value that is not a Unicode scalar value.
    InvalidScalar,
}

} // verus!
