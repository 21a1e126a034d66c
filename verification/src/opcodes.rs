//! The mnemonic table of the NIS instruction set: the 26 mnemonics map, in
//! this order, to the opcodes 1 through 26. Opcode 0 is reserved and never
//! emitted by the assembler.
use vstd::prelude::*;
use crate::text::str_eq;

verus! {

/// The opcode bound to a mnemonic, or `None` for an unknown mnemonic.
pub open spec fn opcode_of_mnemonic(s: Seq<char>) -> Option<u8> {
    if s == "mov"@ {
        Some(1u8)
    } else if s == "add"@ {
        Some(2u8)
    } else if s == "sub"@ {
        Some(3u8)
    } else if s == "div"@ {
        Some(4u8)
    } else if s == "mul"@ {
        Some(5u8)
    } else if s == "and"@ {
        Some(6u8)
    } else if s == "or"@ {
        Some(7u8)
    } else if s == "xor"@ {
        Some(8u8)
    } else if s == "shr"@ {
        Some(9u8)
    } else if s == "shl"@ {
        Some(10u8)
    } else if s == "store"@ {
        Some(11u8)
    } else if s == "load"@ {
        Some(12u8)
    } else if s == "push"@ {
        Some(13u8)
    } else if s == "pop"@ {
        Some(14u8)
    } else if s == "jmp"@ {
        Some(15u8)
    } else if s == "jz"@ {
        Some(16u8)
    } else if s == "jnz"@ {
        Some(17u8)
    } else if s == "eq"@ {
        Some(18u8)
    } else if s == "neq"@ {
        Some(19u8)
    } else if s == "big"@ {
        Some(20u8)
    } else if s == "sm"@ {
        Some(21u8)
    } else if s == "hlt"@ {
        Some(22u8)
    } else if s == "int"@ {
        Some(23u8)
    } else if s == "set"@ {
        Some(24u8)
    } else if s == "call"@ {
        Some(25u8)
    } else if s == "ret"@ {
        Some(26u8)
    } else {
        None
    }
}

/// Whether an opcode is a control transfer, whose first operand is a label
/// name that the assembler resolves to an instruction index.
pub open spec fn is_control_transfer(op: u8) -> bool {
    op == 15 || op == 16 || op == 17 || op == 25
}

/// Looks a mnemonic up in the instruction table.
pub fn mnemonic_opcode(s: &str) -> (r: Option<u8>)
    ensures
        r == opcode_of_mnemonic(s@),
{
    if str_eq(s, "mov") {
        Some(1)
    } else if str_eq(s, "add") {
        Some(2)
    } else if str_eq(s, "sub") {
        Some(3)
    } else if str_eq(s, "div") {
        Some(4)
    } else if str_eq(s, "mul") {
        Some(5)
    } else if str_eq(s, "and") {
        Some(6)
    } else if str_eq(s, "or") {
        Some(7)
    } else if str_eq(s, "xor") {
        Some(8)
    } else if str_eq(s, "shr") {
        Some(9)
    } else if str_eq(s, "shl") {
        Some(10)
    } else if str_eq(s, "store") {
        Some(11)
    } else if str_eq(s, "load") {
        Some(12)
    } else if str_eq(s, "push") {
        Some(13)
    } else if str_eq(s, "pop") {
        Some(14)
    } else if str_eq(s, "jmp") {
        Some(15)
    } else if str_eq(s, "jz") {
        Some(16)
    } else if str_eq(s, "jnz") {
        Some(17)
    } else if str_eq(s, "eq") {
        Some(18)
    } else if str_eq(s, "neq") {
        Some(19)
    } else if str_eq(s, "big") {
        Some(20)
    } else if str_eq(s, "sm") {
        Some(21)
    } else if str_eq(s, "hlt") {
        Some(22)
    } else if str_eq(s, "int") {
        Some(23)
    } else if str_eq(s, "set") {
        Some(24)
    } else if str_eq(s, "call") {
        Some(25)
    } else if str_eq(s, "ret") {
        Some(26)
    } else {
        None
    }
}

} // verus!
