use nis::assemble::{ByteCodeCompiler, LabelBinding};
use nis::errors::AsmError;
use nis::ir::{
    parchLine, IntermediateLanguage, IntermediateLanguageInstruction, IntermediateLanguageLabel,
    IntermediateLanguageLine,
};
use nis::operand::getLineArgCode;

fn instr(m: &str, a1: &str, a2: &str) -> IntermediateLanguageLine {
    IntermediateLanguageLine::Instruction(IntermediateLanguageInstruction {
        instruction: m.to_string(),
        arg1: a1.to_string(),
        arg2: a2.to_string(),
    })
}

fn label(name: &str) -> IntermediateLanguageLine {
    IntermediateLanguageLine::Label(IntermediateLanguageLabel { label: name.to_string() })
}

fn compile(lines: Vec<IntermediateLanguageLine>) -> Result<ByteCodeCompiler, AsmError> {
    let mut c = ByteCodeCompiler::new();
    c.compileByteCodeFromIntermediate(IntermediateLanguage { lines })?;
    Ok(c)
}

#[test]
fn classify_register_operands() {
    assert_eq!(getLineArgCode("r0"), Ok((0, true)));
    assert_eq!(getLineArgCode("r3"), Ok((3, true)));
    assert_eq!(getLineArgCode("r8"), Ok((8, true)));
    assert_eq!(getLineArgCode("sp"), Ok((9, true)));
}

#[test]
fn classify_unknown_register_is_fatal() {
    assert_eq!(getLineArgCode("r9"), Err(AsmError::UnknownRegister));
    assert_eq!(getLineArgCode("rax"), Err(AsmError::UnknownRegister));
    assert_eq!(getLineArgCode("s"), Err(AsmError::UnknownRegister));
}

#[test]
fn classify_decimal_operands() {
    assert_eq!(getLineArgCode(""), Ok((0, false)));
    assert_eq!(getLineArgCode("123"), Ok((123, false)));
    assert_eq!(getLineArgCode("+7"), Ok((7, false)));
    assert_eq!(getLineArgCode("18446744073709551615"), Ok((u64::MAX, false)));
    // Parse failures are lenient: the operand becomes the immediate 0.
    assert_eq!(getLineArgCode("18446744073709551616"), Ok((0, false)));
    assert_eq!(getLineArgCode("abc"), Ok((0, false)));
    assert_eq!(getLineArgCode("12x"), Ok((0, false)));
}

#[test]
fn classify_hex_operands() {
    assert_eq!(getLineArgCode("0x1f"), Ok((31, false)));
    assert_eq!(getLineArgCode("0x0"), Ok((0, false)));
    assert_eq!(getLineArgCode("0xFFFF"), Ok((65535, false)));
    assert_eq!(getLineArgCode("0x"), Ok((0, false)));
    assert_eq!(getLineArgCode("0xzz"), Ok((0, false)));
}

#[test]
fn classify_quoted_operands() {
    assert_eq!(getLineArgCode("\"A\""), Ok((65, false)));
    assert_eq!(getLineArgCode("\"0\""), Ok((48, false)));
    // Only the first quoted character counts.
    assert_eq!(getLineArgCode("\"AB\""), Ok((65, false)));
    // All quotes and nothing inside: falls through to the lenient parse.
    assert_eq!(getLineArgCode("\"\"\""), Ok((0, false)));
}

#[test]
fn parse_label_line() {
    match parchLine("  main:  ") {
        Ok(Some(IntermediateLanguageLine::Label(l))) => assert_eq!(l.label, "main"),
        other => panic!("expected a label, got {:?}", other.is_ok()),
    }
}

#[test]
fn parse_instruction_line() {
    match parchLine("mov r0 r1") {
        Ok(Some(IntermediateLanguageLine::Instruction(i))) => {
            assert_eq!(i.instruction, "mov");
            assert_eq!(i.arg1, "r0");
            assert_eq!(i.arg2, "r1");
        },
        other => panic!("expected an instruction, got {:?}", other.is_ok()),
    }
}

#[test]
fn parse_missing_operands_are_empty() {
    match parchLine("hlt") {
        Ok(Some(IntermediateLanguageLine::Instruction(i))) => {
            assert_eq!(i.instruction, "hlt");
            assert_eq!(i.arg1, "");
            assert_eq!(i.arg2, "");
        },
        other => panic!("expected an instruction, got {:?}", other.is_ok()),
    }
}

#[test]
fn parse_skips_comments_and_blanks() {
    assert!(matches!(parchLine("; a comment"), Ok(None)));
    assert!(matches!(parchLine("   "), Ok(None)));
    assert!(matches!(parchLine("#include x.asm"), Ok(None)));
}

#[test]
fn parse_unknown_mnemonic_is_fatal() {
    assert_eq!(
        match parchLine("frobnicate r0") {
            Err(e) => Some(e),
            _ => None,
        },
        Some(AsmError::UnknownMnemonic)
    );
}

#[test]
fn prologue_jumps_to_main() {
    let c = compile(vec![
        label("main"),
        instr("set", "r0", "5"),
        instr("hlt", "", ""),
    ])
    .unwrap();
    // Index 0 is the prologue: jmp with the address bound for main.
    assert_eq!(c.lines[0].instruction, 15);
    assert_eq!(c.lines[0].arg1, 1);
    assert!(!c.lines[0].arg1IsReg);
    assert_eq!(c.lines.len(), 3);
    // The symbol table binds main to 1.
    assert_eq!(c.labels.len(), 1);
    let LabelBinding { name, index } = &c.labels[0];
    assert_eq!(name, "main");
    assert_eq!(*index, 1);
    assert_eq!(c.instructionIndex, 2);
}

#[test]
fn label_binds_to_next_instruction() {
    let c = compile(vec![
        label("main"),
        instr("set", "r1", "10"),
        label("loop"),
        instr("sub", "r1", "1"),
        instr("eq", "r1", "0"),
        instr("jnz", "loop", ""),
        instr("hlt", "", ""),
    ])
    .unwrap();
    // loop is defined after one instruction: it binds to index 2, where
    // the sub stands in the final program.
    assert_eq!(c.labels[1].name, "loop");
    assert_eq!(c.labels[1].index, 2);
    assert_eq!(c.lines[2].instruction, 3);
    // The jnz resolves its label operand to that index.
    assert_eq!(c.lines[4].instruction, 17);
    assert_eq!(c.lines[4].arg1, 2);
    assert!(!c.lines[4].arg1IsReg);
}

#[test]
fn duplicate_label_is_fatal() {
    let r = compile(vec![
        label("main"),
        instr("hlt", "", ""),
        label("main"),
    ]);
    assert!(matches!(r, Err(AsmError::DuplicateLabel)));
}

#[test]
fn missing_main_is_fatal() {
    let r = compile(vec![label("start"), instr("hlt", "", "")]);
    assert!(matches!(r, Err(AsmError::MissingMain)));
}

#[test]
fn unknown_label_is_fatal() {
    let r = compile(vec![label("main"), instr("jmp", "nowhere", "")]);
    assert!(matches!(r, Err(AsmError::UnknownLabel)));
}

#[test]
fn unknown_mnemonic_in_ir_is_fatal() {
    let r = compile(vec![label("main"), instr("nop", "", "")]);
    assert!(matches!(r, Err(AsmError::UnknownMnemonic)));
}

#[test]
fn unknown_register_in_ir_is_fatal() {
    let r = compile(vec![label("main"), instr("set", "r12", "1")]);
    assert!(matches!(r, Err(AsmError::UnknownRegister)));
}

#[test]
fn classifier_method_matches_free_function() {
    assert_eq!(ByteCodeCompiler::getLineArgCode("r5"), Ok((5, true)));
    assert_eq!(ByteCodeCompiler::getLineArgCode("0x10"), Ok((16, false)));
}
