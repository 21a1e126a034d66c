use nis::assemble::ByteCodeCompiler;
use nis::codec::{decode_instructions, encode_instructions, Line};
use nis::errors::AsmError;
use nis::parcher::Parcher;
use nis::vm::{run_steps, RunStatus, VmState};

fn assemble(src: &str) -> Vec<Line> {
    let mut p = Parcher::new();
    let paths = p.loadSource(src).expect("no fatal directives");
    assert!(paths.is_empty(), "these programs include nothing");
    p.assemble().expect("the program assembles");
    p.lines
}

fn run(lines: &Vec<Line>) -> (RunStatus, VmState) {
    let mut st = VmState::new();
    let r = run_steps(lines, &mut st, 1_000_000);
    (r, st)
}

#[test]
fn exit_with_code() {
    let lines = assemble("main:\nset r8 0\nint 42\nhlt\n");
    let (r, st) = run(&lines);
    assert_eq!(r, RunStatus::Exited(42));
    assert!(st.output.is_empty());
}

#[test]
fn putc_prints_a() {
    let lines = assemble("main:\nset r8 2\nint 65\nset r8 0\nint 0\n");
    let (r, st) = run(&lines);
    assert_eq!(r, RunStatus::Exited(0));
    assert_eq!(st.output, vec!['A']);
}

#[test]
fn sum_loop_prints_55() {
    let src = "main:\n\
        set r1 10\n\
        loop:\n\
        add r0 r1\n\
        sub r1 1\n\
        eq r1 0\n\
        jnz loop\n\
        set r8 3\n\
        int r0\n\
        hlt\n";
    let lines = assemble(src);
    let (r, st) = run(&lines);
    assert_eq!(r, RunStatus::Exited(0));
    let expected: Vec<char> = "55".chars().collect();
    assert_eq!(st.output, expected);
}

#[test]
fn call_and_ret() {
    let lines = assemble("main:\ncall f\nhlt\nf:\nset r0 7\nret\n");
    let (r, st) = run(&lines);
    assert_eq!(r, RunStatus::Exited(0));
    assert_eq!(st.registers[0], 7);
    assert!(st.callStack.is_empty());
}

fn alloc_store_load_src() -> &'static str {
    "main:\n\
     set r8 1\n\
     int 4\n\
     store r7 123\n\
     load r2 r7\n\
     set r8 3\n\
     int r2\n\
     hlt\n"
}

#[test]
fn alloc_store_load() {
    let lines = assemble(alloc_store_load_src());
    let (r, st) = run(&lines);
    assert_eq!(r, RunStatus::Exited(0));
    let expected: Vec<char> = "123".chars().collect();
    assert_eq!(st.output, expected);
    assert_eq!(st.registers[2], 123);
}

#[test]
fn binary_round_trip_runs_identically() {
    let lines = assemble(alloc_store_load_src());
    let bytes = encode_instructions(&lines);
    let decoded = decode_instructions(&bytes).expect("whole records decode");
    assert_eq!(decoded, lines);
    let (r1, st1) = run(&lines);
    let (r2, st2) = run(&decoded);
    assert_eq!(r1, r2);
    assert_eq!(st1.output, st2.output);
}

#[test]
fn run_method_drives_the_machine() {
    let mut c = ByteCodeCompiler::new();
    c.lines = assemble("main:\nset r8 0\nint 5\n");
    let mut st = VmState::new();
    let r = c.run(&mut st, 1_000_000);
    assert_eq!(r, RunStatus::Exited(5));
}

#[test]
fn include_guard_skips_repeated_basenames() {
    let mut p = Parcher::new();
    let src = "#include lib/util.asm\n\
               #include other/util.asm\n\
               #include lib/extra.asm\n\
               #/ a preprocessor comment\n\
               main:\n\
               hlt\n";
    let paths = p.loadSource(src).unwrap();
    // The second path shares the basename util.asm and is skipped.
    assert_eq!(paths, vec!["lib/util.asm".to_string(), "lib/extra.asm".to_string()]);
    assert_eq!(p.imports, vec!["util.asm".to_string(), "extra.asm".to_string()]);
}

#[test]
fn included_lines_are_appended() {
    let mut p = Parcher::new();
    let paths = p.loadSource("#include f.asm\nmain:\ncall f\nhlt\n").unwrap();
    assert_eq!(paths, vec!["f.asm".to_string()]);
    p.addInclude("\nf:\nset r0 9\nret\n");
    p.assemble().unwrap();
    let (r, st) = run(&p.lines);
    assert_eq!(r, RunStatus::Exited(0));
    assert_eq!(st.registers[0], 9);
}

#[test]
fn unknown_directive_is_fatal() {
    let mut p = Parcher::new();
    assert_eq!(p.loadSource("#pragma once\nmain:\nhlt\n"), Err(AsmError::UnknownDirective));
}

#[test]
fn include_without_path_is_fatal() {
    let mut p = Parcher::new();
    assert_eq!(p.loadSource("#include\nmain:\nhlt\n"), Err(AsmError::MalformedInclude));
}

#[test]
fn assembler_is_deterministic() {
    let a = assemble(alloc_store_load_src());
    let b = assemble(alloc_store_load_src());
    assert_eq!(a, b);
    assert_eq!(encode_instructions(&a), encode_instructions(&b));
}
