use nis::codec::Line;
use nis::errors::VmError;
use nis::vm::{run_steps, RunStatus, VmState};

fn imm(op: u8, a1: u64, a2: u64) -> Line {
    Line { instruction: op, arg1: a1, arg1IsReg: false, arg2: a2, arg2IsReg: false }
}

fn reg2(op: u8, a1: u64, a2: u64) -> Line {
    Line { instruction: op, arg1: a1, arg1IsReg: true, arg2: a2, arg2IsReg: true }
}

fn run(lines: Vec<Line>) -> (RunStatus, VmState) {
    let mut st = VmState::new();
    let r = run_steps(&lines, &mut st, 1_000_000);
    (r, st)
}

#[test]
fn falls_off_the_end_with_exit_zero() {
    let (r, _) = run(vec![imm(24, 0, 7)]);
    assert_eq!(r, RunStatus::Exited(0));
}

#[test]
fn add_wraps_modulo_2_to_the_64() {
    let (r, st) = run(vec![
        imm(24, 0, u64::MAX),
        imm(2, 0, 3),
        imm(22, 0, 0),
    ]);
    assert_eq!(r, RunStatus::Exited(0));
    assert_eq!(st.registers[0], 2);
}

#[test]
fn sub_wraps_below_zero() {
    let (r, st) = run(vec![imm(3, 0, 1), imm(22, 0, 0)]);
    assert_eq!(r, RunStatus::Exited(0));
    assert_eq!(st.registers[0], u64::MAX);
}

#[test]
fn mov_copies_between_registers() {
    let (r, st) = run(vec![
        imm(24, 1, 42),
        // mov always reads its second operand as a register index.
        imm(1, 0, 1),
        imm(22, 0, 0),
    ]);
    assert_eq!(r, RunStatus::Exited(0));
    assert_eq!(st.registers[0], 42);
}

#[test]
fn shifts_mask_their_amount() {
    let (r, st) = run(vec![
        imm(24, 0, 1),
        imm(10, 0, 65),
        imm(22, 0, 0),
    ]);
    assert_eq!(r, RunStatus::Exited(0));
    // A shift by 65 is a shift by 1.
    assert_eq!(st.registers[0], 2);
}

#[test]
fn divide_by_zero_is_fatal() {
    let (r, _) = run(vec![imm(24, 0, 8), imm(4, 0, 0)]);
    assert_eq!(r, RunStatus::Failed(VmError::DivideByZero));
}

#[test]
fn out_of_range_register_is_fatal() {
    let (r, _) = run(vec![imm(24, 12, 1)]);
    assert_eq!(r, RunStatus::Failed(VmError::BadRegister));
}

#[test]
fn heap_access_out_of_bounds_is_fatal() {
    let (r, _) = run(vec![imm(11, 0, 5)]);
    assert_eq!(r, RunStatus::Failed(VmError::HeapOutOfBounds));
}

#[test]
fn ret_with_empty_call_stack_is_fatal() {
    let (r, _) = run(vec![imm(26, 0, 0)]);
    assert_eq!(r, RunStatus::Failed(VmError::EmptyCallStack));
}

#[test]
fn unknown_opcode_is_fatal() {
    let (r, _) = run(vec![imm(0, 0, 0)]);
    assert_eq!(r, RunStatus::Failed(VmError::BadOpcode));
    let (r2, _) = run(vec![imm(27, 0, 0)]);
    assert_eq!(r2, RunStatus::Failed(VmError::BadOpcode));
}

#[test]
fn unknown_interrupt_is_fatal() {
    let (r, _) = run(vec![imm(24, 8, 9), imm(23, 0, 0)]);
    assert_eq!(r, RunStatus::Failed(VmError::BadInterrupt));
}

#[test]
fn putc_of_a_surrogate_is_fatal() {
    let (r, _) = run(vec![imm(24, 8, 2), imm(23, 0xD800, 0)]);
    assert_eq!(r, RunStatus::Failed(VmError::InvalidScalar));
}

#[test]
fn putu_renders_decimal_digits() {
    let (r, st) = run(vec![
        imm(24, 8, 3),
        imm(23, 0, 0),
        imm(24, 8, 3),
        imm(23, 9876543210, 0),
        imm(22, 0, 0),
    ]);
    assert_eq!(r, RunStatus::Exited(0));
    let expected: Vec<char> = "09876543210".chars().collect();
    assert_eq!(st.output, expected);
}

#[test]
fn alloc_returns_old_heap_end_in_r7() {
    let (r, st) = run(vec![
        imm(24, 8, 1),
        imm(23, 3, 0),
        imm(24, 8, 1),
        imm(23, 2, 0),
        imm(24, 8, 4),
        imm(23, 0, 0),
        imm(22, 0, 0),
    ]);
    assert_eq!(r, RunStatus::Exited(0));
    // The second alloc started where the first ended; heap_end sees five
    // words in all.
    assert_eq!(st.registers[7], 5);
    assert_eq!(st.mem, vec![0, 0, 0, 0, 0]);
}

#[test]
fn comparison_and_conditional_jumps_agree() {
    // eq sets the flag, jz jumps on a set flag.
    let (r, st) = run(vec![
        imm(18, 0, 0),
        imm(16, 4, 0),
        imm(24, 1, 111),
        imm(22, 0, 0),
        imm(24, 1, 222),
        imm(22, 0, 0),
    ]);
    assert_eq!(r, RunStatus::Exited(0));
    assert_eq!(st.registers[1], 222);
    // jnz jumps on a clear flag.
    let (r2, st2) = run(vec![
        imm(19, 0, 0),
        imm(17, 4, 0),
        imm(24, 1, 111),
        imm(22, 0, 0),
        imm(24, 1, 222),
        imm(22, 0, 0),
    ]);
    assert_eq!(r2, RunStatus::Exited(0));
    assert_eq!(st2.registers[1], 222);
}

#[test]
fn push_pop_restores_value_and_stack_pointer() {
    let (r, st) = run(vec![
        // Grow the heap so that the data stack has room.
        imm(24, 8, 1),
        imm(23, 8, 0),
        imm(24, 0, 77),
        Line { instruction: 13, arg1: 0, arg1IsReg: true, arg2: 0, arg2IsReg: false },
        Line { instruction: 14, arg1: 2, arg1IsReg: true, arg2: 0, arg2IsReg: false },
        imm(22, 0, 0),
    ]);
    assert_eq!(r, RunStatus::Exited(0));
    assert_eq!(st.registers[2], 77);
    assert_eq!(st.registers[9], 0);
}

#[test]
fn out_of_steps_resumes() {
    let lines = vec![
        imm(24, 0, 1),
        imm(24, 1, 2),
        imm(24, 2, 3),
        imm(22, 0, 0),
    ];
    let mut st = VmState::new();
    let r1 = run_steps(&lines, &mut st, 2);
    assert_eq!(r1, RunStatus::OutOfSteps);
    let r2 = run_steps(&lines, &mut st, 1_000);
    assert_eq!(r2, RunStatus::Exited(0));
    assert_eq!(st.registers[2], 3);
}

#[test]
fn int_with_register_argument_reads_the_register() {
    let (r, st) = run(vec![
        imm(24, 5, 314),
        imm(24, 8, 3),
        reg2(23, 5, 0),
        imm(22, 0, 0),
    ]);
    assert_eq!(r, RunStatus::Exited(0));
    let expected: Vec<char> = "314".chars().collect();
    assert_eq!(st.output, expected);
}
