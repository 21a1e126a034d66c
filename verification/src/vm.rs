//! The virtual machine: ten 64-bit registers (`r0` through `r8` and `sp`),
//! one comparison flag, a heap of 64-bit words grown only by the allocate
//! interrupt, a call stack of return indices, and an instruction pointer.
//!
//! One step fetches the instruction under the instruction pointer and
//! dispatches on its opcode; running off the end of the program is a clean
//! exit with code 0. Arithmetic wraps modulo 2^64; shift amounts are taken
//! modulo 64. The machine's output (the `putc` and `putu` interrupts) is
//! collected as a character sequence in the state; the exit interrupt
//! carries the exit code.
use vstd::prelude::*;
use vstd::pervasive::VecAdditionalExecFns;
use vstd::wrapping::u64_specs;
use crate::assemble::ByteCodeCompiler;
use crate::codec::Line;
use crate::errors::VmError;

verus! {

/// The digit character of one decimal digit.
pub open spec fn dec_digit_char(d: int) -> char {
    if d == 0 {
        '0'
    } else if d == 1 {
        '1'
    } else if d == 2 {
        '2'
    } else if d == 3 {
        '3'
    } else if d == 4 {
        '4'
    } else if d == 5 {
        '5'
    } else if d == 6 {
        '6'
    } else if d == 7 {
        '7'
    } else if d == 8 {
        '8'
    } else {
        '9'
    }
}

/// The decimal digit string of a number, most significant digit first.
pub open spec fn spec_dec_chars(n: int) -> Seq<char>
    decreases n,
{
    if n < 10 {
        seq![dec_digit_char(n)]
    } else {
        spec_dec_chars(n / 10).push(dec_digit_char(n % 10))
    }
}

/// The run-time state of the virtual machine.
pub struct VmState {
    pub registers: Vec<u64>,
    pub mem: Vec<u64>,
    pub carrierbit: bool,
    pub callStack: Vec<u64>,
    pub ip: u64,
    pub output: Vec<char>,
}

/// The mathematical shape of the machine state.
#[verifier::ext_equal]
pub struct VmSnap {
    pub regs: Seq<u64>,
    pub mem: Seq<u64>,
    pub flag: bool,
    pub stack: Seq<u64>,
    pub ip: u64,
    pub out: Seq<char>,
}

impl View for VmState {
    type V = VmSnap;

    open spec fn view(&self) -> VmSnap {
        VmSnap {
            regs: self.registers@,
            mem: self.mem@,
            flag: self.carrierbit,
            stack: self.callStack@,
            ip: self.ip,
            out: self.output@,
        }
    }
}

/// A machine state is well formed when it has exactly the ten registers.
pub open spec fn vm_wf(s: VmSnap) -> bool {
    s.regs.len() == 10
}

/// The initial state: all registers zero, the flag clear, the heap and the
/// call stack empty, the instruction pointer at index 0.
pub open spec fn init_snap() -> VmSnap {
    VmSnap {
        regs: seq![0u64, 0u64, 0u64, 0u64, 0u64, 0u64, 0u64, 0u64, 0u64, 0u64],
        mem: Seq::empty(),
        flag: false,
        stack: Seq::empty(),
        ip: 0u64,
        out: Seq::empty(),
    }
}

impl VmState {
    /// A machine in its initial state.
    pub fn new() -> (r: VmState)
        ensures
            r@ == init_snap(),
            vm_wf(r@),
    {
        let mut registers: Vec<u64> = Vec::new();
        let mut i: usize = 0;
        while i < 10
            invariant
                i <= 10,
                registers@ =~= Seq::new(i as nat, |_x: int| 0u64),
            decreases 10 - i,
        {
            registers.push(0);
            i += 1;
        }
        let r = VmState {
            registers,
            mem: Vec::new(),
            carrierbit: false,
            callStack: Vec::new(),
            ip: 0,
            output: Vec::new(),
        };
        proof {
            assert(r@.regs =~= init_snap().regs);
            assert(r@.mem =~= init_snap().mem);
            assert(r@.stack =~= init_snap().stack);
            assert(r@.out =~= init_snap().out);
        }
        r
    }
}

/// What one step of the machine did.
#[derive(Clone, Copy, Debug, PartialEq, Eq, Structural)]
pub enum StepKind {
    /// The machine goes on with the next state.
    Next,
    /// The program terminated with this exit code.
    Exit(u64),
    /// A fatal run-time error; the machine aborts.
    Fail(VmError),
}

/// The value of an operand: the named register's content when the flag
/// says register, else the immediate itself; `None` for a register index
/// out of range.
pub open spec fn resolve(s: VmSnap, arg: u64, is_reg: bool) -> Option<u64> {
    if is_reg {
        if arg < 10 {
            Some(s.regs[arg as int])
        } else {
            None
        }
    } else {
        Some(arg)
    }
}

/// The result of a binary arithmetic or bit operation, for the opcodes 2
/// through 10. Addition, subtraction and multiplication wrap; shifts take
/// the amount modulo 64; division is handled by the caller when the
/// divisor is zero.
pub open spec fn alu_result(op: u8, x: u64, y: u64) -> u64 {
    if op == 2 {
        u64_specs::wrapping_add(x, y)
    } else if op == 3 {
        u64_specs::wrapping_sub(x, y)
    } else if op == 4 {
        x / y
    } else if op == 5 {
        u64_specs::wrapping_mul(x, y)
    } else if op == 6 {
        x & y
    } else if op == 7 {
        x | y
    } else if op == 8 {
        x ^ y
    } else if op == 9 {
        x >> (y % 64)
    } else {
        x << (y % 64)
    }
}

/// The flag value of a comparison, for the opcodes 18 through 21.
pub open spec fn cmp_result(op: u8, x: u64, y: u64) -> bool {
    if op == 18 {
        x == y
    } else if op == 19 {
        x != y
    } else if op == 20 {
        x > y
    } else {
        x < y
    }
}

/// A state advanced to the next instruction.
pub open spec fn advanced(s: VmSnap) -> VmSnap {
    VmSnap { ip: (s.ip + 1) as u64, ..s }
}

/// Whether a 32-bit value is a Unicode scalar value.
pub open spec fn is_unicode_scalar(v: u32) -> bool {
    v < 0xD800 || (0xE000 <= v && v <= 0x10FFFF)
}

/// The character with a given scalar value.
pub open spec fn char_of_scalar(v: u32) -> char {
    choose|c: char| (#[trigger] (c as u32)) == v
}

/// One step of the machine on a well-formed state: the successor state and
/// what the step did. Off the end of the program is a clean exit 0.
pub open spec fn step_spec(prog: Seq<Line>, s: VmSnap) -> (VmSnap, StepKind) {
    if s.ip >= prog.len() {
        (s, StepKind::Exit(0u64))
    } else {
        let l = prog[s.ip as int];
        let op = l.instruction;
        if op == 1 {
            // mov: both operands are register indices.
            if l.arg1 < 10 && l.arg2 < 10 {
                (
                    advanced(VmSnap { regs: s.regs.update(l.arg1 as int, s.regs[l.arg2 as int]), ..s }),
                    StepKind::Next,
                )
            } else {
                (s, StepKind::Fail(VmError::BadRegister))
            }
        } else if 2 <= op && op <= 10 {
            // Arithmetic and bit operations on the register named by arg1.
            match resolve(s, l.arg2, l.arg2IsReg) {
                None => (s, StepKind::Fail(VmError::BadRegister)),
                Some(y) => if l.arg1 >= 10 {
                    (s, StepKind::Fail(VmError::BadRegister))
                } else if op == 4 && y == 0 {
                    (s, StepKind::Fail(VmError::DivideByZero))
                } else {
                    (
                        advanced(
                            VmSnap {
                                regs: s.regs.update(
                                    l.arg1 as int,
                                    alu_result(op, s.regs[l.arg1 as int], y),
                                ),
                                ..s
                            },
                        ),
                        StepKind::Next,
                    )
                },
            }
        } else if op == 11 {
            // store: heap[value(arg1)] <- value(arg2)
            match (resolve(s, l.arg1, l.arg1IsReg), resolve(s, l.arg2, l.arg2IsReg)) {
                (Some(addr), Some(v)) => if addr < s.mem.len() {
                    (advanced(VmSnap { mem: s.mem.update(addr as int, v), ..s }), StepKind::Next)
                } else {
                    (s, StepKind::Fail(VmError::HeapOutOfBounds))
                },
                _ => (s, StepKind::Fail(VmError::BadRegister)),
            }
        } else if op == 12 {
            // load: registers[arg1] <- heap[value(arg2)]
            match resolve(s, l.arg2, l.arg2IsReg) {
                None => (s, StepKind::Fail(VmError::BadRegister)),
                Some(addr) => if l.arg1 >= 10 {
                    (s, StepKind::Fail(VmError::BadRegister))
                } else if addr < s.mem.len() {
                    (
                        advanced(VmSnap { regs: s.regs.update(l.arg1 as int, s.mem[addr as int]), ..s }),
                        StepKind::Next,
                    )
                } else {
                    (s, StepKind::Fail(VmError::HeapOutOfBounds))
                },
            }
        } else if op == 13 {
            // push: sp += 1; heap[sp] <- value(arg1)
            match resolve(s, l.arg1, l.arg1IsReg) {
                None => (s, StepKind::Fail(VmError::BadRegister)),
                Some(v) => {
                    let sp = u64_specs::wrapping_add(s.regs[9], 1);
                    if sp < s.mem.len() {
                        (
                            advanced(
                                VmSnap {
                                    regs: s.regs.update(9, sp),
                                    mem: s.mem.update(sp as int, v),
                                    ..s
                                },
                            ),
                            StepKind::Next,
                        )
                    } else {
                        (s, StepKind::Fail(VmError::HeapOutOfBounds))
                    }
                },
            }
        } else if op == 14 {
            // pop: registers[arg1] <- heap[sp]; sp -= 1
            if l.arg1 >= 10 {
                (s, StepKind::Fail(VmError::BadRegister))
            } else if s.regs[9] < s.mem.len() {
                let r1 = s.regs.update(l.arg1 as int, s.mem[s.regs[9] as int]);
                let r2 = r1.update(9, u64_specs::wrapping_sub(r1[9], 1));
                (advanced(VmSnap { regs: r2, ..s }), StepKind::Next)
            } else {
                (s, StepKind::Fail(VmError::HeapOutOfBounds))
            }
        } else if op == 15 {
            // jmp
            match resolve(s, l.arg1, l.arg1IsReg) {
                None => (s, StepKind::Fail(VmError::BadRegister)),
                Some(t) => (VmSnap { ip: t, ..s }, StepKind::Next),
            }
        } else if op == 16 {
            // jz: jump when the flag is set.
            if s.flag {
                match resolve(s, l.arg1, l.arg1IsReg) {
                    None => (s, StepKind::Fail(VmError::BadRegister)),
                    Some(t) => (VmSnap { ip: t, ..s }, StepKind::Next),
                }
            } else {
                (advanced(s), StepKind::Next)
            }
        } else if op == 17 {
            // jnz: jump when the flag is clear.
            if !s.flag {
                match resolve(s, l.arg1, l.arg1IsReg) {
                    None => (s, StepKind::Fail(VmError::BadRegister)),
                    Some(t) => (VmSnap { ip: t, ..s }, StepKind::Next),
                }
            } else {
                (advanced(s), StepKind::Next)
            }
        } else if 18 <= op && op <= 21 {
            // Comparisons set the flag.
            match (resolve(s, l.arg1, l.arg1IsReg), resolve(s, l.arg2, l.arg2IsReg)) {
                (Some(x), Some(y)) => (
                    advanced(VmSnap { flag: cmp_result(op, x, y), ..s }),
                    StepKind::Next,
                ),
                _ => (s, StepKind::Fail(VmError::BadRegister)),
            }
        } else if op == 22 {
            // hlt: the exit interrupt with value 0.
            (s, StepKind::Exit(0u64))
        } else if op == 23 {
            // int: the interrupt number is the low byte of r8.
            match resolve(s, l.arg1, l.arg1IsReg) {
                None => (s, StepKind::Fail(VmError::BadRegister)),
                Some(v) => {
                    let code = s.regs[8] as u8;
                    if code == 0 {
                        (s, StepKind::Exit(v))
                    } else if code == 1 {
                        // alloc: grow the heap, return the old end in r7.
                        let start = s.mem.len() as u64;
                        (
                            advanced(
                                VmSnap {
                                    regs: s.regs.update(7, start),
                                    mem: s.mem + Seq::new(v as nat, |_x: int| 0u64),
                                    ..s
                                },
                            ),
                            StepKind::Next,
                        )
                    } else if code == 2 {
                        // putc: print one character.
                        let c32 = v as u32;
                        if is_unicode_scalar(c32) {
                            (
                                advanced(VmSnap { out: s.out.push(char_of_scalar(c32)), ..s }),
                                StepKind::Next,
                            )
                        } else {
                            (s, StepKind::Fail(VmError::InvalidScalar))
                        }
                    } else if code == 3 {
                        // putu: print a decimal unsigned integer.
                        (advanced(VmSnap { out: s.out + spec_dec_chars(v as int), ..s }), StepKind::Next)
                    } else if code == 4 {
                        // heap_end: the heap length in r7.
                        (
                            advanced(VmSnap { regs: s.regs.update(7, s.mem.len() as u64), ..s }),
                            StepKind::Next,
                        )
                    } else {
                        (s, StepKind::Fail(VmError::BadInterrupt))
                    }
                },
            }
        } else if op == 24 {
            // set: an immediate into the register named by arg1.
            if l.arg1 < 10 {
                (advanced(VmSnap { regs: s.regs.update(l.arg1 as int, l.arg2), ..s }), StepKind::Next)
            } else {
                (s, StepKind::Fail(VmError::BadRegister))
            }
        } else if op == 25 {
            // call: push the return index, jump.
            match resolve(s, l.arg1, l.arg1IsReg) {
                None => (s, StepKind::Fail(VmError::BadRegister)),
                Some(t) => (
                    VmSnap { stack: s.stack.push((s.ip + 1) as u64), ip: t, ..s },
                    StepKind::Next,
                ),
            }
        } else if op == 26 {
            // ret: pop the return index.
            if s.stack.len() == 0 {
                (s, StepKind::Fail(VmError::EmptyCallStack))
            } else {
                (VmSnap { stack: s.stack.drop_last(), ip: s.stack.last(), ..s }, StepKind::Next)
            }
        } else {
            (s, StepKind::Fail(VmError::BadOpcode))
        }
    }
}

/// How a bounded run ended.
#[derive(Clone, Copy, Debug, PartialEq, Eq, Structural)]
pub enum RunStatus {
    /// The program terminated with this exit code.
    Exited(u64),
    /// The step budget ran out first; the state is ready to resume.
    OutOfSteps,
    /// A fatal run-time error.
    Failed(VmError),
}

/// Up to `fuel` steps of the machine: the state reached and how the run
/// ended.
pub open spec fn run_spec(prog: Seq<Line>, s: VmSnap, fuel: nat) -> (VmSnap, RunStatus)
    decreases fuel,
{
    if fuel == 0 {
        (s, RunStatus::OutOfSteps)
    } else {
        let (s2, k) = step_spec(prog, s);
        match k {
            StepKind::Next => run_spec(prog, s2, (fuel - 1) as nat),
            StepKind::Exit(c) => (s2, RunStatus::Exited(c)),
            StepKind::Fail(e) => (s2, RunStatus::Failed(e)),
        }
    }
}

/// After a comparison the flag holds exactly the compared relation, and
/// nothing else of the state changes but the instruction pointer.
pub proof fn lemma_comparison_sets_flag(prog: Seq<Line>, s: VmSnap, x: u64, y: u64)
    requires
        vm_wf(s),
        s.ip < prog.len(),
        s.ip < u64::MAX,
        18 <= prog[s.ip as int].instruction <= 21,
        resolve(s, prog[s.ip as int].arg1, prog[s.ip as int].arg1IsReg) == Some(x),
        resolve(s, prog[s.ip as int].arg2, prog[s.ip as int].arg2IsReg) == Some(y),
    ensures
        ({
            let (s2, k) = step_spec(prog, s);
            k == StepKind::Next && s2.flag == cmp_result(prog[s.ip as int].instruction, x, y)
                && s2.regs == s.regs && s2.mem == s.mem && s2.stack == s.stack && s2.out == s.out
                && s2.ip == s.ip + 1
        }),
{
}

/// Flag-jump duality: from one state, a `jz` and a `jnz` with the same
/// immediate target behave as exact opposites — when the flag is set the
/// `jz` jumps to the target and the `jnz` falls through, and the other
/// way round when it is clear. Neither touches anything but the
/// instruction pointer.
pub proof fn lemma_flag_jump_duality(p1: Seq<Line>, p2: Seq<Line>, s: VmSnap, t: u64)
    requires
        vm_wf(s),
        s.ip < p1.len(),
        s.ip < p2.len(),
        s.ip < u64::MAX,
        p1[s.ip as int].instruction == 16,
        p1[s.ip as int].arg1 == t,
        !p1[s.ip as int].arg1IsReg,
        p2[s.ip as int].instruction == 17,
        p2[s.ip as int].arg1 == t,
        !p2[s.ip as int].arg1IsReg,
    ensures
        ({
            let (s1, k1) = step_spec(p1, s);
            let (s2, k2) = step_spec(p2, s);
            k1 == StepKind::Next && k2 == StepKind::Next && (s.flag ==> s1.ip == t && s2.ip == s.ip
                + 1) && (!s.flag ==> s1.ip == s.ip + 1 && s2.ip == t) && s1.regs == s.regs
                && s1.mem == s.mem && s1.out == s.out && s1.stack == s.stack && s1.flag == s.flag
                && s2.regs == s.regs && s2.mem == s.mem && s2.out == s.out && s2.stack == s.stack
                && s2.flag == s.flag
        }),
{
}

/// Push/pop inverse: a `push rk` followed by a `pop rm` (with `rm` not the
/// stack pointer itself) leaves `rm` holding what `rk` held, restores the
/// stack pointer, and changes the heap at no index at or below the old
/// stack pointer.
pub proof fn lemma_push_pop_inverse(prog: Seq<Line>, s: VmSnap, k: u64, m: u64)
    requires
        vm_wf(s),
        s.ip as int + 1 < prog.len(),
        s.ip < u64::MAX - 1,
        prog[s.ip as int].instruction == 13,
        prog[s.ip as int].arg1 == k,
        prog[s.ip as int].arg1IsReg,
        k < 10,
        prog[s.ip as int + 1].instruction == 14,
        prog[s.ip as int + 1].arg1 == m,
        m < 10,
        m != 9,
        s.regs[9] < u64::MAX,
        s.regs[9] + 1 < s.mem.len(),
    ensures
        ({
            let (s1, k1) = step_spec(prog, s);
            let (s2, k2) = step_spec(prog, s1);
            k1 == StepKind::Next && k2 == StepKind::Next && s2.regs[m as int] == s.regs[k as int]
                && s2.regs[9] == s.regs[9] && s2.mem.len() == s.mem.len() && (forall|a: int|
                0 <= a <= s.regs[9] ==> s2.mem[a] == s.mem[a]) && s2.ip == s.ip + 2 && s2.out
                == s.out && s2.stack == s.stack && s2.flag == s.flag
        }),
{
    let (s1, k1) = step_spec(prog, s);
    assert(s1.regs[9] == s.regs[9] + 1);
    let (s2, k2) = step_spec(prog, s1);
    assert(s2.regs =~= s1.regs.update(m as int, s1.mem[s1.regs[9] as int]).update(9, s.regs[9]));
}

/// Relies on core::char::from_u32, which returns the character of every
/// Unicode scalar value; the argument never names a surrogate here.
#[verifier::external_body]
fn char_from_scalar(v: u32) -> (c: char)
    requires
        is_unicode_scalar(v),
    ensures
        c as u32 == v,
{
    match char::from_u32(v) {
        Some(c) => c,
        None => ' ',
    }
}

/// One decimal digit as a character.
fn dec_digit(d: u64) -> (c: char)
    requires
        d < 10,
    ensures
        c == dec_digit_char(d as int),
{
    if d == 0 {
        '0'
    } else if d == 1 {
        '1'
    } else if d == 2 {
        '2'
    } else if d == 3 {
        '3'
    } else if d == 4 {
        '4'
    } else if d == 5 {
        '5'
    } else if d == 6 {
        '6'
    } else if d == 7 {
        '7'
    } else if d == 8 {
        '8'
    } else {
        '9'
    }
}

/// Appends the decimal digits of a number.
fn push_dec(n: u64, out: &mut Vec<char>)
    ensures
        final(out)@ == old(out)@ + spec_dec_chars(n as int),
    decreases n,
{
    if n < 10 {
        let c = dec_digit(n);
        out.push(c);
        proof {
            assert(old(out)@ + spec_dec_chars(n as int) =~= old(out)@.push(
                dec_digit_char(n as int),
            ));
        }
    } else {
        push_dec(n / 10, out);
        let c = dec_digit(n % 10);
        out.push(c);
        proof {
            assert(old(out)@ + spec_dec_chars(n as int) =~= (old(out)@ + spec_dec_chars(
                n as int / 10,
            )).push(dec_digit_char(n as int % 10)));
        }
    }
}

/// The value of an operand in the current state.
fn resolve_arg(state: &VmState, arg: u64, is_reg: bool) -> (r: Option<u64>)
    requires
        vm_wf(state@),
    ensures
        r == resolve(state@, arg, is_reg),
{
    if is_reg {
        if arg < 10 {
            Some(state.registers[arg as usize])
        } else {
            None
        }
    } else {
        Some(arg)
    }
}

/// One step of the machine on the given program.
pub fn step(lines: &Vec<Line>, state: &mut VmState) -> (r: StepKind)
    requires
        vm_wf(old(state)@),
    ensures
        final(state)@ == step_spec(lines@, old(state)@).0,
        r == step_spec(lines@, old(state)@).1,
        vm_wf(final(state)@),
{
    let ghost s0 = old(state)@;
    if state.ip >= lines.len() as u64 {
        return StepKind::Exit(0);
    }
    let l = lines[state.ip as usize];
    let op = l.instruction;
    if op == 1 {
        if l.arg1 < 10 && l.arg2 < 10 {
            let v = state.registers[l.arg2 as usize];
            state.registers.set(l.arg1 as usize, v);
            state.ip = state.ip + 1;
            proof {
                assert(state@ =~= step_spec(lines@, s0).0);
            }
            return StepKind::Next;
        }
        return StepKind::Fail(VmError::BadRegister);
    }
    if 2 <= op && op <= 10 {
        match resolve_arg(state, l.arg2, l.arg2IsReg) {
            None => {
                return StepKind::Fail(VmError::BadRegister);
            },
            Some(y) => {
                if l.arg1 >= 10 {
                    return StepKind::Fail(VmError::BadRegister);
                }
                if op == 4 && y == 0 {
                    return StepKind::Fail(VmError::DivideByZero);
                }
                let x = state.registers[l.arg1 as usize];
                let z: u64 = if op == 2 {
                    x.wrapping_add(y)
                } else if op == 3 {
                    x.wrapping_sub(y)
                } else if op == 4 {
                    x / y
                } else if op == 5 {
                    x.wrapping_mul(y)
                } else if op == 6 {
                    x & y
                } else if op == 7 {
                    x | y
                } else if op == 8 {
                    x ^ y
                } else if op == 9 {
                    x >> (y % 64)
                } else {
                    x << (y % 64)
                };
                proof {
                    assert(z == alu_result(op, x, y));
                }
                state.registers.set(l.arg1 as usize, z);
                state.ip = state.ip + 1;
                proof {
                    assert(state@ =~= step_spec(lines@, s0).0);
                }
                return StepKind::Next;
            },
        }
    }
    if op == 11 {
        let a_opt = resolve_arg(state, l.arg1, l.arg1IsReg);
        let v_opt = resolve_arg(state, l.arg2, l.arg2IsReg);
        match (a_opt, v_opt) {
            (Some(addr), Some(v)) => {
                if addr < state.mem.len() as u64 {
                    state.mem.set(addr as usize, v);
                    state.ip = state.ip + 1;
                    proof {
                        assert(state@ =~= step_spec(lines@, s0).0);
                    }
                    return StepKind::Next;
                }
                return StepKind::Fail(VmError::HeapOutOfBounds);
            },
            _ => {
                return StepKind::Fail(VmError::BadRegister);
            },
        }
    }
    if op == 12 {
        match resolve_arg(state, l.arg2, l.arg2IsReg) {
            None => {
                return StepKind::Fail(VmError::BadRegister);
            },
            Some(addr) => {
                if l.arg1 >= 10 {
                    return StepKind::Fail(VmError::BadRegister);
                }
                if addr < state.mem.len() as u64 {
                    let v = state.mem[addr as usize];
                    state.registers.set(l.arg1 as usize, v);
                    state.ip = state.ip + 1;
                    proof {
                        assert(state@ =~= step_spec(lines@, s0).0);
                    }
                    return StepKind::Next;
                }
                return StepKind::Fail(VmError::HeapOutOfBounds);
            },
        }
    }
    if op == 13 {
        match resolve_arg(state, l.arg1, l.arg1IsReg) {
            None => {
                return StepKind::Fail(VmError::BadRegister);
            },
            Some(v) => {
                let sp = state.registers[9].wrapping_add(1);
                if sp < state.mem.len() as u64 {
                    state.registers.set(9, sp);
                    state.mem.set(sp as usize, v);
                    state.ip = state.ip + 1;
                    proof {
                        assert(state@ =~= step_spec(lines@, s0).0);
                    }
                    return StepKind::Next;
                }
                return StepKind::Fail(VmError::HeapOutOfBounds);
            },
        }
    }
    if op == 14 {
        if l.arg1 >= 10 {
            return StepKind::Fail(VmError::BadRegister);
        }
        let sp = state.registers[9];
        if sp < state.mem.len() as u64 {
            let v = state.mem[sp as usize];
            state.registers.set(l.arg1 as usize, v);
            let sp2 = state.registers[9].wrapping_sub(1);
            state.registers.set(9, sp2);
            state.ip = state.ip + 1;
            proof {
                assert(state@ =~= step_spec(lines@, s0).0);
            }
            return StepKind::Next;
        }
        return StepKind::Fail(VmError::HeapOutOfBounds);
    }
    if op == 15 {
        match resolve_arg(state, l.arg1, l.arg1IsReg) {
            None => {
                return StepKind::Fail(VmError::BadRegister);
            },
            Some(t) => {
                state.ip = t;
                proof {
                    assert(state@ =~= step_spec(lines@, s0).0);
                }
                return StepKind::Next;
            },
        }
    }
    if op == 16 {
        if state.carrierbit {
            match resolve_arg(state, l.arg1, l.arg1IsReg) {
                None => {
                    return StepKind::Fail(VmError::BadRegister);
                },
                Some(t) => {
                    state.ip = t;
                    proof {
                        assert(state@ =~= step_spec(lines@, s0).0);
                    }
                    return StepKind::Next;
                },
            }
        }
        state.ip = state.ip + 1;
        proof {
            assert(state@ =~= step_spec(lines@, s0).0);
        }
        return StepKind::Next;
    }
    if op == 17 {
        if !state.carrierbit {
            match resolve_arg(state, l.arg1, l.arg1IsReg) {
                None => {
                    return StepKind::Fail(VmError::BadRegister);
                },
                Some(t) => {
                    state.ip = t;
                    proof {
                        assert(state@ =~= step_spec(lines@, s0).0);
                    }
                    return StepKind::Next;
                },
            }
        }
        state.ip = state.ip + 1;
        proof {
            assert(state@ =~= step_spec(lines@, s0).0);
        }
        return StepKind::Next;
    }
    if 18 <= op && op <= 21 {
        let x_opt = resolve_arg(state, l.arg1, l.arg1IsReg);
        let y_opt = resolve_arg(state, l.arg2, l.arg2IsReg);
        match (x_opt, y_opt) {
            (Some(x), Some(y)) => {
                let f: bool = if op == 18 {
                    x == y
                } else if op == 19 {
                    x != y
                } else if op == 20 {
                    x > y
                } else {
                    x < y
                };
                state.carrierbit = f;
                state.ip = state.ip + 1;
                proof {
                    assert(state@ =~= step_spec(lines@, s0).0);
                }
                return StepKind::Next;
            },
            _ => {
                return StepKind::Fail(VmError::BadRegister);
            },
        }
    }
    if op == 22 {
        return StepKind::Exit(0);
    }
    if op == 23 {
        match resolve_arg(state, l.arg1, l.arg1IsReg) {
            None => {
                return StepKind::Fail(VmError::BadRegister);
            },
            Some(v) => {
                let code = state.registers[8] as u8;
                if code == 0 {
                    return StepKind::Exit(v);
                }
                if code == 1 {
                    let start = state.mem.len() as u64;
                    let ghost oldmem = state.mem@;
                    let ghost oldregs = state.registers@;
                    let ghost oldflag = state.carrierbit;
                    let ghost oldstack = state.callStack@;
                    let ghost oldip = state.ip;
                    let ghost oldout = state.output@;
                    let mut j: u64 = 0;
                    proof {
                        assert(state.mem@ =~= oldmem + Seq::new(0nat, |_x: int| 0u64));
                    }
                    while j < v
                        invariant
                            j <= v,
                            state.mem@ == oldmem + Seq::new(j as nat, |_x: int| 0u64),
                            state.registers@ == oldregs,
                            state.carrierbit == oldflag,
                            state.callStack@ == oldstack,
                            state.ip == oldip,
                            state.output@ == oldout,
                        decreases v - j,
                    {
                        state.mem.push(0);
                        j = j + 1;
                        proof {
                            assert(state.mem@ =~= oldmem + Seq::new(j as nat, |_x: int| 0u64));
                        }
                    }
                    state.registers.set(7, start);
                    state.ip = state.ip + 1;
                    proof {
                        assert(state@ =~= step_spec(lines@, s0).0);
                    }
                    return StepKind::Next;
                }
                if code == 2 {
                    let c32 = v as u32;
                    if c32 < 0xD800 || (c32 >= 0xE000 && c32 <= 0x10FFFF) {
                        let c = char_from_scalar(c32);
                        proof {
                            assert(char_of_scalar(c32) as u32 == c32) by {
                                assert(c as u32 == c32);
                            }
                            assert(char_of_scalar(c32) == c);
                        }
                        state.output.push(c);
                        state.ip = state.ip + 1;
                        proof {
                            assert(state@ =~= step_spec(lines@, s0).0);
                        }
                        return StepKind::Next;
                    }
                    return StepKind::Fail(VmError::InvalidScalar);
                }
                if code == 3 {
                    push_dec(v, &mut state.output);
                    state.ip = state.ip + 1;
                    proof {
                        assert(state@ =~= step_spec(lines@, s0).0);
                    }
                    return StepKind::Next;
                }
                if code == 4 {
                    let e = state.mem.len() as u64;
                    state.registers.set(7, e);
                    state.ip = state.ip + 1;
                    proof {
                        assert(state@ =~= step_spec(lines@, s0).0);
                    }
                    return StepKind::Next;
                }
                return StepKind::Fail(VmError::BadInterrupt);
            },
        }
    }
    if op == 24 {
        if l.arg1 < 10 {
            state.registers.set(l.arg1 as usize, l.arg2);
            state.ip = state.ip + 1;
            proof {
                assert(state@ =~= step_spec(lines@, s0).0);
            }
            return StepKind::Next;
        }
        return StepKind::Fail(VmError::BadRegister);
    }
    if op == 25 {
        match resolve_arg(state, l.arg1, l.arg1IsReg) {
            None => {
                return StepKind::Fail(VmError::BadRegister);
            },
            Some(t) => {
                let ret = state.ip + 1;
                state.callStack.push(ret);
                state.ip = t;
                proof {
                    assert(state@ =~= step_spec(lines@, s0).0);
                }
                return StepKind::Next;
            },
        }
    }
    if op == 26 {
        match state.callStack.pop() {
            Some(t) => {
                state.ip = t;
                proof {
                    assert(state@ =~= step_spec(lines@, s0).0);
                }
                return StepKind::Next;
            },
            None => {
                return StepKind::Fail(VmError::EmptyCallStack);
            },
        }
    }
    StepKind::Fail(VmError::BadOpcode)
}

/// Runs the machine for up to `max_steps` steps. The state is left ready
/// to resume when the budget runs out first.
pub fn run_steps(lines: &Vec<Line>, state: &mut VmState, max_steps: u64) -> (r: RunStatus)
    requires
        vm_wf(old(state)@),
    ensures
        final(state)@ == run_spec(lines@, old(state)@, max_steps as nat).0,
        r == run_spec(lines@, old(state)@, max_steps as nat).1,
        vm_wf(final(state)@),
{
    let mut fuel: u64 = max_steps;
    while fuel > 0
        invariant
            fuel <= max_steps,
            vm_wf(state@),
            run_spec(lines@, old(state)@, max_steps as nat) == run_spec(
                lines@,
                state@,
                fuel as nat,
            ),
        decreases fuel,
    {
        let k = step(lines, state);
        match k {
            StepKind::Next => {
                fuel = fuel - 1;
            },
            StepKind::Exit(c) => {
                return RunStatus::Exited(c);
            },
            StepKind::Fail(e) => {
                return RunStatus::Failed(e);
            },
        }
    }
    RunStatus::OutOfSteps
}

impl ByteCodeCompiler {
    /// Runs the compiled program against a machine state for up to
    /// `max_steps` steps; the caller resumes with the same state when the
    /// budget runs out first.
    pub fn run(&self, state: &mut VmState, max_steps: u64) -> (r: RunStatus)
        requires
            vm_wf(old(state)@),
        ensures
            final(state)@ == run_spec(self.lines@, old(state)@, max_steps as nat).0,
            r == run_spec(self.lines@, old(state)@, max_steps as nat).1,
            vm_wf(final(state)@),
    {
        run_steps(&self.lines, state, max_steps)
    }
}

} // verus!
