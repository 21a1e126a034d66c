//! The two-pass assembler core, working on the intermediate representation.
//!
//! Pass 1 walks the lines in order and binds each label to one more than
//! the number of instructions before it — which is exactly the index that
//! the next instruction will have in the final program, whose index 0 is
//! taken by the prologue. Pass 2 encodes every instruction, resolving the
//! first operand of a control transfer through the symbol table. Finally an
//! unconditional jump to `main` is placed at index 0.
use vstd::prelude::*;
use vstd::string::*;
use crate::codec::Line;
use crate::errors::AsmError;
use crate::ir::{IntermediateLanguage, IntermediateLanguageLine, IrLine};
use crate::opcodes::{is_control_transfer, mnemonic_opcode, opcode_of_mnemonic};
use crate::operand::classify_operand;
use crate::text::str_eq;

verus! {

/// One row of the symbol table: a label name bound to an instruction index
/// of the final program.
pub struct LabelBinding {
    pub name: String,
    pub index: u64,
}

impl View for LabelBinding {
    type V = (Seq<char>, u64);

    open spec fn view(&self) -> (Seq<char>, u64) {
        (self.name@, self.index)
    }
}

impl DeepView for LabelBinding {
    type V = (Seq<char>, u64);

    open spec fn deep_view(&self) -> (Seq<char>, u64) {
        self.view()
    }
}

/// The number of instruction lines (as opposed to label lines) of an
/// intermediate program.
pub open spec fn count_instructions(ir: Seq<IrLine>) -> int
    decreases ir.len(),
{
    if ir.len() == 0 {
        0
    } else {
        count_instructions(ir.drop_last()) + (if ir.last() is Instr {
            1int
        } else {
            0int
        })
    }
}

pub proof fn lemma_count_instructions_bounds(ir: Seq<IrLine>)
    ensures
        0 <= count_instructions(ir) <= ir.len(),
    decreases ir.len(),
{
    if ir.len() > 0 {
        lemma_count_instructions_bounds(ir.drop_last());
    }
}

/// The symbol table that pass 1 builds: for each label line, in order, its
/// name bound to the count of instructions before it plus one.
pub open spec fn spec_pass1(ir: Seq<IrLine>) -> Seq<(Seq<char>, u64)>
    decreases ir.len(),
{
    if ir.len() == 0 {
        Seq::empty()
    } else {
        let pre = spec_pass1(ir.drop_last());
        match ir.last() {
            IrLine::Label { name } => pre.push(
                (name, (count_instructions(ir.drop_last()) + 1) as u64),
            ),
            IrLine::Instr { .. } => pre,
        }
    }
}

/// The binding of a name in the symbol table: the first row with that name.
pub open spec fn lookup_label_spec(tbl: Seq<(Seq<char>, u64)>, name: Seq<char>) -> Option<u64>
    decreases tbl.len(),
{
    if tbl.len() == 0 {
        None
    } else if tbl[0].0 == name {
        Some(tbl[0].1)
    } else {
        lookup_label_spec(tbl.drop_first(), name)
    }
}

/// Whether two rows of the symbol table carry the same name.
pub open spec fn table_has_dup(tbl: Seq<(Seq<char>, u64)>) -> bool {
    exists|i: int, j: int| 0 <= i < j < tbl.len() && tbl[i].0 == tbl[j].0
}

pub proof fn lemma_lookup_some_iff_contains(tbl: Seq<(Seq<char>, u64)>, name: Seq<char>)
    ensures
        (lookup_label_spec(tbl, name) is Some) <==> (exists|k: int|
            0 <= k < tbl.len() && tbl[k].0 == name),
    decreases tbl.len(),
{
    if tbl.len() > 0 {
        if tbl[0].0 == name {
            assert(tbl[0].0 == name);
        } else {
            lemma_lookup_some_iff_contains(tbl.drop_first(), name);
            if exists|k: int| 0 <= k < tbl.len() && tbl[k].0 == name {
                let k = choose|k: int| 0 <= k < tbl.len() && tbl[k].0 == name;
                assert(tbl.drop_first()[k - 1].0 == name);
            }
            if exists|k: int| 0 <= k < tbl.drop_first().len() && tbl.drop_first()[k].0 == name {
                let k = choose|k: int|
                    0 <= k < tbl.drop_first().len() && tbl.drop_first()[k].0 == name;
                assert(tbl[k + 1].0 == name);
            }
        }
    }
}

/// A symbol table of a prefix is a prefix of the full symbol table.
pub proof fn lemma_pass1_prefix(ir: Seq<IrLine>, i: int)
    requires
        0 <= i <= ir.len(),
    ensures
        spec_pass1(ir.take(i)).is_prefix_of(spec_pass1(ir)),
    decreases ir.len() - i,
{
    if i == ir.len() {
        assert(ir.take(i) =~= ir);
        assert(spec_pass1(ir).is_prefix_of(spec_pass1(ir)));
    } else {
        lemma_pass1_prefix(ir, i + 1);
        let a = spec_pass1(ir.take(i));
        let b = spec_pass1(ir.take(i + 1));
        let c = spec_pass1(ir);
        assert(ir.take(i + 1).drop_last() =~= ir.take(i));
        assert(a.is_prefix_of(b));
        assert(a =~= b.take(a.len() as int));
        assert(b =~= c.take(b.len() as int));
        assert(a =~= c.take(a.len() as int));
    }
}

/// A duplicate pair in a prefix of a table is one in the whole table.
pub proof fn lemma_dup_in_prefix(a: Seq<(Seq<char>, u64)>, b: Seq<(Seq<char>, u64)>)
    requires
        a.is_prefix_of(b),
        table_has_dup(a),
    ensures
        table_has_dup(b),
{
    let (i, j) = choose|i: int, j: int| 0 <= i < j < a.len() && a[i].0 == a[j].0;
    assert(b[i].0 == b[j].0);
}

/// With no duplicate names, the lookup finds any row's own value.
pub proof fn lemma_lookup_unique(tbl: Seq<(Seq<char>, u64)>, name: Seq<char>, r: int)
    requires
        0 <= r < tbl.len(),
        tbl[r].0 == name,
        !table_has_dup(tbl),
    ensures
        lookup_label_spec(tbl, name) == Some(tbl[r].1),
    decreases tbl.len(),
{
    if tbl[0].0 == name {
        if r != 0 {
            assert(tbl[0].0 == tbl[r].0);
            assert(table_has_dup(tbl));
        }
    } else {
        let t2 = tbl.drop_first();
        assert(!table_has_dup(t2)) by {
            if table_has_dup(t2) {
                let (i, j) = choose|i: int, j: int|
                    0 <= i < j < t2.len() && t2[i].0 == t2[j].0;
                assert(tbl[i + 1].0 == tbl[j + 1].0);
            }
        }
        assert(t2[r - 1].0 == name);
        lemma_lookup_unique(t2, name, r - 1);
    }
}

/// The instruction count of a prefix never exceeds that of a longer one.
pub proof fn lemma_count_take_monotone(ir: Seq<IrLine>, a: int, b: int)
    requires
        0 <= a <= b <= ir.len(),
    ensures
        count_instructions(ir.take(a)) <= count_instructions(ir.take(b)),
    decreases b - a,
{
    if a < b {
        assert(ir.take(a + 1).drop_last() =~= ir.take(a));
        lemma_count_take_monotone(ir, a + 1, b);
    }
}

/// Between two positions with no instruction line, the count stands still.
pub proof fn lemma_count_take_constant(ir: Seq<IrLine>, a: int, b: int)
    requires
        0 <= a <= b <= ir.len(),
        forall|q: int| a <= q < b ==> !(ir[q] is Instr),
    ensures
        count_instructions(ir.take(b)) == count_instructions(ir.take(a)),
    decreases b - a,
{
    if a < b {
        assert(ir.take(b).drop_last() =~= ir.take(b - 1));
        assert(ir.take(b).last() == ir[b - 1]);
        lemma_count_take_constant(ir, a, b - 1);
    }
}

/// Pass 1 binds a label to one more than the number of instructions
/// before it — for every label, when no label name is defined twice.
pub proof fn lemma_pass1_binding(ir: Seq<IrLine>, j: int, name: Seq<char>)
    requires
        0 <= j < ir.len(),
        ir[j] == (IrLine::Label { name }),
        !table_has_dup(spec_pass1(ir)),
    ensures
        lookup_label_spec(spec_pass1(ir), name) == Some(
            ((count_instructions(ir.take(j)) + 1) as u64),
        ),
{
    let tbl = spec_pass1(ir);
    let t1 = ir.take(j + 1);
    let pre_t = spec_pass1(ir.take(j));
    assert(t1.drop_last() =~= ir.take(j));
    assert(t1.last() == ir[j]);
    let row = (name, (count_instructions(ir.take(j)) + 1) as u64);
    assert(spec_pass1(t1) == pre_t.push(row));
    lemma_pass1_prefix(ir, j + 1);
    let r = pre_t.len() as int;
    assert(spec_pass1(t1).len() == r + 1);
    assert(r + 1 <= tbl.len());
    assert(spec_pass1(t1) == tbl.subrange(0, r + 1));
    assert(tbl.subrange(0, r + 1)[r] == tbl[r]);
    assert(tbl[r] == row);
    lemma_lookup_unique(tbl, name, r);
}

/// A successful pass 2 emits exactly one record per instruction line.
pub proof fn lemma_pass2_len(ir: Seq<IrLine>, tbl: Seq<(Seq<char>, u64)>)
    requires
        spec_pass2(ir, tbl) is Ok,
    ensures
        spec_pass2(ir, tbl).unwrap().len() == count_instructions(ir),
    decreases ir.len(),
{
    if ir.len() > 0 {
        lemma_pass2_len(ir.drop_last(), tbl);
    }
}

/// In a successful pass 2, the instruction at position `p` of the
/// intermediate program stands in the emitted body at the index given by
/// the count of instructions before it.
pub proof fn lemma_pass2_instruction_at(
    ir: Seq<IrLine>,
    tbl: Seq<(Seq<char>, u64)>,
    p: int,
    m: Seq<char>,
    a1: Seq<char>,
    a2: Seq<char>,
)
    requires
        0 <= p < ir.len(),
        ir[p] == (IrLine::Instr { mnemonic: m, arg1: a1, arg2: a2 }),
        spec_pass2(ir, tbl) is Ok,
    ensures
        spec_encode_ir_instr(m, a1, a2, tbl) is Ok,
        count_instructions(ir.take(p)) < spec_pass2(ir, tbl).unwrap().len(),
        spec_pass2(ir, tbl).unwrap()[count_instructions(ir.take(p))] == spec_encode_ir_instr(
            m,
            a1,
            a2,
            tbl,
        ).unwrap(),
    decreases ir.len(),
{
    let prev = ir.drop_last();
    if p == ir.len() - 1 {
        assert(ir.take(p) =~= prev);
        assert(ir.last() == ir[p]);
        lemma_pass2_len(prev, tbl);
        let pre = spec_pass2(prev, tbl).unwrap();
        let line = spec_encode_ir_instr(m, a1, a2, tbl).unwrap();
        assert(spec_pass2(ir, tbl).unwrap() == pre.push(line));
        assert(pre.push(line)[pre.len() as int] == line);
        assert(count_instructions(ir.take(p)) == pre.len());
    } else {
        assert(prev[p] == ir[p]);
        assert(spec_pass2(prev, tbl) is Ok);
        lemma_pass2_instruction_at(prev, tbl, p, m, a1, a2);
        assert(ir.take(p) =~= prev.take(p));
        let pre = spec_pass2(prev, tbl).unwrap();
        let idx = count_instructions(ir.take(p));
        lemma_count_instructions_bounds(ir.take(p));
        assert(0 <= idx < pre.len());
        match ir.last() {
            IrLine::Label { .. } => {
                assert(spec_pass2(ir, tbl).unwrap() == pre);
            },
            IrLine::Instr { mnemonic, arg1, arg2 } => {
                let line2 = spec_encode_ir_instr(mnemonic, arg1, arg2, tbl).unwrap();
                assert(spec_pass2(ir, tbl).unwrap() == pre.push(line2));
                assert(pre.push(line2)[idx] == pre[idx]);
            },
        }
    }
}

/// A successful assembly always places the prologue at index 0: an
/// unconditional jump whose target is the address bound for `main`, and
/// one record per instruction follows it.
pub proof fn lemma_prologue(ir: Seq<IrLine>)
    requires
        spec_compile(ir) is Ok,
    ensures
        lookup_label_spec(spec_pass1(ir), main_label()) is Some,
        spec_compile(ir).unwrap().len() == count_instructions(ir) + 1,
        spec_compile(ir).unwrap()[0] == jmp_prologue(
            lookup_label_spec(spec_pass1(ir), main_label()).unwrap(),
        ),
{
    lemma_pass2_len(ir, spec_pass1(ir));
}

/// Pass 1 label binding, read against the final program: a label bound
/// before an instruction carries the index of that instruction in the
/// assembled program, prologue included.
pub proof fn lemma_label_binding_final(
    ir: Seq<IrLine>,
    j: int,
    name: Seq<char>,
    p: int,
    m: Seq<char>,
    a1: Seq<char>,
    a2: Seq<char>,
)
    requires
        spec_compile(ir) is Ok,
        ir.len() < u64::MAX,
        0 <= j < p < ir.len(),
        ir[j] == (IrLine::Label { name }),
        ir[p] == (IrLine::Instr { mnemonic: m, arg1: a1, arg2: a2 }),
        forall|q: int| j < q < p ==> !(ir[q] is Instr),
    ensures
        ({
            let prog = spec_compile(ir).unwrap();
            let idx = lookup_label_spec(spec_pass1(ir), name);
            idx is Some && 1 <= idx.unwrap() < prog.len() && prog[idx.unwrap() as int]
                == spec_encode_ir_instr(m, a1, a2, spec_pass1(ir)).unwrap()
        }),
{
    let tbl = spec_pass1(ir);
    lemma_pass1_binding(ir, j, name);
    lemma_count_instructions_bounds(ir.take(j));
    assert(ir.take(j).len() == j);
    lemma_count_take_constant(ir, j, p);
    lemma_pass2_instruction_at(ir, tbl, p, m, a1, a2);
    lemma_pass2_len(ir, tbl);
}

/// The encoding of one instruction line under a symbol table.
pub open spec fn spec_encode_ir_instr(
    mnemonic: Seq<char>,
    arg1: Seq<char>,
    arg2: Seq<char>,
    tbl: Seq<(Seq<char>, u64)>,
) -> Result<Line, AsmError> {
    match opcode_of_mnemonic(mnemonic) {
        None => Err(AsmError::UnknownMnemonic),
        Some(op) => if is_control_transfer(op) {
            match lookup_label_spec(tbl, arg1) {
                None => Err(AsmError::UnknownLabel),
                Some(idx) => match classify_operand(arg2) {
                    Err(e) => Err(e),
                    Ok((v2, r2)) => Ok(
                        Line {
                            instruction: op,
                            arg1: idx,
                            arg1IsReg: false,
                            arg2: v2,
                            arg2IsReg: r2,
                        },
                    ),
                },
            }
        } else {
            match classify_operand(arg1) {
                Err(e) => Err(e),
                Ok((v1, r1)) => match classify_operand(arg2) {
                    Err(e) => Err(e),
                    Ok((v2, r2)) => Ok(
                        Line {
                            instruction: op,
                            arg1: v1,
                            arg1IsReg: r1,
                            arg2: v2,
                            arg2IsReg: r2,
                        },
                    ),
                },
            }
        },
    }
}

/// Pass 2: the instruction lines encoded in order; the first fatal line
/// decides the error.
pub open spec fn spec_pass2(ir: Seq<IrLine>, tbl: Seq<(Seq<char>, u64)>) -> Result<
    Seq<Line>,
    AsmError,
>
    decreases ir.len(),
{
    if ir.len() == 0 {
        Ok(Seq::empty())
    } else {
        match spec_pass2(ir.drop_last(), tbl) {
            Err(e) => Err(e),
            Ok(pre) => match ir.last() {
                IrLine::Label { .. } => Ok(pre),
                IrLine::Instr { mnemonic, arg1, arg2 } => match spec_encode_ir_instr(
                    mnemonic,
                    arg1,
                    arg2,
                    tbl,
                ) {
                    Err(e) => Err(e),
                    Ok(line) => Ok(pre.push(line)),
                },
            },
        }
    }
}

/// Once pass 2 fails on a prefix, the rest of the lines change nothing.
pub proof fn lemma_pass2_extends_err(ir: Seq<IrLine>, tbl: Seq<(Seq<char>, u64)>, i: int)
    requires
        0 <= i <= ir.len(),
        spec_pass2(ir.take(i), tbl) is Err,
    ensures
        spec_pass2(ir, tbl) == spec_pass2(ir.take(i), tbl),
    decreases ir.len() - i,
{
    if i == ir.len() {
        assert(ir.take(i) =~= ir);
    } else {
        assert(ir.take(i + 1).drop_last() =~= ir.take(i));
        lemma_pass2_extends_err(ir, tbl, i + 1);
    }
}

/// The name of the required entry label.
pub open spec fn main_label() -> Seq<char> {
    "main"@
}

/// The prologue placed at index 0: an unconditional jump to `main`.
pub open spec fn jmp_prologue(idx: u64) -> Line {
    Line { instruction: 15u8, arg1: idx, arg1IsReg: false, arg2: 0u64, arg2IsReg: false }
}

/// The whole assembly of an intermediate program: duplicate labels are
/// fatal, then pass 2 runs, then the jump to `main` is prepended.
pub open spec fn spec_compile(ir: Seq<IrLine>) -> Result<Seq<Line>, AsmError> {
    let tbl = spec_pass1(ir);
    if table_has_dup(tbl) {
        Err(AsmError::DuplicateLabel)
    } else {
        match spec_pass2(ir, tbl) {
            Err(e) => Err(e),
            Ok(body) => match lookup_label_spec(tbl, main_label()) {
                None => Err(AsmError::MissingMain),
                Some(idx) => Ok(seq![jmp_prologue(idx)] + body),
            },
        }
    }
}

/// A mnemonic's opcode always lies between 1 and 26; opcode 0 is reserved.
pub proof fn lemma_opcode_range(s: Seq<char>)
    requires
        opcode_of_mnemonic(s) is Some,
    ensures
        1 <= opcode_of_mnemonic(s).unwrap() <= 26,
{
}

/// Every binding of pass 1 lies between 1 and one more than the whole
/// instruction count.
pub proof fn lemma_pass1_values_bounded(ir: Seq<IrLine>)
    requires
        ir.len() < u64::MAX,
    ensures
        forall|r: int|
            0 <= r < spec_pass1(ir).len() ==> 1 <= (#[trigger] spec_pass1(ir)[r]).1
                <= count_instructions(ir) + 1,
    decreases ir.len(),
{
    if ir.len() > 0 {
        let prev = ir.drop_last();
        lemma_pass1_values_bounded(prev);
        lemma_count_instructions_bounds(prev);
        let pre = spec_pass1(prev);
        assert forall|r: int|
            0 <= r < spec_pass1(ir).len() implies 1 <= (#[trigger] spec_pass1(ir)[r]).1
            <= count_instructions(ir) + 1 by {
            match ir.last() {
                IrLine::Label { name } => {
                    if r < pre.len() {
                        assert(spec_pass1(ir)[r] == pre[r]);
                    } else {
                        assert(spec_pass1(ir)[r] == (
                            name,
                            (count_instructions(prev) + 1) as u64,
                        ));
                    }
                },
                IrLine::Instr { .. } => {
                    assert(spec_pass1(ir)[r] == pre[r]);
                },
            }
        }
    }
}

/// A found binding is the value of some row with the looked-up name.
pub proof fn lemma_lookup_in_values(tbl: Seq<(Seq<char>, u64)>, name: Seq<char>)
    requires
        lookup_label_spec(tbl, name) is Some,
    ensures
        exists|r: int|
            0 <= r < tbl.len() && (#[trigger] tbl[r]).0 == name && tbl[r].1 == lookup_label_spec(
                tbl,
                name,
            ).unwrap(),
    decreases tbl.len(),
{
    if tbl.len() > 0 {
        if tbl[0].0 == name {
            assert(tbl[0].0 == name && tbl[0].1 == lookup_label_spec(tbl, name).unwrap());
        } else {
            lemma_lookup_in_values(tbl.drop_first(), name);
            let r = choose|r: int|
                0 <= r < tbl.drop_first().len() && (#[trigger] tbl.drop_first()[r]).0 == name
                    && tbl.drop_first()[r].1 == lookup_label_spec(tbl.drop_first(), name).unwrap();
            assert(tbl[r + 1].0 == name && tbl[r + 1].1 == lookup_label_spec(tbl, name).unwrap());
        }
    }
}

/// Every record of a successful pass 2 carries an opcode between 1 and
/// 26, and a control transfer carries an immediate target no larger than
/// the bound that holds of every symbol-table value.
pub proof fn lemma_pass2_lines_guarantees(ir: Seq<IrLine>, tbl: Seq<(Seq<char>, u64)>, bound: int)
    requires
        spec_pass2(ir, tbl) is Ok,
        forall|r: int| 0 <= r < tbl.len() ==> 1 <= (#[trigger] tbl[r]).1 <= bound,
    ensures
        forall|i: int|
            0 <= i < spec_pass2(ir, tbl).unwrap().len() ==> {
                let line = #[trigger] spec_pass2(ir, tbl).unwrap()[i];
                1 <= line.instruction <= 26 && (is_control_transfer(line.instruction)
                    ==> !line.arg1IsReg && 1 <= line.arg1 <= bound)
            },
    decreases ir.len(),
{
    if ir.len() > 0 {
        let prev = ir.drop_last();
        lemma_pass2_lines_guarantees(prev, tbl, bound);
        match ir.last() {
            IrLine::Label { .. } => {},
            IrLine::Instr { mnemonic, arg1, arg2 } => {
                lemma_opcode_range(mnemonic);
                let op = opcode_of_mnemonic(mnemonic).unwrap();
                if is_control_transfer(op) {
                    lemma_lookup_in_values(tbl, arg1);
                }
            },
        }
    }
}

/// The assembler's guarantee: in a successfully assembled program every
/// opcode lies between 1 and 26, and every control transfer carries an
/// immediate target of at most the program length — a target equal to the
/// length makes the machine run off the end, which is a clean exit.
pub proof fn lemma_compile_guarantees(ir: Seq<IrLine>)
    requires
        spec_compile(ir) is Ok,
        ir.len() < u64::MAX,
    ensures
        ({
            let prog = spec_compile(ir).unwrap();
            forall|i: int|
                0 <= i < prog.len() ==> {
                    let line = #[trigger] prog[i];
                    1 <= line.instruction <= 26 && (is_control_transfer(line.instruction)
                        ==> !line.arg1IsReg && 1 <= line.arg1 <= prog.len())
                }
        }),
{
    let tbl = spec_pass1(ir);
    let prog = spec_compile(ir).unwrap();
    lemma_pass1_values_bounded(ir);
    lemma_pass2_lines_guarantees(ir, tbl, count_instructions(ir) + 1);
    lemma_pass2_len(ir, tbl);
    lemma_lookup_in_values(tbl, main_label());
    let body = spec_pass2(ir, tbl).unwrap();
    assert forall|i: int| 0 <= i < prog.len() implies {
        let line = #[trigger] prog[i];
        1 <= line.instruction <= 26 && (is_control_transfer(line.instruction) ==> !line.arg1IsReg
            && 1 <= line.arg1 <= prog.len())
    } by {
        if i >= 1 {
            assert(prog[i] == body[i - 1]);
        }
    }
}

/// Looks a label name up in the symbol table.
pub fn lookup_label(tbl: &Vec<LabelBinding>, name: &str) -> (r: Option<u64>)
    ensures
        r == lookup_label_spec(tbl.deep_view(), name@),
{
    let mut i: usize = 0;
    proof {
        assert(tbl.deep_view().skip(0) =~= tbl.deep_view());
    }
    while i < tbl.len()
        invariant
            i <= tbl.len(),
            lookup_label_spec(tbl.deep_view(), name@) == lookup_label_spec(
                tbl.deep_view().skip(i as int),
                name@,
            ),
        decreases tbl.len() - i,
    {
        if str_eq(tbl[i].name.as_str(), name) {
            proof {
                assert(tbl.deep_view().skip(i as int)[0] == tbl.deep_view()[i as int]);
            }
            return Some(tbl[i].index);
        }
        proof {
            assert(tbl.deep_view().skip(i as int)[0] == tbl.deep_view()[i as int]);
            assert(tbl.deep_view().skip(i as int).drop_first() =~= tbl.deep_view().skip(i + 1));
        }
        i += 1;
    }
    None
}

/// The bytecode back-end: holds the encoded program, the symbol table, and
/// the instruction count of the last assembly.
pub struct ByteCodeCompiler {
    pub lines: Vec<Line>,
    pub labels: Vec<LabelBinding>,
    pub instructionIndex: usize,
}

impl ByteCodeCompiler {
    /// A fresh compiler with no program and an empty symbol table.
    pub fn new() -> (r: ByteCodeCompiler)
        ensures
            r.lines@ == Seq::<Line>::empty(),
            r.labels@.len() == 0,
            r.instructionIndex == 0,
    {
        ByteCodeCompiler { lines: Vec::new(), labels: Vec::new(), instructionIndex: 0 }
    }

    /// Classifies a textual operand into a value and a register flag.
    pub fn getLineArgCode(arg: &str) -> (r: Result<(u64, bool), AsmError>)
        ensures
            r == classify_operand(arg@),
    {
        crate::operand::getLineArgCode(arg)
    }

    /// Assembles an intermediate program into bytecode: pass 1 binds the
    /// labels, pass 2 encodes the instructions, and the prologue jump to
    /// `main` is placed at index 0.
    pub fn compileByteCodeFromIntermediate(
        &mut self,
        intermediateCode: IntermediateLanguage,
    ) -> (r: Result<(), AsmError>)
        requires
            old(self).lines@.len() == 0,
            old(self).labels@.len() == 0,
            old(self).instructionIndex == 0,
        ensures
            match spec_compile(intermediateCode@) {
                Ok(prog) => r == Ok::<(), AsmError>(())
                    && final(self).lines@ == prog
                    && final(self).labels.deep_view() == spec_pass1(intermediateCode@)
                    && final(self).instructionIndex as int == count_instructions(intermediateCode@),
                Err(e) => r == Err::<(), AsmError>(e)
                    && final(self).lines@ == old(self).lines@
                    && final(self).labels@ == old(self).labels@
                    && final(self).instructionIndex == old(self).instructionIndex,
            },
    {
        let ghost ir = intermediateCode@;
        let n = intermediateCode.lines.len();
        proof {
            assert(ir.len() == n);
            assert(ir.take(0) =~= Seq::<IrLine>::empty());
        }
        // Pass 1: bind every label to the index of its next instruction.
        let mut tbl: Vec<LabelBinding> = Vec::new();
        let mut count: usize = 0;
        let mut i: usize = 0;
        while i < n
            invariant
                i <= n,
                n == intermediateCode.lines@.len(),
                ir == intermediateCode@,
                tbl.deep_view() == spec_pass1(ir.take(i as int)),
                count == count_instructions(ir.take(i as int)),
                !table_has_dup(tbl.deep_view()),
            decreases n - i,
        {
            let ghost pre = ir.take(i as int);
            let ghost prev = tbl.deep_view();
            proof {
                assert(ir.take(i + 1).drop_last() =~= pre);
                assert(ir.take(i + 1).last() == ir[i as int]);
                lemma_count_instructions_bounds(pre);
            }
            match &intermediateCode.lines[i] {
                IntermediateLanguageLine::Instruction(_) => {
                    count = count + 1;
                },
                IntermediateLanguageLine::Label(lab) => {
                    if lookup_label(&tbl, lab.label.as_str()).is_some() {
                        proof {
                            lemma_lookup_some_iff_contains(prev, lab.label@);
                            let k = choose|k: int| 0 <= k < prev.len() && prev[k].0 == lab.label@;
                            let t2 = spec_pass1(ir.take(i + 1));
                            assert(t2 == prev.push(
                                (lab.label@, (count_instructions(pre) + 1) as u64),
                            ));
                            assert(t2[k].0 == t2[t2.len() - 1].0);
                            assert(table_has_dup(t2));
                            lemma_pass1_prefix(ir, i + 1);
                            lemma_dup_in_prefix(t2, spec_pass1(ir));
                        }
                        return Err(AsmError::DuplicateLabel);
                    }
                    let binding = LabelBinding { name: lab.label.clone(), index: count as u64 + 1 };
                    tbl.push(binding);
                    proof {
                        lemma_lookup_some_iff_contains(prev, lab.label@);
                        assert(tbl.deep_view() =~= prev.push(
                            (lab.label@, (count_instructions(pre) + 1) as u64),
                        ));
                        assert(!table_has_dup(tbl.deep_view())) by {
                            if table_has_dup(tbl.deep_view()) {
                                let (a, b) = choose|a: int, b: int|
                                    0 <= a < b < tbl.deep_view().len() && tbl.deep_view()[a].0
                                        == tbl.deep_view()[b].0;
                                if b < prev.len() {
                                    assert(prev[a].0 == prev[b].0);
                                } else {
                                    assert(prev[a].0 == lab.label@);
                                }
                            }
                        }
                    }
                },
            }
            i += 1;
        }
        proof {
            assert(ir.take(n as int) =~= ir);
        }
        let ghost tblv = tbl.deep_view();
        // Pass 2: encode the instructions in order.
        let mut body: Vec<Line> = Vec::new();
        let mut k: usize = 0;
        proof {
            assert(spec_pass2(ir.take(0), tblv) == Ok::<Seq<Line>, AsmError>(body@));
        }
        while k < n
            invariant
                k <= n,
                n == intermediateCode.lines@.len(),
                ir == intermediateCode@,
                tblv == tbl.deep_view(),
                tblv == spec_pass1(ir),
                !table_has_dup(tblv),
                spec_pass2(ir.take(k as int), tblv) == Ok::<Seq<Line>, AsmError>(body@),
            decreases n - k,
        {
            let ghost pre = ir.take(k as int);
            proof {
                assert(ir.take(k + 1).drop_last() =~= pre);
                assert(ir.take(k + 1).last() == ir[k as int]);
            }
            match &intermediateCode.lines[k] {
                IntermediateLanguageLine::Label(_) => {},
                IntermediateLanguageLine::Instruction(ins) => {
                    let op = match mnemonic_opcode(ins.instruction.as_str()) {
                        Some(op) => op,
                        None => {
                            proof {
                                lemma_pass2_extends_err(ir, tblv, k + 1);
                            }
                            return Err(AsmError::UnknownMnemonic);
                        },
                    };
                    let line: Line;
                    if op == 15 || op == 16 || op == 17 || op == 25 {
                        let idx = match lookup_label(&tbl, ins.arg1.as_str()) {
                            Some(x) => x,
                            None => {
                                proof {
                                    lemma_pass2_extends_err(ir, tblv, k + 1);
                                }
                                return Err(AsmError::UnknownLabel);
                            },
                        };
                        let (v2, r2) = match crate::operand::getLineArgCode(ins.arg2.as_str()) {
                            Ok(p) => p,
                            Err(e) => {
                                proof {
                                    lemma_pass2_extends_err(ir, tblv, k + 1);
                                }
                                return Err(e);
                            },
                        };
                        line = Line {
                            instruction: op,
                            arg1: idx,
                            arg1IsReg: false,
                            arg2: v2,
                            arg2IsReg: r2,
                        };
                    } else {
                        let (v1, r1) = match crate::operand::getLineArgCode(ins.arg1.as_str()) {
                            Ok(p) => p,
                            Err(e) => {
                                proof {
                                    lemma_pass2_extends_err(ir, tblv, k + 1);
                                }
                                return Err(e);
                            },
                        };
                        let (v2, r2) = match crate::operand::getLineArgCode(ins.arg2.as_str()) {
                            Ok(p) => p,
                            Err(e) => {
                                proof {
                                    lemma_pass2_extends_err(ir, tblv, k + 1);
                                }
                                return Err(e);
                            },
                        };
                        line = Line {
                            instruction: op,
                            arg1: v1,
                            arg1IsReg: r1,
                            arg2: v2,
                            arg2IsReg: r2,
                        };
                    }
                    body.push(line);
                },
            }
            k += 1;
        }
        proof {
            assert(ir.take(n as int) =~= ir);
        }
        // The prologue: jump to `main`.
        let main_idx = match lookup_label(&tbl, "main") {
            Some(x) => x,
            None => {
                return Err(AsmError::MissingMain);
            },
        };
        let mut prog: Vec<Line> = Vec::new();
        prog.push(
            Line { instruction: 15, arg1: main_idx, arg1IsReg: false, arg2: 0, arg2IsReg: false },
        );
        let mut b = body;
        prog.append(&mut b);
        proof {
            assert(prog@ =~= seq![jmp_prologue(main_idx)] + spec_pass2(ir, tblv).unwrap());
        }
        self.lines = prog;
        self.labels = tbl;
        self.instructionIndex = count;
        Ok(())
    }
}

} // verus!
