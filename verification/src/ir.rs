//! The intermediate representation of a program: a sequence of lines, each
//! either a label definition or an instruction with a mnemonic and up to
//! two textual operands. A text line is classified by its trimmed form:
//! blank lines and lines beginning with `;` or `#` carry nothing, a line
//! ending in `:` defines a label, and anything else must begin with a known
//! mnemonic.
use vstd::prelude::*;
use vstd::string::*;
use crate::errors::AsmError;
use crate::opcodes::{mnemonic_opcode, opcode_of_mnemonic};
use crate::text::{lemma_split_len, split_char_spec, split_str, trim_spec, trim_str};

verus! {

/// An instruction line of the intermediate representation, still textual.
pub struct IntermediateLanguageInstruction {
    pub instruction: String,
    pub arg1: String,
    pub arg2: String,
}

/// A label definition of the intermediate representation. The stored text
/// is the label name without its trailing colon.
pub struct IntermediateLanguageLabel {
    pub label: String,
}

/// One line of the intermediate representation.
pub enum IntermediateLanguageLine {
    Instruction(IntermediateLanguageInstruction),
    Label(IntermediateLanguageLabel),
}

/// A whole program in intermediate representation.
pub struct IntermediateLanguage {
    pub lines: Vec<IntermediateLanguageLine>,
}

/// The mathematical shape of one intermediate line.
pub enum IrLine {
    Instr { mnemonic: Seq<char>, arg1: Seq<char>, arg2: Seq<char> },
    Label { name: Seq<char> },
}

impl View for IntermediateLanguageLine {
    type V = IrLine;

    open spec fn view(&self) -> IrLine {
        match self {
            IntermediateLanguageLine::Instruction(i) => IrLine::Instr {
                mnemonic: i.instruction@,
                arg1: i.arg1@,
                arg2: i.arg2@,
            },
            IntermediateLanguageLine::Label(l) => IrLine::Label { name: l.label@ },
        }
    }
}

impl DeepView for IntermediateLanguageLine {
    type V = IrLine;

    open spec fn deep_view(&self) -> IrLine {
        self.view()
    }
}

impl View for IntermediateLanguage {
    type V = Seq<IrLine>;

    open spec fn view(&self) -> Seq<IrLine> {
        self.lines.deep_view()
    }
}

/// What a text line of a source file stands for.
pub enum LineClass {
    /// Blank, a `;` comment, or a `#` line (directives are handled before
    /// parsing and ignored here).
    Skip,
    /// A label definition: the trimmed line without its trailing colon.
    LabelDef { name: Seq<char> },
    /// An instruction: the mnemonic and the two operand texts, missing
    /// operands being empty.
    Instr { mnemonic: Seq<char>, arg1: Seq<char>, arg2: Seq<char> },
    /// A line whose first token is no known mnemonic; fatal.
    BadMnemonic,
}

/// The token at position `k` of a token list, or the empty string when the
/// list is shorter.
pub open spec fn token_or_empty(toks: Seq<Seq<char>>, k: int) -> Seq<char> {
    if k < toks.len() {
        toks[k]
    } else {
        Seq::empty()
    }
}

/// Classifies one text line of a source file.
pub open spec fn classify_line(l: Seq<char>) -> LineClass {
    let t = trim_spec(l);
    if t.len() == 0 {
        LineClass::Skip
    } else if t[0] == ';' || t[0] == '#' {
        LineClass::Skip
    } else if t.last() == ':' {
        LineClass::LabelDef { name: t.drop_last() }
    } else {
        let toks = split_char_spec(t, ' ');
        if opcode_of_mnemonic(toks[0]) is None {
            LineClass::BadMnemonic
        } else {
            LineClass::Instr {
                mnemonic: toks[0],
                arg1: token_or_empty(toks, 1),
                arg2: token_or_empty(toks, 2),
            }
        }
    }
}

/// Parses one text line into an intermediate line: `None` for a line that
/// carries nothing, an error for an unknown mnemonic.
pub fn parchLine(line: &str) -> (r: Result<Option<IntermediateLanguageLine>, AsmError>)
    ensures
        ({
            let c = classify_line(line@);
            match c {
                LineClass::Skip => r == Ok::<Option<IntermediateLanguageLine>, AsmError>(None),
                LineClass::LabelDef { name } => (r matches Ok(Some(x)) && x@ == (IrLine::Label {
                    name,
                })),
                LineClass::Instr { mnemonic, arg1, arg2 } => (r matches Ok(Some(x)) && x@
                    == (IrLine::Instr { mnemonic, arg1, arg2 })),
                LineClass::BadMnemonic => r == Err::<Option<IntermediateLanguageLine>, AsmError>(
                    AsmError::UnknownMnemonic,
                ),
            }
        }),
{
    let t = trim_str(line);
    let n = t.unicode_len();
    if n == 0 {
        return Ok(None);
    }
    let c0 = t.get_char(0);
    if c0 == ';' || c0 == '#' {
        return Ok(None);
    }
    if t.get_char(n - 1) == ':' {
        let name = t.substring_char(0, n - 1).to_owned();
        proof {
            assert(t@.subrange(0, n - 1) =~= t@.drop_last());
        }
        return Ok(
            Some(IntermediateLanguageLine::Label(IntermediateLanguageLabel { label: name })),
        );
    }
    let toks = split_str(t, ' ');
    proof {
        lemma_split_len(t@, ' ');
        assert(toks@.len() == toks.deep_view().len());
    }
    if mnemonic_opcode(toks[0].as_str()).is_none() {
        return Err(AsmError::UnknownMnemonic);
    }
    let arg1 = if toks.len() > 1 {
        toks[1].clone()
    } else {
        String::new()
    };
    let arg2 = if toks.len() > 2 {
        toks[2].clone()
    } else {
        String::new()
    };
    let instr = IntermediateLanguageInstruction { instruction: toks[0].clone(), arg1, arg2 };
    Ok(Some(IntermediateLanguageLine::Instruction(instr)))
}

} // verus!
