//! The bytecode codec. An instruction is persisted as a fixed 18-byte
//! record: one opcode byte, two 64-bit little-endian operand words, and one
//! flag byte whose bit 0 says that the first operand is a register and
//! whose bit 1 says the same of the second. A binary program is the plain
//! concatenation of such records with no header or trailer; a partial
//! trailing record is a fatal decoding error.
use vstd::prelude::*;
use vstd::bytes::{
    lemma_auto_spec_u64_to_from_le_bytes, spec_u64_from_le_bytes, spec_u64_to_le_bytes,
    u64_from_le_bytes, u64_to_le_bytes,
};
use vstd::slice::slice_subrange;

verus! {

/// One instruction of the virtual machine: an opcode, two 64-bit operands,
/// and one flag for each operand saying whether it is a register index.
#[derive(Clone, Copy, Debug, PartialEq, Eq, Structural)]
pub struct Line {
    pub instruction: u8,
    pub arg1: u64,
    pub arg1IsReg: bool,
    pub arg2: u64,
    pub arg2IsReg: bool,
}

/// The flag byte of a record: bit 0 for the first operand, bit 1 for the
/// second; the upper six bits are zero.
pub open spec fn spec_flags_byte(l: Line) -> u8 {
    ((if l.arg1IsReg {
        1u8
    } else {
        0u8
    }) + (if l.arg2IsReg {
        2u8
    } else {
        0u8
    })) as u8
}

/// The 18-byte record of one instruction.
pub open spec fn spec_encode_line(l: Line) -> Seq<u8> {
    seq![l.instruction] + spec_u64_to_le_bytes(l.arg1) + spec_u64_to_le_bytes(l.arg2) + seq![
        spec_flags_byte(l),
    ]
}

/// The binary image of an instruction sequence.
pub open spec fn spec_encode(lines: Seq<Line>) -> Seq<u8>
    decreases lines.len(),
{
    if lines.len() == 0 {
        Seq::empty()
    } else {
        spec_encode_line(lines[0]) + spec_encode(lines.drop_first())
    }
}

/// The instruction read back from one 18-byte record. Reserved flag bits
/// are ignored, as the reader of the binary format ignores them.
pub open spec fn spec_decode_line(b: Seq<u8>) -> Line
    recommends
        b.len() == 18,
{
    Line {
        instruction: b[0],
        arg1: spec_u64_from_le_bytes(b.subrange(1, 9)),
        arg1IsReg: b[17] & 1 != 0,
        arg2: spec_u64_from_le_bytes(b.subrange(9, 17)),
        arg2IsReg: b[17] & 2 != 0,
    }
}

/// The instruction sequence read back from a binary image, or `None` when
/// the image ends in a partial record.
pub open spec fn spec_decode(b: Seq<u8>) -> Option<Seq<Line>>
    decreases b.len(),
{
    if b.len() == 0 {
        Some(Seq::<Line>::empty())
    } else if b.len() < 18 {
        None
    } else {
        match spec_decode(b.skip(18)) {
            None => None,
            Some(rest) => Some(seq![spec_decode_line(b.take(18))] + rest),
        }
    }
}

/// One record always decodes back to the instruction it encodes.
pub proof fn lemma_decode_line_of_encode(l: Line)
    ensures
        spec_encode_line(l).len() == 18,
        spec_decode_line(spec_encode_line(l)) == l,
{
    lemma_auto_spec_u64_to_from_le_bytes();
    let b = spec_encode_line(l);
    assert(b.subrange(1, 9) =~= spec_u64_to_le_bytes(l.arg1));
    assert(b.subrange(9, 17) =~= spec_u64_to_le_bytes(l.arg2));
    assert(0u8 & 1 == 0 && 1u8 & 1 == 1 && 2u8 & 1 == 0 && 3u8 & 1 == 1 && 0u8 & 2 == 0 && 1u8 & 2
        == 0 && 2u8 & 2 == 2 && 3u8 & 2 == 2) by (bit_vector);
}

/// Round trip of the codec: decoding an encoded instruction sequence gives
/// the sequence back, for every instruction sequence.
pub proof fn lemma_decode_of_encode(lines: Seq<Line>)
    ensures
        spec_decode(spec_encode(lines)) == Some(lines),
    decreases lines.len(),
{
    if lines.len() == 0 {
        assert(spec_encode(lines).len() == 0);
        assert(lines =~= Seq::<Line>::empty());
    } else {
        let l = lines[0];
        let rest = lines.drop_first();
        let b = spec_encode(lines);
        lemma_decode_line_of_encode(l);
        lemma_decode_of_encode(rest);
        assert(b.take(18) =~= spec_encode_line(l));
        assert(b.skip(18) =~= spec_encode(rest));
        assert(seq![l] + rest =~= lines);
    }
}

/// Encodes an instruction sequence into its binary image.
pub fn encode_instructions(lines: &Vec<Line>) -> (r: Vec<u8>)
    ensures
        r@ == spec_encode(lines@),
{
    let mut out: Vec<u8> = Vec::new();
    let mut i: usize = 0;
    proof {
        assert(lines@.skip(0) =~= lines@);
    }
    while i < lines.len()
        invariant
            i <= lines.len(),
            spec_encode(lines@) == out@ + spec_encode(lines@.skip(i as int)),
        decreases lines.len() - i,
    {
        let ghost old_out = out@;
        let l = lines[i];
        out.push(l.instruction);
        let mut a1 = u64_to_le_bytes(l.arg1);
        out.append(&mut a1);
        let mut a2 = u64_to_le_bytes(l.arg2);
        out.append(&mut a2);
        let flags: u8 = (if l.arg1IsReg {
            1u8
        } else {
            0u8
        }) + (if l.arg2IsReg {
            2u8
        } else {
            0u8
        });
        out.push(flags);
        proof {
            assert(out@ =~= old_out + spec_encode_line(lines@[i as int]));
            assert(lines@.skip(i as int).drop_first() =~= lines@.skip(i + 1));
            assert(lines@.skip(i as int)[0] == lines@[i as int]);
            assert(out@ + spec_encode(lines@.skip(i + 1)) =~= old_out + spec_encode(
                lines@.skip(i as int),
            ));
        }
        i += 1;
    }
    proof {
        assert(lines@.skip(lines@.len() as int) =~= Seq::<Line>::empty());
        assert(out@ =~= out@ + spec_encode(lines@.skip(lines@.len() as int)));
    }
    out
}

/// Decodes a binary image back into its instruction sequence; fails exactly
/// when the image is not a whole number of 18-byte records.
pub fn decode_instructions(bytes: &Vec<u8>) -> (r: Option<Vec<Line>>)
    ensures
        match spec_decode(bytes@) {
            Some(ls) => r matches Some(v) && v@ == ls,
            None => r is None,
        },
{
    let n = bytes.len();
    let mut out: Vec<Line> = Vec::new();
    let mut i: usize = 0;
    proof {
        assert(bytes@.skip(0) =~= bytes@);
        if spec_decode(bytes@) is Some {
            assert(Seq::<Line>::empty() + spec_decode(bytes@).unwrap() =~= spec_decode(
                bytes@,
            ).unwrap());
        }
    }
    while n - i >= 18
        invariant
            i <= n,
            n == bytes@.len(),
            spec_decode(bytes@) == (match spec_decode(bytes@.skip(i as int)) {
                None => None::<Seq<Line>>,
                Some(rest) => Some(out@ + rest),
            }),
        decreases n - i,
    {
        let ghost old_out = out@;
        let ghost w = bytes@.skip(i as int);
        let op = bytes[i];
        let a1 = u64_from_le_bytes(slice_subrange(bytes.as_slice(), i + 1, i + 9));
        let a2 = u64_from_le_bytes(slice_subrange(bytes.as_slice(), i + 9, i + 17));
        let f = bytes[i + 17];
        let line = Line {
            instruction: op,
            arg1: a1,
            arg1IsReg: f & 1 != 0,
            arg2: a2,
            arg2IsReg: f & 2 != 0,
        };
        out.push(line);
        proof {
            assert(w.take(18).subrange(1, 9) =~= bytes@.subrange(i + 1, i + 9));
            assert(w.take(18).subrange(9, 17) =~= bytes@.subrange(i + 9, i + 17));
            assert(w.take(18)[0] == bytes@[i as int]);
            assert(w.take(18)[17] == bytes@[i + 17]);
            assert(line == spec_decode_line(w.take(18)));
            assert(w.skip(18) =~= bytes@.skip(i + 18));
            if spec_decode(bytes@.skip(i + 18)) is Some {
                let rest2 = spec_decode(bytes@.skip(i + 18)).unwrap();
                assert(spec_decode(w) == Some(seq![line] + rest2));
                assert(old_out + (seq![line] + rest2) =~= out@ + rest2);
            }
        }
        i += 18;
    }
    if i == n {
        proof {
            assert(bytes@.skip(n as int) =~= Seq::<u8>::empty());
        }
        Some(out)
    } else {
        None
    }
}

} // verus!
