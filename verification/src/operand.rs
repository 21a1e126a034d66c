//! The operand classifier: turns the textual operand of an instruction into
//! a 64-bit value together with a flag that says whether the value is a
//! register index or an immediate.
//!
//! An operand is classified in this order: an empty operand is the immediate
//! 0; an operand beginning with `r` or `s` must be a register name; a `0x`
//! prefix asks for a hexadecimal parse of the rest; a quoted operand of at
//! least three characters yields the scalar value of its first quoted
//! character; anything else is parsed as a decimal integer. A failed number
//! parse yields the immediate 0 rather than an error.
use vstd::prelude::*;
use vstd::string::*;
use crate::errors::AsmError;
use crate::text::{
    drop_back_while, drop_front_while, lemma_drop_back_keeps_head, lemma_drop_front_while,
};

verus! {

/// The numeric value of a digit character, or -1 for a non-digit. Letters
/// `a` through `f` in either case carry the hexadecimal values 10 to 15.
pub open spec fn spec_digit_val(c: char) -> int {
    if 48 <= c as u32 <= 57 {
        c as u32 - 48
    } else if 97 <= c as u32 <= 102 {
        c as u32 - 87
    } else if 65 <= c as u32 <= 70 {
        c as u32 - 55
    } else {
        -1
    }
}

pub open spec fn digit_in_base(c: char, base: int) -> bool {
    0 <= spec_digit_val(c) < base
}

pub open spec fn all_digits(s: Seq<char>, base: int) -> bool {
    forall|j: int| 0 <= j < s.len() ==> digit_in_base(s[j], base)
}

/// The value of a digit string read in the given base.
pub open spec fn digits_val(s: Seq<char>, base: int) -> int
    decreases s.len(),
{
    if s.len() == 0 {
        0
    } else {
        digits_val(s.drop_last(), base) * base + spec_digit_val(s.last())
    }
}

/// An unsigned integer parse in the style of the standard library: an
/// optional leading `+`, then at least one digit of the base, and the value
/// must fit in 64 bits; anything else fails.
pub open spec fn parse_u64_spec(s: Seq<char>, base: int) -> Option<u64> {
    let body = if s.len() > 0 && s[0] == '+' {
        s.drop_first()
    } else {
        s
    };
    if body.len() > 0 && all_digits(body, base) && digits_val(body, base) <= u64::MAX {
        Some(digits_val(body, base) as u64)
    } else {
        None
    }
}

pub proof fn lemma_digits_val_nonneg(s: Seq<char>, base: int)
    requires
        1 <= base,
        all_digits(s, base),
    ensures
        digits_val(s, base) >= 0,
    decreases s.len(),
{
    if s.len() > 0 {
        let t = s.drop_last();
        assert(all_digits(t, base));
        lemma_digits_val_nonneg(t, base);
        assert(digits_val(t, base) * base >= 0) by (nonlinear_arith)
            requires
                digits_val(t, base) >= 0,
                base >= 1,
        ;
    }
}

/// A digit string is worth at least as much as any of its prefixes.
pub proof fn lemma_digits_val_prefix_le(s: Seq<char>, base: int, k: int)
    requires
        1 <= base,
        all_digits(s, base),
        0 <= k <= s.len(),
    ensures
        digits_val(s.subrange(0, k), base) <= digits_val(s, base),
    decreases s.len() - k,
{
    if k == s.len() {
        assert(s.subrange(0, k) =~= s);
    } else {
        let a = s.subrange(0, k);
        let b = s.subrange(0, k + 1);
        assert(b.drop_last() =~= a);
        assert(all_digits(a, base));
        lemma_digits_val_nonneg(a, base);
        assert(digits_val(a, base) * base >= digits_val(a, base)) by (nonlinear_arith)
            requires
                digits_val(a, base) >= 0,
                base >= 1,
        ;
        assert(digit_in_base(s[k], base));
        assert(digits_val(b, base) >= digits_val(a, base));
        lemma_digits_val_prefix_le(s, base, k + 1);
    }
}

/// Parses an unsigned 64-bit integer in the given base, accepting an
/// optional leading `+` as the standard library does.
pub fn parse_u64_radix(s: &str, base: u64) -> (r: Option<u64>)
    requires
        2 <= base <= 16,
    ensures
        r == parse_u64_spec(s@, base as int),
{
    let n = s.unicode_len();
    let start: usize = if n > 0 && s.get_char(0) == '+' {
        1
    } else {
        0
    };
    let ghost body = if start == 1 {
        s@.drop_first()
    } else {
        s@
    };
    proof {
        assert(body =~= s@.subrange(start as int, n as int));
    }
    if start == n {
        return None;
    }
    let mut value: u64 = 0;
    let mut i: usize = start;
    while i < n
        invariant
            start <= i <= n,
            n == s@.len(),
            2 <= base <= 16,
            body == s@.subrange(start as int, n as int),
            body == (if s@.len() > 0 && s@[0] == '+' {
                s@.drop_first()
            } else {
                s@
            }),
            body.len() > 0,
            all_digits(body.subrange(0, i - start), base as int),
            value == digits_val(body.subrange(0, i - start), base as int),
        decreases n - i,
    {
        let ghost pre = body.subrange(0, i - start);
        let c = s.get_char(i);
        proof {
            assert(body[i - start] == c);
            assert(body.subrange(0, i + 1 - start).drop_last() =~= pre);
        }
        let v32 = c as u32;
        let d: u64 = if v32 >= 48 && v32 <= 57 {
            (v32 - 48) as u64
        } else if v32 >= 97 && v32 <= 102 {
            (v32 - 87) as u64
        } else if v32 >= 65 && v32 <= 70 {
            (v32 - 55) as u64
        } else {
            proof {
                assert(!digit_in_base(body[i - start], base as int));
                assert(!all_digits(body, base as int));
            }
            return None;
        };
        if d >= base {
            proof {
                assert(!digit_in_base(body[i - start], base as int));
                assert(!all_digits(body, base as int));
            }
            return None;
        }
        let ghost pre1 = body.subrange(0, i + 1 - start);
        let value2: u64 = match value.checked_mul(base) {
            Some(prod) => match prod.checked_add(d) {
                Some(v2) => v2,
                None => {
                    proof {
                        if all_digits(body, base as int) {
                            lemma_digits_val_prefix_le(body, base as int, i + 1 - start);
                            assert(digits_val(body, base as int) > u64::MAX);
                        }
                    }
                    return None;
                },
            },
            None => {
                proof {
                    if all_digits(body, base as int) {
                        lemma_digits_val_prefix_le(body, base as int, i + 1 - start);
                        assert(digits_val(pre1, base as int) >= value * base) by {
                            assert(digits_val(pre1, base as int) == value * base
                                + spec_digit_val(c));
                        }
                        assert(digits_val(body, base as int) > u64::MAX);
                    }
                }
                return None;
            },
        };
        value = value2;
        i += 1;
        proof {
            assert(body.subrange(0, i - start) == pre1);
        }
    }
    proof {
        assert(body.subrange(0, n - start as int) =~= body);
        lemma_digits_val_nonneg(body, base as int);
    }
    Some(value)
}

/// The index of a register name in the register table `r0` through `r8`,
/// `sp`; `sp` is register 9.
pub open spec fn register_index_spec(s: Seq<char>) -> Option<u64> {
    if s.len() == 2 && s[0] == 'r' && 48 <= s[1] as u32 <= 56 {
        Some((s[1] as u32 - 48) as u64)
    } else if s.len() == 2 && s[0] == 's' && s[1] == 'p' {
        Some(9u64)
    } else {
        None
    }
}

/// Looks a register name up in the register table.
pub fn register_index(s: &str) -> (r: Option<u64>)
    ensures
        r == register_index_spec(s@),
{
    let n = s.unicode_len();
    if n != 2 {
        return None;
    }
    let c0 = s.get_char(0);
    let c1 = s.get_char(1);
    if c0 == 'r' {
        let v = c1 as u32;
        if v >= 48 && v <= 56 {
            return Some((v - 48) as u64);
        }
        return None;
    }
    if c0 == 's' && c1 == 'p' {
        return Some(9);
    }
    None
}

/// A quoted operand with all leading and trailing quote characters removed.
pub open spec fn quote_stripped(s: Seq<char>) -> Seq<char> {
    drop_back_while(drop_front_while(s, |c: char| c == '"'), |c: char| c == '"')
}

/// The classification of a textual operand: its 64-bit value and whether
/// that value is a register index. The only failure is an operand that
/// begins like a register name but is not one.
pub open spec fn classify_operand(s: Seq<char>) -> Result<(u64, bool), AsmError> {
    if s.len() == 0 {
        Ok((0u64, false))
    } else if s[0] == 'r' || s[0] == 's' {
        match register_index_spec(s) {
            Some(i) => Ok((i, true)),
            None => Err(AsmError::UnknownRegister),
        }
    } else if s.len() > 1 && s[0] == '0' && s[1] == 'x' {
        match parse_u64_spec(s.subrange(2, s.len() as int), 16) {
            Some(v) => Ok((v, false)),
            None => Ok((0u64, false)),
        }
    } else if s.len() > 2 && s[0] == '"' && s.last() == '"' && quote_stripped(s).len() > 0 {
        Ok((quote_stripped(s)[0] as u64, false))
    } else {
        match parse_u64_spec(s, 10) {
            Some(v) => Ok((v, false)),
            None => Ok((0u64, false)),
        }
    }
}

/// Classifies a textual operand into a value and a register flag.
pub fn getLineArgCode(arg: &str) -> (r: Result<(u64, bool), AsmError>)
    ensures
        r == classify_operand(arg@),
{
    let n = arg.unicode_len();
    if n == 0 {
        return Ok((0, false));
    }
    let c0 = arg.get_char(0);
    if c0 == 'r' || c0 == 's' {
        return match register_index(arg) {
            Some(i) => Ok((i, true)),
            None => Err(AsmError::UnknownRegister),
        };
    }
    if n > 1 && c0 == '0' && arg.get_char(1) == 'x' {
        let rest = arg.substring_char(2, n);
        return match parse_u64_radix(rest, 16) {
            Some(v) => Ok((v, false)),
            None => Ok((0, false)),
        };
    }
    if n > 2 && c0 == '"' && arg.get_char(n - 1) == '"' {
        let mut i: usize = 0;
        while i < n && arg.get_char(i) == '"'
            invariant
                i <= n,
                n == arg@.len(),
                forall|j: int| 0 <= j < i ==> arg@[j] == '"',
            decreases n - i,
        {
            i += 1;
        }
        if i < n {
            let c = arg.get_char(i);
            proof {
                let q = |c: char| c == '"';
                lemma_drop_front_while(arg@, q, i as int);
                let w = arg@.subrange(i as int, n as int);
                lemma_drop_back_keeps_head(w, q);
            }
            return Ok((c as u64, false));
        }
        proof {
            let q = |c: char| c == '"';
            lemma_drop_front_while(arg@, q, n as int);
            assert(arg@.subrange(n as int, n as int) =~= Seq::<char>::empty());
        }
    }
    match parse_u64_radix(arg, 10) {
        Some(v) => Ok((v, false)),
        None => Ok((0, false)),
    }
}

} // verus!
