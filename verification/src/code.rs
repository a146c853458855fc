//! The code model of the host image.
//!
//! A routine entry occupies five bytes: an opcode byte followed by a
//! 32-bit little-endian operand. Stub opcodes describe what the routine
//! computes from its (unmarshaled) arguments; the redirect opcode is what
//! detour installation writes over an entry, and names the replacement
//! registered for the address rather than anything the host computes.

use crate::mem::le_word;
use crate::mem::lemma_word_bytes_roundtrip;
use crate::mem::word_byte;
use vstd::prelude::*;

verus! {

use vstd::wrapping::u32_specs;

/// Size in bytes of one routine entry, and of the region a detour
/// displaces.
pub const INSTR_LEN: usize = 5;

/// Opcode of [`Instr::Const`].
pub const OP_CONST: u8 = 0x01;

/// Opcode of [`Instr::Sum`].
pub const OP_SUM: u8 = 0x02;

/// Opcode of [`Instr::Arg`].
pub const OP_ARG: u8 = 0x03;

/// Opcode of [`Instr::Redirect`].
pub const OP_REDIRECT: u8 = 0xe9;

/// One decoded routine entry.
#[derive(Clone, Copy, PartialEq, Eq, Structural, Debug)]
pub enum Instr {
    /// The routine returns the operand, whatever its arguments.
    Const(u32),
    /// The routine returns the wrapping sum of its arguments; the operand
    /// is ignored and stored as zero.
    Sum,
    /// The routine returns its argument at the operand's index, or zero
    /// when the index is out of range.
    Arg(u32),
    /// Control transfers to the replacement registered under the operand.
    Redirect(u32),
}

/// Whether an entry is host code that computes a value, rather than a
/// redirect written by a detour.
pub open spec fn is_stub(i: Instr) -> bool {
    !(i is Redirect)
}

/// The bytes that store an entry.
pub open spec fn spec_encode(i: Instr) -> Seq<u8> {
    match i {
        Instr::Const(v) => seq![OP_CONST, word_byte(v, 0), word_byte(v, 1), word_byte(v, 2), word_byte(v, 3)],
        Instr::Sum => seq![OP_SUM, 0u8, 0u8, 0u8, 0u8],
        Instr::Arg(v) => seq![OP_ARG, word_byte(v, 0), word_byte(v, 1), word_byte(v, 2), word_byte(v, 3)],
        Instr::Redirect(v) => seq![
            OP_REDIRECT,
            word_byte(v, 0),
            word_byte(v, 1),
            word_byte(v, 2),
            word_byte(v, 3),
        ],
    }
}

/// The entry stored in five bytes, if their opcode is known.
pub open spec fn spec_decode(b: Seq<u8>) -> Option<Instr> {
    if b.len() != INSTR_LEN {
        None
    } else {
        let operand = le_word(b[1], b[2], b[3], b[4]);
        if b[0] == OP_CONST {
            Some(Instr::Const(operand))
        } else if b[0] == OP_SUM {
            Some(Instr::Sum)
        } else if b[0] == OP_ARG {
            Some(Instr::Arg(operand))
        } else if b[0] == OP_REDIRECT {
            Some(Instr::Redirect(operand))
        } else {
            None
        }
    }
}

/// Wrapping sum of an argument list.
pub open spec fn sum_wrap(args: Seq<u32>) -> u32
    decreases args.len(),
{
    if args.len() == 0 {
        0u32
    } else {
        u32_specs::wrapping_add(sum_wrap(args.drop_last()), args.last())
    }
}

/// What a stub entry computes from an argument list. A redirect computes
/// nothing; its value here is arbitrary and never relied on.
pub open spec fn spec_eval(i: Instr, args: Seq<u32>) -> u32 {
    match i {
        Instr::Const(v) => v,
        Instr::Sum => sum_wrap(args),
        Instr::Arg(k) => if k < args.len() {
            args[k as int]
        } else {
            0u32
        },
        Instr::Redirect(_) => 0u32,
    }
}

/// Store an entry as its five bytes.
pub fn encode(i: &Instr) -> (b: Vec<u8>)
    ensures
        b@ == spec_encode(*i),
        b@.len() == INSTR_LEN,
{
    let (op, v): (u8, u32) = match i {
        Instr::Const(v) => (OP_CONST, *v),
        Instr::Sum => (OP_SUM, 0u32),
        Instr::Arg(v) => (OP_ARG, *v),
        Instr::Redirect(v) => (OP_REDIRECT, *v),
    };
    let b0: u8 = (v & 0xff) as u8;
    let b1: u8 = ((v >> 8) & 0xff) as u8;
    let b2: u8 = ((v >> 16) & 0xff) as u8;
    let b3: u8 = ((v >> 24) & 0xff) as u8;
    let mut b: Vec<u8> = Vec::new();
    b.push(op);
    b.push(b0);
    b.push(b1);
    b.push(b2);
    b.push(b3);
    proof {
        assert(word_byte(0u32, 0) == 0u8 && word_byte(0u32, 1) == 0u8 && word_byte(0u32, 2) == 0u8
            && word_byte(0u32, 3) == 0u8) by (bit_vector);
        assert(b@ =~= spec_encode(*i));
    }
    b
}

/// Decode five bytes back into an entry.
pub fn decode(b: &Vec<u8>) -> (r: Option<Instr>)
    ensures
        r == spec_decode(b@),
{
    if b.len() != INSTR_LEN {
        return None;
    }
    let operand: u32 = (b[1] as u32) | ((b[2] as u32) << 8) | ((b[3] as u32) << 16) | ((
    b[4] as u32) << 24);
    let op = b[0];
    if op == OP_CONST {
        Some(Instr::Const(operand))
    } else if op == OP_SUM {
        Some(Instr::Sum)
    } else if op == OP_ARG {
        Some(Instr::Arg(operand))
    } else if op == OP_REDIRECT {
        Some(Instr::Redirect(operand))
    } else {
        None
    }
}

/// Encoding is faithful: decoding the stored bytes of any entry gives the
/// entry back.
pub proof fn lemma_code_roundtrip(i: Instr)
    ensures
        spec_decode(spec_encode(i)) == Some(i),
{
    match i {
        Instr::Const(v) => {
            lemma_word_bytes_roundtrip(v);
        },
        Instr::Sum => {
            assert(le_word(0u8, 0u8, 0u8, 0u8) == 0u32) by (bit_vector);
        },
        Instr::Arg(v) => {
            lemma_word_bytes_roundtrip(v);
        },
        Instr::Redirect(v) => {
            lemma_word_bytes_roundtrip(v);
        },
    }
}

/// Run a stub entry on an argument list.
pub fn eval_instr(i: &Instr, args: &Vec<u32>) -> (r: u32)
    ensures
        r == spec_eval(*i, args@),
{
    match i {
        Instr::Const(v) => *v,
        Instr::Sum => {
            let mut acc: u32 = 0;
            let mut k: usize = 0;
            while k < args.len()
                invariant
                    k <= args@.len(),
                    acc == sum_wrap(args@.take(k as int)),
                decreases args@.len() - k,
            {
                proof {
                    assert(args@.take(k + 1).drop_last() =~= args@.take(k as int));
                }
                acc = acc.wrapping_add(args[k]);
                k = k + 1;
            }
            proof {
                assert(args@.take(args@.len() as int) =~= args@);
            }
            acc
        },
        Instr::Arg(idx) => {
            let idx = *idx;
            if (idx as usize) < args.len() {
                args[idx as usize]
            } else {
                0
            }
        },
        Instr::Redirect(_) => 0,
    }
}

} // verus!
