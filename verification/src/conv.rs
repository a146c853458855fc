//! Calling-convention adapter.
//!
//! A signature names the semantic parameter types, the return type and the
//! convention of a routine at an address. The adapter knows only how a
//! convention lays an argument list out over registers and stack and how
//! the callee reads it back; it knows nothing of hooks or detours.
//! Constructing an adapter cannot fail: the set of conventions is closed
//! and every member is supported.

use vstd::prelude::*;

verus! {

/// The closed set of supported calling conventions.
#[derive(Clone, Copy, PartialEq, Eq, Structural, Debug)]
pub enum CallConv {
    /// The first two arguments travel in registers, the rest on the
    /// stack; the callee cleans the stack.
    Fastcall,
    /// The first argument travels in a register, the rest on the stack;
    /// the callee cleans the stack.
    Thiscall,
    /// Every argument travels on the stack; the callee cleans the stack.
    Stdcall,
}

/// How many arguments the convention passes in registers.
pub open spec fn spec_reg_capacity(c: CallConv) -> int {
    match c {
        CallConv::Fastcall => 2,
        CallConv::Thiscall => 1,
        CallConv::Stdcall => 0,
    }
}

/// Semantic type of one argument slot. Every slot is one machine word
/// wide; the kind records what the word means to the routine.
#[derive(Clone, Copy, PartialEq, Eq, Structural, Debug)]
pub enum ParamKind {
    /// A signed integer word.
    Int,
    /// An unsigned integer word.
    Uint,
    /// An absolute address.
    Ptr,
}

/// Semantic type of the returned word, if any.
#[derive(Clone, Copy, PartialEq, Eq, Structural, Debug)]
pub enum RetKind {
    /// The routine returns nothing; its result word is ignored.
    Void,
    /// A signed integer word.
    Int,
    /// An unsigned integer word.
    Uint,
    /// An absolute address.
    Ptr,
}

/// The full calling description of a routine: ordered parameter kinds,
/// return kind, and convention. Never inferred, always stated.
#[derive(Clone, Debug)]
pub struct Signature {
    pub conv: CallConv,
    pub params: Vec<ParamKind>,
    pub ret: RetKind,
}

impl Signature {
    /// Number of arguments the routine takes.
    pub open spec fn arity(&self) -> nat {
        self.params@.len()
    }

    pub fn param_count(&self) -> (n: usize)
        ensures
            n == self.arity(),
    {
        self.params.len()
    }
}

/// An argument list as a convention lays it out: register slots first,
/// then stack slots, both in declaration order.
pub struct Frame {
    pub regs: Vec<u32>,
    pub stack: Vec<u32>,
}

/// Index of the first argument that goes to the stack.
pub open spec fn spec_split_point(c: CallConv, args: Seq<u32>) -> int {
    if spec_reg_capacity(c) <= args.len() {
        spec_reg_capacity(c)
    } else {
        args.len() as int
    }
}

/// Register slots of an argument list under a convention.
pub open spec fn spec_marshal_regs(c: CallConv, args: Seq<u32>) -> Seq<u32> {
    args.take(spec_split_point(c, args))
}

/// Stack slots of an argument list under a convention.
pub open spec fn spec_marshal_stack(c: CallConv, args: Seq<u32>) -> Seq<u32> {
    args.skip(spec_split_point(c, args))
}

/// Lay an argument list out for a call under convention `c`.
pub fn marshal(c: CallConv, args: &Vec<u32>) -> (f: Frame)
    ensures
        f.regs@ == spec_marshal_regs(c, args@),
        f.stack@ == spec_marshal_stack(c, args@),
{
    let cap: usize = match c {
        CallConv::Fastcall => 2,
        CallConv::Thiscall => 1,
        CallConv::Stdcall => 0,
    };
    let mut regs: Vec<u32> = Vec::new();
    let mut stack: Vec<u32> = Vec::new();
    let mut k: usize = 0;
    while k < args.len()
        invariant
            k <= args@.len(),
            cap == spec_reg_capacity(c),
            regs@ == args@.take(if k <= cap { k as int } else { cap as int }),
            stack@ == (if k <= cap { Seq::<u32>::empty() } else { args@.subrange(cap as int, k as int) }),
        decreases args@.len() - k,
    {
        let a = args[k];
        if k < cap {
            regs.push(a);
            proof {
                assert(regs@ =~= args@.take(if k + 1 <= cap { k + 1 } else { cap as int }));
            }
        } else {
            stack.push(a);
            proof {
                assert(stack@ =~= args@.subrange(cap as int, k + 1));
            }
        }
        k = k + 1;
    }
    proof {
        assert(regs@ =~= spec_marshal_regs(c, args@));
        assert(stack@ =~= spec_marshal_stack(c, args@));
    }
    Frame { regs, stack }
}

/// Read an argument list back out of a frame, as the callee does.
pub fn unmarshal(f: &Frame) -> (args: Vec<u32>)
    ensures
        args@ == f.regs@ + f.stack@,
{
    let mut args: Vec<u32> = Vec::new();
    let mut k: usize = 0;
    while k < f.regs.len()
        invariant
            k <= f.regs@.len(),
            args@ == f.regs@.take(k as int),
        decreases f.regs@.len() - k,
    {
        args.push(f.regs[k]);
        proof {
            assert(args@ =~= f.regs@.take(k + 1));
        }
        k = k + 1;
    }
    let mut j: usize = 0;
    while j < f.stack.len()
        invariant
            j <= f.stack@.len(),
            args@ == f.regs@ + f.stack@.take(j as int),
        decreases f.stack@.len() - j,
    {
        args.push(f.stack[j]);
        proof {
            assert(args@ =~= f.regs@ + f.stack@.take(j + 1));
        }
        j = j + 1;
    }
    proof {
        assert(args@ =~= f.regs@ + f.stack@);
    }
    args
}

/// Marshaling is lossless: for every supported convention, reading a
/// frame back gives exactly the argument list that was laid out.
pub proof fn lemma_marshal_roundtrip(c: CallConv, args: Seq<u32>)
    ensures
        spec_marshal_regs(c, args) + spec_marshal_stack(c, args) == args,
{
    assert(spec_marshal_regs(c, args) + spec_marshal_stack(c, args) =~= args);
}

} // verus!
