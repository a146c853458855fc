//! Direct invocation bindings.
//!
//! A binding pairs an address with a signature and nothing else. Invoking
//! it lays the arguments out under the signature's convention, transfers
//! control to the address, and hands back the returned word. There is no
//! enable or disable: a binding either exists or has not been constructed
//! yet, and construction cannot fail. Nothing checks that the signature
//! matches what actually stands at the address — that is the caller's
//! trust boundary.

use crate::code::spec_decode;
use crate::code::spec_eval;
use crate::code::decode;
use crate::code::eval_instr;
use crate::code::is_stub;
use crate::code::Instr;
use crate::code::INSTR_LEN;
use crate::conv::lemma_marshal_roundtrip;
use crate::conv::marshal;
use crate::conv::unmarshal;
use crate::conv::Signature;
use crate::hook::spec_call;
use crate::hook::DetourHook;
use crate::mem::Memory;
use vstd::prelude::*;

verus! {

/// An immutable callable view of a fixed address: address plus
/// signature, never mutated, never destroyed.
pub struct DirectBinding {
    pub address: usize,
    pub sig: Signature,
}

impl DirectBinding {
    /// Bind a signature to an address. Nothing can fail here; whether
    /// the signature is right is the caller's contract.
    pub fn bind(address: usize, sig: Signature) -> (b: DirectBinding)
        ensures
            b.address == address,
            b.sig == sig,
    {
        DirectBinding { address, sig }
    }

    /// What invoking the binding returns over a given image: the value
    /// the stub entry at the address computes from the argument list, or
    /// `None` when the address holds nothing directly invocable.
    pub open spec fn spec_invoke(&self, img: Seq<u8>, args: Seq<u32>) -> Option<u32> {
        if self.address + INSTR_LEN > img.len() {
            None
        } else {
            match spec_decode(img.subrange(self.address as int, self.address + INSTR_LEN)) {
                Some(i) => if is_stub(i) {
                    Some(spec_eval(i, args))
                } else {
                    None
                },
                None => None,
            }
        }
    }

    /// Invoke the routine at the bound address: marshal the arguments
    /// under the signature's convention, transfer control, return the
    /// result word. The marshaling round trip is lossless, so the stub
    /// sees exactly the caller's argument list.
    pub fn invoke(&self, image: &Memory, args: &Vec<u32>) -> (r: Option<u32>)
        ensures
            r == self.spec_invoke(image@, args@),
    {
        let image_len = image.len();
        if image_len < INSTR_LEN || self.address > image_len - INSTR_LEN {
            return None;
        }
        let frame = marshal(self.sig.conv, args);
        let received = unmarshal(&frame);
        proof {
            lemma_marshal_roundtrip(self.sig.conv, args@);
        }
        let entry = image.read_bytes(self.address, INSTR_LEN);
        match decode(&entry) {
            Some(Instr::Redirect(_)) => None,
            Some(i) => Some(eval_instr(&i, &received)),
            None => None,
        }
    }
}

/// A binding over a stub entry returns exactly the value the stub
/// computes from the argument list — for every supported convention,
/// since the marshaling round trip is lossless.
pub proof fn lemma_binding_lossless(b: DirectBinding, img: Seq<u8>, args: Seq<u32>, i: Instr)
    requires
        b.address + INSTR_LEN <= img.len(),
        spec_decode(img.subrange(b.address as int, b.address + INSTR_LEN)) == Some(i),
        is_stub(i),
    ensures
        b.spec_invoke(img, args) == Some(spec_eval(i, args)),
{
}

/// Trampoline fidelity: a hook whose trampoline holds the bytes the
/// pristine image had at its address answers `call` exactly as direct
/// invocation of that pristine image did, for every argument list.
pub proof fn lemma_trampoline_fidelity(h: DetourHook, pristine: Seq<u8>, args: Seq<u32>)
    requires
        h.address + INSTR_LEN <= pristine.len(),
        h.trampoline@ == pristine.subrange(h.address as int, h.address + INSTR_LEN),
    ensures
        spec_call(h, args) == (DirectBinding { address: h.address, sig: h.sig }).spec_invoke(
            pristine,
            args,
        ),
{
}

} // verus!
