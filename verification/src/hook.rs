//! Detour hooks.
//!
//! Installing a hook captures the five bytes at the target address into a
//! trampoline and writes a redirect entry over them. The redirect names a
//! replacement; whether control actually reaches the replacement is the
//! hook's enablement state, which dispatch consults. The trampoline is
//! fixed at installation and never re-captured: it is the only remaining
//! way to reach what originally stood at the address.

use crate::code::spec_decode;
use crate::code::spec_encode;
use crate::code::spec_eval;
use crate::code::decode;
use crate::code::encode;
use crate::code::eval_instr;
use crate::code::is_stub;
use crate::code::Instr;
use crate::code::INSTR_LEN;
use crate::conv::lemma_marshal_roundtrip;
use crate::conv::marshal;
use crate::conv::unmarshal;
use crate::conv::Signature;
use crate::mem::Memory;
use vstd::prelude::*;

verus! {

/// Enablement state of an installed hook. An uninstalled hook is no
/// value at all; teardown consumes the hook.
#[derive(Clone, Copy, PartialEq, Eq, Structural, Debug)]
pub enum HookState {
    /// The redirect is bypassed: control reaching the address runs the
    /// displaced original code.
    Disabled,
    /// The redirect is live: control reaching the address goes to the
    /// replacement.
    Enabled,
}

/// Why an installation or a state change was refused.
#[derive(Clone, Copy, PartialEq, Eq, Structural, Debug)]
pub enum HookError {
    /// A hook is already registered at the address.
    AlreadyHooked,
    /// The image has no room for a redirect entry at the address.
    Unwritable,
    /// No hook is registered at the address.
    NotRegistered,
}

/// An installed detour: the hooked address, the signature of the routine
/// there, the replacement the redirect names, the displaced bytes, and
/// the enablement state.
pub struct DetourHook {
    pub address: usize,
    pub sig: Signature,
    pub replacement: u32,
    pub trampoline: Vec<u8>,
    pub state: HookState,
}

/// What invoking the displaced original code returns: `Some` of the
/// stub's value when the trampoline holds a stub entry, `None` when it
/// holds nothing invocable.
pub open spec fn spec_call(h: DetourHook, args: Seq<u32>) -> Option<u32> {
    match spec_decode(h.trampoline@) {
        Some(i) => if is_stub(i) {
            Some(spec_eval(i, args))
        } else {
            None
        },
        None => None,
    }
}

/// The hook as it stands after `enable`.
pub open spec fn spec_enabled(h: DetourHook) -> DetourHook {
    DetourHook { state: HookState::Enabled, ..h }
}

/// The hook as it stands after `disable`.
pub open spec fn spec_disabled(h: DetourHook) -> DetourHook {
    DetourHook { state: HookState::Disabled, ..h }
}

impl DetourHook {
    /// A hook always carries a full displaced entry.
    pub open spec fn wf(&self) -> bool {
        self.trampoline@.len() == INSTR_LEN
    }

    /// Capture the entry at `address` and write a redirect to
    /// `replacement` over it. The new hook starts disabled; the caller
    /// registers it. Fails, leaving the image untouched, exactly when the
    /// image has no full entry at the address.
    pub fn install(image: &mut Memory, address: usize, sig: Signature, replacement: u32) -> (r:
        Result<DetourHook, HookError>)
        ensures
            match r {
                Ok(h) => {
                    &&& address + INSTR_LEN <= old(image)@.len()
                    &&& h.address == address
                    &&& h.sig == sig
                    &&& h.replacement == replacement
                    &&& h.state is Disabled
                    &&& h.wf()
                    &&& h.trampoline@ == old(image)@.subrange(
                        address as int,
                        address + INSTR_LEN,
                    )
                    &&& final(image)@.len() == old(image)@.len()
                    &&& final(image)@.subrange(address as int, address + INSTR_LEN)
                        == spec_encode(Instr::Redirect(replacement))
                    &&& forall|i: int|
                        0 <= i < old(image)@.len() && !(address <= i < address + INSTR_LEN)
                            ==> final(image)@[i] == old(image)@[i]
                },
                Err(e) => {
                    &&& e is Unwritable
                    &&& address + INSTR_LEN > old(image)@.len()
                    &&& *final(image) == *old(image)
                },
            },
    {
        let image_len = image.len();
        if image_len < INSTR_LEN || address > image_len - INSTR_LEN {
            return Err(HookError::Unwritable);
        }
        let trampoline = image.read_bytes(address, INSTR_LEN);
        let redirect = encode(&Instr::Redirect(replacement));
        image.write_bytes(address, &redirect);
        proof {
            assert(image@.subrange(address as int, address + INSTR_LEN) =~= redirect@);
        }
        Ok(
            DetourHook {
                address,
                sig,
                replacement,
                trampoline,
                state: HookState::Disabled,
            },
        )
    }

    /// Make the redirect live. Already-enabled hooks are left exactly as
    /// they are.
    pub fn enable(&mut self)
        ensures
            *final(self) == spec_enabled(*old(self)),
    {
        self.state = HookState::Enabled;
    }

    /// Bypass the redirect so the original code runs again.
    /// Already-disabled hooks are left exactly as they are.
    pub fn disable(&mut self)
        ensures
            *final(self) == spec_disabled(*old(self)),
    {
        self.state = HookState::Disabled;
    }

    /// Invoke the displaced original code through the trampoline,
    /// bypassing the replacement whatever the enablement state. The
    /// arguments travel through the calling-convention adapter under the
    /// hook's signature and arrive unchanged.
    pub fn call(&self, args: &Vec<u32>) -> (r: Option<u32>)
        ensures
            r == spec_call(*self, args@),
    {
        let frame = marshal(self.sig.conv, args);
        let received = unmarshal(&frame);
        proof {
            lemma_marshal_roundtrip(self.sig.conv, args@);
        }
        match decode(&self.trampoline) {
            Some(Instr::Redirect(_)) => None,
            Some(i) => Some(eval_instr(&i, &received)),
            None => None,
        }
    }

    /// Teardown: write the displaced bytes back so the address is
    /// pristine again, and release the hook. Never performed while the
    /// redirect is live.
    pub fn uninstall(self, image: &mut Memory)
        requires
            self.state is Disabled,
            self.wf(),
            self.address + INSTR_LEN <= old(image)@.len(),
        ensures
            final(image)@.len() == old(image)@.len(),
            final(image)@.subrange(self.address as int, self.address + INSTR_LEN)
                == self.trampoline@,
            forall|i: int|
                0 <= i < old(image)@.len() && !(self.address <= i < self.address + INSTR_LEN)
                    ==> final(image)@[i] == old(image)@[i],
    {
        image.write_bytes(self.address, &self.trampoline);
        proof {
            assert(image@.subrange(self.address as int, self.address + INSTR_LEN)
                =~= self.trampoline@);
        }
    }
}

/// A full install/teardown cycle is invisible: installation rewrote
/// only the hooked entry, and teardown wrote the captured bytes back,
/// so the image ends byte-for-byte as it began.
pub proof fn lemma_uninstall_restores_pristine(
    pre: Seq<u8>,
    mid: Seq<u8>,
    post: Seq<u8>,
    address: usize,
)
    requires
        address + INSTR_LEN <= pre.len(),
        mid.len() == pre.len(),
        post.len() == mid.len(),
        forall|i: int|
            0 <= i < pre.len() && !(address <= i < address + INSTR_LEN) ==> mid[i] == pre[i],
        post.subrange(address as int, address + INSTR_LEN) == pre.subrange(
            address as int,
            address + INSTR_LEN,
        ),
        forall|i: int|
            0 <= i < mid.len() && !(address <= i < address + INSTR_LEN) ==> post[i] == mid[i],
    ensures
        post == pre,
{
    assert forall|i: int| 0 <= i < pre.len() implies post[i] == pre[i] by {
        if address <= i < address + INSTR_LEN {
            assert(post[i] == post.subrange(address as int, address + INSTR_LEN)[i - address]);
        }
    }
    assert(post =~= pre);
}

/// Enabling and disabling are idempotent: a second application of either
/// leaves the hook exactly where the first left it.
pub proof fn lemma_toggle_idempotent(h: DetourHook)
    ensures
        spec_enabled(spec_enabled(h)) == spec_enabled(h),
        spec_disabled(spec_disabled(h)) == spec_disabled(h),
{
}

/// Disabling after enabling restores the hook exactly as it stood before
/// either call, provided it stood disabled; the trampoline and the
/// binding are untouched by any number of toggles.
pub proof fn lemma_toggle_restores(h: DetourHook)
    requires
        h.state is Disabled,
    ensures
        spec_disabled(spec_enabled(h)) == h,
{
}

} // verus!
