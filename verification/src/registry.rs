//! The process-wide table of installed hooks.
//!
//! The registry owns every installed [`DetourHook`], keyed by address,
//! one hook per address. It is the single place that installs detours,
//! toggles them, calls through their trampolines, and dispatches an
//! invocation of a hooked address to whatever the current state selects.
//! Its abstract value is the map from address to hook.

use crate::code::spec_decode;
use crate::code::spec_eval;
use crate::code::decode;
use crate::code::eval_instr;
use crate::code::Instr;
use crate::code::INSTR_LEN;
use crate::conv::Signature;
use crate::hook::spec_call;
use crate::hook::spec_disabled;
use crate::hook::spec_enabled;
use crate::hook::DetourHook;
use crate::hook::HookError;
use crate::hook::HookState;
use crate::mem::Memory;
use vstd::prelude::*;

verus! {

/// What an invocation arriving at an address does, as decided by the
/// image bytes and the registered hook state.
#[derive(Clone, Copy, PartialEq, Eq, Structural, Debug)]
pub enum Outcome {
    /// Control transfers to the replacement registered under this
    /// identifier, with the arguments unchanged.
    Replacement(u32),
    /// Original host code ran and returned this value.
    Value(u32),
    /// The address holds nothing invocable: undecodable bytes, or a
    /// redirect that names no registered hook.
    Fault,
}

/// The map an ordered sequence of hooks represents.
pub open spec fn map_of(s: Seq<DetourHook>) -> Map<usize, DetourHook>
    decreases s.len(),
{
    if s.len() == 0 {
        Map::empty()
    } else {
        map_of(s.drop_last()).insert(s.last().address, s.last())
    }
}

/// No two hooks of the sequence share an address.
pub open spec fn unique_addresses(s: Seq<DetourHook>) -> bool {
    forall|i: int, j: int|
        0 <= i < j < s.len() ==> s[i].address != s[j].address
}

/// An address is in the represented map exactly when some hook of the
/// sequence carries it.
pub proof fn lemma_map_of_domain(s: Seq<DetourHook>, a: usize)
    ensures
        map_of(s).contains_key(a) <==> exists|i: int| 0 <= i < s.len() && s[i].address == a,
    decreases s.len(),
{
    if s.len() > 0 {
        lemma_map_of_domain(s.drop_last(), a);
        if s.last().address == a {
            assert(s[s.len() - 1].address == a);
        } else if map_of(s).contains_key(a) {
            let i = choose|i: int| 0 <= i < s.drop_last().len() && s.drop_last()[i].address == a;
            assert(s[i].address == a);
        } else {
            assert(forall|i: int|
                0 <= i < s.len() - 1 ==> s.drop_last()[i] == s[i]);
        }
    }
}

/// A hook of the sequence is the one the represented map holds for its
/// address, provided no other hook shares that address.
pub proof fn lemma_map_of_at(s: Seq<DetourHook>, i: int)
    requires
        unique_addresses(s),
        0 <= i < s.len(),
    ensures
        map_of(s).contains_key(s[i].address),
        map_of(s)[s[i].address] == s[i],
    decreases s.len(),
{
    if i == s.len() - 1 {
    } else {
        lemma_map_of_at(s.drop_last(), i);
        assert(s.drop_last()[i] == s[i]);
    }
}

/// Replacing the hook at one index, keeping its address, replaces one
/// entry of the represented map.
pub proof fn lemma_map_of_update(s: Seq<DetourHook>, i: int, h: DetourHook)
    requires
        unique_addresses(s),
        0 <= i < s.len(),
        h.address == s[i].address,
    ensures
        map_of(s.update(i, h)) == map_of(s).insert(h.address, h),
    decreases s.len(),
{
    let t = s.update(i, h);
    if i == s.len() - 1 {
        assert(t.drop_last() =~= s.drop_last());
        assert(map_of(t) =~= map_of(s).insert(h.address, h));
    } else {
        lemma_map_of_update(s.drop_last(), i, h);
        assert(t.drop_last() =~= s.drop_last().update(i, h));
        assert(t.last() == s.last());
        assert(s.last().address != h.address);
        assert(map_of(t) =~= map_of(s).insert(h.address, h));
    }
}

/// Removing the hook at one index removes exactly its entry from the
/// represented map.
pub proof fn lemma_map_of_remove(s: Seq<DetourHook>, i: int)
    requires
        unique_addresses(s),
        0 <= i < s.len(),
    ensures
        map_of(s.remove(i)) == map_of(s).remove(s[i].address),
    decreases s.len(),
{
    let t = s.remove(i);
    if i == s.len() - 1 {
        assert(t =~= s.drop_last());
        lemma_map_of_domain(s.drop_last(), s[i].address);
        assert(forall|j: int|
            0 <= j < s.len() - 1 ==> s.drop_last()[j] == s[j]);
        assert(!map_of(s.drop_last()).contains_key(s[i].address));
        assert(map_of(t) =~= map_of(s).remove(s[i].address));
    } else {
        lemma_map_of_remove(s.drop_last(), i);
        assert(t.drop_last() =~= s.drop_last().remove(i));
        assert(t.last() == s.last());
        assert(s.last().address != s[i].address);
        assert(map_of(t) =~= map_of(s).remove(s[i].address));
    }
}

/// No two hooked five-byte regions of the table overlap. Hooks are
/// filed one per address, but nothing stops two addresses five bytes
/// apart or closer; the stronger restoration promises below hold only
/// when the regions are disjoint.
pub open spec fn hooked_regions_disjoint(m: Map<usize, DetourHook>) -> bool {
    forall|a: usize, b: usize|
        m.contains_key(a) && m.contains_key(b) && a != b ==> a + INSTR_LEN <= b || b + INSTR_LEN
            <= a
}

/// Every hooked five-byte region lies inside the image.
pub open spec fn hooked_regions_in_image(m: Map<usize, DetourHook>, img: Seq<u8>) -> bool {
    forall|a: usize| #[trigger] m.contains_key(a) ==> a + INSTR_LEN <= img.len()
}

/// Whether some hooked region of the table covers image index `i`.
pub open spec fn in_hooked_region(m: Map<usize, DetourHook>, i: int) -> bool {
    exists|a: usize| #[trigger] m.contains_key(a) && a <= i < a + INSTR_LEN
}

/// The process-wide registry of installed detour hooks.
pub struct Registry {
    hooks: Vec<DetourHook>,
}

impl View for Registry {
    type V = Map<usize, DetourHook>;

    closed spec fn view(&self) -> Map<usize, DetourHook> {
        map_of(self.hooks@)
    }
}

impl Registry {
    /// Every registered hook is well formed, carries the address it is
    /// filed under, and no address is filed twice.
    pub closed spec fn wf(&self) -> bool {
        &&& unique_addresses(self.hooks@)
        &&& forall|i: int|
            0 <= i < self.hooks@.len() ==> (#[trigger] self.hooks@[i]).wf()
    }

    /// An empty registry.
    pub fn new() -> (r: Registry)
        ensures
            r@ == Map::<usize, DetourHook>::empty(),
            r.wf(),
    {
        Registry { hooks: Vec::new() }
    }

    /// Index of the hook filed under `a`, if any.
    fn position(&self, a: usize) -> (r: Option<usize>)
        ensures
            match r {
                Some(i) => i < self.hooks@.len() && self.hooks@[i as int].address == a,
                None => forall|i: int|
                    0 <= i < self.hooks@.len() ==> (#[trigger] self.hooks@[i]).address != a,
            },
    {
        let mut k: usize = 0;
        while k < self.hooks.len()
            invariant
                k <= self.hooks@.len(),
                forall|i: int|
                    0 <= i < k ==> (#[trigger] self.hooks@[i]).address != a,
            decreases self.hooks@.len() - k,
        {
            if self.hooks[k].address == a {
                return Some(k);
            }
            k = k + 1;
        }
        None
    }

    /// Whether a hook is registered at `a`.
    pub fn is_registered(&self, a: usize) -> (r: bool)
        requires
            self.wf(),
        ensures
            r == self@.contains_key(a),
    {
        proof {
            lemma_map_of_domain(self.hooks@, a);
        }
        match self.position(a) {
            Some(_) => true,
            None => false,
        }
    }

    /// The hook registered at `a`, if any.
    pub fn lookup(&self, a: usize) -> (r: Option<&DetourHook>)
        requires
            self.wf(),
        ensures
            match r {
                Some(h) => self@.contains_key(a) && *h == self@[a],
                None => !self@.contains_key(a),
            },
    {
        proof {
            lemma_map_of_domain(self.hooks@, a);
        }
        match self.position(a) {
            Some(i) => {
                proof {
                    lemma_map_of_at(self.hooks@, i as int);
                }
                Some(&self.hooks[i])
            },
            None => None,
        }
    }

    /// File a hook under its address. Refused, with every installed hook
    /// untouched, when the address is already taken.
    pub fn register(&mut self, h: DetourHook) -> (r: Result<(), HookError>)
        requires
            old(self).wf(),
            h.wf(),
        ensures
            final(self).wf(),
            match r {
                Ok(()) => !old(self)@.contains_key(h.address) && final(self)@ == old(
                    self,
                )@.insert(h.address, h),
                Err(e) => e is AlreadyHooked && old(self)@.contains_key(h.address) && *final(self)
                    == *old(self),
            },
    {
        if self.is_registered(h.address) {
            return Err(HookError::AlreadyHooked);
        }
        proof {
            lemma_map_of_domain(self.hooks@, h.address);
            assert(self.hooks@.push(h).drop_last() =~= self.hooks@);
        }
        self.hooks.push(h);
        Ok(())
    }

    /// Take the hook filed under `address` out of the table and hand it
    /// back, for teardown.
    pub fn unregister(&mut self, address: usize) -> (r: Option<DetourHook>)
        requires
            old(self).wf(),
        ensures
            final(self).wf(),
            match r {
                Some(h) => old(self)@.contains_key(address) && h == old(self)@[address]
                    && final(self)@ == old(self)@.remove(address),
                None => !old(self)@.contains_key(address) && *final(self) == *old(self),
            },
    {
        proof {
            lemma_map_of_domain(self.hooks@, address);
        }
        match self.position(address) {
            Some(i) => {
                proof {
                    lemma_map_of_at(self.hooks@, i as int);
                    lemma_map_of_remove(self.hooks@, i as int);
                }
                Some(self.hooks.remove(i))
            },
            None => None,
        }
    }

    /// Install a detour at `address`: capture the entry there, write the
    /// redirect, and file the new (disabled) hook. Fails without touching
    /// the image, the table, or any installed hook, when the address is
    /// already hooked or the image has no full entry at it.
    pub fn install(&mut self, image: &mut Memory, address: usize, sig: Signature, replacement: u32)
        -> (r: Result<(), HookError>)
        requires
            old(self).wf(),
        ensures
            final(self).wf(),
            match r {
                Ok(()) => {
                    &&& !old(self)@.contains_key(address)
                    &&& address + INSTR_LEN <= old(image)@.len()
                    &&& final(self)@ == old(self)@.insert(address, final(self)@[address])
                    &&& final(self)@.contains_key(address)
                    &&& final(self)@[address].address == address
                    &&& final(self)@[address].sig == sig
                    &&& final(self)@[address].replacement == replacement
                    &&& final(self)@[address].state is Disabled
                    &&& final(self)@[address].trampoline@ == old(image)@.subrange(
                        address as int,
                        address + INSTR_LEN,
                    )
                    &&& final(image)@.len() == old(image)@.len()
                    &&& final(image)@.subrange(address as int, address + INSTR_LEN)
                        == crate::code::spec_encode(Instr::Redirect(replacement))
                    &&& forall|i: int|
                        0 <= i < old(image)@.len() && !(address <= i < address + INSTR_LEN)
                            ==> final(image)@[i] == old(image)@[i]
                },
                Err(e) => {
                    &&& *final(self) == *old(self)
                    &&& *final(image) == *old(image)
                    &&& (e is AlreadyHooked <==> old(self)@.contains_key(address))
                    &&& (e is AlreadyHooked || e is Unwritable)
                    &&& (e is Unwritable ==> address + INSTR_LEN > old(image)@.len())
                },
            },
    {
        if self.is_registered(address) {
            return Err(HookError::AlreadyHooked);
        }
        match DetourHook::install(image, address, sig, replacement) {
            Ok(h) => {
                match self.register(h) {
                    Ok(()) => Ok(()),
                    Err(e) => Err(e),
                }
            },
            Err(e) => Err(e),
        }
    }

    /// Make the redirect at `address` live. A hook that is already
    /// enabled stays exactly as it is; an unhooked address is refused.
    pub fn enable(&mut self, address: usize) -> (r: Result<(), HookError>)
        requires
            old(self).wf(),
        ensures
            final(self).wf(),
            match r {
                Ok(()) => old(self)@.contains_key(address) && final(self)@ == old(self)@.insert(
                    address,
                    spec_enabled(old(self)@[address]),
                ),
                Err(e) => e is NotRegistered && !old(self)@.contains_key(address) && *final(self)
                    == *old(self),
            },
    {
        proof {
            lemma_map_of_domain(self.hooks@, address);
        }
        match self.position(address) {
            Some(i) => {
                proof {
                    lemma_map_of_at(self.hooks@, i as int);
                }
                let mut h = self.hooks.remove(i);
                h.enable();
                proof {
                    lemma_map_of_update(old(self).hooks@, i as int, h);
                    assert(self.hooks@.insert(i as int, h) =~= old(self).hooks@.update(i as int, h));
                }
                self.hooks.insert(i, h);
                Ok(())
            },
            None => Err(HookError::NotRegistered),
        }
    }

    /// Bypass the redirect at `address` so the original code runs again.
    /// A hook that is already disabled stays exactly as it is.
    pub fn disable(&mut self, address: usize) -> (r: Result<(), HookError>)
        requires
            old(self).wf(),
        ensures
            final(self).wf(),
            match r {
                Ok(()) => old(self)@.contains_key(address) && final(self)@ == old(self)@.insert(
                    address,
                    spec_disabled(old(self)@[address]),
                ),
                Err(e) => e is NotRegistered && !old(self)@.contains_key(address) && *final(self)
                    == *old(self),
            },
    {
        proof {
            lemma_map_of_domain(self.hooks@, address);
        }
        match self.position(address) {
            Some(i) => {
                proof {
                    lemma_map_of_at(self.hooks@, i as int);
                }
                let mut h = self.hooks.remove(i);
                h.disable();
                proof {
                    lemma_map_of_update(old(self).hooks@, i as int, h);
                    assert(self.hooks@.insert(i as int, h) =~= old(self).hooks@.update(i as int, h));
                }
                self.hooks.insert(i, h);
                Ok(())
            },
            None => Err(HookError::NotRegistered),
        }
    }

    /// Invoke the original code displaced from `address` through the
    /// registered hook's trampoline, whatever the enablement state.
    pub fn call(&self, address: usize, args: &Vec<u32>) -> (r: Option<u32>)
        requires
            self.wf(),
        ensures
            r == (if self@.contains_key(address) {
                spec_call(self@[address], args@)
            } else {
                None::<u32>
            }),
    {
        match self.lookup(address) {
            Some(h) => h.call(args),
            None => None,
        }
    }

    /// Dispatch an invocation arriving at `address`, as the host's
    /// control flow would: decode the entry there; run a stub; follow a
    /// redirect to the replacement when its hook is enabled, and through
    /// the trampoline when it is disabled.
    pub fn execute(&self, image: &Memory, address: usize, args: &Vec<u32>) -> (o: Outcome)
        requires
            self.wf(),
        ensures
            o == spec_execute(self@, image@, address, args@),
    {
        let image_len = image.len();
        if image_len < INSTR_LEN || address > image_len - INSTR_LEN {
            return Outcome::Fault;
        }
        let entry = image.read_bytes(address, INSTR_LEN);
        match decode(&entry) {
            None => Outcome::Fault,
            Some(Instr::Redirect(id)) => {
                match self.lookup(address) {
                    Some(h) => {
                        if matches!(h.state, HookState::Enabled) {
                            Outcome::Replacement(id)
                        } else {
                            match h.call(args) {
                                Some(v) => Outcome::Value(v),
                                None => Outcome::Fault,
                            }
                        }
                    },
                    None => Outcome::Fault,
                }
            },
            Some(i) => {
                let v = eval_instr(&i, args);
                Outcome::Value(v)
            },
        }
    }

    /// The established pattern a replacement uses to reach the code it
    /// displaced without recursing into itself: disable the hook, call
    /// the original through the trampoline, re-enable. The hook ends
    /// enabled whatever state it started in; during the disabled window
    /// another context reaching the address observes the original
    /// behavior, an accepted race.
    pub fn delegate_to_original(&mut self, address: usize, args: &Vec<u32>) -> (r: Option<u32>)
        requires
            old(self).wf(),
        ensures
            final(self).wf(),
            old(self)@.contains_key(address) ==> {
                &&& final(self)@ == old(self)@.insert(address, spec_enabled(old(self)@[address]))
                &&& r == spec_call(old(self)@[address], args@)
            },
            !old(self)@.contains_key(address) ==> r is None && *final(self) == *old(self),
    {
        match self.disable(address) {
            Ok(()) => {},
            Err(_) => {
                return None;
            },
        }
        let r = self.call(address, args);
        let _ = self.enable(address);
        proof {
            assert(self@ =~= old(self)@.insert(address, spec_enabled(old(self)@[address])));
        }
        r
    }

    /// Tear the registry down at module unload: disable every hook,
    /// write its displaced bytes back, and release it. Bytes outside the
    /// hooked regions are never touched; when the hooked regions are
    /// disjoint and lie inside the image, every region ends holding its
    /// hook's displaced bytes — the address is pristine again. A hook
    /// whose region no longer fits the image is released without a
    /// restore.
    pub fn teardown(&mut self, image: &mut Memory)
        requires
            old(self).wf(),
        ensures
            final(self).wf(),
            final(self)@ == Map::<usize, DetourHook>::empty(),
            final(image)@.len() == old(image)@.len(),
            forall|i: int|
                0 <= i < old(image)@.len() && !in_hooked_region(old(self)@, i)
                    ==> final(image)@[i] == old(image)@[i],
            (hooked_regions_disjoint(old(self)@) && hooked_regions_in_image(
                old(self)@,
                old(image)@,
            )) ==> forall|a: usize| #[trigger]
                old(self)@.contains_key(a) ==> final(image)@.subrange(a as int, a + INSTR_LEN)
                    == old(self)@[a].trampoline@,
    {
        let ghost s0 = self.hooks@;
        proof {
            assert forall|k: int| 0 <= k < s0.len() implies map_of(s0).contains_key(
                (#[trigger] s0[k]).address,
            ) && map_of(s0)[s0[k].address] == s0[k] by {
                lemma_map_of_at(s0, k);
            }
        }
        let image_len = image.len();
        while self.hooks.len() > 0
            invariant
                self.wf(),
                image@.len() == old(image)@.len(),
                image_len == image@.len(),
                self.hooks@.len() <= s0.len(),
                self.hooks@ == s0.take(self.hooks@.len() as int),
                unique_addresses(s0),
                forall|k: int|
                    0 <= k < s0.len() ==> map_of(s0).contains_key((#[trigger] s0[k]).address)
                        && map_of(s0)[s0[k].address] == s0[k] && s0[k].wf(),
                forall|i: int|
                    0 <= i < old(image)@.len() && !(exists|k: int|
                        self.hooks@.len() <= k < s0.len() && (#[trigger] s0[k]).address <= i
                            < s0[k].address + INSTR_LEN) ==> image@[i] == old(image)@[i],
                (hooked_regions_disjoint(map_of(s0)) && hooked_regions_in_image(
                    map_of(s0),
                    old(image)@,
                )) ==> forall|k: int|
                    self.hooks@.len() <= k < s0.len() ==> image@.subrange(
                        (#[trigger] s0[k]).address as int,
                        s0[k].address + INSTR_LEN,
                    ) == s0[k].trampoline@,
            decreases self.hooks@.len(),
        {
            let ghost cur = self.hooks@.len() as int;
            let ghost img0 = image@;
            proof {
                assert(self.hooks@[cur - 1] == s0[cur - 1]);
                assert(s0[cur - 1].wf());
            }
            let mut h = match self.hooks.pop() {
                Some(h) => h,
                None => {
                    return ;
                },
            };
            proof {
                assert(self.hooks@ =~= s0.take(cur - 1));
            }
            h.disable();
            proof {
                if hooked_regions_disjoint(map_of(s0)) && hooked_regions_in_image(
                    map_of(s0),
                    old(image)@,
                ) {
                    assert(map_of(s0).contains_key(s0[cur - 1].address));
                    assert(h.address + INSTR_LEN <= image_len);
                }
            }
            if image_len >= INSTR_LEN && h.address <= image_len - INSTR_LEN {
                h.uninstall(image);
            }
            proof {
                if hooked_regions_disjoint(map_of(s0)) && hooked_regions_in_image(
                    map_of(s0),
                    old(image)@,
                ) {
                    assert forall|k: int| cur - 1 <= k < s0.len() implies image@.subrange(
                        (#[trigger] s0[k]).address as int,
                        s0[k].address + INSTR_LEN,
                    ) == s0[k].trampoline@ by {
                        let a = s0[k].address;
                        if k > cur - 1 {
                            assert(a != s0[cur - 1].address);
                            assert(a + INSTR_LEN <= s0[cur - 1].address || s0[cur - 1].address
                                + INSTR_LEN <= a);
                            assert(image@.subrange(a as int, a + INSTR_LEN) =~= img0.subrange(
                                a as int,
                                a + INSTR_LEN,
                            ));
                        } else {
                            assert(image@.subrange(a as int, a + INSTR_LEN) =~= h.trampoline@);
                        }
                    }
                }
            }
        }
        proof {
            assert forall|i: int|
                0 <= i < old(image)@.len() && !in_hooked_region(old(self)@, i) implies image@[i]
                == old(image)@[i] by {
                if exists|k: int|
                    0 <= k < s0.len() && (#[trigger] s0[k]).address <= i < s0[k].address
                        + INSTR_LEN {
                    let k = choose|k: int|
                        0 <= k < s0.len() && (#[trigger] s0[k]).address <= i < s0[k].address
                            + INSTR_LEN;
                    assert(map_of(s0).contains_key(s0[k].address));
                    assert(in_hooked_region(old(self)@, i));
                }
            }
            if hooked_regions_disjoint(old(self)@) && hooked_regions_in_image(
                old(self)@,
                old(image)@,
            ) {
                assert forall|a: usize| #[trigger]
                    old(self)@.contains_key(a) implies image@.subrange(a as int, a + INSTR_LEN)
                    == old(self)@[a].trampoline@ by {
                    lemma_map_of_domain(s0, a);
                    let k = choose|k: int| 0 <= k < s0.len() && s0[k].address == a;
                    lemma_map_of_at(s0, k);
                }
            }
        }
    }
}

/// One start-up target: a fixed address, the signature of the routine
/// standing there, and the replacement its detour names. The table of
/// these is configuration, supplied at build time, never discovered.
pub struct HookSpec {
    pub address: usize,
    pub sig: Signature,
    pub replacement: u32,
}

/// Every target address is free in the given table.
pub open spec fn targets_fresh(ts: Seq<HookSpec>, m: Map<usize, DetourHook>) -> bool {
    forall|k: int| 0 <= k < ts.len() ==> !m.contains_key((#[trigger] ts[k]).address)
}

/// No two targets name the same address.
pub open spec fn targets_distinct(ts: Seq<HookSpec>) -> bool {
    forall|k: int, j: int| 0 <= k < j < ts.len() ==> ts[k].address != ts[j].address
}

/// Every target's five-byte entry lies inside the image.
pub open spec fn targets_in_image(ts: Seq<HookSpec>, img: Seq<u8>) -> bool {
    forall|k: int| 0 <= k < ts.len() ==> (#[trigger] ts[k]).address + INSTR_LEN <= img.len()
}

/// No two targets' five-byte entries overlap.
pub open spec fn target_regions_disjoint(ts: Seq<HookSpec>) -> bool {
    forall|k: int, j: int|
        0 <= k < ts.len() && 0 <= j < ts.len() && k != j ==> ts[k].address + INSTR_LEN
            <= ts[j].address || ts[j].address + INSTR_LEN <= ts[k].address
}

/// Whether some target's entry covers image index `i`.
pub open spec fn in_target_region(ts: Seq<HookSpec>, i: int) -> bool {
    exists|k: int| 0 <= k < ts.len() && (#[trigger] ts[k]).address <= i < ts[k].address + INSTR_LEN
}

impl Registry {
    /// Module-init: install and enable a detour for every configured
    /// target, in order. Succeeds exactly when every target address is
    /// fresh, no address is configured twice, and every entry lies
    /// inside the image; it stops at the first failure, and a partially
    /// hooked host is unrecoverable, so the caller treats any error as
    /// fatal and aborts loading. Bytes outside the targets' entries —
    /// buffers the caller patched beforehand among them — are never
    /// touched, success or not.
    pub fn install_all(&mut self, image: &mut Memory, targets: Vec<HookSpec>) -> (r: Result<
        (),
        HookError,
    >)
        requires
            old(self).wf(),
        ensures
            final(self).wf(),
            final(image)@.len() == old(image)@.len(),
            r is Ok <==> (targets_fresh(targets@, old(self)@) && targets_distinct(targets@)
                && targets_in_image(targets@, old(image)@)),
            forall|i: int|
                0 <= i < old(image)@.len() && !in_target_region(targets@, i)
                    ==> final(image)@[i] == old(image)@[i],
            forall|a: usize| #[trigger]
                old(self)@.contains_key(a) ==> final(self)@.contains_key(a) && final(self)@[a]
                    == old(self)@[a],
            r is Ok ==> {
                &&& forall|a: usize| #[trigger]
                    final(self)@.contains_key(a) ==> old(self)@.contains_key(a) || exists|k: int|
                        0 <= k < targets@.len() && (#[trigger] targets@[k]).address == a
                &&& forall|k: int|
                    0 <= k < targets@.len() ==> {
                        &&& final(self)@.contains_key((#[trigger] targets@[k]).address)
                        &&& final(self)@[targets@[k].address].address == targets@[k].address
                        &&& final(self)@[targets@[k].address].sig == targets@[k].sig
                        &&& final(self)@[targets@[k].address].replacement == targets@[
                            k
                        ].replacement
                        &&& final(self)@[targets@[k].address].state is Enabled
                    }
            },
            (r is Ok && target_regions_disjoint(targets@)) ==> forall|k: int|
                0 <= k < targets@.len() ==> {
                    &&& final(image)@.subrange(
                        (#[trigger] targets@[k]).address as int,
                        targets@[k].address + INSTR_LEN,
                    ) == crate::code::spec_encode(Instr::Redirect(targets@[k].replacement))
                    &&& final(self)@[targets@[k].address].trampoline@ == old(image)@.subrange(
                        targets@[k].address as int,
                        targets@[k].address + INSTR_LEN,
                    )
                },
    {
        let ghost all = targets@;
        let mut remaining = targets;
        let ghost mut done: int = 0;
        while remaining.len() > 0
            invariant
                self.wf(),
                all == targets@,
                image@.len() == old(image)@.len(),
                done == all.len() - remaining@.len(),
                0 <= done <= all.len(),
                remaining@ == all.skip(done),
                forall|k: int|
                    0 <= k < done ==> !old(self)@.contains_key((#[trigger] all[k]).address),
                forall|k: int, j: int| 0 <= k < j < done ==> all[k].address != all[j].address,
                forall|k: int|
                    0 <= k < done ==> (#[trigger] all[k]).address + INSTR_LEN <= old(
                        image,
                    )@.len(),
                forall|a: usize| #[trigger]
                    old(self)@.contains_key(a) ==> self@.contains_key(a) && self@[a] == old(
                        self,
                    )@[a],
                forall|a: usize| #[trigger]
                    self@.contains_key(a) ==> old(self)@.contains_key(a) || exists|k: int|
                        0 <= k < done && (#[trigger] all[k]).address == a,
                forall|k: int|
                    0 <= k < done ==> {
                        &&& self@.contains_key((#[trigger] all[k]).address)
                        &&& self@[all[k].address].address == all[k].address
                        &&& self@[all[k].address].sig == all[k].sig
                        &&& self@[all[k].address].replacement == all[k].replacement
                        &&& self@[all[k].address].state is Enabled
                    },
                forall|i: int|
                    0 <= i < old(image)@.len() && !(exists|k: int|
                        0 <= k < done && (#[trigger] all[k]).address <= i < all[k].address
                            + INSTR_LEN) ==> image@[i] == old(image)@[i],
                target_regions_disjoint(all) ==> forall|k: int|
                    0 <= k < done ==> {
                        &&& image@.subrange(
                            (#[trigger] all[k]).address as int,
                            all[k].address + INSTR_LEN,
                        ) == crate::code::spec_encode(Instr::Redirect(all[k].replacement))
                        &&& self@[all[k].address].trampoline@ == old(image)@.subrange(
                            all[k].address as int,
                            all[k].address + INSTR_LEN,
                        )
                    },
            decreases remaining@.len(),
        {
            let ghost img0 = image@;
            let t = remaining.remove(0);
            proof {
                assert(all[done] == t);
                assert(remaining@ =~= all.skip(done + 1));
            }
            match self.install(image, t.address, t.sig, t.replacement) {
                Ok(()) => {},
                Err(e) => {
                    proof {
                        if e is AlreadyHooked {
                            if !old(self)@.contains_key(t.address) {
                                let k = choose|k: int|
                                    0 <= k < done && (#[trigger] all[k]).address == t.address;
                                assert(0 <= k < done < all.len());
                                assert(all[k].address == all[done].address);
                                assert(!targets_distinct(all));
                            } else {
                                assert(old(self)@.contains_key((all[done]).address));
                                assert(!targets_fresh(all, old(self)@));
                            }
                        } else {
                            assert((all[done]).address + INSTR_LEN > old(image)@.len());
                            assert(!targets_in_image(all, old(image)@));
                        }
                        assert(!(targets_fresh(all, old(self)@) && targets_distinct(all)
                            && targets_in_image(all, old(image)@)));
                        assert forall|i: int|
                            0 <= i < old(image)@.len() && !in_target_region(all, i) implies
                            image@[i] == old(image)@[i] by {
                            if exists|k: int|
                                0 <= k < done && (#[trigger] all[k]).address <= i < all[
                                    k
                                ].address + INSTR_LEN {
                                let k = choose|k: int|
                                    0 <= k < done && (#[trigger] all[k]).address <= i < all[
                                        k
                                    ].address + INSTR_LEN;
                                assert(in_target_region(all, i));
                            }
                        }
                    }
                    return Err(e);
                },
            }
            match self.enable(t.address) {
                Ok(()) => {},
                Err(e) => {
                    // The address was just installed, so it is registered.
                    proof {
                        assert(self@.contains_key(t.address));
                        assert(false);
                    }
                    return Err(e);
                },
            }
            proof {
                assert forall|k: int| 0 <= k < done implies all[k].address != t.address by {}
                if target_regions_disjoint(all) {
                    assert forall|k: int| 0 <= k < done + 1 implies image@.subrange(
                        (#[trigger] all[k]).address as int,
                        all[k].address + INSTR_LEN,
                    ) == crate::code::spec_encode(Instr::Redirect(all[k].replacement))
                        && self@[all[k].address].trampoline@ == old(image)@.subrange(
                        all[k].address as int,
                        all[k].address + INSTR_LEN,
                    ) by {
                        let a = all[k].address;
                        if k < done {
                            assert(a + INSTR_LEN <= t.address || t.address + INSTR_LEN <= a);
                            assert(image@.subrange(a as int, a + INSTR_LEN) =~= img0.subrange(
                                a as int,
                                a + INSTR_LEN,
                            ));
                        } else {
                            assert(self@[a].trampoline@ =~= old(image)@.subrange(
                                a as int,
                                a + INSTR_LEN,
                            ));
                        }
                    }
                }
                done = done + 1;
            }
        }
        proof {
            assert(done == all.len());
            assert(targets_fresh(all, old(self)@));
            assert(targets_distinct(all));
            assert(targets_in_image(all, old(image)@));
            assert forall|i: int|
                0 <= i < old(image)@.len() && !in_target_region(all, i) implies image@[i] == old(
                image,
            )@[i] by {
                if exists|k: int|
                    0 <= k < done && (#[trigger] all[k]).address <= i < all[k].address
                        + INSTR_LEN {
                    let k = choose|k: int|
                        0 <= k < done && (#[trigger] all[k]).address <= i < all[k].address
                            + INSTR_LEN;
                    assert(in_target_region(all, i));
                }
            }
        }
        Ok(())
    }
}

/// While a hook is enabled, an invocation arriving at its address
/// reaches the replacement, never the original: dispatch of an image
/// that carries the hook's redirect yields the replacement identifier.
pub proof fn lemma_enabled_runs_replacement(
    reg: Map<usize, DetourHook>,
    img: Seq<u8>,
    address: usize,
    args: Seq<u32>,
)
    requires
        reg.contains_key(address),
        reg[address].state is Enabled,
        address + INSTR_LEN <= img.len(),
        img.subrange(address as int, address + INSTR_LEN) == crate::code::spec_encode(
            Instr::Redirect(reg[address].replacement),
        ),
    ensures
        spec_execute(reg, img, address, args) == Outcome::Replacement(reg[address].replacement),
{
    crate::code::lemma_code_roundtrip(Instr::Redirect(reg[address].replacement));
}

/// While a hook is disabled, an invocation arriving at its address runs
/// the displaced original code through the trampoline: with the
/// trampoline holding what the pristine image held, dispatch returns
/// exactly what direct invocation of the pristine image returned.
pub proof fn lemma_disabled_runs_original(
    reg: Map<usize, DetourHook>,
    img: Seq<u8>,
    pristine: Seq<u8>,
    address: usize,
    args: Seq<u32>,
    v: u32,
)
    requires
        reg.contains_key(address),
        reg[address].state is Disabled,
        reg[address].address == address,
        address + INSTR_LEN <= img.len(),
        img.subrange(address as int, address + INSTR_LEN) == crate::code::spec_encode(
            Instr::Redirect(reg[address].replacement),
        ),
        address + INSTR_LEN <= pristine.len(),
        reg[address].trampoline@ == pristine.subrange(address as int, address + INSTR_LEN),
        (crate::dib::DirectBinding {
            address,
            sig: reg[address].sig,
        }).spec_invoke(pristine, args) == Some(v),
    ensures
        spec_execute(reg, img, address, args) == Outcome::Value(v),
{
    crate::code::lemma_code_roundtrip(Instr::Redirect(reg[address].replacement));
    crate::dib::lemma_trampoline_fidelity(reg[address], pristine, args);
}

/// What dispatch at an address does, over the abstract registry map and
/// the image bytes.
pub open spec fn spec_execute(
    reg: Map<usize, DetourHook>,
    img: Seq<u8>,
    address: usize,
    args: Seq<u32>,
) -> Outcome {
    if address + INSTR_LEN > img.len() {
        Outcome::Fault
    } else {
        match spec_decode(img.subrange(address as int, address + INSTR_LEN)) {
            None => Outcome::Fault,
            Some(i) => match i {
                Instr::Redirect(id) => if reg.contains_key(address) {
                    if reg[address].state is Enabled {
                        Outcome::Replacement(id)
                    } else {
                        match spec_call(reg[address], args) {
                            Some(v) => Outcome::Value(v),
                            None => Outcome::Fault,
                        }
                    }
                } else {
                    Outcome::Fault
                },
                _ => Outcome::Value(spec_eval(i, args)),
            },
        }
    }
}

} // verus!
