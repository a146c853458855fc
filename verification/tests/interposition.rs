use interpose::code::Instr;
use interpose::code::decode;
use interpose::code::encode;
use interpose::code::eval_instr;
use interpose::conv::CallConv;
use interpose::conv::ParamKind;
use interpose::conv::RetKind;
use interpose::conv::Signature;
use interpose::conv::marshal;
use interpose::conv::unmarshal;
use interpose::dib::DirectBinding;
use interpose::hook::HookError;
use interpose::hook::HookState;
use interpose::mem::Memory;
use interpose::registry::HookSpec;
use interpose::registry::Outcome;
use interpose::registry::Registry;

fn sig(conv: CallConv, n: usize) -> Signature {
    let mut params = Vec::new();
    for _ in 0..n {
        params.push(ParamKind::Uint);
    }
    Signature { conv, params, ret: RetKind::Uint }
}

fn image_with(addr: usize, instr: Instr) -> Memory {
    let mut image = Memory::new(0x1000);
    let bytes = encode(&instr);
    image.write_bytes(addr, &bytes);
    image
}

#[test]
fn dib_returns_stub_value_for_every_convention() {
    for conv in [CallConv::Fastcall, CallConv::Thiscall, CallConv::Stdcall] {
        let image = image_with(0x40, Instr::Sum);
        let b = DirectBinding::bind(0x40, sig(conv, 3));
        assert_eq!(b.invoke(&image, &vec![5, 6, 7]), Some(18));

        let image = image_with(0x80, Instr::Arg(2));
        let b = DirectBinding::bind(0x80, sig(conv, 3));
        assert_eq!(b.invoke(&image, &vec![10, 20, 30]), Some(30));

        let image = image_with(0x200, Instr::Const(0xDEAD_BEEF));
        let b = DirectBinding::bind(0x200, sig(conv, 0));
        assert_eq!(b.invoke(&image, &vec![]), Some(0xDEAD_BEEF));
    }
}

#[test]
fn dib_rejects_out_of_image_address() {
    let image = Memory::new(8);
    let b = DirectBinding::bind(6, sig(CallConv::Stdcall, 0));
    assert_eq!(b.invoke(&image, &vec![]), None);
}

#[test]
fn marshal_roundtrip_is_lossless() {
    let args = vec![1u32, 2, 3, 4, 5];
    for conv in [CallConv::Fastcall, CallConv::Thiscall, CallConv::Stdcall] {
        let frame = marshal(conv, &args);
        assert_eq!(unmarshal(&frame), args);
    }
    let frame = marshal(CallConv::Fastcall, &args);
    assert_eq!(frame.regs, vec![1, 2]);
    assert_eq!(frame.stack, vec![3, 4, 5]);
    let frame = marshal(CallConv::Thiscall, &args);
    assert_eq!(frame.regs, vec![1]);
    let frame = marshal(CallConv::Stdcall, &args);
    assert!(frame.regs.is_empty());
    assert_eq!(frame.stack, args);
    let short = vec![9u32];
    let frame = marshal(CallConv::Fastcall, &short);
    assert_eq!(frame.regs, vec![9]);
    assert!(frame.stack.is_empty());
    assert_eq!(unmarshal(&frame), short);
}

#[test]
fn code_roundtrip_and_eval() {
    for instr in [Instr::Const(0x01020304), Instr::Sum, Instr::Arg(7), Instr::Redirect(42)] {
        assert_eq!(decode(&encode(&instr)), Some(instr));
    }
    assert_eq!(decode(&vec![0x01, 0x00]), None);
    assert_eq!(decode(&vec![0x7f, 0, 0, 0, 0]), None);
    assert_eq!(eval_instr(&Instr::Sum, &vec![u32::MAX, 2]), 1);
    assert_eq!(eval_instr(&Instr::Sum, &vec![]), 0);
    assert_eq!(eval_instr(&Instr::Const(5), &vec![1, 2]), 5);
    assert_eq!(eval_instr(&Instr::Arg(1), &vec![10, 20]), 20);
    assert_eq!(eval_instr(&Instr::Arg(9), &vec![10, 20]), 0);
}

#[test]
fn memory_typed_access() {
    let mut m = Memory::new(64);
    assert_eq!(m.len(), 64);
    assert_eq!(m.read_u8(10), 0);
    m.write_u8(10, 0xAB);
    assert_eq!(m.read_u8(10), 0xAB);
    m.write_u32(16, 0xCAFE_F00D);
    assert_eq!(m.read_u32(16), 0xCAFE_F00D);
    assert_eq!(m.read_u8(16), 0x0D);
    assert_eq!(m.read_u8(19), 0xCA);
    m.write_bytes(32, &vec![b'O', b'p', b'e', b'n', b'G', b'L', 0]);
    assert_eq!(m.read_u8(32), b'O');
    assert_eq!(m.read_u8(37), b'L');
    assert_eq!(m.read_u8(38), 0);
    let copied = m.read_bytes(32, 7);
    assert_eq!(copied, vec![b'O', b'p', b'e', b'n', b'G', b'L', 0]);
}

#[test]
fn trampoline_call_matches_pristine_routine() {
    let mut image = image_with(0x100, Instr::Sum);
    let pristine = DirectBinding::bind(0x100, sig(CallConv::Fastcall, 2));
    assert_eq!(pristine.invoke(&image, &vec![3, 4]), Some(7));

    let mut reg = Registry::new();
    assert_eq!(reg.install(&mut image, 0x100, sig(CallConv::Fastcall, 2), 1), Ok(()));
    // Never enabled; call() still reaches the displaced original.
    assert_eq!(reg.call(0x100, &vec![3, 4]), Some(7));
    // The address itself now holds a redirect, not directly invocable.
    assert_eq!(pristine.invoke(&image, &vec![3, 4]), None);
}

#[test]
fn enabled_hook_dispatches_to_replacement() {
    let mut image = image_with(0x100, Instr::Sum);
    let mut reg = Registry::new();
    reg.install(&mut image, 0x100, sig(CallConv::Fastcall, 2), 77).unwrap();
    reg.enable(0x100).unwrap();
    assert_eq!(reg.execute(&image, 0x100, &vec![3, 4]), Outcome::Replacement(77));
}

#[test]
fn disabled_hook_dispatches_to_original() {
    let mut image = image_with(0x100, Instr::Sum);
    let before = DirectBinding::bind(0x100, sig(CallConv::Fastcall, 2)).invoke(&image, &vec![3, 4]);
    let mut reg = Registry::new();
    reg.install(&mut image, 0x100, sig(CallConv::Fastcall, 2), 77).unwrap();
    reg.enable(0x100).unwrap();
    reg.disable(0x100).unwrap();
    assert_eq!(reg.execute(&image, 0x100, &vec![3, 4]), Outcome::Value(7));
    assert_eq!(before, Some(7));
}

#[test]
fn enable_and_disable_are_idempotent() {
    let mut image = image_with(0x100, Instr::Sum);
    let mut reg = Registry::new();
    reg.install(&mut image, 0x100, sig(CallConv::Fastcall, 2), 77).unwrap();

    reg.enable(0x100).unwrap();
    let once = reg.execute(&image, 0x100, &vec![3, 4]);
    reg.enable(0x100).unwrap();
    let twice = reg.execute(&image, 0x100, &vec![3, 4]);
    assert_eq!(once, twice);
    assert_eq!(twice, Outcome::Replacement(77));

    reg.disable(0x100).unwrap();
    let once = reg.execute(&image, 0x100, &vec![3, 4]);
    reg.disable(0x100).unwrap();
    let twice = reg.execute(&image, 0x100, &vec![3, 4]);
    assert_eq!(once, twice);
    assert_eq!(twice, Outcome::Value(7));
}

#[test]
fn second_install_at_same_address_fails_untouched() {
    let mut image = image_with(0x100, Instr::Sum);
    let mut reg = Registry::new();
    reg.install(&mut image, 0x100, sig(CallConv::Fastcall, 2), 77).unwrap();
    reg.enable(0x100).unwrap();

    let r = reg.install(&mut image, 0x100, sig(CallConv::Thiscall, 2), 99);
    assert_eq!(r, Err(HookError::AlreadyHooked));
    // The existing hook kept its state and its replacement.
    let h = reg.lookup(0x100).unwrap();
    assert_eq!(h.state, HookState::Enabled);
    assert_eq!(h.replacement, 77);
    assert_eq!(reg.execute(&image, 0x100, &vec![3, 4]), Outcome::Replacement(77));
}

#[test]
fn install_out_of_image_fails_untouched() {
    let mut image = Memory::new(8);
    let mut reg = Registry::new();
    let r = reg.install(&mut image, 6, sig(CallConv::Stdcall, 0), 1);
    assert_eq!(r, Err(HookError::Unwritable));
    assert!(!reg.is_registered(6));
}

#[test]
fn enable_unregistered_address_is_refused() {
    let mut reg = Registry::new();
    assert_eq!(reg.enable(0x500), Err(HookError::NotRegistered));
    assert_eq!(reg.disable(0x500), Err(HookError::NotRegistered));
    assert!(reg.lookup(0x500).is_none());
    assert_eq!(reg.call(0x500, &vec![1]), None);
}

#[test]
fn unregister_hands_the_hook_back() {
    let mut image = image_with(0x100, Instr::Sum);
    let mut reg = Registry::new();
    reg.install(&mut image, 0x100, sig(CallConv::Fastcall, 2), 77).unwrap();
    let h = reg.unregister(0x100).unwrap();
    assert_eq!(h.address, 0x100);
    assert_eq!(h.replacement, 77);
    assert!(!reg.is_registered(0x100));
    assert!(reg.unregister(0x100).is_none());
}

#[test]
fn teardown_restores_pristine_image() {
    let mut image = image_with(0x100, Instr::Sum);
    let bytes = encode(&Instr::Const(11));
    image.write_bytes(0x200, &bytes);
    let pristine = image.read_bytes(0, image.len());

    let mut reg = Registry::new();
    reg.install(&mut image, 0x100, sig(CallConv::Fastcall, 2), 1).unwrap();
    reg.install(&mut image, 0x200, sig(CallConv::Stdcall, 0), 2).unwrap();
    reg.enable(0x100).unwrap();
    reg.teardown(&mut image);

    assert!(!reg.is_registered(0x100));
    assert!(!reg.is_registered(0x200));
    let b = DirectBinding::bind(0x100, sig(CallConv::Fastcall, 2));
    assert_eq!(b.invoke(&image, &vec![3, 4]), Some(7));
    let b = DirectBinding::bind(0x200, sig(CallConv::Stdcall, 0));
    assert_eq!(b.invoke(&image, &vec![]), Some(11));
    // Byte for byte, the image is as it was before installation.
    assert_eq!(image.read_bytes(0, image.len()), pristine);
}

#[test]
fn install_all_preserves_patched_buffers() {
    let mut image = image_with(0x100, Instr::Sum);
    let marker = vec![b'O', b'p', b'e', b'n', b'G', b'L', 0];
    image.write_bytes(0x800, &marker);
    image.write_bytes(0x900, &marker);

    let mut reg = Registry::new();
    let targets = vec![HookSpec {
        address: 0x100,
        sig: sig(CallConv::Fastcall, 2),
        replacement: 1,
    }];
    assert_eq!(reg.install_all(&mut image, targets), Ok(()));
    // The buffers patched before installation survive it.
    assert_eq!(image.read_bytes(0x800, 7), marker);
    assert_eq!(image.read_bytes(0x900, 7), marker);
    assert_eq!(reg.execute(&image, 0x100, &vec![3, 4]), Outcome::Replacement(1));
}

#[test]
fn install_all_fails_on_out_of_image_target() {
    let mut image = image_with(0x100, Instr::Sum);
    let mut reg = Registry::new();
    let targets = vec![
        HookSpec { address: 0x100, sig: sig(CallConv::Fastcall, 2), replacement: 1 },
        HookSpec { address: 0x0FFD, sig: sig(CallConv::Stdcall, 0), replacement: 2 },
    ];
    assert_eq!(reg.install_all(&mut image, targets), Err(HookError::Unwritable));
}

#[test]
fn install_all_enables_every_target() {
    let mut image = image_with(0x100, Instr::Sum);
    let bytes = encode(&Instr::Const(11));
    image.write_bytes(0x200, &bytes);

    let mut reg = Registry::new();
    let targets = vec![
        HookSpec { address: 0x100, sig: sig(CallConv::Fastcall, 2), replacement: 1 },
        HookSpec { address: 0x200, sig: sig(CallConv::Stdcall, 0), replacement: 2 },
    ];
    assert_eq!(reg.install_all(&mut image, targets), Ok(()));
    assert_eq!(reg.execute(&image, 0x100, &vec![3, 4]), Outcome::Replacement(1));
    assert_eq!(reg.execute(&image, 0x200, &vec![]), Outcome::Replacement(2));
}

#[test]
fn install_all_fails_on_duplicate_address() {
    let mut image = image_with(0x100, Instr::Sum);
    let mut reg = Registry::new();
    let targets = vec![
        HookSpec { address: 0x100, sig: sig(CallConv::Fastcall, 2), replacement: 1 },
        HookSpec { address: 0x100, sig: sig(CallConv::Fastcall, 2), replacement: 2 },
    ];
    assert_eq!(reg.install_all(&mut image, targets), Err(HookError::AlreadyHooked));
}

#[test]
fn execute_faults_on_unhooked_redirect_and_bad_bytes() {
    let reg = Registry::new();
    let image = image_with(0x100, Instr::Redirect(5));
    assert_eq!(reg.execute(&image, 0x100, &vec![]), Outcome::Fault);
    let image = Memory::new(16);
    // Zeroed bytes decode to no known opcode.
    assert_eq!(reg.execute(&image, 4, &vec![]), Outcome::Fault);
    assert_eq!(reg.execute(&image, 14, &vec![]), Outcome::Fault);
}

#[test]
fn hooked_add_scenario() {
    // A stub computing a + b, bound and called directly: 3 + 4 == 7.
    let mut image = image_with(0x100, Instr::Sum);
    let add = DirectBinding::bind(0x100, sig(CallConv::Fastcall, 2));
    assert_eq!(add.invoke(&image, &vec![3, 4]), Some(7));

    // Hook the same address with a replacement that calls through and
    // adds one.
    let replacement_id: u32 = 9;
    let mut reg = Registry::new();
    reg.install(&mut image, 0x100, sig(CallConv::Fastcall, 2), replacement_id).unwrap();
    reg.enable(0x100).unwrap();

    // The harness jumps to the hooked address and runs what dispatch
    // selects.
    let invoke_hooked = |reg: &mut Registry, image: &Memory, args: Vec<u32>| -> Option<u32> {
        match reg.execute(image, 0x100, &args) {
            Outcome::Replacement(id) => {
                assert_eq!(id, replacement_id);
                // The replacement delegates to the displaced original,
                // then adds one.
                let original = reg.delegate_to_original(0x100, &args)?;
                Some(original + 1)
            }
            Outcome::Value(v) => Some(v),
            Outcome::Fault => None,
        }
    };

    assert_eq!(invoke_hooked(&mut reg, &image, vec![3, 4]), Some(8));
    // The delegation pattern left the hook enabled.
    assert_eq!(reg.lookup(0x100).unwrap().state, HookState::Enabled);

    reg.disable(0x100).unwrap();
    assert_eq!(invoke_hooked(&mut reg, &image, vec![3, 4]), Some(7));
}
