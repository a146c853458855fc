use interpose::code::Instr;
use interpose::code::encode;
use interpose::console::CommandCategory;
use interpose::console::ConsoleColor;
use interpose::console::StringArena;
use interpose::console::category_code;
use interpose::console::color_code;
use interpose::console::console_command_register;
use interpose::console::init;
use interpose::console::console_write;
use interpose::conv::CallConv;
use interpose::conv::ParamKind;
use interpose::conv::RetKind;
use interpose::conv::Signature;
use interpose::dib::DirectBinding;
use interpose::mem::Memory;
use interpose::symbols::Resolution;
use interpose::symbols::SymbolCache;
use interpose::window::window_title;

fn sig(conv: CallConv, n: usize) -> Signature {
    let mut params = Vec::new();
    for _ in 0..n {
        params.push(ParamKind::Uint);
    }
    Signature { conv, params, ret: RetKind::Uint }
}

/// One first-access attempt, as each racing context performs it: consult
/// the cache, run the (instrumented) resolver only when the name is
/// still unresolved, record the outcome, read what the cache holds.
fn attempt(cache: &mut SymbolCache, runs: &mut u32, name: &str, answer: Resolution) -> Resolution {
    let key = String::from(name);
    if cache.needs_resolution(&key) {
        *runs += 1;
        cache.store(key.clone(), answer);
    }
    cache.lookup(&key).unwrap()
}

#[test]
fn symbol_cache_resolves_at_most_once() {
    let mut cache = SymbolCache::new();
    let mut runs: u32 = 0;
    let mut seen = Vec::new();
    for _ in 0..5 {
        seen.push(attempt(&mut cache, &mut runs, "glGenBuffers", Resolution::Resolved(0x4000)));
    }
    assert_eq!(runs, 1);
    for r in seen {
        assert_eq!(r, Resolution::Resolved(0x4000));
    }
}

#[test]
fn symbol_cache_failure_is_terminal() {
    let mut cache = SymbolCache::new();
    cache.store(String::from("glMissing"), Resolution::Failed);
    // A later, different outcome for the same name changes nothing.
    cache.store(String::from("glMissing"), Resolution::Resolved(0x5000));
    assert_eq!(cache.lookup(&String::from("glMissing")), Some(Resolution::Failed));
    // Other names resolve independently.
    assert_eq!(cache.lookup(&String::from("glBindBuffer")), None);
    cache.store(String::from("glBindBuffer"), Resolution::Resolved(0x6000));
    assert_eq!(cache.lookup(&String::from("glBindBuffer")), Some(Resolution::Resolved(0x6000)));
    assert_eq!(cache.lookup(&String::from("glMissing")), Some(Resolution::Failed));
}

#[test]
fn resolved_name_becomes_a_callable_binding() {
    let mut image = Memory::new(0x1000);
    let bytes = encode(&Instr::Sum);
    image.write_bytes(0x700, &bytes);

    let mut cache = SymbolCache::new();
    assert!(cache.resolved_binding(&String::from("glAdd"), sig(CallConv::Stdcall, 2)).is_none());
    cache.store(String::from("glAdd"), Resolution::Resolved(0x700));
    cache.store(String::from("glGone"), Resolution::Failed);

    let b = cache.resolved_binding(&String::from("glAdd"), sig(CallConv::Stdcall, 2)).unwrap();
    assert_eq!(b.address, 0x700);
    assert_eq!(b.invoke(&image, &vec![3, 4]), Some(7));
    assert!(cache.resolved_binding(&String::from("glGone"), sig(CallConv::Stdcall, 0)).is_none());
}

#[test]
fn category_and_color_codes_match_host_abi() {
    assert_eq!(category_code(CommandCategory::Debug), 0);
    assert_eq!(category_code(CommandCategory::Graphics), 1);
    assert_eq!(category_code(CommandCategory::Console), 2);
    assert_eq!(category_code(CommandCategory::Combat), 3);
    assert_eq!(category_code(CommandCategory::Game), 4);
    assert_eq!(category_code(CommandCategory::Default), 5);
    assert_eq!(category_code(CommandCategory::Net), 6);
    assert_eq!(category_code(CommandCategory::Sound), 7);
    assert_eq!(category_code(CommandCategory::GM), 8);
    assert_eq!(color_code(ConsoleColor::Default), 0);
    assert_eq!(color_code(ConsoleColor::Input), 1);
    assert_eq!(color_code(ConsoleColor::Echo), 2);
    assert_eq!(color_code(ConsoleColor::Error), 3);
    assert_eq!(color_code(ConsoleColor::Warning), 4);
    assert_eq!(color_code(ConsoleColor::Global), 5);
    assert_eq!(color_code(ConsoleColor::Admin), 6);
    assert_eq!(color_code(ConsoleColor::Highlight), 7);
    assert_eq!(color_code(ConsoleColor::Background), 8);
}

#[test]
fn arena_hands_out_stable_handles() {
    let mut arena = StringArena::new();
    assert_eq!(arena.len(), 0);
    let h1 = arena.intern(String::from("fps"));
    let h2 = arena.intern(String::from("shows the frame rate"));
    assert_eq!(h1, 1);
    assert_eq!(h2, 2);
    assert_eq!(arena.get(h1).as_str(), "fps");
    assert_eq!(arena.get(h2).as_str(), "shows the frame rate");
    let h3 = arena.intern(String::from("fps"));
    assert_eq!(h3, 3);
    assert_eq!(arena.get(h1).as_str(), "fps");
    assert_eq!(arena.len(), 3);
}

#[test]
fn command_registration_interns_and_invokes() {
    // The host's registration routine, as a stub that echoes its first
    // argument (the command handle).
    let mut image = Memory::new(0x1000);
    let bytes = encode(&Instr::Arg(0));
    image.write_bytes(0x300, &bytes);
    let register = DirectBinding::bind(0x300, sig(CallConv::Fastcall, 4));

    let mut arena = StringArena::new();
    let r = console_command_register(
        &register,
        &image,
        &mut arena,
        String::from("fps"),
        0x1111,
        CommandCategory::Graphics,
        Some(String::from("shows the frame rate")),
    );
    assert_eq!(r, Some(1));
    assert_eq!(arena.len(), 2);
    assert_eq!(arena.get(1).as_str(), "fps");
    assert_eq!(arena.get(2).as_str(), "shows the frame rate");

    // Without a help text only the command is interned and the help
    // handle travels as null; the echoed handle is the next one.
    let r = console_command_register(
        &register,
        &image,
        &mut arena,
        String::from("quit"),
        0x2222,
        CommandCategory::Game,
        None,
    );
    assert_eq!(r, Some(3));
    assert_eq!(arena.len(), 3);
}

#[test]
fn console_write_patches_buffer_and_invokes() {
    // The host's raw write routine, as a stub that echoes the buffer
    // address it was handed.
    let mut image = Memory::new(0x1000);
    let bytes = encode(&Instr::Arg(0));
    image.write_bytes(0x300, &bytes);
    let write_raw = DirectBinding::bind(0x300, sig(CallConv::Fastcall, 2));

    let text = vec![b'h', b'i'];
    let r = console_write(&write_raw, &mut image, 0x600, &text, ConsoleColor::Warning);
    assert_eq!(r, Some(0x600));
    assert_eq!(image.read_u8(0x600), b'h');
    assert_eq!(image.read_u8(0x601), b'i');
    // The host reads the buffer NUL-terminated.
    assert_eq!(image.read_u8(0x602), 0);
}

#[test]
fn console_init_raises_flag_and_sets_color() {
    // The host's color routine, as a stub that echoes the color class
    // word.
    let mut image = Memory::new(0x1000);
    let bytes = encode(&Instr::Arg(0));
    image.write_bytes(0x300, &bytes);
    let set_color = DirectBinding::bind(0x300, sig(CallConv::Fastcall, 3));

    let r = init(&set_color, &mut image, 0x800, 0xFF00_CCFF);
    assert_eq!(r, Some(6));
    assert_eq!(image.read_u32(0x800), 1);
}

#[test]
fn window_title_prefers_the_configured_name() {
    assert_eq!(window_title(Some(String::from("My Window"))).as_str(), "My Window");
    assert_eq!(window_title(None).as_str(), "World of Warcraft");
}
