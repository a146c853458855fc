//! Console-facing consumers of the core.
//!
//! The host's console routines are reached through direct invocation
//! bindings. Command and help texts registered with the host must stay
//! at stable locations for the process lifetime — the host keeps the
//! pointers — so they live in an arena that is never drained; that is
//! deliberate, not a leak. Transient text travels through a fixed-size
//! scratch buffer patched in place inside the image.

use crate::dib::DirectBinding;
use crate::mem::word_byte;
use crate::mem::Memory;
use vstd::prelude::*;

verus! {

/// Category a console command registers under.
#[derive(Clone, Copy, PartialEq, Eq, Structural, Debug)]
pub enum CommandCategory {
    Debug,
    Graphics,
    Console,
    Combat,
    Game,
    Default,
    Net,
    Sound,
    GM,
}

/// Color class of a console line.
#[derive(Clone, Copy, PartialEq, Eq, Structural, Debug)]
pub enum ConsoleColor {
    Default,
    Input,
    Echo,
    Error,
    Warning,
    Global,
    Admin,
    Highlight,
    Background,
}

/// The word the host's ABI encodes a category as.
pub open spec fn spec_category_code(c: CommandCategory) -> u32 {
    match c {
        CommandCategory::Debug => 0,
        CommandCategory::Graphics => 1,
        CommandCategory::Console => 2,
        CommandCategory::Combat => 3,
        CommandCategory::Game => 4,
        CommandCategory::Default => 5,
        CommandCategory::Net => 6,
        CommandCategory::Sound => 7,
        CommandCategory::GM => 8,
    }
}

/// The word the host's ABI encodes a color class as.
pub open spec fn spec_color_code(c: ConsoleColor) -> u32 {
    match c {
        ConsoleColor::Default => 0,
        ConsoleColor::Input => 1,
        ConsoleColor::Echo => 2,
        ConsoleColor::Error => 3,
        ConsoleColor::Warning => 4,
        ConsoleColor::Global => 5,
        ConsoleColor::Admin => 6,
        ConsoleColor::Highlight => 7,
        ConsoleColor::Background => 8,
    }
}

/// Encode a category for the host.
pub fn category_code(c: CommandCategory) -> (v: u32)
    ensures
        v == spec_category_code(c),
{
    match c {
        CommandCategory::Debug => 0,
        CommandCategory::Graphics => 1,
        CommandCategory::Console => 2,
        CommandCategory::Combat => 3,
        CommandCategory::Game => 4,
        CommandCategory::Default => 5,
        CommandCategory::Net => 6,
        CommandCategory::Sound => 7,
        CommandCategory::GM => 8,
    }
}

/// Encode a color class for the host.
pub fn color_code(c: ConsoleColor) -> (v: u32)
    ensures
        v == spec_color_code(c),
{
    match c {
        ConsoleColor::Default => 0,
        ConsoleColor::Input => 1,
        ConsoleColor::Echo => 2,
        ConsoleColor::Error => 3,
        ConsoleColor::Warning => 4,
        ConsoleColor::Global => 5,
        ConsoleColor::Admin => 6,
        ConsoleColor::Highlight => 7,
        ConsoleColor::Background => 8,
    }
}

/// Process-lifetime string storage. Interning hands out a stable nonzero
/// handle; nothing is ever reclaimed, so every handle stays valid until
/// process exit. Zero is reserved as the null handle.
pub struct StringArena {
    strings: Vec<String>,
}

impl View for StringArena {
    type V = Seq<Seq<char>>;

    closed spec fn view(&self) -> Seq<Seq<char>> {
        Seq::new(self.strings@.len(), |i: int| self.strings@[i]@)
    }
}

impl StringArena {
    /// An empty arena.
    pub fn new() -> (a: StringArena)
        ensures
            a@ == Seq::<Seq<char>>::empty(),
    {
        let a = StringArena { strings: Vec::new() };
        proof {
            assert(a@ =~= Seq::<Seq<char>>::empty());
        }
        a
    }

    /// Number of interned strings.
    pub fn len(&self) -> (n: usize)
        ensures
            n == self@.len(),
    {
        self.strings.len()
    }

    /// Intern `s` for the process lifetime. Every earlier handle keeps
    /// its string; the new handle is one past the old count, never zero.
    pub fn intern(&mut self, s: String) -> (h: u32)
        requires
            old(self)@.len() + 1 <= u32::MAX,
        ensures
            final(self)@ == old(self)@.push(s@),
            h == old(self)@.len() + 1,
            h != 0,
    {
        self.strings.push(s);
        proof {
            assert(self@ =~= old(self)@.push(s@));
        }
        self.strings.len() as u32
    }

    /// The string behind a handle.
    pub fn get(&self, h: u32) -> (s: &String)
        requires
            1 <= h <= self@.len(),
        ensures
            s@ == self@[h - 1],
    {
        &self.strings[(h - 1) as usize]
    }
}

/// Register a console command with the host: intern the command text,
/// and the help text when there is one, so the host's pointers stay
/// valid forever, then invoke the host's registration routine with the
/// two handles, the handler word, and the category code. A missing help
/// text travels as the null handle. The host reads the texts behind the
/// handles as NUL-terminated strings, so text with an interior NUL is a
/// caller error and is refused here.
pub fn console_command_register(
    register: &DirectBinding,
    image: &Memory,
    arena: &mut StringArena,
    cmd: String,
    handler: u32,
    category: CommandCategory,
    help: Option<String>,
) -> (r: Option<u32>)
    requires
        old(arena)@.len() + 2 <= u32::MAX,
        forall|i: int| 0 <= i < cmd@.len() ==> cmd@[i] != '\0',
        match help {
            Some(h) => forall|i: int| 0 <= i < h@.len() ==> h@[i] != '\0',
            None => true,
        },
    ensures
        final(arena)@ == (match help {
            Some(h) => old(arena)@.push(cmd@).push(h@),
            None => old(arena)@.push(cmd@),
        }),
        r == register.spec_invoke(
            image@,
            seq![
                (old(arena)@.len() + 1) as u32,
                handler,
                spec_category_code(category),
                (match help {
                    Some(_) => (old(arena)@.len() + 2) as u32,
                    None => 0u32,
                }),
            ],
        ),
{
    let cmd_ptr = arena.intern(cmd);
    let help_ptr: u32 = match help {
        Some(h) => arena.intern(h),
        None => 0,
    };
    let mut args: Vec<u32> = Vec::new();
    args.push(cmd_ptr);
    args.push(handler);
    args.push(category_code(category));
    args.push(help_ptr);
    proof {
        assert(args@ =~= seq![
            (old(arena)@.len() + 1) as u32,
            handler,
            spec_category_code(category),
            (match help {
                Some(_) => (old(arena)@.len() + 2) as u32,
                None => 0u32,
            }),
        ]);
    }
    register.invoke(image, &args)
}

/// Emit one line of colored console text: patch the bytes into the
/// caller's scratch buffer inside the image, NUL-terminated as the host
/// reads them, then invoke the host's raw write routine with the buffer
/// address and the color code. The buffer is transient; the host reads
/// it during the call only. Text with an interior NUL is a caller error
/// and is refused here.
pub fn console_write(
    write_raw: &DirectBinding,
    image: &mut Memory,
    buffer: usize,
    text: &Vec<u8>,
    color: ConsoleColor,
) -> (r: Option<u32>)
    requires
        buffer + text@.len() + 1 <= old(image)@.len(),
        buffer <= u32::MAX,
        forall|i: int| 0 <= i < text@.len() ==> text@[i] != 0u8,
    ensures
        final(image)@.len() == old(image)@.len(),
        forall|i: int|
            buffer <= i < buffer + text@.len() ==> final(image)@[i] == text@[i - buffer],
        final(image)@[buffer + text@.len()] == 0u8,
        forall|i: int|
            0 <= i < old(image)@.len() && !(buffer <= i < buffer + text@.len() + 1)
                ==> final(image)@[i] == old(image)@[i],
        r == write_raw.spec_invoke(
            final(image)@,
            seq![buffer as u32, spec_color_code(color)],
        ),
{
    let _bound = image.len();
    image.write_bytes(buffer, text);
    image.write_u8(buffer + text.len(), 0);
    let mut args: Vec<u32> = Vec::new();
    args.push(buffer as u32);
    args.push(color_code(color));
    proof {
        assert(args@ =~= seq![buffer as u32, spec_color_code(color)]);
    }
    write_raw.invoke(image, &args)
}

/// Console start-up: raise the host's console-enable flag word and set
/// the admin color through the host's color routine.
pub fn init(
    set_color: &DirectBinding,
    image: &mut Memory,
    enable_flag: usize,
    color: u32,
) -> (r: Option<u32>)
    requires
        enable_flag + 4 <= old(image)@.len(),
    ensures
        final(image)@.len() == old(image)@.len(),
        forall|k: int| 0 <= k < 4 ==> final(image)@[enable_flag + k] == word_byte(1u32, k),
        forall|i: int|
            0 <= i < old(image)@.len() && !(enable_flag <= i < enable_flag + 4)
                ==> final(image)@[i] == old(image)@[i],
        r == set_color.spec_invoke(
            final(image)@,
            seq![spec_color_code(ConsoleColor::Admin), 0u32, color],
        ),
{
    image.write_u32(enable_flag, 1);
    let mut args: Vec<u32> = Vec::new();
    args.push(color_code(ConsoleColor::Admin));
    args.push(0);
    args.push(color);
    proof {
        assert(args@ =~= seq![spec_color_code(ConsoleColor::Admin), 0u32, color]);
    }
    set_color.invoke(image, &args)
}

} // verus!
