use vstd::prelude::*;

pub mod instructions;
pub mod instruction_laws;
pub mod laws;
pub mod semantics;

verus! {

/// Width of the display in pixels.
pub const WIDTH: usize = 64;

/// Height of the display in pixels.
pub const HEIGHT: usize = 32;

/// Number of pixels of the display.
pub const DISPLAY_SIZE: usize = 2048;

/// Number of bytes of memory.
pub const MEMORY_SIZE: usize = 4095;

/// Address at which programs are loaded and execution starts.
pub const START_ADDR: u16 = 0x200;

/// Address at which the built-in font is stored.
pub const FONT_ADDR: usize = 0x50;

/// The built-in font: five rows of four pixels for each hexadecimal digit.
pub const FONTSET: [u8; 80] = [
    0xF0, 0x90, 0x90, 0x90, 0xF0, // 0
    0x20, 0x60, 0x20, 0x20, 0x70, // 1
    0xF0, 0x10, 0xF0, 0x80, 0xF0, // 2
    0xF0, 0x10, 0xF0, 0x10, 0xF0, // 3
    0x90, 0x90, 0xF0, 0x10, 0x10, // 4
    0xF0, 0x80, 0xF0, 0x10, 0xF0, // 5
    0xF0, 0x80, 0xF0, 0x90, 0xF0, // 6
    0xF0, 0x10, 0x20, 0x40, 0x40, // 7
    0xF0, 0x90, 0xF0, 0x90, 0xF0, // 8
    0xF0, 0x90, 0xF0, 0x10, 0xF0, // 9
    0xF0, 0x90, 0xF0, 0x90, 0x90, // A
    0xE0, 0x90, 0xE0, 0x90, 0xE0, // B
    0xF0, 0x80, 0x80, 0x80, 0xF0, // C
    0xE0, 0x90, 0x90, 0x90, 0xE0, // D
    0xF0, 0x80, 0xF0, 0x80, 0xF0, // E
    0xF0, 0x80, 0xF0, 0x80, 0x80, // F
];

/// The built-in font, as the contracts speak of it.
pub open spec fn font() -> Seq<u8> {
    seq![
        0xF0u8, 0x90, 0x90, 0x90, 0xF0,
        0x20, 0x60, 0x20, 0x20, 0x70,
        0xF0, 0x10, 0xF0, 0x80, 0xF0,
        0xF0, 0x10, 0xF0, 0x10, 0xF0,
        0x90, 0x90, 0xF0, 0x10, 0x10,
        0xF0, 0x80, 0xF0, 0x10, 0xF0,
        0xF0, 0x80, 0xF0, 0x90, 0xF0,
        0xF0, 0x10, 0x20, 0x40, 0x40,
        0xF0, 0x90, 0xF0, 0x90, 0xF0,
        0xF0, 0x90, 0xF0, 0x10, 0xF0,
        0xF0, 0x90, 0xF0, 0x90, 0x90,
        0xE0, 0x90, 0xE0, 0x90, 0xE0,
        0xF0, 0x80, 0x80, 0x80, 0xF0,
        0xE0, 0x90, 0x90, 0x90, 0xE0,
        0xF0, 0x80, 0xF0, 0x80, 0xF0,
        0xF0, 0x80, 0xF0, 0x80, 0x80,
    ]
}

/// The abstract state of a machine: every register and every byte of it.
#[verifier::ext_equal]
pub struct Machine {
    /// The sixteen registers `V0` to `VF`; VF doubles as the flag.
    pub registers: Seq<u8>,
    /// Memory, addresses `0` to `0xFFE`.
    pub memory: Seq<u8>,
    /// The index register `I`.
    pub index: u16,
    /// The program counter.
    pub pc: u16,
    /// Return addresses, the latest last. The stack pointer is its length.
    pub stack: Seq<u16>,
    pub delay_timer: u8,
    pub sound_timer: u8,
    /// Which of the sixteen keys are held down.
    pub keypad: Seq<bool>,
    /// The pixels, row by row, `WIDTH` to a row.
    pub display: Seq<u8>,
    /// `Fx0A` has seen keys go down and waits for one of them to be up.
    pub waiting_for_key: bool,
    /// The register that `Fx0A` writes the key to.
    pub key_register: usize,
    /// The keys that were down when `Fx0A` began to wait.
    pub held_keys: Seq<bool>,
}

impl Machine {
    /// What every reachable machine satisfies: the collections have their
    /// fixed sizes, the stack holds at most 255 return addresses, the
    /// register that receives a key is a register, and pixels are 0 or 1.
    pub open spec fn wf(self) -> bool {
        &&& self.registers.len() == 16
        &&& self.memory.len() == MEMORY_SIZE
        &&& self.keypad.len() == 16
        &&& self.display.len() == DISPLAY_SIZE
        &&& self.stack.len() <= 255
        &&& self.key_register < 16
        &&& self.held_keys.len() == 16
        &&& forall|p: int| 0 <= p < DISPLAY_SIZE ==> #[trigger] self.display[p] <= 1
    }
}

/// A CHIP-8 machine. Its abstract state is `Machine`, given by `view`.
pub struct Chip8 {
    registers: [u8; 16],
    memory: [u8; 4095],
    index: u16,
    pc: u16,
    stack: Vec<u16>,
    delay_timer: u8,
    sound_timer: u8,
    keypad: [bool; 16],
    display: [u8; 2048],
    waiting_for_key: bool,
    key_register: usize,
    held_keys: [bool; 16],
}

impl View for Chip8 {
    type V = Machine;

    closed spec fn view(&self) -> Machine {
        Machine {
            registers: self.registers@,
            memory: self.memory@,
            index: self.index,
            pc: self.pc,
            stack: self.stack@,
            delay_timer: self.delay_timer,
            sound_timer: self.sound_timer,
            keypad: self.keypad@,
            display: self.display@,
            waiting_for_key: self.waiting_for_key,
            key_register: self.key_register,
            held_keys: self.held_keys@,
        }
    }
}

impl Chip8 {
    /// Every machine is well formed.
    #[verifier::type_invariant]
    pub(crate) open spec fn well_formed(self) -> bool {
        self@.wf()
    }
}

/// The machine that `new` builds: the font at `FONT_ADDR`, the program
/// counter at `START_ADDR`, and everything else zero, empty or up.
pub open spec fn initial_machine() -> Machine {
    Machine {
        registers: Seq::new(16, |r: int| 0u8),
        memory: Seq::new(
            MEMORY_SIZE as nat,
            |a: int|
                if FONT_ADDR <= a < FONT_ADDR + 80 {
                    font()[a - FONT_ADDR]
                } else {
                    0u8
                },
        ),
        index: 0,
        pc: START_ADDR,
        stack: Seq::empty(),
        delay_timer: 0,
        sound_timer: 0,
        keypad: Seq::new(16, |k: int| false),
        display: Seq::new(DISPLAY_SIZE as nat, |p: int| 0u8),
        waiting_for_key: false,
        key_register: 0,
        held_keys: Seq::new(16, |k: int| false),
    }
}

/// Memory once `rom` is copied to `START_ADDR`.
pub open spec fn loaded_memory(memory: Seq<u8>, rom: Seq<u8>) -> Seq<u8> {
    Seq::new(
        memory.len(),
        |a: int|
            if START_ADDR <= a < START_ADDR + rom.len() {
                rom[a - START_ADDR]
            } else {
                memory[a]
            },
    )
}

/// A timer one tick later: it counts down to zero and stays there.
pub open spec fn tick(t: u8) -> u8 {
    if t > 0 { (t - 1) as u8 } else { 0 }
}

impl Chip8 {
    /// A machine with the font loaded and the program counter at the start
    /// of program memory.
    pub fn new() -> (c: Self)
        ensures
            c@ == initial_machine(),
            c@.wf(),
    {
        Self::default()
    }

    /// Copies a program image into memory at `START_ADDR`.
    pub fn load_rom(&mut self, rom: &[u8])
        requires
            START_ADDR + rom@.len() <= MEMORY_SIZE,
        ensures
            final(self)@ == (Machine { memory: loaded_memory(old(self)@.memory, rom@), ..old(self)@ }),
            final(self)@.wf(),
    {
        proof {
            use_type_invariant(&*self);
        }
        let ghost s = self@;
        let mut i: usize = 0;
        while i < rom.len()
            invariant
                s.wf(),
                START_ADDR + rom@.len() <= MEMORY_SIZE,
                i <= rom@.len(),
                self@ == (Machine {
                    memory: Seq::new(
                        MEMORY_SIZE as nat,
                        |a: int|
                            if START_ADDR <= a < START_ADDR + i {
                                rom@[a - START_ADDR]
                            } else {
                                s.memory[a]
                            },
                    ),
                    ..s
                }),
            decreases rom@.len() - i,
        {
            self.memory[START_ADDR as usize + i] = rom[i];
            i += 1;
        }
        assert(self@ =~= (Machine { memory: loaded_memory(s.memory, rom@), ..s }));
        proof {
            use_type_invariant(&*self);
        }
    }

    /// Counts both timers down by one, stopping at zero.
    pub fn tick_timers(&mut self)
        ensures
            final(self)@ == (Machine {
                delay_timer: tick(old(self)@.delay_timer),
                sound_timer: tick(old(self)@.sound_timer),
                ..old(self)@
            }),
            final(self)@.wf(),
    {
        proof {
            use_type_invariant(&*self);
        }
        if self.delay_timer > 0 {
            self.delay_timer -= 1;
        }
        if self.sound_timer > 0 {
            self.sound_timer -= 1;
        }
        proof {
            use_type_invariant(&*self);
        }
    }

    /// The pixels of the display, row by row; 1 is on, 0 is off.
    pub fn get_display(&self) -> (d: &[u8; 2048])
        ensures
            d@ == self@.display,
            forall|i: int| 0 <= i < DISPLAY_SIZE ==> #[trigger] d@[i] <= 1,
            self@.wf(),
    {
        proof {
            use_type_invariant(self);
        }
        &self.display
    }

    /// Sets whether key `key_idx` is held down; an index past the keypad
    /// is ignored.
    pub fn toggle_key(&mut self, key_idx: usize, state: bool)
        ensures
            key_idx < 16 ==> final(self)@ == (Machine {
                keypad: old(self)@.keypad.update(key_idx as int, state),
                ..old(self)@
            }),
            key_idx >= 16 ==> final(self)@ == old(self)@,
            final(self)@.wf(),
    {
        proof {
            use_type_invariant(&*self);
        }
        if key_idx < self.keypad.len() {
            self.keypad[key_idx] = state;
        }
        proof {
            use_type_invariant(&*self);
        }
    }
}

impl Chip8 {
    /// Register `V{r}`.
    pub fn register(&self, r: usize) -> (v: u8)
        requires
            r < 16,
        ensures
            v == self@.registers[r as int],
    {
        self.registers[r]
    }

    /// The byte at address `addr`.
    pub fn memory_byte(&self, addr: usize) -> (v: u8)
        requires
            addr < MEMORY_SIZE,
        ensures
            v == self@.memory[addr as int],
    {
        self.memory[addr]
    }

    /// The index register `I`.
    pub fn index(&self) -> (v: u16)
        ensures
            v == self@.index,
    {
        self.index
    }

    /// The program counter.
    pub fn pc(&self) -> (v: u16)
        ensures
            v == self@.pc,
    {
        self.pc
    }

    /// How many return addresses the stack holds.
    pub fn stack_depth(&self) -> (v: u8)
        ensures
            v as int == self@.stack.len(),
    {
        proof {
            use_type_invariant(&*self);
        }
        self.stack.len() as u8
    }

    /// The delay timer.
    pub fn delay_timer(&self) -> (v: u8)
        ensures
            v == self@.delay_timer,
    {
        self.delay_timer
    }

    /// The sound timer.
    pub fn sound_timer(&self) -> (v: u8)
        ensures
            v == self@.sound_timer,
    {
        self.sound_timer
    }
}

impl Default for Chip8 {
    fn default() -> (c: Self)
        ensures
            c@ == initial_machine(),
            c@.wf(),
    {
        let mut memory = [0u8; 4095];
        let mut i: usize = 0;
        while i < 80
            invariant
                i <= 80,
                FONTSET@ == font(),
                memory@ == Seq::new(
                    MEMORY_SIZE as nat,
                    |a: int|
                        if FONT_ADDR <= a < FONT_ADDR + i {
                            font()[a - FONT_ADDR]
                        } else {
                            0u8
                        },
                ),
            decreases 80 - i,
        {
            memory[FONT_ADDR + i] = FONTSET[i];
            i += 1;
        }
        let c = Chip8 {
            registers: [0u8; 16],
            memory,
            index: 0,
            pc: START_ADDR,
            stack: Vec::new(),
                delay_timer: 0,
            sound_timer: 0,
            keypad: [false; 16],
            display: [0u8; 2048],
            waiting_for_key: false,
            key_register: 0,
            held_keys: [false; 16],
        };
        assert(c@ =~= initial_machine());
        c
    }
}

/// The character of a hexadecimal digit, upper case.
pub open spec fn hex_digit(d: int) -> char {
    if d < 10 {
        ('0' as int + d) as char
    } else {
        ('A' as int + d - 10) as char
    }
}

/// The hexadecimal digits of `v`, most significant first, zero-padded to
/// at least `m` digits. Zero with no padding has no digits.
pub open spec fn hex_digits(v: nat, m: nat) -> Seq<char>
    decreases v + m,
{
    if v == 0 && m == 0 {
        Seq::empty()
    } else {
        hex_digits(v / 16, if m > 0 { (m - 1) as nat } else { 0 }).push(hex_digit((v % 16) as int))
    }
}

/// `v` as `0x` and its upper-case hexadecimal digits, at least four of
/// them: what `{:#06X}` prints.
pub open spec fn hex_spec(v: u64) -> Seq<char> {
    seq!['0', 'x'] + hex_digits(v as nat, 4)
}

/// One hexadecimal digit as a string.
fn digit_str(d: u16) -> (s: &'static str)
    requires
        d < 16,
    ensures
        s@ == seq![hex_digit(d as int)],
{
    if d == 0 {
        proof { reveal_strlit("0"); }
        "0"
    } else if d == 1 {
        proof { reveal_strlit("1"); }
        "1"
    } else if d == 2 {
        proof { reveal_strlit("2"); }
        "2"
    } else if d == 3 {
        proof { reveal_strlit("3"); }
        "3"
    } else if d == 4 {
        proof { reveal_strlit("4"); }
        "4"
    } else if d == 5 {
        proof { reveal_strlit("5"); }
        "5"
    } else if d == 6 {
        proof { reveal_strlit("6"); }
        "6"
    } else if d == 7 {
        proof { reveal_strlit("7"); }
        "7"
    } else if d == 8 {
        proof { reveal_strlit("8"); }
        "8"
    } else if d == 9 {
        proof { reveal_strlit("9"); }
        "9"
    } else if d == 10 {
        proof { reveal_strlit("A"); }
        "A"
    } else if d == 11 {
        proof { reveal_strlit("B"); }
        "B"
    } else if d == 12 {
        proof { reveal_strlit("C"); }
        "C"
    } else if d == 13 {
        proof { reveal_strlit("D"); }
        "D"
    } else if d == 14 {
        proof { reveal_strlit("E"); }
        "E"
    } else {
        proof { reveal_strlit("F"); }
        "F"
    }
}

/// Formats a value as `0x` followed by its upper-case hexadecimal digits,
/// zero-padded to at least four: `to_hex(0xE0)` is `"0x00E0"` and
/// `to_hex(0x12345)` is `"0x12345"`. Narrower unsigned values give the same
/// text once widened.
pub fn to_hex(value: u64) -> (s: String)
    ensures
        s@ == hex_spec(value),
{
    // Collect the digits, least significant first.
    let mut digits: Vec<u16> = Vec::new();
    let mut rest: u64 = value;
    let mut pad: u64 = 4;
    let ghost mut tail: Seq<char> = Seq::empty();
    while !(rest == 0 && pad == 0)
        invariant
            hex_digits(value as nat, 4) == hex_digits(rest as nat, pad as nat) + tail,
            tail.len() == digits@.len(),
            pad <= 4,
            forall|j: int| 0 <= j < digits@.len() ==> #[trigger] digits@[j] < 16,
            forall|j: int|
                0 <= j < tail.len() ==> #[trigger] tail[j] == hex_digit(
                    digits@[tail.len() - 1 - j] as int,
                ),
        decreases rest + pad,
    {
        let d = (rest % 16) as u16;
        proof {
            let next_pad: nat = if pad > 0 { (pad - 1) as nat } else { 0 };
            assert(hex_digits(rest as nat, pad as nat) == hex_digits((rest / 16) as nat, next_pad).push(
                hex_digit(d as int),
            ));
            let new_tail = seq![hex_digit(d as int)] + tail;
            assert(hex_digits((rest / 16) as nat, next_pad).push(hex_digit(d as int)) + tail
                =~= hex_digits((rest / 16) as nat, next_pad) + new_tail);
            tail = new_tail;
        }
        digits.push(d);
        rest = rest / 16;
        if pad > 0 {
            pad = pad - 1;
        }
    }
    assert(hex_digits(0, 0) == Seq::<char>::empty());
    assert(tail =~= hex_digits(value as nat, 4));
    let mut s = String::new();
    proof { reveal_strlit("0x"); }
    s.append("0x");
    let n = digits.len();
    let mut i: usize = 0;
    while i < n
        invariant
            n == digits@.len(),
            n == tail.len(),
            i <= n,
            forall|j: int| 0 <= j < digits@.len() ==> #[trigger] digits@[j] < 16,
            forall|j: int|
                0 <= j < tail.len() ==> #[trigger] tail[j] == hex_digit(
                    digits@[tail.len() - 1 - j] as int,
                ),
            s@ == seq!['0', 'x'] + tail.subrange(0, i as int),
        decreases n - i,
    {
        s.append(digit_str(digits[n - 1 - i]));
        assert(tail.subrange(0, i + 1) =~= tail.subrange(0, i as int).push(tail[i as int]));
        assert(s@ =~= seq!['0', 'x'] + tail.subrange(0, i + 1));
        i += 1;
    }
    assert(tail.subrange(0, n as int) =~= tail);
    s
}

} // verus!
