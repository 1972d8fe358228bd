//! What each instruction does, stated from its encoding and the machine's
//! registers and memory alone. Each law builds the instruction word from its
//! fields, so the decoding is checked along with the effect.

use vstd::arithmetic::power2::{lemma2_to64, pow2};
use vstd::prelude::*;

use super::semantics::{
    advance, can_step_spec, collides, execute_spec, fetch_spec, step_spec, executable, lit, n_of, nn_of, nnn_of, op_of, sprite_bit, x_of, y_of,
};
use super::{loaded_memory, Machine, DISPLAY_SIZE, MEMORY_SIZE, START_ADDR};

verus! {

/// The instruction word with group `op` and nibbles `x`, `y`, `n`.
pub open spec fn word(op: int, x: int, y: int, n: int) -> u16 {
    (op * 4096 + x * 256 + y * 16 + n) as u16
}

/// The fields of an instruction word are the nibbles it was built from.
pub proof fn word_fields(op: int, x: int, y: int, n: int)
    requires
        0 <= op < 16,
        0 <= x < 16,
        0 <= y < 16,
        0 <= n < 16,
    ensures
        op_of(word(op, x, y, n)) == op,
        x_of(word(op, x, y, n)) == x,
        y_of(word(op, x, y, n)) == y,
        n_of(word(op, x, y, n)) == n,
        nn_of(word(op, x, y, n)) == y * 16 + n,
        nnn_of(word(op, x, y, n)) == x * 256 + y * 16 + n,
{
    let w = op * 4096 + x * 256 + y * 16 + n;
    assert(0 <= w < 65536);
    assert(word(op, x, y, n) as int == w);
    assert(w / 4096 == op && (w / 256) % 16 == x && (w / 16) % 16 == y && w % 16 == n && w % 256
        == y * 16 + n && w % 4096 == x * 256 + y * 16 + n) by (nonlinear_arith)
        requires
            w == op * 4096 + x * 256 + y * 16 + n,
            0 <= op < 16,
            0 <= x < 16,
            0 <= y < 16,
            0 <= n < 16,
    ;
}

/// Everything but the registers is as in `s`.
pub open spec fn only_registers_differ(s: Machine, t: Machine) -> bool {
    (Machine { registers: s.registers, ..t }) == s
}

/// Every register but `r` is as in `s`.
pub open spec fn other_registers_kept(s: Machine, t: Machine, r: int) -> bool {
    forall|j: int| 0 <= j < 16 && j != r ==> #[trigger] t.registers[j] == s.registers[j]
}

/// Every register but `r` and VF is as in `s`.
pub open spec fn other_registers_but_flag_kept(s: Machine, t: Machine, r: int) -> bool {
    forall|j: int| 0 <= j < 15 && j != r ==> #[trigger] t.registers[j] == s.registers[j]
}

// ---------------------------------------------------------------------------
// Flow of control.
// ---------------------------------------------------------------------------

/// `00E0` turns every pixel off and changes nothing else.
pub proof fn clear_turns_every_pixel_off(s: Machine, r: u8)
    requires
        s.wf(),
    ensures
        executable(s, 0x00E0),
        forall|p: int| 0 <= p < DISPLAY_SIZE ==> #[trigger] execute_spec(s, 0x00E0, r).display[p] == 0,
        execute_spec(s, 0x00E0, r).display.len() == DISPLAY_SIZE,
        (Machine { display: s.display, ..execute_spec(s, 0x00E0, r) }) == s,
{
    word_fields(0, 0, 14, 0);
    assert(word(0, 0, 14, 0) == 0x00E0);
}

/// `00EE` returns to the latest return address and removes it from the
/// stack; with an empty stack it changes nothing.
pub proof fn return_pops_the_latest_address(s: Machine, r: u8)
    requires
        s.wf(),
    ensures
        executable(s, 0x00EE),
        ({
            let t = execute_spec(s, 0x00EE, r);
            if s.stack.len() > 0 {
                &&& t.pc == s.stack[s.stack.len() - 1]
                &&& t.stack == s.stack.subrange(0, s.stack.len() - 1)
                &&& (Machine { pc: s.pc, stack: s.stack, ..t }) == s
            } else {
                t == s
            }
        }),
{
    word_fields(0, 0, 14, 14);
    assert(word(0, 0, 14, 14) == 0x00EE);
}

/// `1nnn` jumps to `nnn`, from anywhere.
pub proof fn jump_goes_to_the_address(s: Machine, a: int, r: u8)
    requires
        s.wf(),
        0 <= a < 4096,
    ensures
        executable(s, (0x1000 + a) as u16),
        execute_spec(s, (0x1000 + a) as u16, r).pc == a,
        (Machine { pc: s.pc, ..execute_spec(s, (0x1000 + a) as u16, r) }) == s,
{
    word_fields(1, a / 256, (a / 16) % 16, a % 16);
    assert(word(1, a / 256, (a / 16) % 16, a % 16) == (0x1000 + a) as u16);
}

/// `2nnn` pushes the program counter and jumps to `nnn`; it can run while
/// the stack holds fewer than 255 return addresses.
pub proof fn call_pushes_the_return_address(s: Machine, a: int, r: u8)
    requires
        s.wf(),
        0 <= a < 4096,
    ensures
        executable(s, (0x2000 + a) as u16) <==> s.stack.len() < 255,
        execute_spec(s, (0x2000 + a) as u16, r).pc == a,
        execute_spec(s, (0x2000 + a) as u16, r).stack == s.stack.push(s.pc),
        (Machine { pc: s.pc, stack: s.stack, ..execute_spec(s, (0x2000 + a) as u16, r) }) == s,
{
    word_fields(2, a / 256, (a / 16) % 16, a % 16);
    assert(word(2, a / 256, (a / 16) % 16, a % 16) == (0x2000 + a) as u16);
}

/// `Bnnn` jumps to `nnn` plus `V0`.
pub proof fn jump_with_offset_adds_v0(s: Machine, a: int, r: u8)
    requires
        s.wf(),
        0 <= a < 4096,
    ensures
        executable(s, (0xB000 + a) as u16),
        execute_spec(s, (0xB000 + a) as u16, r).pc == a + s.registers[0],
        (Machine { pc: s.pc, ..execute_spec(s, (0xB000 + a) as u16, r) }) == s,
{
    word_fields(11, a / 256, (a / 16) % 16, a % 16);
    assert(word(11, a / 256, (a / 16) % 16, a % 16) == (0xB000 + a) as u16);
}

/// The machine `t` is `s` with the program counter moved past the next
/// instruction when `cond` holds, and `s` itself otherwise.
pub open spec fn skipped_when(s: Machine, t: Machine, cond: bool) -> bool {
    &&& t.pc == if cond { s.pc + 2 } else { s.pc as int }
    &&& (Machine { pc: s.pc, ..t }) == s
}

/// `3xnn` skips exactly when `Vx` equals `nn`.
pub proof fn skip_if_equal_immediate(s: Machine, x: int, k: int, r: u8)
    requires
        s.wf(),
        0 <= x < 16,
        0 <= k < 256,
    ensures
        s.pc + 2 <= 0xFFFF ==> skipped_when(s, execute_spec(s, word(3, x, k / 16, k % 16), r), s.registers[x] == k),
        executable(s, word(3, x, k / 16, k % 16)) <==> (s.registers[x] == k ==> s.pc + 2 <= 0xFFFF),
{
    word_fields(3, x, k / 16, k % 16);
}

/// `4xnn` skips exactly when `Vx` differs from `nn`.
pub proof fn skip_if_different_immediate(s: Machine, x: int, k: int, r: u8)
    requires
        s.wf(),
        0 <= x < 16,
        0 <= k < 256,
    ensures
        s.pc + 2 <= 0xFFFF ==> skipped_when(s, execute_spec(s, word(4, x, k / 16, k % 16), r), s.registers[x] != k),
        executable(s, word(4, x, k / 16, k % 16)) <==> (s.registers[x] != k ==> s.pc + 2 <= 0xFFFF),
{
    word_fields(4, x, k / 16, k % 16);
}

/// `5xy0` skips exactly when `Vx` equals `Vy`.
pub proof fn skip_if_registers_equal(s: Machine, x: int, y: int, r: u8)
    requires
        s.wf(),
        0 <= x < 16,
        0 <= y < 16,
    ensures
        s.pc + 2 <= 0xFFFF ==> skipped_when(s, execute_spec(s, word(5, x, y, 0), r), s.registers[x] == s.registers[y]),
        executable(s, word(5, x, y, 0)) <==> (s.registers[x] == s.registers[y] ==> s.pc + 2
            <= 0xFFFF),
{
    word_fields(5, x, y, 0);
}

/// `9xy0` skips exactly when `Vx` differs from `Vy`.
pub proof fn skip_if_registers_differ(s: Machine, x: int, y: int, r: u8)
    requires
        s.wf(),
        0 <= x < 16,
        0 <= y < 16,
    ensures
        s.pc + 2 <= 0xFFFF ==> skipped_when(s, execute_spec(s, word(9, x, y, 0), r), s.registers[x] != s.registers[y]),
        executable(s, word(9, x, y, 0)) <==> (s.registers[x] != s.registers[y] ==> s.pc + 2
            <= 0xFFFF),
{
    word_fields(9, x, y, 0);
}

/// `Ex9E` skips exactly when the key named by `Vx` is down, and `ExA1`
/// exactly when it is up; both need `Vx` to name a key.
pub proof fn key_skips_follow_the_key(s: Machine, x: int, r: u8)
    requires
        s.wf(),
        0 <= x < 16,
        s.registers[x] < 16,
        s.pc + 2 <= 0xFFFF,
    ensures
        executable(s, word(14, x, 9, 14)),
        executable(s, word(14, x, 10, 1)),
        s.pc + 2 <= 0xFFFF ==> skipped_when(s, execute_spec(s, word(14, x, 9, 14), r), s.keypad[s.registers[x] as int]),
        s.pc + 2 <= 0xFFFF ==> skipped_when(s, execute_spec(s, word(14, x, 10, 1), r), !s.keypad[s.registers[x] as int]),
{
    word_fields(14, x, 9, 14);
    word_fields(14, x, 10, 1);
}

/// `Ex9E` and `ExA1` cannot run where `Vx` names no key.
pub proof fn key_skips_need_a_key(s: Machine, x: int)
    requires
        s.wf(),
        0 <= x < 16,
        s.registers[x] >= 16,
    ensures
        !executable(s, word(14, x, 9, 14)),
        !executable(s, word(14, x, 10, 1)),
{
    word_fields(14, x, 9, 14);
    word_fields(14, x, 10, 1);
}

// ---------------------------------------------------------------------------
// Registers.
// ---------------------------------------------------------------------------

/// `6xnn` loads `nn` into `Vx`.
pub proof fn load_immediate_sets_the_register(s: Machine, x: int, k: int, r: u8)
    requires
        s.wf(),
        0 <= x < 16,
        0 <= k < 256,
    ensures
        executable(s, word(6, x, k / 16, k % 16)),
        execute_spec(s, word(6, x, k / 16, k % 16), r).registers[x] == k,
        other_registers_kept(s, execute_spec(s, word(6, x, k / 16, k % 16), r), x),
        only_registers_differ(s, execute_spec(s, word(6, x, k / 16, k % 16), r)),
{
    word_fields(6, x, k / 16, k % 16);
}

/// `7xnn` adds `nn` to `Vx` modulo 256, on every machine, and leaves VF
/// alone.
pub proof fn add_immediate_wraps(s: Machine, x: int, k: int, r: u8)
    requires
        s.wf(),
        0 <= x < 16,
        0 <= k < 256,
    ensures
        executable(s, word(7, x, k / 16, k % 16)),
        execute_spec(s, word(7, x, k / 16, k % 16), r).registers[x] == (s.registers[x] + k) % 256,
        other_registers_kept(s, execute_spec(s, word(7, x, k / 16, k % 16), r), x),
        only_registers_differ(s, execute_spec(s, word(7, x, k / 16, k % 16), r)),
{
    word_fields(7, x, k / 16, k % 16);
}

/// `Annn` loads `nnn` into the index register.
pub proof fn set_index_loads_the_address(s: Machine, a: int, r: u8)
    requires
        s.wf(),
        0 <= a < 4096,
    ensures
        executable(s, (0xA000 + a) as u16),
        execute_spec(s, (0xA000 + a) as u16, r).index == a,
        (Machine { index: s.index, ..execute_spec(s, (0xA000 + a) as u16, r) }) == s,
{
    word_fields(10, a / 256, (a / 16) % 16, a % 16);
    assert(word(10, a / 256, (a / 16) % 16, a % 16) == (0xA000 + a) as u16);
}

/// `Cxnn` stores the random byte masked by `nn` in `Vx`.
pub proof fn random_is_masked(s: Machine, x: int, k: int, r: u8)
    requires
        s.wf(),
        0 <= x < 16,
        0 <= k < 256,
    ensures
        executable(s, word(12, x, k / 16, k % 16)),
        execute_spec(s, word(12, x, k / 16, k % 16), r).registers[x] == r & (k as u8),
        other_registers_kept(s, execute_spec(s, word(12, x, k / 16, k % 16), r), x),
        only_registers_differ(s, execute_spec(s, word(12, x, k / 16, k % 16), r)),
{
    word_fields(12, x, k / 16, k % 16);
}

/// `8xyN`: where `x` is not VF, `Vx` gets the result and VF the flag; no
/// other register changes. `8xy0` copies, `1`/`2`/`3` are OR, AND and XOR
/// and clear VF, `4` adds with carry, `5` subtracts `Vy` with VF set when
/// there is no borrow, `6` halves `Vy` keeping its low bit, `7` subtracts
/// `Vx` from `Vy`, and `E` doubles `Vy` keeping its high bit. Other `N` are
/// no instruction.
pub proof fn arithmetic_on_registers(s: Machine, x: int, y: int, n: int, r: u8)
    requires
        s.wf(),
        0 <= x < 15,
        0 <= y < 16,
        0 <= n < 16,
    ensures
        ({
            let t = execute_spec(s, word(8, x, y, n), r);
            let vx = s.registers[x];
            let vy = s.registers[y];
            &&& executable(s, word(8, x, y, n)) <==> (n <= 7 || n == 14)
            &&& only_registers_differ(s, t)
            &&& (n <= 7 || n == 14) ==> other_registers_but_flag_kept(s, t, x)
            &&& n == 0 ==> t.registers[x] == vy && t.registers[15] == s.registers[15]
            &&& n == 1 ==> t.registers[x] == vx | vy && t.registers[15] == 0
            &&& n == 2 ==> t.registers[x] == vx & vy && t.registers[15] == 0
            &&& n == 3 ==> t.registers[x] == vx ^ vy && t.registers[15] == 0
            &&& n == 4 ==> t.registers[x] == (vx + vy) % 256 && t.registers[15] == (vx + vy) / 256
            &&& n == 5 ==> t.registers[x] == (vx - vy + 256) % 256 && t.registers[15] == (if vx
                >= vy { 1int } else { 0 })
            &&& n == 6 ==> t.registers[x] == vy / 2 && t.registers[15] == vy % 2
            &&& n == 7 ==> t.registers[x] == (vy - vx + 256) % 256 && t.registers[15] == (if vy
                >= vx { 1int } else { 0 })
            &&& n == 14 ==> t.registers[x] == (vy * 2) % 256 && t.registers[15] == vy / 128
        }),
{
    word_fields(8, x, y, n);
}

/// The bitwise operations of `8xyN` act on each bit alone: bit `i` of the
/// result is the OR, AND or XOR of bit `i` of `Vx` and of `Vy`.
pub proof fn logic_acts_bit_by_bit(a: u8, b: u8, i: u8)
    requires
        i < 8,
    ensures
        ((a | b) >> i) & 1 == (((a >> i) & 1) | ((b >> i) & 1)),
        ((a & b) >> i) & 1 == (((a >> i) & 1) & ((b >> i) & 1)),
        ((a ^ b) >> i) & 1 == (((a >> i) & 1) ^ ((b >> i) & 1)),
        ((a & b) >> i) & 1 == 1 <==> ((a >> i) & 1 == 1 && (b >> i) & 1 == 1),
{
    assert(((a | b) >> i) & 1 == (((a >> i) & 1) | ((b >> i) & 1)) && ((a & b) >> i) & 1 == (((a
        >> i) & 1) & ((b >> i) & 1)) && ((a ^ b) >> i) & 1 == (((a >> i) & 1) ^ ((b >> i) & 1)) && (
    ((a & b) >> i) & 1 == 1 <==> ((a >> i) & 1 == 1 && (b >> i) & 1 == 1))) by (bit_vector)
        requires
            i < 8,
    ;
}

// ---------------------------------------------------------------------------
// Timers, index register and memory (FxNN).
// ---------------------------------------------------------------------------

/// `Fx07` reads the delay timer into `Vx`, whatever the sound timer holds.
pub proof fn read_delay_timer(s: Machine, x: int, r: u8)
    requires
        s.wf(),
        0 <= x < 16,
    ensures
        executable(s, word(15, x, 0, 7)),
        execute_spec(s, word(15, x, 0, 7), r).registers[x] == s.delay_timer,
        other_registers_kept(s, execute_spec(s, word(15, x, 0, 7), r), x),
        only_registers_differ(s, execute_spec(s, word(15, x, 0, 7), r)),
{
    word_fields(15, x, 0, 7);
}

/// `Fx15` sets the delay timer and `Fx18` the sound timer to `Vx`; nothing
/// else changes.
pub proof fn set_timers(s: Machine, x: int, r: u8)
    requires
        s.wf(),
        0 <= x < 16,
    ensures
        executable(s, word(15, x, 1, 5)),
        executable(s, word(15, x, 1, 8)),
        execute_spec(s, word(15, x, 1, 5), r).delay_timer == s.registers[x],
        (Machine { delay_timer: s.delay_timer, ..execute_spec(s, word(15, x, 1, 5), r) }) == s,
        execute_spec(s, word(15, x, 1, 8), r).sound_timer == s.registers[x],
        (Machine { sound_timer: s.sound_timer, ..execute_spec(s, word(15, x, 1, 8), r) }) == s,
{
    word_fields(15, x, 1, 5);
    word_fields(15, x, 1, 8);
}

/// `Fx1E` adds `Vx` to the index register, and can run where the sum fits.
pub proof fn add_to_index(s: Machine, x: int, r: u8)
    requires
        s.wf(),
        0 <= x < 16,
    ensures
        executable(s, word(15, x, 1, 14)) <==> s.index + s.registers[x] <= 0xFFFF,
        s.index + s.registers[x] <= 0xFFFF ==> execute_spec(s, word(15, x, 1, 14), r).index
            == s.index + s.registers[x],
        (Machine { index: s.index, ..execute_spec(s, word(15, x, 1, 14), r) }) == s,
{
    word_fields(15, x, 1, 14);
}

/// `Fx29` points the index register at the font glyph of digit `Vx`: the
/// glyphs are five bytes each, from `FONT_ADDR` on.
pub proof fn index_points_at_the_glyph(s: Machine, x: int, r: u8)
    requires
        s.wf(),
        0 <= x < 16,
    ensures
        executable(s, word(15, x, 2, 9)),
        execute_spec(s, word(15, x, 2, 9), r).index == 0x50 + 5 * s.registers[x],
        (Machine { index: s.index, ..execute_spec(s, word(15, x, 2, 9), r) }) == s,
{
    word_fields(15, x, 2, 9);
}

/// `Fx33` writes the hundreds, tens and ones of `Vx` at `I`, `I + 1` and
/// `I + 2`, and no other byte.
pub proof fn decimal_digits_are_stored(s: Machine, x: int, r: u8)
    requires
        s.wf(),
        0 <= x < 16,
        s.index + 2 < MEMORY_SIZE,
    ensures
        executable(s, word(15, x, 3, 3)),
        ({
            let t = execute_spec(s, word(15, x, 3, 3), r);
            let i = s.index as int;
            let v = s.registers[x] as int;
            &&& t.memory[i] == v / 100
            &&& t.memory[i + 1] == (v / 10) % 10
            &&& t.memory[i + 2] == v % 10
            &&& forall|a: int|
                0 <= a < MEMORY_SIZE && (a < i || a > i + 2) ==> #[trigger] t.memory[a]
                    == s.memory[a]
            &&& t.memory.len() == MEMORY_SIZE
            &&& (Machine { memory: s.memory, ..t }) == s
        }),
{
    word_fields(15, x, 3, 3);
}

/// `Fx55` stores `V0` to `Vx` at `I` onwards and no other byte.
pub proof fn registers_are_stored(s: Machine, x: int, r: u8)
    requires
        s.wf(),
        0 <= x < 16,
        s.index + x < MEMORY_SIZE,
    ensures
        executable(s, word(15, x, 5, 5)),
        ({
            let t = execute_spec(s, word(15, x, 5, 5), r);
            &&& forall|k: int| 0 <= k <= x ==> #[trigger] t.memory[s.index + k] == s.registers[k]
            &&& forall|a: int|
                0 <= a < MEMORY_SIZE && (a < s.index || a > s.index + x) ==> #[trigger] t.memory[a]
                    == s.memory[a]
            &&& t.memory.len() == MEMORY_SIZE
            &&& (Machine { memory: s.memory, ..t }) == s
        }),
{
    word_fields(15, x, 5, 5);
}

/// `Fx65` loads `V0` to `Vx` from `I` onwards and no other register.
pub proof fn registers_are_loaded(s: Machine, x: int, r: u8)
    requires
        s.wf(),
        0 <= x < 16,
        s.index + x < MEMORY_SIZE,
    ensures
        executable(s, word(15, x, 6, 5)),
        ({
            let t = execute_spec(s, word(15, x, 6, 5), r);
            &&& forall|k: int| 0 <= k <= x ==> #[trigger] t.registers[k] == s.memory[s.index + k]
            &&& forall|k: int| x < k < 16 ==> #[trigger] t.registers[k] == s.registers[k]
            &&& only_registers_differ(s, t)
        }),
{
    word_fields(15, x, 6, 5);
}

// ---------------------------------------------------------------------------
// Drawing (Dxyn).
// ---------------------------------------------------------------------------

/// Bit `c` of a sprite row, counted from the left: the most significant
/// bit is the leftmost pixel.
pub open spec fn pixel_of_row(row: u8, c: int) -> bool {
    (row as int / pow2((7 - c) as nat) as int) % 2 == 1
}

/// The sprite of `Dxyn` covers pixel `p` with a set bit: row `k` of the
/// sprite is the byte at `I + k` and lands on screen row `Vy mod 32 + k`,
/// bit `c` of it on column `Vx mod 64 + c`; whatever passes the bottom or
/// right edge is not drawn.
pub open spec fn sprite_covers(s: Machine, x: int, y: int, n: int, p: int) -> bool {
    let xo = s.registers[x] as int % 64;
    let yo = s.registers[y] as int % 32;
    let row = p / 64;
    let col = p % 64;
    &&& 0 <= p < DISPLAY_SIZE
    &&& yo <= row < yo + n
    &&& xo <= col < xo + 8
    &&& pixel_of_row(s.memory[s.index + (row - yo)], col - xo)
}

proof fn lemma_row_bits(v: u8, c: int)
    requires
        0 <= c < 8,
    ensures
        sprite_bit(v, c) == pixel_of_row(v, c),
{
    lemma2_to64();
    let shift = (7 - c) as u8;
    assert(sprite_bit(v, c) == ((v >> shift) & 1u8 == 1u8));
    assert((v >> 0u8) & 1u8 == 1u8 <==> v % 2 == 1) by (bit_vector);
    assert((v >> 1u8) & 1u8 == 1u8 <==> (v / 2) % 2 == 1) by (bit_vector);
    assert((v >> 2u8) & 1u8 == 1u8 <==> (v / 4) % 2 == 1) by (bit_vector);
    assert((v >> 3u8) & 1u8 == 1u8 <==> (v / 8) % 2 == 1) by (bit_vector);
    assert((v >> 4u8) & 1u8 == 1u8 <==> (v / 16) % 2 == 1) by (bit_vector);
    assert((v >> 5u8) & 1u8 == 1u8 <==> (v / 32) % 2 == 1) by (bit_vector);
    assert((v >> 6u8) & 1u8 == 1u8 <==> (v / 64) % 2 == 1) by (bit_vector);
    assert((v >> 7u8) & 1u8 == 1u8 <==> (v / 128) % 2 == 1) by (bit_vector);
    if c == 0 {
        assert(shift == 7);
        assert(pow2((7 - c) as nat) == 128);
    } else if c == 1 {
        assert(shift == 6);
        assert(pow2((7 - c) as nat) == 64);
    } else if c == 2 {
        assert(shift == 5);
        assert(pow2((7 - c) as nat) == 32);
    } else if c == 3 {
        assert(shift == 4);
        assert(pow2((7 - c) as nat) == 16);
    } else if c == 4 {
        assert(shift == 3);
        assert(pow2((7 - c) as nat) == 8);
    } else if c == 5 {
        assert(shift == 2);
        assert(pow2((7 - c) as nat) == 4);
    } else if c == 6 {
        assert(shift == 1);
        assert(pow2((7 - c) as nat) == 2);
    } else {
        assert(shift == 0);
        assert(pow2((7 - c) as nat) == 1);
    }
}

/// `Dxyn` flips exactly the pixels its sprite covers, the byte at `I`
/// giving the top row, and VF is 1 exactly when one of them was on; no
/// other register and nothing else changes. It can run where the rows that
/// land on the display lie in memory.
pub proof fn draw_flips_the_covered_pixels(s: Machine, x: int, y: int, n: int, r: u8)
    requires
        s.wf(),
        0 <= x < 16,
        0 <= y < 16,
        0 <= n < 16,
    ensures
        ({
            let t = execute_spec(s, word(13, x, y, n), r);
            let yo = s.registers[y] as int % 32;
            let rows = if n < 32 - yo { n } else { 32 - yo };
            &&& executable(s, word(13, x, y, n)) <==> (rows == 0 || s.index + rows <= MEMORY_SIZE)
            &&& t.display.len() == DISPLAY_SIZE
            &&& forall|p: int|
                0 <= p < DISPLAY_SIZE ==> #[trigger] t.display[p] == if sprite_covers(s, x, y, n, p) {
                    1 - s.display[p]
                } else {
                    s.display[p] as int
                }
            &&& t.registers[15] == if exists|p: int|
                #[trigger] sprite_covers(s, x, y, n, p) && s.display[p] == 1 {
                1int
            } else {
                0
            }
            &&& other_registers_kept(s, t, 15)
            &&& (Machine { display: s.display, registers: s.registers, ..t }) == s
        }),
{
    let w = word(13, x, y, n);
    word_fields(13, x, y, n);
    assert forall|p: int| #[trigger] sprite_covers(s, x, y, n, p) == lit(s, x, y, n as u8, p) by {
        if 0 <= p < DISPLAY_SIZE {
            let xo = s.registers[x] as int % 64;
            let col = p % 64;
            if xo <= col < xo + 8 {
                lemma_row_bits(s.memory[s.index + (p / 64 - s.registers[y] as int % 32)], col - xo);
            }
        }
    }
    assert forall|p: int| 0 <= p < DISPLAY_SIZE implies (s.display[p] ^ 1u8) == 1 - s.display[p] by {
        let d = s.display[p];
        assert(d <= 1 ==> (d ^ 1u8) as int == 1 - d) by (bit_vector);
    }
    let t = execute_spec(s, w, r);
    if collides(s, x, y, n as u8) {
        let q = choose|p: int| #[trigger] lit(s, x, y, n as u8, p) && s.display[p] == 1;
        assert(sprite_covers(s, x, y, n, q));
    }
    if exists|p: int| #[trigger] sprite_covers(s, x, y, n, p) && s.display[p] == 1 {
        let q = choose|p: int| #[trigger] sprite_covers(s, x, y, n, p) && s.display[p] == 1;
        assert(lit(s, x, y, n as u8, q));
    }
}

// ---------------------------------------------------------------------------
// Instructions that do not exist, waiting for a key, loading and stepping.
// ---------------------------------------------------------------------------

/// Words that name no instruction cannot run: `0nnn` other than `00E0` and
/// `00EE`, `8xyN` with `N` from 8 to 13 or 15, `ExNN` other than `Ex9E` and
/// `ExA1`, and `FxNN` other than the nine timer, index and memory ones.
pub proof fn undefined_words_do_not_run(s: Machine, x: int, y: int, n: int)
    requires
        s.wf(),
        0 <= x < 16,
        0 <= y < 16,
        0 <= n < 16,
    ensures
        executable(s, word(0, x, y, n)) <==> (x == 0 && y == 14 && (n == 0 || n == 14)),
        !(n <= 7 || n == 14) ==> !executable(s, word(8, x, y, n)),
        !((y == 9 && n == 14) || (y == 10 && n == 1)) ==> !executable(s, word(14, x, y, n)),
        !((y == 0 && (n == 7 || n == 10)) || (y == 1 && (n == 5 || n == 8 || n == 14)) || (y == 2
            && n == 9) || (y == 3 && n == 3) || ((y == 5 || y == 6) && n == 5)) ==> !executable(
            s,
            word(15, x, y, n),
        ),
{
    word_fields(0, x, y, n);
    word_fields(8, x, y, n);
    word_fields(14, x, y, n);
    word_fields(15, x, y, n);
}

/// `Fx0A` while no wait has begun and no key is down: it moves the program
/// counter back by 2, so that it runs again, and changes nothing else.
pub proof fn key_wait_without_a_key_repeats(s: Machine, x: int, r: u8)
    requires
        s.wf(),
        0 <= x < 16,
        !s.waiting_for_key,
        forall|k: int| 0 <= k < 16 ==> !#[trigger] s.keypad[k],
        s.pc >= 2,
    ensures
        executable(s, word(15, x, 0, 10)),
        execute_spec(s, word(15, x, 0, 10), r).pc == s.pc - 2,
        (Machine { pc: s.pc, ..execute_spec(s, word(15, x, 0, 10), r) }) == s,
{
    word_fields(15, x, 0, 10);
}

/// `Fx0A` once keys were down when the wait began: as soon as the lowest
/// of them that is up now is `k`, `k` goes to the register named when the
/// wait began and the wait ends, the program counter staying past the
/// instruction; while all of them are still down it repeats.
pub proof fn key_wait_ends_with_a_released_key(s: Machine, x: int, k: int, r: u8)
    requires
        s.wf(),
        0 <= x < 16,
        s.waiting_for_key,
        s.pc >= 2,
    ensures
        ({
            let t = execute_spec(s, word(15, x, 0, 10), r);
            let released = |j: int| 0 <= j < 16 && s.held_keys[j] && !s.keypad[j];
            &&& executable(s, word(15, x, 0, 10))
            &&& (released(k) && forall|j: int| 0 <= j < k ==> !#[trigger] released(j)) ==> {
                &&& t.registers[s.key_register as int] == k
                &&& other_registers_kept(s, t, s.key_register as int)
                &&& !t.waiting_for_key
                &&& t.pc == s.pc
            }
            &&& (forall|j: int| 0 <= j < 16 ==> !#[trigger] released(j)) ==> t.pc == s.pc - 2
                && (Machine { pc: s.pc, ..t }) == s
        }),
{
    word_fields(15, x, 0, 10);
    let released = |j: int| 0 <= j < 16 && s.held_keys[j] && !s.keypad[j];
    if released(k) && forall|j: int| 0 <= j < k ==> !#[trigger] released(j) {
        assert(super::semantics::let_go(s.held_keys, s.keypad, k));
        assert forall|j: int| 0 <= j < k implies !#[trigger] super::semantics::let_go(
            s.held_keys,
            s.keypad,
            j,
        ) by {
            assert(!released(j));
        }
        assert(super::semantics::is_first_let_go(s.held_keys, s.keypad, k));
        let c = super::semantics::first_let_go(s.held_keys, s.keypad);
        assert(super::semantics::is_first_let_go(s.held_keys, s.keypad, c));
        if c < k {
            assert(released(c));
        } else if k < c {
            assert(!super::semantics::let_go(s.held_keys, s.keypad, k));
        }
    }
    if forall|j: int| 0 <= j < 16 ==> !#[trigger] released(j) {
        assert forall|j: int| !#[trigger] super::semantics::let_go(s.held_keys, s.keypad, j) by {
            if 0 <= j < 16 {
                assert(!released(j));
            }
        }
    }
}

/// Loading a program puts its byte `i` at `START_ADDR + i` and leaves every
/// other byte of memory as it was.
pub proof fn loading_places_the_program(memory: Seq<u8>, rom: Seq<u8>)
    requires
        memory.len() == MEMORY_SIZE,
        START_ADDR + rom.len() <= MEMORY_SIZE,
    ensures
        loaded_memory(memory, rom).len() == MEMORY_SIZE,
        forall|i: int| 0 <= i < rom.len() ==> #[trigger] loaded_memory(memory, rom)[START_ADDR + i]
            == rom[i],
        forall|a: int|
            0 <= a < MEMORY_SIZE && (a < START_ADDR || a >= START_ADDR + rom.len()) ==> #[trigger] loaded_memory(
                memory,
                rom,
            )[a] == memory[a],
{
}

/// A step reads the instruction at the program counter big-endian, the
/// byte at `pc` being the high one, and runs it with the program counter
/// already past it: after a `6xnn` the counter has moved by exactly 2.
pub proof fn step_runs_the_instruction_at_pc(s: Machine, x: int, k: int, r: u8)
    requires
        s.wf(),
        0 <= x < 16,
        0 <= k < 256,
        s.pc + 1 < MEMORY_SIZE,
        s.memory[s.pc as int] == 0x60 + x,
        s.memory[s.pc + 1] == k,
    ensures
        fetch_spec(s) == word(6, x, k / 16, k % 16),
        can_step_spec(s),
        step_spec(s, r).pc == s.pc + 2,
        step_spec(s, r).registers[x] == k,
        other_registers_kept(s, step_spec(s, r), x),
{
    word_fields(6, x, k / 16, k % 16);
    assert(fetch_spec(s) as int == (0x60 + x) * 256 + k);
    assert((0x60 + x) * 256 + k == 6 * 4096 + x * 256 + (k / 16) * 16 + k % 16);
    assert(advance(s).wf());
}

} // verus!
