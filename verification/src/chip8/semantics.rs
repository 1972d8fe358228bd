use vstd::prelude::*;

use super::{Machine, DISPLAY_SIZE, FONT_ADDR, MEMORY_SIZE};

verus! {

// ---------------------------------------------------------------------------
// Fields of an instruction word.
// ---------------------------------------------------------------------------

/// The highest nibble of an instruction: which group it belongs to.
pub open spec fn op_of(instr: u16) -> int {
    instr as int / 4096
}

/// The lowest twelve bits: an address.
pub open spec fn nnn_of(instr: u16) -> u16 {
    (instr as int % 4096) as u16
}

/// The lowest byte: an immediate value.
pub open spec fn nn_of(instr: u16) -> u8 {
    (instr as int % 256) as u8
}

/// The lowest nibble.
pub open spec fn n_of(instr: u16) -> u8 {
    (instr as int % 16) as u8
}

/// The second nibble: the register `x`.
pub open spec fn x_of(instr: u16) -> int {
    (instr as int / 256) % 16
}

/// The third nibble: the register `y`.
pub open spec fn y_of(instr: u16) -> int {
    (instr as int / 16) % 16
}

/// An integer reduced to a byte, as wrapping arithmetic on `u8` does.
pub open spec fn wrap8(v: int) -> u8 {
    (v % 256) as u8
}

// ---------------------------------------------------------------------------
// Small state changes.
// ---------------------------------------------------------------------------

/// The machine with register `r` set to `v`.
pub open spec fn set_reg(s: Machine, r: int, v: u8) -> Machine {
    Machine { registers: s.registers.update(r, v), ..s }
}

/// The machine with the program counter moved past the next instruction
/// when `cond` holds.
pub open spec fn skip_if(s: Machine, cond: bool) -> Machine {
    if cond {
        Machine { pc: (s.pc + 2) as u16, ..s }
    } else {
        s
    }
}

/// A skip can only be taken where the program counter does not overflow.
pub open spec fn skip_fits(s: Machine, cond: bool) -> bool {
    cond ==> s.pc + 2 <= u16::MAX
}

/// Return from a subroutine: pop the return address, if there is one.
pub open spec fn return_spec(s: Machine) -> Machine {
    if s.stack.len() > 0 {
        Machine {
            pc: s.stack.last(),
            stack: s.stack.drop_last(),
            ..s
        }
    } else {
        s
    }
}

/// Call a subroutine at `target`: push the program counter and jump.
pub open spec fn call_spec(s: Machine, target: u16) -> Machine {
    Machine { stack: s.stack.push(s.pc), pc: target, ..s }
}

// ---------------------------------------------------------------------------
// The arithmetic and logic group (8xyN).
// ---------------------------------------------------------------------------

/// Whether `n` names an operation of the arithmetic group.
pub open spec fn alu_defined(n: u8) -> bool {
    n <= 7 || n == 14
}

/// The effect of `8xyN`: register `x` gets the result, and the flag
/// register VF is written last, so it wins where `x` is VF.
pub open spec fn alu_spec(s: Machine, x: int, y: int, n: u8) -> Machine {
    let vx = s.registers[x];
    let vy = s.registers[y];
    if n == 0 {
        set_reg(s, x, vy)
    } else if n == 1 {
        set_reg(set_reg(s, x, vx | vy), 15, 0)
    } else if n == 2 {
        set_reg(set_reg(s, x, vx & vy), 15, 0)
    } else if n == 3 {
        set_reg(set_reg(s, x, vx ^ vy), 15, 0)
    } else if n == 4 {
        set_reg(set_reg(s, x, wrap8(vx + vy)), 15, if vx + vy > 255 { 1 } else { 0 })
    } else if n == 5 {
        set_reg(set_reg(s, x, wrap8(vx - vy)), 15, if vx >= vy { 1 } else { 0 })
    } else if n == 6 {
        set_reg(set_reg(s, x, vy / 2), 15, vy % 2)
    } else if n == 7 {
        set_reg(set_reg(s, x, wrap8(vy - vx)), 15, if vy >= vx { 1 } else { 0 })
    } else {
        set_reg(set_reg(s, x, wrap8(vy * 2)), 15, vy / 128)
    }
}

// ---------------------------------------------------------------------------
// Waiting for a key (Fx0A).
// ---------------------------------------------------------------------------

/// Some key of the keypad is held down.
pub open spec fn any_pressed(keys: Seq<bool>) -> bool {
    exists|k: int| 0 <= k < keys.len() && #[trigger] keys[k]
}

/// Key `k` was held down when the wait began and is up now.
pub open spec fn let_go(held: Seq<bool>, keys: Seq<bool>, k: int) -> bool {
    0 <= k < keys.len() && 0 <= k < held.len() && held[k] && !keys[k]
}

/// Some key that was held down when the wait began is up now.
pub open spec fn any_let_go(held: Seq<bool>, keys: Seq<bool>) -> bool {
    exists|k: int| #[trigger] let_go(held, keys, k)
}

/// `k` is the lowest key that was held down when the wait began and is up
/// now.
pub open spec fn is_first_let_go(held: Seq<bool>, keys: Seq<bool>, k: int) -> bool {
    &&& let_go(held, keys, k)
    &&& forall|j: int| 0 <= j < k ==> !#[trigger] let_go(held, keys, j)
}

/// The lowest key that was held down when the wait began and is up now.
pub open spec fn first_let_go(held: Seq<bool>, keys: Seq<bool>) -> int {
    choose|k: int| is_first_let_go(held, keys, k)
}

/// The effect of `Fx0A`, `Vx = getkey()`: the instruction repeats, by
/// moving the program counter back onto itself, until a key has been
/// pressed and released. The first time it sees keys down it records them
/// and the register `x`; once one of the recorded keys is up again (the
/// lowest, if several are), that key is written to the recorded register
/// and the wait ends.
pub open spec fn wait_key_spec(s: Machine, x: int) -> Machine {
    if !s.waiting_for_key {
        if any_pressed(s.keypad) {
            Machine {
                waiting_for_key: true,
                key_register: x as usize,
                held_keys: s.keypad,
                pc: (s.pc - 2) as u16,
                ..s
            }
        } else {
            Machine { pc: (s.pc - 2) as u16, ..s }
        }
    } else if any_let_go(s.held_keys, s.keypad) {
        set_reg(
            Machine { waiting_for_key: false, ..s },
            s.key_register as int,
            first_let_go(s.held_keys, s.keypad) as u8,
        )
    } else {
        Machine { pc: (s.pc - 2) as u16, ..s }
    }
}

/// `Fx0A` moves the program counter back only where it can.
pub open spec fn wait_key_fits(s: Machine) -> bool {
    (!s.waiting_for_key || !any_let_go(s.held_keys, s.keypad)) ==> s.pc >= 2
}

// ---------------------------------------------------------------------------
// Drawing (Dxyn).
// ---------------------------------------------------------------------------

/// Bit `b` of a sprite row, counted from the most significant bit.
pub open spec fn sprite_bit(row: u8, b: int) -> bool {
    ((row >> ((7 - b) as u8)) & 1u8) == 1u8
}

/// The column at which the sprite starts: `Vx`, wrapped onto the display.
pub open spec fn draw_x(s: Machine, x: int) -> int {
    s.registers[x] as int % 64
}

/// The row at which the sprite starts: `Vy`, wrapped onto the display.
pub open spec fn draw_y(s: Machine, y: int) -> int {
    s.registers[y] as int % 32
}

/// How many rows of the sprite fall on the display; the rest is clipped.
pub open spec fn draw_rows(s: Machine, y: int, n: u8) -> int {
    let room = 32 - draw_y(s, y);
    if n < room { n as int } else { room }
}

/// How many columns of the sprite fall on the display; the rest is clipped.
pub open spec fn draw_cols(s: Machine, x: int) -> int {
    let room = 64 - draw_x(s, x);
    if 8 < room { 8 } else { room }
}

/// Whether the sprite of `Dxyn` covers pixel `p` with a set bit: the pixel
/// lies in the clipped rectangle of the sprite, and the bit of the sprite
/// row that lands on it is set.
pub open spec fn lit(s: Machine, x: int, y: int, n: u8, p: int) -> bool {
    let r = p / 64;
    let c = p % 64;
    let xo = draw_x(s, x);
    let yo = draw_y(s, y);
    &&& 0 <= p < DISPLAY_SIZE
    &&& yo <= r < yo + draw_rows(s, y, n)
    &&& xo <= c < xo + draw_cols(s, x)
    &&& sprite_bit(s.memory[s.index + (r - yo)], c - xo)
}

/// Some pixel that the sprite flips was on.
pub open spec fn collides(s: Machine, x: int, y: int, n: u8) -> bool {
    exists|p: int| #[trigger] lit(s, x, y, n, p) && s.display[p] == 1
}

/// The effect of `Dxyn`, `draw(Vx, Vy, n)`: each pixel under a set bit of
/// the sprite is flipped, and VF, written last, tells whether any of them
/// was on.
pub open spec fn draw_spec(s: Machine, x: int, y: int, n: u8) -> Machine {
    Machine {
        display: Seq::new(
            DISPLAY_SIZE as nat,
            |p: int|
                if lit(s, x, y, n, p) {
                    s.display[p] ^ 1u8
                } else {
                    s.display[p]
                },
        ),
        registers: s.registers.update(15, if collides(s, x, y, n) { 1u8 } else { 0u8 }),
        ..s
    }
}

/// The sprite rows that `Dxyn` reads lie in memory.
pub open spec fn draw_fits(s: Machine, y: int, n: u8) -> bool {
    draw_rows(s, y, n) == 0 || s.index + draw_rows(s, y, n) <= MEMORY_SIZE
}

// ---------------------------------------------------------------------------
// The timer, memory and index group (FxNN).
// ---------------------------------------------------------------------------

/// Memory after registers `0..=x` are stored from the index register on.
pub open spec fn dump_spec(s: Machine, x: int) -> Seq<u8> {
    Seq::new(
        MEMORY_SIZE as nat,
        |a: int|
            if s.index <= a <= s.index + x {
                s.registers[a - s.index]
            } else {
                s.memory[a]
            },
    )
}

/// Registers after `0..=x` are loaded from the index register on.
pub open spec fn load_spec(s: Machine, x: int) -> Seq<u8> {
    Seq::new(16, |r: int| if r <= x { s.memory[s.index + r] } else { s.registers[r] })
}

/// The effect of `FxNN`.
pub open spec fn misc_spec(s: Machine, x: int, nn: u8) -> Machine {
    let vx = s.registers[x];
    let i = s.index as int;
    if nn == 0x07 {
        set_reg(s, x, s.delay_timer)
    } else if nn == 0x0A {
        wait_key_spec(s, x)
    } else if nn == 0x15 {
        Machine { delay_timer: vx, ..s }
    } else if nn == 0x18 {
        Machine { sound_timer: vx, ..s }
    } else if nn == 0x1E {
        Machine { index: (i + vx) as u16, ..s }
    } else if nn == 0x29 {
        Machine { index: (FONT_ADDR + 5 * vx) as u16, ..s }
    } else if nn == 0x33 {
        Machine {
            memory: s.memory.update(i, vx / 100).update(i + 1, (vx / 10) % 10).update(i + 2, vx % 10),
            ..s
        }
    } else if nn == 0x55 {
        Machine { memory: dump_spec(s, x), ..s }
    } else {
        Machine { registers: load_spec(s, x), ..s }
    }
}

/// Whether `FxNN` is an instruction and stays within its bounds.
pub open spec fn misc_fits(s: Machine, x: int, nn: u8) -> bool {
    let vx = s.registers[x];
    if nn == 0x07 || nn == 0x15 || nn == 0x18 || nn == 0x29 {
        true
    } else if nn == 0x0A {
        wait_key_fits(s)
    } else if nn == 0x1E {
        s.index + vx <= u16::MAX
    } else if nn == 0x33 {
        s.index + 2 < MEMORY_SIZE
    } else if nn == 0x55 || nn == 0x65 {
        s.index + x < MEMORY_SIZE
    } else {
        false
    }
}

// ---------------------------------------------------------------------------
// Whole instructions.
// ---------------------------------------------------------------------------

/// Whether `Ex9E` (key `Vx` down) or `ExA1` (key `Vx` up) skips.
pub open spec fn key_skip_cond(s: Machine, x: int, nn: u8) -> bool {
    let key = s.registers[x] as int;
    if nn == 0x9E { s.keypad[key] } else { !s.keypad[key] }
}

/// The machine after executing `instr`; `rnd` is the random byte that
/// `Cxnn` masks.
pub open spec fn execute_spec(s: Machine, instr: u16, rnd: u8) -> Machine {
    let x = x_of(instr);
    let y = y_of(instr);
    let nn = nn_of(instr);
    let nnn = nnn_of(instr);
    let vx = s.registers[x];
    let vy = s.registers[y];
    let op = op_of(instr);
    if op == 0 {
        if nnn == 0xE0 {
            Machine { display: Seq::new(DISPLAY_SIZE as nat, |p: int| 0u8), ..s }
        } else {
            return_spec(s)
        }
    } else if op == 1 {
        Machine { pc: nnn, ..s }
    } else if op == 2 {
        call_spec(s, nnn)
    } else if op == 3 {
        skip_if(s, vx == nn)
    } else if op == 4 {
        skip_if(s, vx != nn)
    } else if op == 5 {
        skip_if(s, vx == vy)
    } else if op == 6 {
        set_reg(s, x, nn)
    } else if op == 7 {
        set_reg(s, x, wrap8(vx + nn))
    } else if op == 8 {
        alu_spec(s, x, y, n_of(instr))
    } else if op == 9 {
        skip_if(s, vx != vy)
    } else if op == 10 {
        Machine { index: nnn, ..s }
    } else if op == 11 {
        Machine { pc: (s.registers[0] + nnn) as u16, ..s }
    } else if op == 12 {
        set_reg(s, x, rnd & nn)
    } else if op == 13 {
        draw_spec(s, x, y, n_of(instr))
    } else if op == 14 {
        skip_if(s, key_skip_cond(s, x, nn))
    } else {
        misc_spec(s, x, nn)
    }
}

/// Whether `instr` is an instruction that can run on `s`: it is defined,
/// its memory accesses and key lookups are in range, and neither the
/// program counter, the index register nor the stack pointer overflows.
pub open spec fn executable(s: Machine, instr: u16) -> bool {
    let x = x_of(instr);
    let y = y_of(instr);
    let nn = nn_of(instr);
    let nnn = nnn_of(instr);
    let vx = s.registers[x];
    let vy = s.registers[y];
    let op = op_of(instr);
    if op == 0 {
        nnn == 0xE0 || nnn == 0xEE
    } else if op == 2 {
        s.stack.len() < 255
    } else if op == 3 {
        skip_fits(s, vx == nn)
    } else if op == 4 {
        skip_fits(s, vx != nn)
    } else if op == 5 {
        skip_fits(s, vx == vy)
    } else if op == 8 {
        alu_defined(n_of(instr))
    } else if op == 9 {
        skip_fits(s, vx != vy)
    } else if op == 13 {
        draw_fits(s, y, n_of(instr))
    } else if op == 14 {
        &&& nn == 0x9E || nn == 0xA1
        &&& vx < 16
        &&& skip_fits(s, key_skip_cond(s, x, nn))
    } else if op == 15 {
        misc_fits(s, x, nn)
    } else {
        true
    }
}

// ---------------------------------------------------------------------------
// The fetch and execute cycle.
// ---------------------------------------------------------------------------

/// The instruction at the program counter, stored big-endian.
pub open spec fn fetch_spec(s: Machine) -> u16 {
    (s.memory[s.pc as int] * 256 + s.memory[s.pc + 1]) as u16
}

/// The machine with the program counter past the fetched instruction.
pub open spec fn advance(s: Machine) -> Machine {
    Machine { pc: (s.pc + 2) as u16, ..s }
}

/// Whether one step can run: the instruction lies in memory and can be
/// executed once the program counter is past it.
pub open spec fn can_step_spec(s: Machine) -> bool {
    &&& s.pc + 1 < MEMORY_SIZE
    &&& executable(advance(s), fetch_spec(s))
}

/// The machine after one step.
pub open spec fn step_spec(s: Machine, rnd: u8) -> Machine {
    execute_spec(advance(s), fetch_spec(s), rnd)
}

} // verus!
