use vstd::prelude::*;

use super::semantics::{
    collides, draw_spec, execute_spec, executable, fetch_spec, lit, n_of, nn_of, op_of,
    x_of, y_of,
};
use super::semantics::{
    advance, any_pressed, can_step_spec, first_let_go, is_first_let_go, let_go, misc_spec,
    step_spec, wait_key_spec,
};
use super::{hex_digit, hex_digits, hex_spec, initial_machine, loaded_memory, tick, Machine, START_ADDR};

verus! {

proof fn lemma_flip_twice(d: u8)
    by (bit_vector)
    ensures
        (d ^ 1u8) ^ 1u8 == d,
{
}

/// Drawing the same sprite at the same place twice leaves the display as it
/// was: drawing flips pixels. After the second drawing VF is 1 exactly when
/// some pixel under the sprite was off before the first. The coordinate
/// registers must not be VF, which the first drawing overwrites.
pub proof fn draw_twice_restores_display(s: Machine, x: int, y: int, n: u8)
    requires
        s.wf(),
        0 <= x < 15,
        0 <= y < 15,
    ensures
        draw_spec(draw_spec(s, x, y, n), x, y, n).display == s.display,
        draw_spec(draw_spec(s, x, y, n), x, y, n).registers[15] == 1 <==> (exists|p: int|
            #[trigger] lit(s, x, y, n, p) && s.display[p] == 0),
{
    let s1 = draw_spec(s, x, y, n);
    assert forall|p: int| #[trigger] lit(s1, x, y, n, p) == lit(s, x, y, n, p) by {}
    assert forall|p: int| 0 <= p < 2048 implies #[trigger] draw_spec(s1, x, y, n).display[p]
        == s.display[p] by {
        lemma_flip_twice(s.display[p]);
    }
    assert(draw_spec(s1, x, y, n).display =~= s.display);
    if collides(s1, x, y, n) {
        let w = choose|p: int| #[trigger] lit(s1, x, y, n, p) && s1.display[p] == 1;
        lemma_flip_value(s.display[w]);
        assert(lit(s, x, y, n, w) && s.display[w] == 0);
    }
    if exists|p: int| #[trigger] lit(s, x, y, n, p) && s.display[p] == 0 {
        let w = choose|p: int| #[trigger] lit(s, x, y, n, p) && s.display[p] == 0;
        lemma_flip_value(s.display[w]);
        assert(lit(s1, x, y, n, w) && s1.display[w] == 1);
    }
}

proof fn lemma_flip_value(d: u8)
    by (bit_vector)
    requires
        d <= 1,
    ensures
        (d ^ 1u8 == 1u8) == (d == 0u8),
{
}

/// VF after a drawing tells exactly whether some pixel the sprite covers
/// was on, that is whether a pixel got turned off.
pub proof fn draw_flag_reports_collision(s: Machine, x: int, y: int, n: u8)
    requires
        s.wf(),
        0 <= x < 16,
        0 <= y < 16,
    ensures
        draw_spec(s, x, y, n).registers[15] == 1 <==> (exists|p: int|
            #[trigger] lit(s, x, y, n, p) && s.display[p] == 1 && draw_spec(s, x, y, n).display[p]
                == 0),
        draw_spec(s, x, y, n).registers[15] <= 1,
{
    let d = draw_spec(s, x, y, n);
    if collides(s, x, y, n) {
        let w = choose|p: int| #[trigger] lit(s, x, y, n, p) && s.display[p] == 1;
        assert(1u8 ^ 1u8 == 0u8) by (bit_vector);
        assert(d.display[w] == 0);
    }
}

/// A call followed by a return comes back to the machine it left: the
/// program counter, the stack and the stack pointer are restored.
pub proof fn call_then_return(s: Machine, call: u16, r1: u8, r2: u8)
    requires
        s.wf(),
        op_of(call) == 2,
        executable(s, call),
    ensures
        execute_spec(execute_spec(s, call, r1), 0x00EE, r2) == s,
{
    let t = execute_spec(s, call, r1);
    assert(t.stack.drop_last() =~= s.stack);
    assert(execute_spec(t, 0x00EE, r2) =~= s);
}

/// `Fx33` stores the decimal digits of `Vx`: hundreds, tens and ones, in
/// that order, from the index register on.
pub proof fn bcd_digits(s: Machine, instr: u16, r: u8)
    requires
        s.wf(),
        op_of(instr) == 15,
        nn_of(instr) == 0x33,
        executable(s, instr),
    ensures
        ({
            let m = execute_spec(s, instr, r).memory;
            let i = s.index as int;
            &&& m[i] < 10 && m[i + 1] < 10 && m[i + 2] < 10
            &&& m[i] * 100 + m[i + 1] * 10 + m[i + 2] == s.registers[x_of(instr)]
        }),
{
}

/// Storing registers `0..=x` with `Fx55` and loading them back with `Fx65`
/// gives back the registers, whatever `x` is; the load leaves memory and
/// the index register as the store left them.
pub proof fn dump_then_load(s: Machine, x: int, r1: u8, r2: u8)
    requires
        s.wf(),
        0 <= x < 16,
        executable(s, (0xF055 + x * 256) as u16),
    ensures
        ({
            let t = execute_spec(s, (0xF055 + x * 256) as u16, r1);
            let u = execute_spec(t, (0xF065 + x * 256) as u16, r2);
            &&& u.registers == s.registers
            &&& u.memory == t.memory
            &&& u.index == s.index
        }),
{
    let dump = (0xF055 + x * 256) as u16;
    let load = (0xF065 + x * 256) as u16;
    assert(op_of(dump) == 15 && nn_of(dump) == 0x55 && x_of(dump) == x);
    assert(op_of(load) == 15 && nn_of(load) == 0x65 && x_of(load) == x);
    let t = execute_spec(s, dump, r1);
    assert(execute_spec(t, load, r2).registers =~= s.registers);
}

/// Addition with carry is exact: where `Vx` is not VF, the sum `Vx + Vy` is
/// the new `Vx` plus 256 times the carry in VF.
pub proof fn add_with_carry(s: Machine, instr: u16, r: u8)
    requires
        s.wf(),
        op_of(instr) == 8,
        n_of(instr) == 4,
        x_of(instr) != 15,
    ensures
        ({
            let t = execute_spec(s, instr, r);
            t.registers[x_of(instr)] + 256 * t.registers[15] == s.registers[x_of(instr)]
                + s.registers[y_of(instr)]
        }),
{
}

/// Subtraction with borrow is exact: where `Vx` is not VF, the new `Vx` is
/// `Vx - Vy`, plus 256 when VF says there was a borrow (VF is 0).
pub proof fn sub_with_borrow(s: Machine, instr: u16, r: u8)
    requires
        s.wf(),
        op_of(instr) == 8,
        n_of(instr) == 5,
        x_of(instr) != 15,
    ensures
        ({
            let t = execute_spec(s, instr, r);
            t.registers[x_of(instr)] == s.registers[x_of(instr)] - s.registers[y_of(instr)]
                + 256 * (1 - t.registers[15])
        }),
{
}

/// The shifts lose no bit: where `Vx` is not VF, `8xy6` leaves twice the
/// new `Vx` plus VF equal to `Vy`, and `8xyE` leaves the new `Vx` plus 256
/// times VF equal to twice `Vy`.
pub proof fn shifts_keep_the_bit_out(s: Machine, instr: u16, r: u8)
    requires
        s.wf(),
        op_of(instr) == 8,
        n_of(instr) == 6 || n_of(instr) == 14,
        x_of(instr) != 15,
    ensures
        ({
            let t = execute_spec(s, instr, r);
            let vy = s.registers[y_of(instr)];
            &&& n_of(instr) == 6 ==> 2 * t.registers[x_of(instr)] + t.registers[15] == vy
            &&& n_of(instr) == 14 ==> t.registers[x_of(instr)] + 256 * t.registers[15] == 2 * vy
        }),
{
}

/// Only `Cxnn` depends on the random byte.
pub proof fn only_random_instruction_uses_chance(s: Machine, instr: u16, r1: u8, r2: u8)
    requires
        op_of(instr) != 12,
    ensures
        execute_spec(s, instr, r1) == execute_spec(s, instr, r2),
{
}

/// `Cxnn` leaves in `Vx` no bit that `nn` does not have.
pub proof fn random_respects_mask(s: Machine, instr: u16, r: u8)
    requires
        s.wf(),
        op_of(instr) == 12,
    ensures
        execute_spec(s, instr, r).registers[x_of(instr)] & !nn_of(instr) == 0,
{
    let nn = nn_of(instr);
    assert((r & nn) & !nn == 0) by (bit_vector);
}

/// The first instruction of a program loaded into a new machine is the
/// first two bytes of the image, read big-endian.
pub proof fn loaded_program_starts_at_start_addr(rom: Seq<u8>)
    requires
        2 <= rom.len(),
        START_ADDR + rom.len() <= super::MEMORY_SIZE,
    ensures
        fetch_spec(
            Machine { memory: loaded_memory(initial_machine().memory, rom), ..initial_machine() },
        ) == rom[0] * 256 + rom[1],
{
}

/// The number a hexadecimal digit stands for.
pub open spec fn digit_value(c: char) -> int {
    if c <= '9' {
        c as int - '0' as int
    } else {
        c as int - 'A' as int + 10
    }
}

/// The number that a string of hexadecimal digits spells, most significant
/// first.
pub open spec fn hex_value(digits: Seq<char>) -> int
    decreases digits.len(),
{
    if digits.len() == 0 {
        0
    } else {
        hex_value(digits.drop_last()) * 16 + digit_value(digits.last())
    }
}

/// The digits that `to_hex` prints spell out the value again, there are at
/// least as many as the padding asks for, and each is `0`-`9` or `A`-`F`.
pub proof fn hex_digits_spell_the_value(v: nat, m: nat)
    ensures
        hex_value(hex_digits(v, m)) == v,
        hex_digits(v, m).len() >= m,
        forall|i: int|
            0 <= i < hex_digits(v, m).len() ==> ('0' <= #[trigger] hex_digits(v, m)[i] <= '9') || (
            'A' <= hex_digits(v, m)[i] <= 'F'),
    decreases v + m,
{
    if !(v == 0 && m == 0) {
        let m2: nat = if m > 0 { (m - 1) as nat } else { 0 };
        hex_digits_spell_the_value(v / 16, m2);
        let h = hex_digits(v, m);
        let d = (v % 16) as int;
        assert(h == hex_digits(v / 16, m2).push(hex_digit(d)));
        assert(h.drop_last() =~= hex_digits(v / 16, m2));
        assert(digit_value(hex_digit(d)) == d);
        assert(hex_value(h) == (v / 16) * 16 + d);
    }
}

/// `to_hex` prints `0x` and then the digits of the value, at least four.
pub proof fn hex_text_spells_the_value(v: u64)
    ensures
        hex_spec(v).len() >= 6,
        hex_spec(v)[0] == '0' && hex_spec(v)[1] == 'x',
        hex_value(hex_spec(v).subrange(2, hex_spec(v).len() as int)) == v,
{
    hex_digits_spell_the_value(v as nat, 4);
    assert(hex_spec(v).subrange(2, hex_spec(v).len() as int) =~= hex_digits(v as nat, 4));
}

/// A timer after `k` ticks.
pub open spec fn ticks(t: u8, k: nat) -> u8
    decreases k,
{
    if k == 0 {
        t
    } else {
        tick(ticks(t, (k - 1) as nat))
    }
}

/// `k` ticks take a timer from `t` to `t - k`, and to zero once `k`
/// reaches `t`, where it stays.
pub proof fn ticks_count_down_to_zero(t: u8, k: nat)
    ensures
        ticks(t, k) == if k < t { t - k } else { 0 },
    decreases k,
{
    if k > 0 {
        ticks_count_down_to_zero(t, (k - 1) as nat);
    }
}

/// While no key is down and no wait has begun, a step on `Fx0A` leaves the
/// machine exactly as it was: the wait repeats for as long as no key is
/// pressed.
pub proof fn key_wait_repeats_until_a_key_is_down(s: Machine, r: u8)
    requires
        s.wf(),
        can_step_spec(s),
        op_of(fetch_spec(s)) == 15,
        nn_of(fetch_spec(s)) == 0x0A,
        !s.waiting_for_key,
        !any_pressed(s.keypad),
    ensures
        step_spec(s, r) == s,
{
    let a = advance(s);
    assert(step_spec(s, r) == misc_spec(a, x_of(fetch_spec(s)), 0x0A));
    assert(step_spec(s, r) =~= s);
}

/// `Fx0A` stores the key that was pressed and then released: pressing key
/// `k` (the lowest key down) starts the wait, and once `k` is up again the
/// next `Fx0A` writes `k` to `Vx` and ends the wait.
pub proof fn key_wait_stores_the_released_key(s: Machine, x: int, k: int)
    requires
        s.wf(),
        0 <= x < 16,
        0 <= k < 16,
        !s.waiting_for_key,
        s.pc >= 2,
        s.keypad[k],
        forall|j: int| 0 <= j < k ==> !s.keypad[j],
    ensures
        ({
            let t = wait_key_spec(s, x);
            let u = Machine { keypad: t.keypad.update(k, false), ..t };
            let v = wait_key_spec(u, x);
            &&& t.waiting_for_key
            &&& v.registers == s.registers.update(x, k as u8)
            &&& !v.waiting_for_key
            &&& v.pc == t.pc
        }),
{
    assert(any_pressed(s.keypad)) by {
        assert(s.keypad[k]);
    }
    let t = wait_key_spec(s, x);
    let u = Machine { keypad: t.keypad.update(k, false), ..t };
    assert(let_go(u.held_keys, u.keypad, k));
    assert(is_first_let_go(u.held_keys, u.keypad, k));
    let c = first_let_go(u.held_keys, u.keypad);
    assert(is_first_let_go(u.held_keys, u.keypad, c));
    if c < k {
        assert(!let_go(u.held_keys, u.keypad, c));
    } else if k < c {
        assert(!let_go(u.held_keys, u.keypad, k));
    }
    assert(wait_key_spec(u, x).registers =~= s.registers.update(x, k as u8));
}

} // verus!
