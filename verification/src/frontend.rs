//! The decisions of the front end: which keyboard key drives which key of
//! the keypad, how the game menu moves its selection, and whether the game
//! list fits on the screen.

use vstd::prelude::*;

use crate::chip8::semantics::{can_step_spec, fetch_spec, op_of, step_spec};
use crate::chip8::{tick, Chip8, Machine};

verus! {

/// How many instructions run in one frame, between two timer ticks.
pub const STEPS_PER_FRAME: usize = 12;

/// The machine after one step for each random byte of `rnds`, in order.
pub open spec fn run_steps(s: Machine, rnds: Seq<u8>) -> Machine
    decreases rnds.len(),
{
    if rnds.len() == 0 {
        s
    } else {
        step_spec(run_steps(s, rnds.drop_last()), rnds.last())
    }
}

/// The machine with both timers ticked once.
pub open spec fn tick_spec(s: Machine) -> Machine {
    Machine { delay_timer: tick(s.delay_timer), sound_timer: tick(s.sound_timer), ..s }
}

/// Starting from `s`, the instructions `ops` ran one after another, each
/// the one fetched and each able to run, drawing the random bytes `rnds`
/// (zero for every instruction but `Cxnn`).
pub open spec fn steps_ran(s: Machine, rnds: Seq<u8>, ops: Seq<u16>) -> bool {
    &&& rnds.len() == ops.len()
    &&& forall|j: int|
        0 <= j < ops.len() ==> #[trigger] can_step_spec(run_steps(s, rnds.take(j)))
            && ops[j] == fetch_spec(run_steps(s, rnds.take(j)))
            && (op_of(ops[j]) != 12 ==> rnds[j] == 0)
}

/// A frame that started from `s` ran the instructions `ops`, `rnds` being
/// the random bytes its steps drew, and left `t`: each instruction was the
/// one fetched and could run; a full frame then ticked the timers, and a
/// frame cut short stopped before an instruction that cannot run.
pub open spec fn frame_outcome(s: Machine, rnds: Seq<u8>, ops: Seq<u16>, done: bool, t: Machine) -> bool {
    &&& steps_ran(s, rnds, ops)
    &&& if done {
        t == tick_spec(run_steps(s, rnds))
    } else {
        &&& !can_step_spec(run_steps(s, rnds))
        &&& t == run_steps(s, rnds)
    }
}

/// Runs one frame: `STEPS_PER_FRAME` steps and then one tick of the
/// timers. Returns the instructions it ran, and whether the frame was
/// complete; a frame stops early, without the tick, before an instruction
/// that cannot run.
pub fn run_frame(chip8: &mut Chip8) -> (r: (Vec<u16>, bool))
    ensures
        r.0@.len() <= STEPS_PER_FRAME,
        r.1 <==> r.0@.len() == STEPS_PER_FRAME,
        exists|rnds: Seq<u8>| #[trigger] frame_outcome(old(chip8)@, rnds, r.0@, r.1, final(chip8)@),
        final(chip8)@.wf(),
{
    let ghost s0 = chip8@;
    let ghost mut rnds: Seq<u8> = Seq::empty();
    let mut ops: Vec<u16> = Vec::new();
    assert(rnds.take(0) =~= rnds);
    let mut running = true;
    while running && ops.len() < STEPS_PER_FRAME
        invariant
            ops@.len() <= STEPS_PER_FRAME,
            s0 == old(chip8)@,
            chip8@ == run_steps(s0, rnds),
            steps_ran(s0, rnds, ops@),
            !running ==> !can_step_spec(chip8@) && ops@.len() < STEPS_PER_FRAME,
        decreases STEPS_PER_FRAME - ops@.len() + (if running { 1int } else { 0int }),
    {
        if !chip8.can_step() {
            running = false;
            continue;
        }
        assert(can_step_spec(chip8@));
        let ghost before = chip8@;
        let ghost old_rnds = rnds;
        let ghost old_ops = ops@;
        let op = chip8.step();
        ops.push(op);
        proof {
            let r: u8 = if op_of(op) != 12 {
                0
            } else {
                choose|r: u8| chip8@ == step_spec(before, r)
            };
            assert(chip8@ == step_spec(before, r));
            rnds = old_rnds.push(r);
            assert(rnds.drop_last() =~= old_rnds);
            assert(ops@ == old_ops.push(op));
            assert forall|j: int| 0 <= j < ops@.len() implies #[trigger] can_step_spec(
                run_steps(s0, rnds.take(j)),
            ) && ops@[j] == fetch_spec(run_steps(s0, rnds.take(j))) && (op_of(ops@[j]) != 12
                ==> rnds[j] == 0) by {
                if j < old_ops.len() {
                    assert(rnds.take(j) =~= old_rnds.take(j));
                    assert(can_step_spec(run_steps(s0, old_rnds.take(j))));
                    assert(ops@[j] == old_ops[j]);
                } else {
                    assert(rnds.take(j) =~= old_rnds);
                }
            }
        }
    }
    if running {
        chip8.tick_timers();
    }
    assert(frame_outcome(s0, rnds, ops@, running, chip8@));
    assert(exists|rn: Seq<u8>| #[trigger] frame_outcome(old(chip8)@, rn, ops@, running, chip8@));
    proof {
        use_type_invariant(&*chip8);
    }
    (ops, running)
}

/// Size of a display pixel on the screen, in screen pixels.
pub const SCALE: usize = 10;

/// Height of a line of the game menu, in screen pixels.
pub const MENU_LINE_HEIGHT: usize = 24;

/// The keypad as it is laid out, row by row, four keys a row.
pub open spec fn keypad_grid() -> Seq<usize> {
    seq![0x1usize, 0x2, 0x3, 0xC, 0x4, 0x5, 0x6, 0xD, 0x7, 0x8, 0x9, 0xE, 0xA, 0x0, 0xB, 0xF]
}

/// The keyboard keys that stand in the same places, row by row.
pub open spec fn keyboard_grid() -> Seq<char> {
    seq!['1', '2', '3', '4', 'q', 'w', 'e', 'r', 'a', 's', 'd', 'f', 'z', 'x', 'c', 'v']
}

/// The keyboard key bound to keypad key `key`: the one at the same place
/// of the grid. Keys past the keypad have none.
pub fn key_binding(key: usize) -> (c: Option<char>)
    ensures
        key < 16 ==> exists|i: int|
            0 <= i < 16 && keypad_grid()[i] == key && c == Some(#[trigger] keyboard_grid()[i]),
        key >= 16 ==> c is None,
{
    let r = if key == 0x1 {
        Some('1')
    } else if key == 0x2 {
        Some('2')
    } else if key == 0x3 {
        Some('3')
    } else if key == 0xC {
        Some('4')
    } else if key == 0x4 {
        Some('q')
    } else if key == 0x5 {
        Some('w')
    } else if key == 0x6 {
        Some('e')
    } else if key == 0xD {
        Some('r')
    } else if key == 0x7 {
        Some('a')
    } else if key == 0x8 {
        Some('s')
    } else if key == 0x9 {
        Some('d')
    } else if key == 0xE {
        Some('f')
    } else if key == 0xA {
        Some('z')
    } else if key == 0x0 {
        Some('x')
    } else if key == 0xB {
        Some('c')
    } else if key == 0xF {
        Some('v')
    } else {
        None
    };
    proof {
        let g = keypad_grid();
        let k = keyboard_grid();
        if key < 16 {
            let i: int = if key == 0x1 {
                0
            } else if key == 0x2 {
                1
            } else if key == 0x3 {
                2
            } else if key == 0xC {
                3
            } else if key == 0x4 {
                4
            } else if key == 0x5 {
                5
            } else if key == 0x6 {
                6
            } else if key == 0xD {
                7
            } else if key == 0x7 {
                8
            } else if key == 0x8 {
                9
            } else if key == 0x9 {
                10
            } else if key == 0xE {
                11
            } else if key == 0xA {
                12
            } else if key == 0x0 {
                13
            } else if key == 0xB {
                14
            } else {
                15
            };
            assert(g[i] == key && r == Some(k[i]));
        }
    }
    r
}

/// Every key of the keypad has exactly one place in the layout, and no two
/// places share a keyboard key: the binding is one to one and covers the
/// whole keypad.
pub proof fn key_layout_is_one_to_one()
    ensures
        forall|key: usize| key < 16 ==> #[trigger] keypad_grid().contains(key),
        forall|i: int, j: int|
            0 <= i < 16 && 0 <= j < 16 && i != j ==> keypad_grid()[i] != keypad_grid()[j],
        forall|i: int, j: int|
            0 <= i < 16 && 0 <= j < 16 && i != j ==> keyboard_grid()[i] != keyboard_grid()[j],
{
    let g = keypad_grid();
    assert forall|key: usize| key < 16 implies #[trigger] g.contains(key) by {
        if key == 0x1 { assert(g[0] == key); }
        else if key == 0x2 { assert(g[1] == key); }
        else if key == 0x3 { assert(g[2] == key); }
        else if key == 0xC { assert(g[3] == key); }
        else if key == 0x4 { assert(g[4] == key); }
        else if key == 0x5 { assert(g[5] == key); }
        else if key == 0x6 { assert(g[6] == key); }
        else if key == 0xD { assert(g[7] == key); }
        else if key == 0x7 { assert(g[8] == key); }
        else if key == 0x8 { assert(g[9] == key); }
        else if key == 0x9 { assert(g[10] == key); }
        else if key == 0xE { assert(g[11] == key); }
        else if key == 0xA { assert(g[12] == key); }
        else if key == 0x0 { assert(g[13] == key); }
        else if key == 0xB { assert(g[14] == key); }
        else { assert(g[15] == key); }
    }
}

/// The menu selection after a move up: the entry above, or from the first
/// entry the last of the `known` entries.
pub fn menu_up(selected: i32, known: i32) -> (r: i32)
    requires
        selected > i32::MIN,
        selected - 1 < 0 ==> known > i32::MIN,
    ensures
        r == spec_menu_up(selected, known),
{
    if selected - 1 < 0 {
        known - 1
    } else {
        selected - 1
    }
}

/// The menu selection after a move down: the entry below, or from the last
/// of the `known` entries the first.
pub fn menu_down(selected: i32, known: i32) -> (r: i32)
    requires
        selected < i32::MAX,
        known > i32::MIN,
    ensures
        r == spec_menu_down(selected, known),
{
    if selected + 1 > known - 1 {
        0
    } else {
        selected + 1
    }
}

/// Moving the selection keeps it on an entry of a non-empty list, and a
/// move up followed by a move down, or the other way round, comes back to
/// where it started: the menu wraps around at both ends.
pub proof fn menu_moves_wrap_around(selected: i32, known: i32)
    requires
        0 <= selected < known,
    ensures
        0 <= spec_menu_up(selected, known) < known,
        0 <= spec_menu_down(selected, known) < known,
        spec_menu_down(spec_menu_up(selected, known), known) == selected,
        spec_menu_up(spec_menu_down(selected, known), known) == selected,
{
}

/// The selection after a move up, as `menu_up` computes it.
pub open spec fn spec_menu_up(selected: i32, known: i32) -> i32 {
    if selected - 1 < 0 { (known - 1) as i32 } else { (selected - 1) as i32 }
}

/// The selection after a move down, as `menu_down` computes it.
pub open spec fn spec_menu_down(selected: i32, known: i32) -> i32 {
    if selected + 1 > known - 1 { 0 } else { (selected + 1) as i32 }
}

/// Whether a list of `count` games fits on the screen, one line each.
pub fn menu_fits(count: usize) -> (r: bool)
    requires
        count * MENU_LINE_HEIGHT <= usize::MAX,
    ensures
        r == (count * MENU_LINE_HEIGHT < 32 * SCALE),
{
    count * MENU_LINE_HEIGHT < super::chip8::HEIGHT * SCALE
}

/// The game chosen from the menu: the entry at `selected`, if there is one.
pub fn selected_game(games: &Vec<String>, selected: i32) -> (r: Option<String>)
    ensures
        r == if 0 <= selected < games@.len() {
            Some(games@[selected as int])
        } else {
            None::<String>
        },
{
    if 0 <= selected && (selected as usize) < games.len() {
        Some(games[selected as usize].clone())
    } else {
        None
    }
}

/// The line of the menu that shows the selected game: `> `, the name, and
/// two spaces.
pub fn menu_label(name: &str) -> (r: String)
    ensures
        r@ == seq!['>', ' '] + name@ + seq![' ', ' '],
{
    let mut r = String::new();
    proof {
        reveal_strlit("> ");
        reveal_strlit("  ");
    }
    r.append("> ");
    r.append(name);
    r.append("  ");
    r
}

/// Where a game of the menu is read from: the `games` directory.
pub fn game_path(name: &str) -> (r: String)
    ensures
        r@ == seq!['g', 'a', 'm', 'e', 's', '/'] + name@,
{
    let mut r = String::new();
    proof {
        reveal_strlit("games/");
    }
    r.append("games/");
    r.append(name);
    r
}

} // verus!
