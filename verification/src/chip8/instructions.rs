use vstd::prelude::*;

use super::semantics::{
    advance, alu_defined, alu_spec, any_let_go, any_pressed, can_step_spec, collides, draw_cols,
    draw_fits, draw_rows, draw_spec, draw_x, draw_y, execute_spec, executable, fetch_spec,
    first_let_go, is_first_let_go, let_go, lit, misc_fits, misc_spec, n_of, nn_of, nnn_of, op_of,
    sprite_bit, step_spec, wait_key_fits, wait_key_spec, x_of, y_of,
};
use super::{Chip8, Machine, FONT_ADDR, HEIGHT, MEMORY_SIZE, WIDTH};

use rand::RngExt;

verus! {

/// A byte drawn from `rand`'s thread-local generator (`rand::rng()` and
/// `RngExt::random::<u8>`). Nothing is stated of its value: it is chance.
/// `rand::rng()` panics where the system's source of randomness fails to
/// seed the generator, which no condition on the arguments rules out.
#[verifier::external_body]
fn random_byte() -> (b: u8) {
    rand::rng().random::<u8>()
}

proof fn lemma_decode(instr: u16)
    by (bit_vector)
    ensures
        instr >> 12u16 == instr / 4096,
        instr & 0xFFFu16 == instr % 4096,
        instr & 0xFFu16 == instr % 256,
        instr & 0xFu16 == instr % 16,
        (instr & 0xF00u16) >> 8u16 == (instr / 256) % 16,
        (instr & 0xF0u16) >> 4u16 == (instr / 16) % 16,
{
}

/// Everything but the display and the registers is the same.
spec fn same_but_screen(a: Machine, b: Machine) -> bool {
    &&& a.memory == b.memory
    &&& a.index == b.index
    &&& a.pc == b.pc
    &&& a.stack == b.stack
    &&& a.delay_timer == b.delay_timer
    &&& a.sound_timer == b.sound_timer
    &&& a.keypad == b.keypad
    &&& a.waiting_for_key == b.waiting_for_key
    &&& a.key_register == b.key_register
    &&& a.held_keys == b.held_keys
}

/// Pixel `p` is lit by the sprite and lies before row `h`, column `b` of it.
spec fn drawn(s: Machine, x: int, y: int, n: u8, h: int, b: int, p: int) -> bool {
    let ro = p / 64 - draw_y(s, y);
    let co = p % 64 - draw_x(s, x);
    &&& lit(s, x, y, n, p)
    &&& (ro < h || (ro == h && co < b))
}

/// Some pixel drawn so far was on.
spec fn collided(s: Machine, x: int, y: int, n: u8, h: int, b: int) -> bool {
    exists|p: int| #[trigger] drawn(s, x, y, n, h, b, p) && s.display[p] == 1
}

/// The display once the pixels drawn so far are flipped.
spec fn screen_after(s: Machine, x: int, y: int, n: u8, h: int, b: int, p: int) -> u8 {
    if drawn(s, x, y, n, h, b, p) {
        s.display[p] ^ 1u8
    } else {
        s.display[p]
    }
}

proof fn lemma_collided_same(s: Machine, x: int, y: int, n: u8, h1: int, b1: int, h2: int, b2: int)
    requires
        forall|p: int| drawn(s, x, y, n, h1, b1, p) == drawn(s, x, y, n, h2, b2, p),
    ensures
        collided(s, x, y, n, h1, b1) == collided(s, x, y, n, h2, b2),
{
    if collided(s, x, y, n, h1, b1) {
        let w = choose|p: int| #[trigger] drawn(s, x, y, n, h1, b1, p) && s.display[p] == 1;
        assert(drawn(s, x, y, n, h2, b2, w));
    }
    if collided(s, x, y, n, h2, b2) {
        let w = choose|p: int| #[trigger] drawn(s, x, y, n, h2, b2, p) && s.display[p] == 1;
        assert(drawn(s, x, y, n, h1, b1, w));
    }
}

proof fn lemma_pixel_coords(r: int, c: int)
    requires
        0 <= r < 32,
        0 <= c < 64,
    ensures
        (r * 64 + c) / 64 == r,
        (r * 64 + c) % 64 == c,
        0 <= r * 64 + c < 2048,
{
    assert((r * 64 + c) / 64 == r && (r * 64 + c) % 64 == c && 0 <= r * 64 + c < 2048)
        by (nonlinear_arith)
        requires
            0 <= r < 32,
            0 <= c < 64,
    ;
}

proof fn lemma_pixel_split(p: int)
    requires
        0 <= p < 2048,
    ensures
        p == (p / 64) * 64 + p % 64,
        0 <= p / 64 < 32,
        0 <= p % 64 < 64,
{
}

proof fn lemma_flip(d: u8)
    by (bit_vector)
    requires
        d <= 1,
    ensures
        d ^ 1u8 <= 1,
        (d ^ 1u8 == 1u8) == (d == 0u8),
{
}

proof fn lemma_bit_is_01(v: u8)
    by (bit_vector)
    ensures
        (v & 1u8) == 0u8 || (v & 1u8) == 1u8,
{
}

proof fn lemma_mask_is_mod(v: usize)
    by (bit_vector)
    requires
        v < 256,
    ensures
        v & 63usize == v % 64,
        v & 31usize == v % 32,
{
}

proof fn lemma_shifts(v: u8)
    by (bit_vector)
    ensures
        v >> 1u8 == v / 2,
        v & 1u8 == v % 2,
        v >> 7u8 == v / 128,
        v << 1u8 == ((v % 128) * 2) as u8,
{
}

/// The lowest key that was held and is up now is unique.
proof fn lemma_first_let_go_unique(held: Seq<bool>, keys: Seq<bool>, k: int)
    requires
        is_first_let_go(held, keys, k),
    ensures
        first_let_go(held, keys) == k,
{
    let c = first_let_go(held, keys);
    assert(is_first_let_go(held, keys, c));
    if c < k {
        assert(!let_go(held, keys, c));
    } else if k < c {
        assert(!let_go(held, keys, k));
    }
}

impl Chip8 {
    /// `8xyN`: arithmetic and logic between `Vx` and `Vy`.
    #[allow(non_snake_case)]
    fn case_0x8000(&mut self, x: usize, y: usize, n: u8)
        requires
            x < 16,
            y < 16,
            alu_defined(n),
        ensures
            final(self)@ == alu_spec(old(self)@, x as int, y as int, n),
    {
        proof {
            use_type_invariant(&*self);
        }
        let ghost s = self@;
        let vx = self.registers[x];
        let vy = self.registers[y];
        proof {
            lemma_shifts(vy);
        }
        if n == 0x0 {
            self.registers[x] = vy;
        } else if n == 0x1 {
            self.registers[x] = vx | vy;
            self.registers[15] = 0;
        } else if n == 0x2 {
            self.registers[x] = vx & vy;
            self.registers[15] = 0;
        } else if n == 0x3 {
            self.registers[x] = vx ^ vy;
            self.registers[15] = 0;
        } else if n == 0x4 {
            let sum: u16 = vx as u16 + vy as u16;
            self.registers[x] = (sum % 256) as u8;
            self.registers[15] = if sum > 255 { 1 } else { 0 };
        } else if n == 0x5 {
            self.registers[x] = vx.wrapping_sub(vy);
            self.registers[15] = if vx < vy { 0 } else { 1 };
        } else if n == 0x6 {
            self.registers[x] = vy;
            let flag: u8 = self.registers[x] & 1;
            self.registers[x] = self.registers[x] >> 1;
            self.registers[15] = flag;
        } else if n == 0x7 {
            self.registers[x] = vy.wrapping_sub(vx);
            self.registers[15] = if vy < vx { 0 } else { 1 };
        } else {
            self.registers[x] = vy;
            let flag: u8 = self.registers[x] >> 7;
            self.registers[x] = self.registers[x] << 1;
            self.registers[15] = flag;
        }
        assert(self@ =~= alu_spec(s, x as int, y as int, n));
    }

    /// Whether some key is held down.
    fn any_key_down(&self) -> (r: bool)
        ensures
            r == any_pressed(self@.keypad),
    {
        proof {
            use_type_invariant(&*self);
        }
        let mut k: usize = 0;
        while k < 16
            invariant
                self@.wf(),
                k <= 16,
                forall|j: int| 0 <= j < k ==> !self@.keypad[j],
            decreases 16 - k,
        {
            if self.keypad[k] {
                return true;
            }
            k += 1;
        }
        false
    }

    /// The lowest key that was held down when the wait began and is up
    /// now, if any.
    fn first_key_let_go(&self) -> (r: Option<usize>)
        ensures
            match r {
                Some(k) => is_first_let_go(self@.held_keys, self@.keypad, k as int),
                None => !any_let_go(self@.held_keys, self@.keypad),
            },
    {
        proof {
            use_type_invariant(&*self);
        }
        let mut k: usize = 0;
        while k < 16
            invariant
                self@.wf(),
                k <= 16,
                forall|j: int| 0 <= j < k ==> !#[trigger] let_go(self@.held_keys, self@.keypad, j),
            decreases 16 - k,
        {
            if self.held_keys[k] && !self.keypad[k] {
                return Some(k);
            }
            k += 1;
        }
        None
    }

    /// `Fx0A`: waits for a key to be pressed and released, and stores it in
    /// `Vx`.
    fn get_key(&mut self, x: usize)
        requires
            x < 16,
            wait_key_fits(old(self)@),
        ensures
            final(self)@ == wait_key_spec(old(self)@, x as int),
    {
        proof {
            use_type_invariant(&*self);
        }
        let ghost s = self@;
        if !self.waiting_for_key {
            if self.any_key_down() {
                self.waiting_for_key = true;
                self.key_register = x;
                self.held_keys = self.keypad;
            }
            self.pc = self.pc - 2;
        } else {
            match self.first_key_let_go() {
                Some(key) => {
                    proof {
                        lemma_first_let_go_unique(s.held_keys, s.keypad, key as int);
                    }
                    self.registers[self.key_register] = key as u8;
                    self.waiting_for_key = false;
                },
                None => {
                    self.pc = self.pc - 2;
                },
            }
        }
        assert(self@ =~= wait_key_spec(s, x as int));
    }

    /// `FxNN`: timers, the index register, and moving bytes between
    /// registers and memory.
    #[allow(non_snake_case)]
    fn case_0xF000(&mut self, x: usize, nn: u8)
        requires
            x < 16,
            misc_fits(old(self)@, x as int, nn),
        ensures
            final(self)@ == misc_spec(old(self)@, x as int, nn),
    {
        proof {
            use_type_invariant(&*self);
        }
        let ghost s = self@;
        if nn == 0x07 {
            self.registers[x] = self.delay_timer;
        } else if nn == 0x0A {
            self.get_key(x);
        } else if nn == 0x15 {
            self.delay_timer = self.registers[x];
        } else if nn == 0x18 {
            self.sound_timer = self.registers[x];
        } else if nn == 0x1E {
            self.index = self.index + self.registers[x] as u16;
        } else if nn == 0x29 {
            self.index = FONT_ADDR as u16 + 5 * self.registers[x] as u16;
        } else if nn == 0x33 {
            let vx = self.registers[x];
            let i = self.index as usize;
            self.memory[i] = vx / 100;
            self.memory[i + 1] = (vx / 10) % 10;
            self.memory[i + 2] = vx % 10;
        } else if nn == 0x55 {
            let i = self.index as usize;
            let mut offset: usize = 0;
            while offset <= x
                invariant
                    s.wf(),
                    x < 16,
                    i == s.index,
                    i + x < 4095,
                    offset <= x + 1,
                    self@ == (Machine {
                        memory: Seq::new(
                            4095,
                            |a: int|
                                if i <= a < i + offset {
                                    s.registers[a - i]
                                } else {
                                    s.memory[a]
                                },
                        ),
                        ..s
                    }),
                decreases x + 1 - offset,
            {
                self.memory[i + offset] = self.registers[offset];
                offset += 1;
            }
        } else {
            let i = self.index as usize;
            let mut offset: usize = 0;
            while offset <= x
                invariant
                    s.wf(),
                    x < 16,
                    i == s.index,
                    i + x < 4095,
                    offset <= x + 1,
                    self@ == (Machine {
                        registers: Seq::new(
                            16,
                            |r: int| if r < offset { s.memory[i + r] } else { s.registers[r] },
                        ),
                        ..s
                    }),
                decreases x + 1 - offset,
            {
                self.registers[offset] = self.memory[i + offset];
                offset += 1;
            }
        }
        assert(self@ =~= misc_spec(s, x as int, nn));
    }

    /// `Dxyn`: draws the `height` bytes at the index register as a sprite
    /// at (`Vx`, `Vy`), wrapped onto the display and clipped at its edges;
    /// VF tells whether a pixel that was on got turned off.
    fn draw(&mut self, x: usize, y: usize, height: usize)
        requires
            x < 16,
            y < 16,
            height < 16,
            draw_fits(old(self)@, y as int, height as u8),
        ensures
            final(self)@ == draw_spec(old(self)@, x as int, y as int, height as u8),
    {
        proof {
            use_type_invariant(&*self);
        }
        let ghost s = self@;
        let ghost n = height as u8;
        proof {
            lemma_mask_is_mod(self.registers[x as int] as usize);
            lemma_mask_is_mod(self.registers[y as int] as usize);
        }
        let x_origin = self.registers[x] as usize & (WIDTH - 1);
        let y_origin = self.registers[y] as usize & (HEIGHT - 1);
        self.registers[15] = 0;
        assert(x_origin == draw_x(s, x as int));
        assert(y_origin == draw_y(s, y as int));
        let rows = if height < HEIGHT - y_origin {
            height
        } else {
            HEIGHT - y_origin
        };
        let cols = if 8 < WIDTH - x_origin {
            8
        } else {
            WIDTH - x_origin
        };
        assert(rows == draw_rows(s, y as int, n));
        assert(cols == draw_cols(s, x as int));
        let mut h: usize = 0;
        while h < rows
            invariant
                s.wf(),
                x < 16,
                y < 16,
                n == height,
                draw_fits(s, y as int, n),
                x_origin == draw_x(s, x as int),
                y_origin == draw_y(s, y as int),
                rows == draw_rows(s, y as int, n),
                cols == draw_cols(s, x as int),
                h <= rows,
                same_but_screen(self@, s),
                self@.registers == s.registers.update(
                    15,
                    if collided(s, x as int, y as int, n, h as int, 0) { 1u8 } else { 0u8 },
                ),
                forall|p: int|
                    0 <= p < 2048 ==> #[trigger] self@.display[p] == screen_after(
                        s,
                        x as int,
                        y as int,
                        n,
                        h as int,
                        0,
                        p,
                    ),
            decreases rows - h,
        {
            let y_pos = y_origin + h;
            let sprite_byte = self.memory[self.index as usize + h];
            let mut b: usize = 0;
            while b < cols
                invariant
                    s.wf(),
                    x < 16,
                    y < 16,
                    n == height,
                    x_origin == draw_x(s, x as int),
                    y_origin == draw_y(s, y as int),
                    rows == draw_rows(s, y as int, n),
                    cols == draw_cols(s, x as int),
                    h < rows,
                    y_pos == y_origin + h,
                    s.index + h < 4095,
                    sprite_byte == s.memory[s.index + h],
                    b <= cols,
                    same_but_screen(self@, s),
                    self@.registers == s.registers.update(
                        15,
                        if collided(s, x as int, y as int, n, h as int, b as int) {
                            1u8
                        } else {
                            0u8
                        },
                    ),
                    forall|p: int|
                        0 <= p < 2048 ==> #[trigger] self@.display[p] == screen_after(
                            s,
                            x as int,
                            y as int,
                            n,
                            h as int,
                            b as int,
                            p,
                        ),
                decreases cols - b,
            {
                let x_pos = x_origin + b;
                let shift: u8 = (7 - b) as u8;
                let index = y_pos * WIDTH + x_pos;
                let ghost q = index as int;
                proof {
                    lemma_pixel_coords(y_pos as int, x_pos as int);
                    lemma_bit_is_01(sprite_byte >> shift);
                }
                assert(sprite_bit(sprite_byte, b as int) == (((sprite_byte >> shift) & 1u8) != 0u8));
                assert(lit(s, x as int, y as int, n, q) == sprite_bit(sprite_byte, b as int));
                // The pixels drawn after this column are those before it and `q`.
                assert forall|p: int| #[trigger]
                    drawn(s, x as int, y as int, n, h as int, b as int + 1, p) == (drawn(
                        s,
                        x as int,
                        y as int,
                        n,
                        h as int,
                        b as int,
                        p,
                    ) || (p == q && lit(s, x as int, y as int, n, q))) by {
                    if 0 <= p < 2048 {
                        lemma_pixel_split(p);
                    }
                }
                assert(!drawn(s, x as int, y as int, n, h as int, b as int, q));
                assert(self@.display[q] == s.display[q]);
                if (sprite_byte >> shift) & 1 != 0 {
                    let ghost before = self@;
                    proof {
                        use_type_invariant(&*self);
                        lemma_flip(self@.display[q]);
                    }
                    if self.display[index] == 1 {
                        self.registers[15] = 1;
                    }
                    self.display[index] = self.display[index] ^ 1;
                    proof {
                        assert(self@.display[q] == s.display[q] ^ 1u8);
                        assert forall|p: int| 0 <= p < 2048 implies #[trigger] self@.display[p]
                            == screen_after(
                            s,
                            x as int,
                            y as int,
                            n,
                            h as int,
                            b as int + 1,
                            p,
                        ) by {
                            if p != q {
                                assert(self@.display[p] == before.display[p]);
                            }
                        }
                        if s.display[q] == 1 {
                            assert(drawn(s, x as int, y as int, n, h as int, b as int + 1, q));
                            assert(collided(s, x as int, y as int, n, h as int, b as int + 1));
                        } else {
                            if collided(s, x as int, y as int, n, h as int, b as int + 1) {
                                let w = choose|p: int|
                                    #[trigger] drawn(s, x as int, y as int, n, h as int, b as int + 1, p)
                                        && s.display[p] == 1;
                                assert(w != q);
                                assert(drawn(s, x as int, y as int, n, h as int, b as int, w));
                            }
                            if collided(s, x as int, y as int, n, h as int, b as int) {
                                let w = choose|p: int|
                                    #[trigger] drawn(s, x as int, y as int, n, h as int, b as int, p)
                                        && s.display[p] == 1;
                                assert(drawn(s, x as int, y as int, n, h as int, b as int + 1, w));
                            }
                        }
                        assert(self@.registers =~= s.registers.update(
                            15,
                            if collided(s, x as int, y as int, n, h as int, b as int + 1) {
                                1u8
                            } else {
                                0u8
                            },
                        ));
                    }
                } else {
                    proof {
                        assert forall|p: int| 0 <= p < 2048 implies #[trigger] self@.display[p]
                            == screen_after(
                            s,
                            x as int,
                            y as int,
                            n,
                            h as int,
                            b as int + 1,
                            p,
                        ) by {}
                        if collided(s, x as int, y as int, n, h as int, b as int + 1) {
                            let w = choose|p: int|
                                #[trigger] drawn(s, x as int, y as int, n, h as int, b as int + 1, p)
                                    && s.display[p] == 1;
                            assert(drawn(s, x as int, y as int, n, h as int, b as int, w));
                        }
                        if collided(s, x as int, y as int, n, h as int, b as int) {
                            let w = choose|p: int|
                                #[trigger] drawn(s, x as int, y as int, n, h as int, b as int, p)
                                    && s.display[p] == 1;
                            assert(drawn(s, x as int, y as int, n, h as int, b as int + 1, w));
                        }
                    }
                }
                b += 1;
            }
            proof {
                // Finishing a row is starting the next one.
                assert forall|p: int| #[trigger]
                    drawn(s, x as int, y as int, n, h as int + 1, 0, p) == drawn(
                        s,
                        x as int,
                        y as int,
                        n,
                        h as int,
                        cols as int,
                        p,
                    ) by {}
                lemma_collided_same(s, x as int, y as int, n, h as int + 1, 0, h as int, cols as int);
            }
            h += 1;
        }
        proof {
            let d = draw_spec(s, x as int, y as int, n);
            assert forall|p: int| #[trigger]
                drawn(s, x as int, y as int, n, rows as int, 0, p) == lit(s, x as int, y as int, n, p)
                by {}
            if collides(s, x as int, y as int, n) {
                let w = choose|p: int| #[trigger] lit(s, x as int, y as int, n, p) && s.display[p] == 1;
                assert(drawn(s, x as int, y as int, n, rows as int, 0, w));
            }
            if collided(s, x as int, y as int, n, rows as int, 0) {
                let w = choose|p: int|
                    #[trigger] drawn(s, x as int, y as int, n, rows as int, 0, p) && s.display[p] == 1;
                assert(lit(s, x as int, y as int, n, w));
            }
            assert(self@.display =~= d.display);
            assert(self@.registers =~= d.registers);
            assert forall|p: int| 0 <= p < 2048 implies #[trigger] self@.display[p] <= 1 by {
                lemma_flip(s.display[p]);
            }
            assert(self@ =~= d);
        }
    }

    /// Executes one instruction, with `random` as the byte that `Cxnn`
    /// masks.
    pub fn execute_with_random(&mut self, instr: u16, random: u8)
        requires
            executable(old(self)@, instr),
        ensures
            final(self)@ == execute_spec(old(self)@, instr, random),
            final(self)@.wf(),
    {
        proof {
            use_type_invariant(&*self);
        }
        let ghost s = self@;
        proof {
            lemma_decode(instr);
        }
        let nnn: u16 = instr & 0xFFF;
        let nn: u8 = (instr & 0xFF) as u8;
        let n: u8 = (instr & 0xF) as u8;
        let x: usize = (((instr & 0xF00) >> 8) as u8) as usize;
        let y: usize = (((instr & 0xF0) >> 4) as u8) as usize;
        let op: u16 = instr >> 12;
        assert(nnn == nnn_of(instr) && nn == nn_of(instr) && n == n_of(instr));
        assert(x == x_of(instr) && y == y_of(instr) && op == op_of(instr));
        if op == 0x0 {
            if nnn == 0xE0 {
                self.display = [0u8; 2048];
            } else {
                // The stack is taken out while it changes, so that the
                // machine stays well formed throughout.
                let mut stack: Vec<u16> = Vec::new();
                std::mem::swap(&mut stack, &mut self.stack);
                let top = stack.pop();
                std::mem::swap(&mut stack, &mut self.stack);
                match top {
                    Some(val) => {
                        self.pc = val;
                    },
                    None => {},
                }
            }
        } else if op == 0x1 {
            self.pc = nnn;
        } else if op == 0x2 {
            let mut stack: Vec<u16> = Vec::new();
            std::mem::swap(&mut stack, &mut self.stack);
            stack.push(self.pc);
            std::mem::swap(&mut stack, &mut self.stack);
            self.pc = nnn;
        } else if op == 0x3 {
            if self.registers[x] == nn {
                self.pc = self.pc + 2;
            }
        } else if op == 0x4 {
            if self.registers[x] != nn {
                self.pc = self.pc + 2;
            }
        } else if op == 0x5 {
            if self.registers[x] == self.registers[y] {
                self.pc = self.pc + 2;
            }
        } else if op == 0x6 {
            self.registers[x] = nn;
        } else if op == 0x7 {
            self.registers[x] = self.registers[x].wrapping_add(nn);
        } else if op == 0x8 {
            self.case_0x8000(x, y, n);
        } else if op == 0x9 {
            if self.registers[x] != self.registers[y] {
                self.pc = self.pc + 2;
            }
        } else if op == 0xA {
            self.index = nnn;
        } else if op == 0xB {
            self.pc = self.registers[0] as u16 + nnn;
        } else if op == 0xC {
            self.registers[x] = random & nn;
        } else if op == 0xD {
            self.draw(x, y, n as usize);
        } else if op == 0xE {
            let key: usize = self.registers[x] as usize;
            if nn == 0x9E {
                if self.keypad[key] {
                    self.pc = self.pc + 2;
                }
            } else {
                if !self.keypad[key] {
                    self.pc = self.pc + 2;
                }
            }
        } else {
            self.case_0xF000(x, nn);
        }
        assert(self@ =~= execute_spec(s, instr, random));
        proof {
            use_type_invariant(&*self);
        }
    }

    /// Executes one instruction. Only `Cxnn` draws a random byte; every
    /// other instruction has the one outcome that `execute_spec` gives.
    pub fn execute(&mut self, instr: u16)
        requires
            executable(old(self)@, instr),
        ensures
            op_of(instr) != 12 ==> final(self)@ == execute_spec(old(self)@, instr, 0),
            exists|r: u8| final(self)@ == execute_spec(old(self)@, instr, r),
            final(self)@.wf(),
    {
        proof {
            use_type_invariant(&*self);
        }
        let random: u8 = if instr >> 12 == 0xC {
            random_byte()
        } else {
            0
        };
        proof {
            lemma_decode(instr);
        }
        self.execute_with_random(instr, random);
        proof {
            use_type_invariant(&*self);
        }
    }

    /// Whether `instr` can be executed on this machine with its program
    /// counter at `pc`.
    fn fits_at(&self, instr: u16, pc: u16) -> (r: bool)
        ensures
            r == executable(Machine { pc, ..self@ }, instr),
    {
        proof {
            use_type_invariant(&*self);
        }
        let ghost s = Machine { pc, ..self@ };
        proof {
            lemma_decode(instr);
        }
        let nnn: u16 = instr & 0xFFF;
        let nn: u8 = (instr & 0xFF) as u8;
        let n: u8 = (instr & 0xF) as u8;
        let x: usize = (((instr & 0xF00) >> 8) as u8) as usize;
        let y: usize = (((instr & 0xF0) >> 4) as u8) as usize;
        let op: u16 = instr >> 12;
        let skip_room = pc <= 0xFFFD;
        if op == 0x0 {
            nnn == 0xE0 || nnn == 0xEE
        } else if op == 0x2 {
            self.stack.len() < 255
        } else if op == 0x3 {
            self.registers[x] != nn || skip_room
        } else if op == 0x4 {
            self.registers[x] == nn || skip_room
        } else if op == 0x5 {
            self.registers[x] != self.registers[y] || skip_room
        } else if op == 0x8 {
            n <= 7 || n == 14
        } else if op == 0x9 {
            self.registers[x] == self.registers[y] || skip_room
        } else if op == 0xD {
            let y_origin = self.registers[y] as usize % HEIGHT;
            let rows = if (n as usize) < HEIGHT - y_origin {
                n as usize
            } else {
                HEIGHT - y_origin
            };
            rows == 0 || self.index as usize + rows <= MEMORY_SIZE
        } else if op == 0xE {
            let key = self.registers[x];
            if (nn == 0x9E || nn == 0xA1) && key < 16 {
                let pressed = self.keypad[key as usize];
                let skips = if nn == 0x9E {
                    pressed
                } else {
                    !pressed
                };
                !skips || skip_room
            } else {
                false
            }
        } else if op == 0xF {
            if nn == 0x07 || nn == 0x15 || nn == 0x18 || nn == 0x29 {
                true
            } else if nn == 0x0A {
                let stays = !self.waiting_for_key || self.first_key_let_go().is_none();
                !stays || pc >= 2
            } else if nn == 0x1E {
                self.index as u32 + self.registers[x] as u32 <= 0xFFFF
            } else if nn == 0x33 {
                (self.index as usize) + 2 < MEMORY_SIZE
            } else if nn == 0x55 || nn == 0x65 {
                (self.index as usize) + x < MEMORY_SIZE
            } else {
                false
            }
        } else {
            true
        }
    }

    /// Whether `instr` can be executed on this machine as it stands.
    pub fn is_executable(&self, instr: u16) -> (r: bool)
        ensures
            r == executable(self@, instr),
    {
        proof {
            use_type_invariant(&*self);
        }
        let r = self.fits_at(instr, self.pc);
        assert((Machine { pc: self.pc, ..self@ }) =~= self@);
        r
    }

    /// The instruction at the program counter, where both of its bytes lie
    /// in memory.
    pub fn current_opcode(&self) -> (r: Option<u16>)
        ensures
            r == if self@.pc + 1 < MEMORY_SIZE {
                Some(fetch_spec(self@))
            } else {
                None::<u16>
            },
    {
        proof {
            use_type_invariant(&*self);
        }
        let pc = self.pc as usize;
        if pc + 1 < MEMORY_SIZE {
            Some((self.memory[pc] as u16) * 256 + self.memory[pc + 1] as u16)
        } else {
            None
        }
    }

    /// Whether `step` can run: the next instruction lies in memory and can
    /// be executed.
    pub fn can_step(&self) -> (r: bool)
        ensures
            r == can_step_spec(self@),
    {
        proof {
            use_type_invariant(&*self);
        }
        match self.current_opcode() {
            Some(opcode) => {
                let r = self.fits_at(opcode, self.pc + 2);
                assert((Machine { pc: (self@.pc + 2) as u16, ..self@ }) == advance(self@));
                r
            },
            None => false,
        }
    }

    /// Fetches the instruction at the program counter, moves the program
    /// counter past it and executes it. Returns the instruction.
    pub fn step(&mut self) -> (opcode: u16)
        requires
            can_step_spec(old(self)@),
        ensures
            opcode == fetch_spec(old(self)@),
            op_of(opcode) != 12 ==> final(self)@ == step_spec(old(self)@, 0),
            exists|r: u8| final(self)@ == step_spec(old(self)@, r),
            final(self)@.wf(),
    {
        proof {
            use_type_invariant(&*self);
        }
        let ghost s = self@;
        let pc = self.pc as usize;
        let opcode: u16 = (self.memory[pc] as u16) * 256 + self.memory[pc + 1] as u16;
        self.pc = self.pc + 2;
        assert(self@ == advance(s));
        self.execute(opcode);
        proof {
            let r = choose|r: u8| self@ == execute_spec(advance(s), opcode, r);
            assert(self@ == step_spec(s, r));
            use_type_invariant(&*self);
        }
        opcode
    }
}

} // verus!
