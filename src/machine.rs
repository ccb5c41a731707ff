//! The executable machine.
use crate::model::{
    Chip8Error, Chip8State, well_sized, initial_state, font, loaded, FONT_SIZE, FONT_START,
    MAX_PROGRAM_SIZE, MEMORY_SIZE, PROGRAM_START, drawn, collides, covers, sprite_bit, pixel_at,
    row_of, col_of, lemma_pixel_cell, lemma_cell_pixel, DISPLAY_CELLS, op_kind, stepped, alu_spec,
    key_spec, misc_spec, first_pressed, execute_spec, cycle_spec,
};
use rand::Rng;
use vstd::prelude::*;

verus! {

/// A CHIP-8 machine: 16 registers, 4 KiB of memory, a 16-slot call stack,
/// two timers, a 16-key keypad and a 64x32 monochrome framebuffer.
pub struct Chip8 {
    registers: [u8; 16],
    memory: [u8; 4096],
    i_register: u16,
    program_counter: u16,
    stack: [u16; 16],
    stack_pointer: u8,
    delay_timer: u8,
    sound_timer: u8,
    keypad: [bool; 16],
    display: [bool; 2048],
}

impl View for Chip8 {
    type V = Chip8State;

    closed spec fn view(&self) -> Chip8State {
        Chip8State {
            registers: self.registers@,
            memory: self.memory@,
            index: self.i_register,
            pc: self.program_counter,
            stack: self.stack@,
            sp: self.stack_pointer,
            delay: self.delay_timer,
            sound: self.sound_timer,
            keypad: self.keypad@,
            display: self.display@,
        }
    }
}

/// Relies on rand 0.8's `thread_rng().gen::<u8>()`: any byte may come back.
#[verifier::external_body]
fn random_byte() -> (r: u8) {
    rand::thread_rng().gen()
}

impl Chip8 {
    /// Every state of this type has the machine's sizes.
    pub proof fn lemma_well_sized(&self)
        ensures
            well_sized(self@),
    {
    }

    /// A zeroed machine with the font at `FONT_START` and pc at `PROGRAM_START`.
    pub fn new() -> (r: Chip8)
        ensures
            r@ == initial_state(),
    {
        let glyphs: [u8; 80] = [
            0xF0, 0x90, 0x90, 0x90, 0xF0,
            0x20, 0x60, 0x20, 0x20, 0x70,
            0xF0, 0x10, 0xF0, 0x80, 0xF0,
            0xF0, 0x10, 0xF0, 0x10, 0xF0,
            0x90, 0x90, 0xF0, 0x10, 0x10,
            0xF0, 0x80, 0xF0, 0x10, 0xF0,
            0xF0, 0x80, 0xF0, 0x90, 0xF0,
            0xF0, 0x10, 0x20, 0x40, 0x40,
            0xF0, 0x90, 0xF0, 0x90, 0xF0,
            0xF0, 0x90, 0xF0, 0x10, 0xF0,
            0xF0, 0x90, 0xF0, 0x90, 0x90,
            0xE0, 0x90, 0xE0, 0x90, 0xE0,
            0xF0, 0x80, 0x80, 0x80, 0xF0,
            0xE0, 0x90, 0x90, 0x90, 0xE0,
            0xF0, 0x80, 0xF0, 0x80, 0xF0,
            0xF0, 0x80, 0xF0, 0x80, 0x80,
        ];
        assert(glyphs@ =~= font());
        let mut memory: [u8; 4096] = [0; 4096];
        let mut i: usize = 0;
        while i < FONT_SIZE
            invariant
                i <= FONT_SIZE,
                glyphs@ == font(),
                forall|a: int|
                    0 <= a < MEMORY_SIZE ==> #[trigger] memory@[a] == if FONT_START <= a < FONT_START
                        + i {
                        font()[a - FONT_START]
                    } else {
                        0u8
                    },
            decreases FONT_SIZE - i,
        {
            memory[FONT_START + i] = glyphs[i];
            i += 1;
        }
        let r = Chip8 {
            registers: [0; 16],
            memory,
            i_register: 0,
            program_counter: PROGRAM_START,
            stack: [0; 16],
            stack_pointer: 0,
            delay_timer: 0,
            sound_timer: 0,
            keypad: [false; 16],
            display: [false; 2048],
        };
        assert(r@.memory =~= initial_state().memory);
        assert(r@.registers =~= initial_state().registers);
        assert(r@.stack =~= initial_state().stack);
        assert(r@.keypad =~= initial_state().keypad);
        assert(r@.display =~= initial_state().display);
        r
    }

    /// Copies a program to `PROGRAM_START`; one that does not fit is refused
    /// and memory is left as it was.
    pub fn load(&mut self, data: &[u8]) -> (r: Result<(), Chip8Error>)
        ensures
            data@.len() > MAX_PROGRAM_SIZE ==> r == Err::<(), Chip8Error>(Chip8Error::ProgramTooLarge)
                && final(self)@ == old(self)@,
            data@.len() <= MAX_PROGRAM_SIZE ==> r is Ok && final(self)@ == (Chip8State {
                memory: loaded(old(self)@.memory, data@),
                ..old(self)@
            }),
    {
        if data.len() > MAX_PROGRAM_SIZE {
            return Err(Chip8Error::ProgramTooLarge);
        }
        let start: usize = PROGRAM_START as usize;
        let mut i: usize = 0;
        while i < data.len()
            invariant
                i <= data@.len() <= MAX_PROGRAM_SIZE,
                start == PROGRAM_START,
                self.registers == old(self).registers,
                self.i_register == old(self).i_register,
                self.program_counter == old(self).program_counter,
                self.stack == old(self).stack,
                self.stack_pointer == old(self).stack_pointer,
                self.delay_timer == old(self).delay_timer,
                self.sound_timer == old(self).sound_timer,
                self.keypad == old(self).keypad,
                self.display == old(self).display,
                forall|a: int|
                    0 <= a < MEMORY_SIZE ==> #[trigger] self.memory@[a] == if start <= a < start + i {
                        data@[a - start]
                    } else {
                        old(self).memory@[a]
                    },
            decreases data@.len() - i,
        {
            self.memory[start + i] = data[i];
            i += 1;
        }
        assert(self.memory@ =~= loaded(old(self)@.memory, data@));
        Ok(())
    }

    /// The framebuffer, row-major, 64 cells per row.
    pub fn get_display(&self) -> (r: &[bool])
        ensures
            r@ == self@.display,
    {
        self.display.as_slice()
    }

    /// Records whether key `id` is held down.
    pub fn keypress(&mut self, id: usize, pressed: bool)
        requires
            id < 16,
        ensures
            final(self)@ == (Chip8State { keypad: old(self)@.keypad.update(id as int, pressed), ..old(self)@ }),
    {
        self.keypad[id] = pressed;
    }
}

} // verus!

verus! {

/// XORs an n-row sprite read at `memory[index..]` onto the framebuffer at
/// corner (xp, yp), wrapping at the edges; returns whether a lit cell was hit.
fn draw_sprite(
    display: &mut [bool; 2048],
    memory: &[u8; 4096],
    index: usize,
    xp: usize,
    yp: usize,
    n: usize,
) -> (collision: bool)
    requires
        index + n <= MEMORY_SIZE,
        xp < 64,
        yp < 32,
        n < 16,
    ensures
        final(display)@ == drawn(memory@, index as int, old(display)@, xp as int, yp as int, n as int),
        collision == collides(memory@, index as int, old(display)@, xp as int, yp as int, n as int),
{
    let ghost before = display@;
    let ghost mem = memory@;
    let mut collision = false;
    let mut k: usize = 0;
    while k < n * 8
        invariant
            k <= n * 8,
            index + n <= MEMORY_SIZE,
            xp < 64,
            yp < 32,
            n < 16,
            mem == memory@,
            forall|p: int|
                0 <= p < DISPLAY_CELLS ==> #[trigger] display@[p] == (before[p] != (covers(
                    mem,
                    index as int,
                    xp as int,
                    yp as int,
                    n as int,
                    p,
                ) && 8 * row_of(yp as int, p) + col_of(xp as int, p) < k)),
            collision == exists|r: int, c: int|
                0 <= r < n && 0 <= c < 8 && 8 * r + c < k && #[trigger] sprite_bit(
                    mem,
                    index as int,
                    r,
                    c,
                ) && before[pixel_at(xp as int, yp as int, r, c)],
        decreases n * 8 - k,
    {
        let row = k / 8;
        let col = k % 8;
        let byte = memory[index + row];
        let p = ((yp + row) % 32) * 64 + (xp + col) % 64;
        proof {
            lemma_pixel_cell(xp as int, yp as int, row as int, col as int);
            assert(p == pixel_at(xp as int, yp as int, row as int, col as int));
        }
        let ghost old_display = display@;
        let ghost old_collision = collision;
        if byte & (0x80u8 >> (col as u8)) != 0 {
            assert(sprite_bit(mem, index as int, row as int, col as int));
            if display[p] {
                collision = true;
            }
            display[p] = !display[p];
        }
        proof {
            assert forall|q: int| 0 <= q < DISPLAY_CELLS implies #[trigger] display@[q] == (before[q]
                != (covers(mem, index as int, xp as int, yp as int, n as int, q) && 8 * row_of(
                yp as int,
                q,
            ) + col_of(xp as int, q) < k + 1)) by {
                lemma_cell_pixel(xp as int, yp as int, q);
                assert(old_display[q] == display@[q] || q == p);
            }
            if collision && !old_collision {
                assert(sprite_bit(mem, index as int, row as int, col as int));
                assert(before[pixel_at(xp as int, yp as int, row as int, col as int)]);
            }
            if !collision {
                assert forall|r: int, c: int|
                    0 <= r < n && 0 <= c < 8 && 8 * r + c < k + 1 && #[trigger] sprite_bit(
                        mem,
                        index as int,
                        r,
                        c,
                    ) implies !before[pixel_at(xp as int, yp as int, r, c)] by {
                    if 8 * r + c == k {
                        assert(r == row && c == col);
                    }
                }
            }
        }
        k += 1;
    }
    assert(display@ =~= drawn(mem, index as int, before, xp as int, yp as int, n as int)) by {
        assert forall|q: int| 0 <= q < DISPLAY_CELLS implies display@[q] == drawn(
            mem,
            index as int,
            before,
            xp as int,
            yp as int,
            n as int,
        )[q] by {
            assert(display@[q] == (before[q] != (covers(mem, index as int, xp as int, yp as int, n as int, q) && 8 * row_of(yp as int, q) + col_of(xp as int, q) < k)));
        }
    }
    collision
}

} // verus!

verus! {

impl Chip8 {
    /// 8xyN with x, y and N already decoded.
    fn exec_alu(&mut self, op: u16) -> (r: Result<(), Chip8Error>)
        requires
            op_kind(op) == 8,
        ensures
            stepped(old(self)@, final(self)@, r, alu_spec(old(self)@, op)),
    {
        let x = ((op / 0x100) % 0x10) as usize;
        let y = ((op / 0x10) % 0x10) as usize;
        let n = op % 0x10;
        let vx = self.registers[x];
        let vy = self.registers[y];
        if n == 0 {
            self.registers[x] = vy;
        } else if n == 1 {
            self.registers[x] = vx | vy;
        } else if n == 2 {
            self.registers[x] = vx & vy;
        } else if n == 3 {
            self.registers[x] = vx ^ vy;
        } else if n == 4 {
            let sum = vx as u16 + vy as u16;
            self.registers[0xF] = if sum > 255 { 1 } else { 0 };
            self.registers[x] = vx.wrapping_add(vy);
        } else if n == 5 {
            self.registers[0xF] = if vx > vy { 1 } else { 0 };
            self.registers[x] = vx.wrapping_sub(vy);
        } else if n == 6 {
            assert(vx & 1 == vx % 2 && vx >> 1 == vx / 2) by (bit_vector);
            self.registers[0xF] = vx & 1;
            self.registers[x] = vx >> 1;
        } else if n == 7 {
            self.registers[0xF] = if vy > vx { 1 } else { 0 };
            self.registers[x] = vy.wrapping_sub(vx);
        } else if n == 0xE {
            assert(vx >> 7 == vx / 128) by (bit_vector);
            self.registers[0xF] = vx >> 7;
            self.registers[x] = vx.wrapping_mul(2);
        } else {
            return Err(Chip8Error::UnknownOpcode(op));
        }
        Ok(())
    }

    /// Ex9E and ExA1.
    fn exec_key(&mut self, op: u16) -> (r: Result<(), Chip8Error>)
        requires
            op_kind(op) == 0xE,
        ensures
            stepped(old(self)@, final(self)@, r, key_spec(old(self)@, op)),
    {
        let x = ((op / 0x100) % 0x10) as usize;
        let nn = op % 0x100;
        let vx = self.registers[x];
        if nn != 0x9E && nn != 0xA1 {
            return Err(Chip8Error::UnknownOpcode(op));
        }
        if vx >= 16 {
            return Err(Chip8Error::KeyOutOfRange);
        }
        let pressed = self.keypad[vx as usize];
        if (nn == 0x9E && pressed) || (nn == 0xA1 && !pressed) {
            self.program_counter = self.program_counter.wrapping_add(2);
        }
        Ok(())
    }

    /// Dxyn.
    fn exec_draw(&mut self, op: u16) -> (r: Result<(), Chip8Error>)
        requires
            op_kind(op) == 0xD,
        ensures
            stepped(old(self)@, final(self)@, r, execute_spec(old(self)@, op, 0)),
    {
        let x = ((op / 0x100) % 0x10) as usize;
        let y = ((op / 0x10) % 0x10) as usize;
        let n = (op % 0x10) as usize;
        let vx = self.registers[x];
        let vy = self.registers[y];
        let index = self.i_register as usize;
        if index + n > MEMORY_SIZE {
            return Err(Chip8Error::AddressOutOfRange);
        }
        let collision = draw_sprite(
            &mut self.display,
            &self.memory,
            index,
            (vx % 64) as usize,
            (vy % 32) as usize,
            n,
        );
        self.registers[0xF] = if collision { 1 } else { 0 };
        Ok(())
    }

    /// The lowest pressed key, or 16 when none is.
    fn lowest_pressed_key(&self) -> (k: usize)
        ensures
            k == first_pressed(self@.keypad, 0),
    {
        let mut i: usize = 0;
        while i < 16
            invariant
                i <= 16,
                first_pressed(self@.keypad, 0) == first_pressed(self@.keypad, i as int),
            decreases 16 - i,
        {
            if self.keypad[i] {
                return i;
            }
            i += 1;
        }
        i
    }

    /// FxNN.
    fn exec_misc(&mut self, op: u16) -> (r: Result<(), Chip8Error>)
        requires
            op_kind(op) == 0xF,
        ensures
            stepped(old(self)@, final(self)@, r, misc_spec(old(self)@, op)),
    {
        let x = ((op / 0x100) % 0x10) as usize;
        let nn = op % 0x100;
        let vx = self.registers[x];
        let i = self.i_register as usize;
        if nn == 0x07 {
            self.registers[x] = self.delay_timer;
        } else if nn == 0x0A {
            let k = self.lowest_pressed_key();
            if k < 16 {
                self.registers[x] = k as u8;
            } else {
                self.program_counter = self.program_counter.wrapping_sub(2);
            }
        } else if nn == 0x15 {
            self.delay_timer = vx;
        } else if nn == 0x18 {
            self.sound_timer = vx;
        } else if nn == 0x1E {
            self.i_register = self.i_register.wrapping_add(vx as u16);
        } else if nn == 0x29 {
            self.i_register = (FONT_START + 5 * vx as usize) as u16;
        } else if nn == 0x33 {
            if i + 3 > MEMORY_SIZE {
                return Err(Chip8Error::AddressOutOfRange);
            }
            self.memory[i] = vx / 100;
            self.memory[i + 1] = (vx / 10) % 10;
            self.memory[i + 2] = vx % 10;
        } else if nn == 0x55 {
            if i + x + 1 > MEMORY_SIZE {
                return Err(Chip8Error::AddressOutOfRange);
            }
            let ghost before = self.memory@;
            let mut j: usize = 0;
            while j <= x
                invariant
                    j <= x + 1,
                    x < 16,
                    i == old(self).i_register,
                    i + x + 1 <= MEMORY_SIZE,
                    self.registers == old(self).registers,
                    self.i_register == old(self).i_register,
                    self.program_counter == old(self).program_counter,
                    self.stack == old(self).stack,
                    self.stack_pointer == old(self).stack_pointer,
                    self.delay_timer == old(self).delay_timer,
                    self.sound_timer == old(self).sound_timer,
                    self.keypad == old(self).keypad,
                    self.display == old(self).display,
                    forall|a: int|
                        0 <= a < MEMORY_SIZE ==> #[trigger] self.memory@[a] == if i <= a < i + j {
                            self.registers@[a - i]
                        } else {
                            old(self).memory@[a]
                        },
                decreases x + 1 - j,
            {
                self.memory[i + j] = self.registers[j];
                j += 1;
            }
            assert(self@.memory =~= misc_spec(old(self)@, op).unwrap().memory);
        } else if nn == 0x65 {
            if i + x + 1 > MEMORY_SIZE {
                return Err(Chip8Error::AddressOutOfRange);
            }
            let mut j: usize = 0;
            while j <= x
                invariant
                    j <= x + 1,
                    x < 16,
                    i == old(self).i_register,
                    i + x + 1 <= MEMORY_SIZE,
                    self.memory == old(self).memory,
                    self.i_register == old(self).i_register,
                    self.program_counter == old(self).program_counter,
                    self.stack == old(self).stack,
                    self.stack_pointer == old(self).stack_pointer,
                    self.delay_timer == old(self).delay_timer,
                    self.sound_timer == old(self).sound_timer,
                    self.keypad == old(self).keypad,
                    self.display == old(self).display,
                    forall|r: int|
                        0 <= r < 16 ==> #[trigger] self.registers@[r] == if r < j {
                            self.memory@[i + r]
                        } else {
                            old(self).registers@[r]
                        },
                decreases x + 1 - j,
            {
                self.registers[j] = self.memory[i + j];
                j += 1;
            }
            assert(self@.registers =~= misc_spec(old(self)@, op).unwrap().registers);
        } else {
            return Err(Chip8Error::UnknownOpcode(op));
        }
        Ok(())
    }
}

} // verus!

verus! {

impl Chip8 {
    /// Executes one opcode against a machine whose pc already points past it.
    /// `rnd` is the byte that Cxnn masks with nn. On an error nothing changes.
    #[verifier::rlimit(30)]
    pub fn execute(&mut self, op: u16, rnd: u8) -> (r: Result<(), Chip8Error>)
        ensures
            stepped(old(self)@, final(self)@, r, execute_spec(old(self)@, op, rnd)),
    {
        let kind = op / 0x1000;
        let x = ((op / 0x100) % 0x10) as usize;
        let y = ((op / 0x10) % 0x10) as usize;
        let n = op % 0x10;
        let nn = (op % 0x100) as u8;
        let nnn = op % 0x1000;
        let vx = self.registers[x];
        let vy = self.registers[y];
        if op == 0x00E0 {
            self.display = [false; 2048];
            assert(self@.display =~= execute_spec(old(self)@, op, rnd).unwrap().display);
        } else if op == 0x00EE {
            if self.stack_pointer < 1 || self.stack_pointer > 16 {
                return Err(Chip8Error::StackUnderflow);
            }
            self.stack_pointer = self.stack_pointer - 1;
            self.program_counter = self.stack[self.stack_pointer as usize];
        } else if kind == 1 {
            self.program_counter = nnn;
        } else if kind == 2 {
            if self.stack_pointer >= 16 {
                return Err(Chip8Error::StackOverflow);
            }
            self.stack[self.stack_pointer as usize] = self.program_counter;
            self.stack_pointer = self.stack_pointer + 1;
            self.program_counter = nnn;
        } else if kind == 3 {
            if vx == nn {
                self.program_counter = self.program_counter.wrapping_add(2);
            }
        } else if kind == 4 {
            if vx != nn {
                self.program_counter = self.program_counter.wrapping_add(2);
            }
        } else if kind == 5 && n == 0 {
            if vx == vy {
                self.program_counter = self.program_counter.wrapping_add(2);
            }
        } else if kind == 6 {
            self.registers[x] = nn;
        } else if kind == 7 {
            self.registers[x] = vx.wrapping_add(nn);
        } else if kind == 8 {
            return self.exec_alu(op);
        } else if kind == 9 && n == 0 {
            if vx != vy {
                self.program_counter = self.program_counter.wrapping_add(2);
            }
        } else if kind == 0xA {
            self.i_register = nnn;
        } else if kind == 0xB {
            self.program_counter = self.registers[0] as u16 + nnn;
        } else if kind == 0xC {
            self.registers[x] = rnd & nn;
        } else if kind == 0xD {
            return self.exec_draw(op);
        } else if kind == 0xE {
            return self.exec_key(op);
        } else if kind == 0xF {
            return self.exec_misc(op);
        } else {
            return Err(Chip8Error::UnknownOpcode(op));
        }
        Ok(())
    }

    /// One cycle with `rnd` as the random byte: fetch the big-endian opcode at
    /// pc, advance pc by 2, execute, then count both timers down toward zero.
    /// On an error nothing changes.
    pub fn cycle_with(&mut self, rnd: u8) -> (r: Result<(), Chip8Error>)
        ensures
            stepped(old(self)@, final(self)@, r, cycle_spec(old(self)@, rnd)),
    {
        let pc = self.program_counter;
        if pc as usize + 1 >= MEMORY_SIZE {
            return Err(Chip8Error::AddressOutOfRange);
        }
        let op = (self.memory[pc as usize] as u16) * 256 + self.memory[pc as usize + 1] as u16;
        self.program_counter = pc + 2;
        let res = self.execute(op, rnd);
        if res.is_err() {
            self.program_counter = pc;
            return res;
        }
        if self.delay_timer > 0 {
            self.delay_timer = self.delay_timer - 1;
        }
        if self.sound_timer > 0 {
            self.sound_timer = self.sound_timer - 1;
        }
        Ok(())
    }

    /// One cycle; a random byte is drawn only when the opcode at pc is Cxnn.
    pub fn cycle(&mut self) -> (r: Result<(), Chip8Error>)
        ensures
            exists|rnd: u8| stepped(old(self)@, final(self)@, r, #[trigger] cycle_spec(old(self)@, rnd)),
    {
        let pc = self.program_counter as usize;
        let mut rnd: u8 = 0;
        if pc + 1 < MEMORY_SIZE && self.memory[pc] / 16 == 0xC {
            rnd = random_byte();
        }
        self.cycle_with(rnd)
    }
}

} // verus!

verus! {

impl Chip8 {
    /// Register Vx.
    pub fn register(&self, x: usize) -> (r: u8)
        requires
            x < 16,
        ensures
            r == self@.registers[x as int],
    {
        self.registers[x]
    }

    /// The byte at `addr`.
    pub fn memory_at(&self, addr: usize) -> (r: u8)
        requires
            addr < MEMORY_SIZE,
        ensures
            r == self@.memory[addr as int],
    {
        self.memory[addr]
    }

    pub fn program_counter(&self) -> (r: u16)
        ensures
            r == self@.pc,
    {
        self.program_counter
    }

    /// The index register I.
    pub fn index_register(&self) -> (r: u16)
        ensures
            r == self@.index,
    {
        self.i_register
    }

    /// The number of return addresses on the stack.
    pub fn stack_pointer(&self) -> (r: u8)
        ensures
            r == self@.sp,
    {
        self.stack_pointer
    }

    pub fn delay_timer(&self) -> (r: u8)
        ensures
            r == self@.delay,
    {
        self.delay_timer
    }

    pub fn sound_timer(&self) -> (r: u8)
        ensures
            r == self@.sound,
    {
        self.sound_timer
    }
}

} // verus!
