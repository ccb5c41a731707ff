//! The mathematical model of the machine and the meaning of every instruction.
use vstd::prelude::*;

verus! {

/// Size of the byte-addressed memory.
pub const MEMORY_SIZE: usize = 4096;

/// Framebuffer width in pixels.
pub const DISPLAY_WIDTH: usize = 64;

/// Framebuffer height in pixels.
pub const DISPLAY_HEIGHT: usize = 32;

/// Number of framebuffer cells (row-major, `DISPLAY_WIDTH` per row).
pub const DISPLAY_CELLS: usize = 2048;

/// Address at which programs are loaded and execution starts.
pub const PROGRAM_START: u16 = 0x200;

/// Address of the built-in hexadecimal font.
pub const FONT_START: usize = 0x50;

/// Bytes in the built-in font: sixteen glyphs of five rows each.
pub const FONT_SIZE: usize = 80;

/// Largest program that fits between `PROGRAM_START` and the end of memory.
pub const MAX_PROGRAM_SIZE: usize = 3584;

/// Why the machine refused to go on.
#[derive(Debug, Clone, Copy, PartialEq, Eq, Structural)]
pub enum Chip8Error {
    /// The fetched word is no instruction of the machine.
    UnknownOpcode(u16),
    /// A call with all sixteen stack slots taken.
    StackOverflow,
    /// A return with an empty stack.
    StackUnderflow,
    /// An instruction fetch or memory access beyond the last address.
    AddressOutOfRange,
    /// A key instruction whose register names no key (above 15).
    KeyOutOfRange,
    /// A program longer than the space after `PROGRAM_START`.
    ProgramTooLarge,
}

/// The whole machine as mathematical values.
pub struct Chip8State {
    /// V0..VF; VF doubles as the flag register.
    pub registers: Seq<u8>,
    pub memory: Seq<u8>,
    /// The index register I.
    pub index: u16,
    pub pc: u16,
    pub stack: Seq<u16>,
    /// Next free stack slot.
    pub sp: u8,
    pub delay: u8,
    pub sound: u8,
    pub keypad: Seq<bool>,
    pub display: Seq<bool>,
}

/// The glyphs 0..F, five rows of one byte each (the high nibble is drawn).
pub open spec fn font() -> Seq<u8> {
    seq![
        0xF0u8, 0x90, 0x90, 0x90, 0xF0,
        0x20, 0x60, 0x20, 0x20, 0x70,
        0xF0, 0x10, 0xF0, 0x80, 0xF0,
        0xF0, 0x10, 0xF0, 0x10, 0xF0,
        0x90, 0x90, 0xF0, 0x10, 0x10,
        0xF0, 0x80, 0xF0, 0x10, 0xF0,
        0xF0, 0x80, 0xF0, 0x90, 0xF0,
        0xF0, 0x10, 0x20, 0x40, 0x40,
        0xF0, 0x90, 0xF0, 0x90, 0xF0,
        0xF0, 0x90, 0xF0, 0x10, 0xF0,
        0xF0, 0x90, 0xF0, 0x90, 0x90,
        0xE0, 0x90, 0xE0, 0x90, 0xE0,
        0xF0, 0x80, 0x80, 0x80, 0xF0,
        0xE0, 0x90, 0x90, 0x90, 0xE0,
        0xF0, 0x80, 0xF0, 0x80, 0xF0,
        0xF0, 0x80, 0xF0, 0x80, 0x80
    ]
}

/// A fresh machine: everything zero but the font, pc at `PROGRAM_START`.
pub open spec fn initial_state() -> Chip8State {
    Chip8State {
        registers: Seq::new(16, |i: int| 0u8),
        memory: Seq::new(
            MEMORY_SIZE as nat,
            |a: int|
                if FONT_START <= a < FONT_START + FONT_SIZE {
                    font()[a - FONT_START]
                } else {
                    0u8
                },
        ),
        index: 0,
        pc: PROGRAM_START,
        stack: Seq::new(16, |i: int| 0u16),
        sp: 0,
        delay: 0,
        sound: 0,
        keypad: Seq::new(16, |i: int| false),
        display: Seq::new(DISPLAY_CELLS as nat, |i: int| false),
    }
}

/// The sizes that every machine state has.
pub open spec fn well_sized(s: Chip8State) -> bool {
    &&& s.registers.len() == 16
    &&& s.memory.len() == MEMORY_SIZE
    &&& s.stack.len() == 16
    &&& s.keypad.len() == 16
    &&& s.display.len() == DISPLAY_CELLS
}

/// Memory after `data` is copied to `PROGRAM_START`.
pub open spec fn loaded(memory: Seq<u8>, data: Seq<u8>) -> Seq<u8> {
    Seq::new(
        memory.len(),
        |a: int|
            if PROGRAM_START <= a < PROGRAM_START + data.len() {
                data[a - PROGRAM_START]
            } else {
                memory[a]
            },
    )
}

// ---- decoding: the four nibbles d1 d2 d3 d4 of an opcode ----

pub open spec fn op_kind(op: u16) -> int {
    op as int / 0x1000
}

pub open spec fn op_x(op: u16) -> int {
    (op as int / 0x100) % 0x10
}

pub open spec fn op_y(op: u16) -> int {
    (op as int / 0x10) % 0x10
}

pub open spec fn op_n(op: u16) -> int {
    op as int % 0x10
}

pub open spec fn op_nn(op: u16) -> u8 {
    (op as int % 0x100) as u8
}

pub open spec fn op_nnn(op: u16) -> u16 {
    (op as int % 0x1000) as u16
}

// ---- small state updates ----

pub open spec fn set_reg(s: Chip8State, r: int, v: u8) -> Chip8State {
    Chip8State { registers: s.registers.update(r, v), ..s }
}

/// Writes the flag register first, then Vx (so Vx wins when x is F).
pub open spec fn set_flag_then(s: Chip8State, flag: u8, x: int, v: u8) -> Chip8State {
    set_reg(set_reg(s, 0xF, flag), x, v)
}

pub open spec fn with_pc(s: Chip8State, pc: u16) -> Chip8State {
    Chip8State { pc, ..s }
}

/// Skips the next two-byte instruction when `cond` holds.
pub open spec fn skip_if(s: Chip8State, cond: bool) -> Chip8State {
    if cond {
        with_pc(s, ((s.pc + 2) % 0x10000) as u16)
    } else {
        s
    }
}

pub open spec fn flag(b: bool) -> u8 {
    if b {
        1
    } else {
        0
    }
}

// ---- the sprite draw ----

/// The framebuffer cell of sprite pixel (r, c) for a sprite whose corner is
/// (xp, yp); rows and columns wrap around the screen edges.
pub open spec fn pixel_at(xp: int, yp: int, r: int, c: int) -> int {
    ((yp + r) % 32) * 64 + (xp + c) % 64
}

/// The sprite row that covers cell p, counted from the corner row yp.
pub open spec fn row_of(yp: int, p: int) -> int {
    (p / 64 - yp) % 32
}

/// The sprite column that covers cell p, counted from the corner column xp.
pub open spec fn col_of(xp: int, p: int) -> int {
    (p % 64 - xp) % 64
}

/// Bit c (0 is the most significant) of sprite row r, read at `index + r`.
pub open spec fn sprite_bit(memory: Seq<u8>, index: int, r: int, c: int) -> bool {
    memory[index + r] & (0x80u8 >> (c as u8)) != 0
}

/// Whether an n-row sprite at corner (xp, yp) has a set pixel on cell p.
pub open spec fn covers(memory: Seq<u8>, index: int, xp: int, yp: int, n: int, p: int) -> bool {
    row_of(yp, p) < n && col_of(xp, p) < 8 && sprite_bit(memory, index, row_of(yp, p), col_of(xp, p))
}

/// Whether some set sprite pixel lands on a lit cell.
pub open spec fn collides(
    memory: Seq<u8>,
    index: int,
    display: Seq<bool>,
    xp: int,
    yp: int,
    n: int,
) -> bool {
    exists|r: int, c: int|
        0 <= r < n && 0 <= c < 8 && #[trigger] sprite_bit(memory, index, r, c) && display[pixel_at(
            xp,
            yp,
            r,
            c,
        )]
}

/// The framebuffer with every covered cell flipped.
pub open spec fn drawn(memory: Seq<u8>, index: int, display: Seq<bool>, xp: int, yp: int, n: int) -> Seq<bool> {
    Seq::new(
        DISPLAY_CELLS as nat,
        |p: int| display[p] != covers(memory, index, xp, yp, n, p),
    )
}

/// Dxyn: XOR an n-row sprite from memory[I..] at (Vx mod 64, Vy mod 32);
/// VF tells whether a lit cell was turned off.
pub open spec fn draw_spec(s: Chip8State, x: int, y: int, n: int) -> Result<Chip8State, Chip8Error> {
    if s.index + n > MEMORY_SIZE {
        Err(Chip8Error::AddressOutOfRange)
    } else {
        let xp = s.registers[x] as int % 64;
        let yp = s.registers[y] as int % 32;
        Ok(
            Chip8State {
                display: drawn(s.memory, s.index as int, s.display, xp, yp, n),
                registers: s.registers.update(
                    0xF,
                    flag(collides(s.memory, s.index as int, s.display, xp, yp, n)),
                ),
                ..s
            },
        )
    }
}

// ---- instruction families ----

/// 8xyN: register-to-register arithmetic and logic. Every result is computed
/// from the registers as they were before the instruction; sums and
/// differences wrap modulo 256, and the flag is written before Vx.
pub open spec fn alu_spec(s: Chip8State, op: u16) -> Result<Chip8State, Chip8Error> {
    let x = op_x(op);
    let vx = s.registers[x];
    let vy = s.registers[op_y(op)];
    let n = op_n(op);
    if n == 0 {
        Ok(set_reg(s, x, vy))
    } else if n == 1 {
        Ok(set_reg(s, x, vx | vy))
    } else if n == 2 {
        Ok(set_reg(s, x, vx & vy))
    } else if n == 3 {
        Ok(set_reg(s, x, vx ^ vy))
    } else if n == 4 {
        Ok(set_flag_then(s, flag(vx + vy > 255), x, ((vx + vy) % 256) as u8))
    } else if n == 5 {
        Ok(set_flag_then(s, flag(vx > vy), x, ((vx - vy + 256) % 256) as u8))
    } else if n == 6 {
        Ok(set_flag_then(s, vx % 2, x, vx / 2))
    } else if n == 7 {
        Ok(set_flag_then(s, flag(vy > vx), x, ((vy - vx + 256) % 256) as u8))
    } else if n == 0xE {
        Ok(set_flag_then(s, vx / 128, x, ((vx * 2) % 256) as u8))
    } else {
        Err(Chip8Error::UnknownOpcode(op))
    }
}

/// Ex9E / ExA1: skip on the state of key Vx.
pub open spec fn key_spec(s: Chip8State, op: u16) -> Result<Chip8State, Chip8Error> {
    let vx = s.registers[op_x(op)];
    let nn = op_nn(op);
    if nn != 0x9E && nn != 0xA1 {
        Err(Chip8Error::UnknownOpcode(op))
    } else if vx >= 16 {
        Err(Chip8Error::KeyOutOfRange)
    } else if nn == 0x9E {
        Ok(skip_if(s, s.keypad[vx as int]))
    } else {
        Ok(skip_if(s, !s.keypad[vx as int]))
    }
}

/// The lowest pressed key at or above `i`, or 16 when there is none.
pub open spec fn first_pressed(keypad: Seq<bool>, i: int) -> int
    decreases 16 - i,
{
    if i >= 16 {
        16
    } else if keypad[i] {
        i
    } else {
        first_pressed(keypad, i + 1)
    }
}

/// Fx33: the hundreds, tens and ones digits of v at I, I+1, I+2.
pub open spec fn bcd_stored(memory: Seq<u8>, index: int, v: u8) -> Seq<u8> {
    memory.update(index, v / 100).update(index + 1, (v / 10) % 10).update(index + 2, v % 10)
}

/// FxNN: timers, keypad wait, index arithmetic and register/memory transfer.
/// Fx0A with no key down rewinds pc so that the same instruction runs again;
/// Fx1E wraps at 16 bits; Fx55 stores V0..Vx to memory at I and Fx65 loads
/// V0..Vx from there, I itself unchanged.
pub open spec fn misc_spec(s: Chip8State, op: u16) -> Result<Chip8State, Chip8Error> {
    let x = op_x(op);
    let vx = s.registers[x];
    let nn = op_nn(op);
    let i = s.index as int;
    if nn == 0x07 {
        Ok(set_reg(s, x, s.delay))
    } else if nn == 0x0A {
        let k = first_pressed(s.keypad, 0);
        if k < 16 {
            Ok(set_reg(s, x, k as u8))
        } else {
            Ok(with_pc(s, ((s.pc + 0xFFFE) % 0x10000) as u16))
        }
    } else if nn == 0x15 {
        Ok(Chip8State { delay: vx, ..s })
    } else if nn == 0x18 {
        Ok(Chip8State { sound: vx, ..s })
    } else if nn == 0x1E {
        Ok(Chip8State { index: ((i + vx) % 0x10000) as u16, ..s })
    } else if nn == 0x29 {
        Ok(Chip8State { index: (FONT_START + 5 * vx) as u16, ..s })
    } else if nn == 0x33 {
        if i + 3 > MEMORY_SIZE {
            Err(Chip8Error::AddressOutOfRange)
        } else {
            Ok(Chip8State { memory: bcd_stored(s.memory, i, vx), ..s })
        }
    } else if nn == 0x55 {
        if i + x + 1 > MEMORY_SIZE {
            Err(Chip8Error::AddressOutOfRange)
        } else {
            Ok(
                Chip8State {
                    memory: Seq::new(
                        s.memory.len(),
                        |a: int|
                            if i <= a <= i + x {
                                s.registers[a - i]
                            } else {
                                s.memory[a]
                            },
                    ),
                    ..s
                },
            )
        }
    } else if nn == 0x65 {
        if i + x + 1 > MEMORY_SIZE {
            Err(Chip8Error::AddressOutOfRange)
        } else {
            Ok(
                Chip8State {
                    registers: Seq::new(
                        16,
                        |r: int|
                            if r <= x {
                                s.memory[i + r]
                            } else {
                                s.registers[r]
                            },
                    ),
                    ..s
                },
            )
        }
    } else {
        Err(Chip8Error::UnknownOpcode(op))
    }
}

/// What one opcode does to a machine whose pc already points past it.
/// `rnd` is the random byte that Cxnn masks; no other opcode reads it.
pub open spec fn execute_spec(s: Chip8State, op: u16, rnd: u8) -> Result<Chip8State, Chip8Error> {
    let kind = op_kind(op);
    let x = op_x(op);
    let y = op_y(op);
    let vx = s.registers[x];
    let vy = s.registers[y];
    let nn = op_nn(op);
    let nnn = op_nnn(op);
    if op == 0x00E0 {
        Ok(Chip8State { display: Seq::new(DISPLAY_CELLS as nat, |p: int| false), ..s })
    } else if op == 0x00EE {
        if 1 <= s.sp <= 16 {
            Ok(Chip8State { pc: s.stack[s.sp - 1], sp: (s.sp - 1) as u8, ..s })
        } else {
            Err(Chip8Error::StackUnderflow)
        }
    } else if kind == 1 {
        Ok(with_pc(s, nnn))
    } else if kind == 2 {
        if s.sp < 16 {
            Ok(
                Chip8State {
                    stack: s.stack.update(s.sp as int, s.pc),
                    sp: (s.sp + 1) as u8,
                    pc: nnn,
                    ..s
                },
            )
        } else {
            Err(Chip8Error::StackOverflow)
        }
    } else if kind == 3 {
        Ok(skip_if(s, vx == nn))
    } else if kind == 4 {
        Ok(skip_if(s, vx != nn))
    } else if kind == 5 && op_n(op) == 0 {
        Ok(skip_if(s, vx == vy))
    } else if kind == 6 {
        Ok(set_reg(s, x, nn))
    } else if kind == 7 {
        Ok(set_reg(s, x, ((vx + nn) % 256) as u8))
    } else if kind == 8 {
        alu_spec(s, op)
    } else if kind == 9 && op_n(op) == 0 {
        Ok(skip_if(s, vx != vy))
    } else if kind == 0xA {
        Ok(Chip8State { index: nnn, ..s })
    } else if kind == 0xB {
        Ok(with_pc(s, (s.registers[0] + nnn) as u16))
    } else if kind == 0xC {
        Ok(set_reg(s, x, rnd & nn))
    } else if kind == 0xD {
        draw_spec(s, x, y, op_n(op))
    } else if kind == 0xE {
        key_spec(s, op)
    } else if kind == 0xF {
        misc_spec(s, op)
    } else {
        Err(Chip8Error::UnknownOpcode(op))
    }
}

/// Counts a timer down by one, stopping at zero.
pub open spec fn tick(t: u8) -> u8 {
    if t > 0 {
        (t - 1) as u8
    } else {
        0
    }
}

/// The opcode stored big-endian at pc.
pub open spec fn fetched(s: Chip8State) -> u16 {
    (s.memory[s.pc as int] * 256 + s.memory[s.pc + 1]) as u16
}

/// Whether the two bytes at pc lie in memory.
pub open spec fn can_fetch(s: Chip8State) -> bool {
    s.pc + 1 < MEMORY_SIZE
}

/// One cycle: fetch at pc, advance pc by 2, execute, then tick both timers.
pub open spec fn cycle_spec(s: Chip8State, rnd: u8) -> Result<Chip8State, Chip8Error> {
    if !can_fetch(s) {
        Err(Chip8Error::AddressOutOfRange)
    } else {
        match execute_spec(with_pc(s, (s.pc + 2) as u16), fetched(s), rnd) {
            Ok(t) => Ok(Chip8State { delay: tick(t.delay), sound: tick(t.sound), ..t }),
            Err(e) => Err(e),
        }
    }
}

/// `after` and `r` are what a step with outcome `res` leaves from `before`:
/// the new state on success, the untouched state and the error otherwise.
pub open spec fn stepped(
    before: Chip8State,
    after: Chip8State,
    r: Result<(), Chip8Error>,
    res: Result<Chip8State, Chip8Error>,
) -> bool {
    match res {
        Ok(t) => r is Ok && after == t,
        Err(e) => r == Err::<(), Chip8Error>(e) && after == before,
    }
}

} // verus!

verus! {

/// A sprite pixel within one screen of its corner lands on a cell from which
/// row_of and col_of recover it.
pub proof fn lemma_pixel_cell(xp: int, yp: int, r: int, c: int)
    requires
        0 <= xp < 64,
        0 <= yp < 32,
        0 <= r < 32,
        0 <= c < 64,
    ensures
        0 <= pixel_at(xp, yp, r, c) < DISPLAY_CELLS,
        row_of(yp, pixel_at(xp, yp, r, c)) == r,
        col_of(xp, pixel_at(xp, yp, r, c)) == c,
{
    let a = yp + r;
    let b = xp + c;
    let ra = if a < 32 { a } else { a - 32 };
    let rb = if b < 64 { b } else { b - 64 };
    assert(a % 32 == ra);
    assert(b % 64 == rb);
    let p = ra * 64 + rb;
    assert(p / 64 == ra);
    assert(p % 64 == rb);
}

/// Every cell is the landing cell of the sprite pixel that row_of and col_of name.
pub proof fn lemma_cell_pixel(xp: int, yp: int, p: int)
    requires
        0 <= xp < 64,
        0 <= yp < 32,
        0 <= p < DISPLAY_CELLS,
    ensures
        0 <= row_of(yp, p) < 32,
        0 <= col_of(xp, p) < 64,
        pixel_at(xp, yp, row_of(yp, p), col_of(xp, p)) == p,
{
    let q = p / 64;
    let m = p % 64;
    assert(p == q * 64 + m);
    assert(0 <= q < 32);
    let r = if q >= yp { q - yp } else { q - yp + 32 };
    let c = if m >= xp { m - xp } else { m - xp + 64 };
    assert((q - yp) % 32 == r);
    assert((m - xp) % 64 == c);
    assert((yp + r) % 32 == q);
    assert((xp + c) % 64 == m);
}

} // verus!
