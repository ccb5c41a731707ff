//! Properties of the machine that relate several steps.
use crate::model::{
    Chip8Error, Chip8State, well_sized, execute_spec, cycle_spec, op_kind, op_x, op_y, op_n, op_nn, op_nnn,
    covers, sprite_bit, pixel_at, flag, fetched, can_fetch, tick, first_pressed, DISPLAY_CELLS,
    MEMORY_SIZE, lemma_pixel_cell,
};
use vstd::prelude::*;

verus! {

/// Loading a constant a into Vx with 6xnn and then adding a constant b with
/// 7xnn leaves (a + b) mod 256 in Vx.
pub proof fn law_set_then_add(s: Chip8State, x: u16, a: u16, b: u16, rnd1: u8, rnd2: u8)
    requires
        well_sized(s),
        x < 16,
        a < 256,
        b < 256,
    ensures
        ({
            let set = execute_spec(s, (0x6000 + x * 0x100 + a) as u16, rnd1);
            let add = execute_spec(set.unwrap(), (0x7000 + x * 0x100 + b) as u16, rnd2);
            set is Ok && add is Ok && add.unwrap().registers[x as int] == (a + b) % 256
        }),
{
    let op6 = (0x6000 + x * 0x100 + a) as u16;
    let op7 = (0x7000 + x * 0x100 + b) as u16;
    assert(op_kind(op6) == 6 && op_x(op6) == x && op_nn(op6) == a);
    assert(op_kind(op7) == 7 && op_x(op7) == x && op_nn(op7) == b);
}

} // verus!

verus! {

/// Clearing the screen (00E0) leaves every cell dark, so a draw right after it
/// shows exactly the sprite's set pixels and reports no collision.
pub proof fn law_clear_then_draw(s: Chip8State, op: u16, rnd1: u8, rnd2: u8)
    requires
        well_sized(s),
        op_kind(op) == 0xD,
        s.index + op_n(op) <= MEMORY_SIZE,
    ensures
        ({
            let cleared = execute_spec(s, 0x00E0, rnd1).unwrap();
            let xp = s.registers[op_x(op)] as int % 64;
            let yp = s.registers[op_y(op)] as int % 32;
            let after = execute_spec(cleared, op, rnd2);
            &&& forall|p: int| 0 <= p < DISPLAY_CELLS ==> !(#[trigger] cleared.display[p])
            &&& after is Ok
            &&& forall|p: int|
                0 <= p < DISPLAY_CELLS ==> #[trigger] after.unwrap().display[p] == covers(
                    s.memory,
                    s.index as int,
                    xp,
                    yp,
                    op_n(op),
                    p,
                )
            &&& after.unwrap().registers[0xF] == 0
        }),
{
    let cleared = execute_spec(s, 0x00E0, rnd1).unwrap();
    assert(op != 0x00E0 && op != 0x00EE);
}

/// Drawing the same sprite at the same place twice restores the framebuffer
/// (XOR undoes itself). The second draw reports a collision exactly when the
/// first one lit some cell, which it does on a dark screen with any set pixel.
/// Vx and Vy must not be VF, which the first draw overwrites.
pub proof fn law_draw_twice(s: Chip8State, op: u16, rnd1: u8, rnd2: u8)
    requires
        well_sized(s),
        op_kind(op) == 0xD,
        op_x(op) != 0xF,
        op_y(op) != 0xF,
        s.index + op_n(op) <= MEMORY_SIZE,
    ensures
        ({
            let xp = s.registers[op_x(op)] as int % 64;
            let yp = s.registers[op_y(op)] as int % 32;
            let once = execute_spec(s, op, rnd1);
            let twice = execute_spec(once.unwrap(), op, rnd2);
            &&& once is Ok
            &&& twice is Ok
            &&& twice.unwrap().display == s.display
            &&& twice.unwrap().registers[0xF] == flag(
                exists|r: int, c: int|
                    0 <= r < op_n(op) && 0 <= c < 8 && #[trigger] sprite_bit(
                        s.memory,
                        s.index as int,
                        r,
                        c,
                    ) && !s.display[pixel_at(xp, yp, r, c)],
            )
        }),
{
    let n = op_n(op);
    let xp = s.registers[op_x(op)] as int % 64;
    let yp = s.registers[op_y(op)] as int % 32;
    assert(op != 0x00E0 && op != 0x00EE);
    let s1 = execute_spec(s, op, rnd1).unwrap();
    assert(s1.registers[op_x(op)] == s.registers[op_x(op)]);
    assert(s1.registers[op_y(op)] == s.registers[op_y(op)]);
    let s2 = execute_spec(s1, op, rnd2).unwrap();
    assert(s2.display =~= s.display);
    assert forall|r: int, c: int| 0 <= r < n && 0 <= c < 8 implies s1.display[pixel_at(xp, yp, r, c)]
        == (s.display[pixel_at(xp, yp, r, c)] != sprite_bit(s.memory, s.index as int, r, c)) by {
        lemma_pixel_cell(xp, yp, r, c);
    }
    let lit = exists|r: int, c: int|
        0 <= r < n && 0 <= c < 8 && #[trigger] sprite_bit(s.memory, s.index as int, r, c)
            && !s.display[pixel_at(xp, yp, r, c)];
    if lit {
        let (r, c) = choose|r: int, c: int|
            0 <= r < n && 0 <= c < 8 && #[trigger] sprite_bit(s.memory, s.index as int, r, c)
                && !s.display[pixel_at(xp, yp, r, c)];
        assert(sprite_bit(s1.memory, s1.index as int, r, c) && s1.display[pixel_at(xp, yp, r, c)]);
    }
}

} // verus!

verus! {

/// A call (2nnn) whose target holds a return (00EE), run as two cycles,
/// brings pc back to the instruction after the call and the stack pointer
/// back to where it was. A seventeenth nested call fails instead, so the
/// stack must have a free slot.
pub proof fn law_call_then_return(s: Chip8State, rnd1: u8, rnd2: u8)
    requires
        well_sized(s),
        can_fetch(s),
        op_kind(fetched(s)) == 2,
        s.sp < 16,
        op_nnn(fetched(s)) + 1 < MEMORY_SIZE,
        s.memory[op_nnn(fetched(s)) as int] == 0x00,
        s.memory[op_nnn(fetched(s)) + 1] == 0xEE,
    ensures
        ({
            let call = cycle_spec(s, rnd1);
            let ret = cycle_spec(call.unwrap(), rnd2);
            &&& call is Ok
            &&& ret is Ok
            &&& ret.unwrap().pc == s.pc + 2
            &&& ret.unwrap().sp == s.sp
        }),
{
    let op = fetched(s);
    assert(op != 0x00E0 && op != 0x00EE);
    let s1 = cycle_spec(s, rnd1).unwrap();
    assert(s1.pc == op_nnn(op) && s1.memory == s.memory);
    assert(fetched(s1) == 0x00EE);
}

/// The lowest pressed key at or above i, when there is one, and 16 when
/// there is none.
pub proof fn lemma_first_pressed(keypad: Seq<bool>, i: int)
    requires
        keypad.len() == 16,
        0 <= i <= 16,
    ensures
        i <= first_pressed(keypad, i) <= 16,
        first_pressed(keypad, i) < 16 ==> keypad[first_pressed(keypad, i)],
        forall|j: int| i <= j < first_pressed(keypad, i) ==> !#[trigger] keypad[j],
    decreases 16 - i,
{
    if i < 16 && !keypad[i] {
        lemma_first_pressed(keypad, i + 1);
    }
}

/// A cycle on Fx0A with no key down changes nothing but the timers, so pc
/// stays on the same instruction and the next cycle waits again. With some
/// key down, Vx receives the lowest pressed key and pc moves on.
pub proof fn law_wait_for_key(s: Chip8State, rnd: u8)
    requires
        well_sized(s),
        can_fetch(s),
        op_kind(fetched(s)) == 0xF,
        op_nn(fetched(s)) == 0x0A,
    ensures
        ({
            let r = cycle_spec(s, rnd);
            let x = op_x(fetched(s));
            &&& r is Ok
            &&& (forall|k: int| 0 <= k < 16 ==> !#[trigger] s.keypad[k]) ==> r.unwrap() == (
            Chip8State { delay: tick(s.delay), sound: tick(s.sound), ..s })
            &&& (exists|k: int| 0 <= k < 16 && #[trigger] s.keypad[k]) ==> {
                let v = r.unwrap().registers[x] as int;
                &&& r.unwrap().pc == s.pc + 2
                &&& 0 <= v < 16
                &&& s.keypad[v]
                &&& forall|j: int| 0 <= j < v ==> !#[trigger] s.keypad[j]
            }
        }),
{
    let op = fetched(s);
    assert(op != 0x00E0 && op != 0x00EE);
    lemma_first_pressed(s.keypad, 0);
    let k = first_pressed(s.keypad, 0);
    if forall|j: int| 0 <= j < 16 ==> !#[trigger] s.keypad[j] {
        assert(k == 16);
    }
    if exists|j: int| 0 <= j < 16 && #[trigger] s.keypad[j] {
        assert(k < 16);
    }
}

/// Whether the opcode at pc is Fx15, which loads the delay timer.
pub open spec fn sets_delay(s: Chip8State) -> bool {
    op_kind(fetched(s)) == 0xF && op_nn(fetched(s)) == 0x15
}

/// The state after one cycle per byte of `rnds` (each the random byte of its
/// cycle), or the first error.
pub open spec fn run(s: Chip8State, rnds: Seq<u8>) -> Result<Chip8State, Chip8Error>
    decreases rnds.len(),
{
    if rnds.len() == 0 {
        Ok(s)
    } else {
        match cycle_spec(s, rnds[0]) {
            Ok(t) => run(t, rnds.drop_first()),
            Err(e) => Err(e),
        }
    }
}

/// Whether no cycle of that run executes Fx15.
pub open spec fn run_keeps_delay(s: Chip8State, rnds: Seq<u8>) -> bool
    decreases rnds.len(),
{
    if rnds.len() == 0 {
        true
    } else {
        !sets_delay(s) && match cycle_spec(s, rnds[0]) {
            Ok(t) => run_keeps_delay(t, rnds.drop_first()),
            Err(_) => true,
        }
    }
}

/// Fx15 loads the delay timer with Vx, and the cycle that runs it already
/// counts it down once.
pub proof fn law_set_delay(s: Chip8State, rnd: u8)
    requires
        well_sized(s),
        can_fetch(s),
        sets_delay(s),
    ensures
        cycle_spec(s, rnd) is Ok,
        cycle_spec(s, rnd).unwrap().delay == tick(s.registers[op_x(fetched(s))]),
{
    assert(fetched(s) != 0x00E0 && fetched(s) != 0x00EE);
}

/// Over k successful cycles that do not load it, the delay timer falls by one
/// per cycle and stops at zero.
pub proof fn law_delay_decay(s: Chip8State, rnds: Seq<u8>)
    requires
        well_sized(s),
        run(s, rnds) is Ok,
        run_keeps_delay(s, rnds),
    ensures
        run(s, rnds).unwrap().delay == if s.delay >= rnds.len() {
            s.delay - rnds.len()
        } else {
            0
        },
    decreases rnds.len(),
{
    if rnds.len() > 0 {
        let t = cycle_spec(s, rnds[0]).unwrap();
        assert(t.delay == tick(s.delay));
        law_delay_decay(t, rnds.drop_first());
    }
}

} // verus!

verus! {

/// Only Cxnn reads the random byte: for every other opcode a cycle has one
/// outcome, so `Chip8::cycle` is exact there.
pub proof fn law_random_only_for_cxnn(s: Chip8State, rnd1: u8, rnd2: u8)
    requires
        well_sized(s),
        !can_fetch(s) || op_kind(fetched(s)) != 0xC,
    ensures
        cycle_spec(s, rnd1) == cycle_spec(s, rnd2),
{
}

} // verus!
