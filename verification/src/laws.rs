//! Properties of the machine that span several instructions or hold of
//! every state.
use vstd::prelude::*;

use crate::machine::{
    bcd, exec, font, initial, ROM_START, first_true, ok, run, step, tick, update, word_at, Machine, MEMORY_SIZE, NUM_REGS,
    SCREEN_SIZE,
};
use crate::opcodes::{decode, Opcode};

verus! {

/// Drawing the same sprite twice at the same place leaves the screen as it
/// was (each pixel is flipped twice), as long as the position registers are
/// not VF, which the first drawing overwrites.
pub proof fn law_draw_twice_restores_screen(m: Machine, x: u8, y: u8, n: u8, r1: u32, r2: u32)
    requires
        m.wf(),
        x < 15,
        y < 15,
        n < 16,
    ensures
        exec(exec(m, Opcode::IDXYN(x, y, n), r1).0, Opcode::IDXYN(x, y, n), r2).0.screen == m.screen,
{
    let m1 = exec(m, Opcode::IDXYN(x, y, n), r1).0;
    let m2 = exec(m1, Opcode::IDXYN(x, y, n), r2).0;
    assert(m1.v[x as int] == m.v[x as int]);
    assert(m1.v[y as int] == m.v[y as int]);
    assert(m1.mem == m.mem && m1.i == m.i);
    assert(m2.screen =~= m.screen);
}

/// A sprite drawn on a blank screen turns no pixel off, so VF is 0.
pub proof fn law_draw_on_blank_screen(m: Machine, x: u8, y: u8, n: u8, r: u32)
    requires
        m.wf(),
        x < NUM_REGS,
        y < NUM_REGS,
        n < 16,
        forall|p: int| 0 <= p < SCREEN_SIZE ==> !m.screen[p],
    ensures
        exec(m, Opcode::IDXYN(x, y, n), r).0.v[15] == 0,
{
}

/// A call followed by a return comes back to the instruction after the call,
/// with the stack pointer as before; the return address stays in the slot
/// that the call used.
pub proof fn law_call_then_return(m: Machine, addr: u16, r1: u32, r2: u32)
    requires
        m.wf(),
        m.sp < NUM_REGS,
        addr < 0x1000,
    ensures
        ({
            let (m1, res1) = exec(m, Opcode::I2NNN(addr), r1);
            let (m2, res2) = exec(m1, Opcode::I00EE, r2);
            &&& res1 is Ok
            &&& m1.pc == addr
            &&& res2 is Ok
            &&& m2 == Machine { stack: m.stack.update(m.sp as int, m.pc), ..m }
        }),
{
    let (m1, res1) = exec(m, Opcode::I2NNN(addr), r1);
    let (m2, res2) = exec(m1, Opcode::I00EE, r2);
    assert(m2 =~= Machine { stack: m.stack.update(m.sp as int, m.pc), ..m });
}

/// Storing registers V0 through Vx and loading them back from the same
/// address gives the registers their values again.
pub proof fn law_store_then_load_registers(m: Machine, x: u8, r1: u32, r2: u32)
    requires
        m.wf(),
        x < NUM_REGS,
        m.i + x < MEMORY_SIZE,
    ensures
        ({
            let (m1, res1) = exec(m, Opcode::IFX55(x), r1);
            let (m2, res2) = exec(m1.with_i(m.i as int), Opcode::IFX65(x), r2);
            &&& res1 is Ok
            &&& res2 is Ok
            &&& m2.v == m.v
            &&& m2.mem == m1.mem
        }),
{
    let (m1, res1) = exec(m, Opcode::IFX55(x), r1);
    let (m2, res2) = exec(m1.with_i(m.i as int), Opcode::IFX65(x), r2);
    assert(m2.v =~= m.v);
}

/// The three bytes that Fx33 writes are the decimal digits of Vx.
pub proof fn law_bcd_digits(m: Machine, x: u8, r: u32)
    requires
        m.wf(),
        x < NUM_REGS,
        m.i + 2 < MEMORY_SIZE,
    ensures
        ({
            let (m1, res) = exec(m, Opcode::IFX33(x), r);
            let a = m.i as int;
            &&& res is Ok
            &&& m1.mem[a] < 10 && m1.mem[a + 1] < 10 && m1.mem[a + 2] < 10
            &&& 100 * m1.mem[a] + 10 * m1.mem[a + 1] + m1.mem[a + 2] == m.v[x as int]
        }),
{
    let v = m.v[x as int];
    assert(bcd(v)[0] == v / 100);
    assert(100 * (v / 100) + 10 * ((v / 10) % 10) + v % 10 == v);
}

/// While no key is held, a cycle on Fx0A leaves the machine exactly as it
/// was: the program waits on that instruction.
pub proof fn law_wait_for_key_holds_still(m: Machine, r: u32)
    requires
        m.wf(),
        m.pc + 1 < MEMORY_SIZE,
        decode(word_at(m, m.pc as int)) matches Some(Opcode::IFX0A(_)),
        forall|k: int| 0 <= k < NUM_REGS ==> !m.input[k],
    ensures
        step(m, r) == ok(m),
{
    assert forall|k: int| 0 <= k <= NUM_REGS implies first_true(m.input, k) == NUM_REGS by {
        lemma_first_true_none(m.input, k);
    }
    assert(step(m, r).0 =~= m);
}

proof fn lemma_first_true_none(s: Seq<bool>, from: int)
    requires
        0 <= from <= s.len(),
        forall|k: int| 0 <= k < s.len() ==> !s[k],
    ensures
        first_true(s, from) == s.len(),
    decreases s.len() - from,
{
    if from < s.len() {
        lemma_first_true_none(s, from + 1);
    }
}

/// Only Cxnn reads the random number.
pub proof fn law_only_cxnn_is_random(m: Machine, op: Opcode, r1: u32, r2: u32)
    requires
        !(op is ICXNN),
    ensures
        exec(m, op, r1) == exec(m, op, r2),
{
}

/// An update of zero instructions only counts the timers down.
pub proof fn law_empty_update_ticks(m: Machine, rs: Seq<u32>)
    ensures
        update(m, 0, rs) == ok(tick(m)),
{
}

/// A successful update leaves the timers one lower than the instructions left
/// them, but never below zero.
pub proof fn law_update_counts_timers_down(m: Machine, steps: nat, rs: Seq<u32>)
    requires
        update(m, steps, rs).1 is Ok,
    ensures
        ({
            let after = update(m, steps, rs).0;
            let before = run(m, steps, rs).0;
            &&& after.delay == if before.delay > 0 { before.delay - 1 } else { 0 }
            &&& after.sound == if before.sound > 0 { before.sound - 1 } else { 0 }
        }),
{
}

/// Decoding loses nothing: two words that decode to the same instruction are
/// the same word.
pub proof fn law_decode_injective(w1: u16, w2: u16)
    requires
        decode(w1) is Some,
        decode(w1) == decode(w2),
    ensures
        w1 == w2,
{
    crate::opcodes::lemma_word_from_fields(w1);
    crate::opcodes::lemma_word_from_fields(w2);
}

/// On a freshly loaded machine, Fx29 points I at the five-byte font sprite
/// of the hexadecimal digit in Vx.
pub proof fn law_font_sprite_of_digit(rom: Seq<u8>, x: u8, digit: u8, r: u32)
    requires
        rom.len() <= MEMORY_SIZE - ROM_START,
        x < NUM_REGS,
        digit < 16,
    ensures
        ({
            let m = initial(rom).set_v(x as int, digit as int);
            let (m1, res) = exec(m, Opcode::IFX29(x), r);
            &&& res is Ok
            &&& m1.i == 5 * digit
            &&& forall|k: int| 0 <= k < 5 ==> #[trigger] m1.mem[m1.i + k] == font()[5 * digit + k]
        }),
{
}

} // verus!
