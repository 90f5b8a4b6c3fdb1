//! What each instruction does, stated over the registers, memory, keys and
//! screen that it reads and writes.
use vstd::prelude::*;

use crate::machine::{drawn, exec, first_true, initial, step, mem_span, sprite_covers, Machine, MEMORY_SIZE, NUM_REGS, SCREEN_SIZE};
use crate::opcodes::{decode, Opcode};

verus! {

/// `after` equals `before` except, perhaps, in the values of the registers.
pub open spec fn same_but_registers(before: Machine, after: Machine) -> bool {
    &&& after.mem == before.mem
    &&& after.pc == before.pc
    &&& after.i == before.i
    &&& after.delay == before.delay
    &&& after.sound == before.sound
    &&& after.stack == before.stack
    &&& after.sp == before.sp
    &&& after.input == before.input
    &&& after.screen == before.screen
    &&& after.v.len() == before.v.len()
}

/// Every register other than `a` and `b` keeps its value.
pub open spec fn registers_kept_except(before: Machine, after: Machine, a: int, b: int) -> bool {
    forall|k: int| 0 <= k < NUM_REGS && k != a && k != b ==> #[trigger] after.v[k] == before.v[k]
}

/// `after` equals `before` except, perhaps, in the program counter.
pub open spec fn same_but_pc(before: Machine, after: Machine) -> bool {
    after == Machine { pc: after.pc, ..before }
}

/// 8xy0 copies Vy into Vx and changes nothing else.
pub proof fn law_load_register(m: Machine, x: u8, y: u8, r: u32)
    requires
        m.wf(),
        x < NUM_REGS,
        y < NUM_REGS,
    ensures
        ({
            let (m1, res) = exec(m, Opcode::I8XY0(x, y), r);
            &&& res is Ok
            &&& same_but_registers(m, m1)
            &&& m1.v[x as int] == m.v[y as int]
            &&& registers_kept_except(m, m1, x as int, x as int)
        }),
{
}

/// 8xy1, 8xy2 and 8xy3 combine Vx with Vy bit by bit into Vx (unless x is
/// F) and clear VF.
pub proof fn law_bitwise_registers(m: Machine, x: u8, y: u8, r: u32)
    requires
        m.wf(),
        x < NUM_REGS,
        y < NUM_REGS,
    ensures
        ({
            let a = m.v[x as int];
            let b = m.v[y as int];
            let (m1, res1) = exec(m, Opcode::I8XY1(x, y), r);
            let (m2, res2) = exec(m, Opcode::I8XY2(x, y), r);
            let (m3, res3) = exec(m, Opcode::I8XY3(x, y), r);
            &&& res1 is Ok && res2 is Ok && res3 is Ok
            &&& same_but_registers(m, m1) && same_but_registers(m, m2) && same_but_registers(m, m3)
            &&& m1.v[15] == 0 && m2.v[15] == 0 && m3.v[15] == 0
            &&& x != 15 ==> m1.v[x as int] == a | b && m2.v[x as int] == a & b && m3.v[x as int] == a ^ b
            &&& registers_kept_except(m, m1, x as int, 15)
            &&& registers_kept_except(m, m2, x as int, 15)
            &&& registers_kept_except(m, m3, x as int, 15)
        }),
{
}

/// 8xy4 adds Vy to Vx: the eight-bit sum goes to Vx (unless x is F) and the
/// carry out of it to VF.
pub proof fn law_add_registers(m: Machine, x: u8, y: u8, r: u32)
    requires
        m.wf(),
        x < NUM_REGS,
        y < NUM_REGS,
    ensures
        ({
            let a = m.v[x as int] as int;
            let b = m.v[y as int] as int;
            let (m1, res) = exec(m, Opcode::I8XY4(x, y), r);
            let carry = m1.v[15] as int;
            &&& res is Ok
            &&& same_but_registers(m, m1)
            &&& carry <= 1
            &&& 256 * carry <= a + b < 256 * (carry + 1)
            &&& x != 15 ==> m1.v[x as int] + 256 * carry == a + b
            &&& registers_kept_except(m, m1, x as int, 15)
        }),
{
}

/// 8xy5 subtracts Vy from Vx and 8xy7 subtracts Vx from Vy, into Vx (unless
/// x is F), modulo 256; VF is 1 when there was no borrow, else 0.
pub proof fn law_subtract_registers(m: Machine, x: u8, y: u8, r: u32)
    requires
        m.wf(),
        x < NUM_REGS,
        y < NUM_REGS,
    ensures
        ({
            let a = m.v[x as int] as int;
            let b = m.v[y as int] as int;
            let (m1, res1) = exec(m, Opcode::I8XY5(x, y), r);
            let (m2, res2) = exec(m, Opcode::I8XY7(x, y), r);
            let f1 = m1.v[15] as int;
            let f2 = m2.v[15] as int;
            &&& res1 is Ok && res2 is Ok
            &&& same_but_registers(m, m1) && same_but_registers(m, m2)
            &&& f1 <= 1 && f2 <= 1
            &&& (f1 == 1 <==> a >= b)
            &&& (f2 == 1 <==> b >= a)
            &&& x != 15 ==> m1.v[x as int] == a - b + 256 * (1 - f1)
            &&& x != 15 ==> m2.v[x as int] == b - a + 256 * (1 - f2)
            &&& registers_kept_except(m, m1, x as int, 15)
            &&& registers_kept_except(m, m2, x as int, 15)
        }),
{
}

/// 8xy6 puts Vy shifted right by one into Vx (unless x is F) and the bit
/// shifted out into VF; 8xyE does the same to the left.
pub proof fn law_shift_registers(m: Machine, x: u8, y: u8, r: u32)
    requires
        m.wf(),
        x < NUM_REGS,
        y < NUM_REGS,
    ensures
        ({
            let b = m.v[y as int] as int;
            let (m1, res1) = exec(m, Opcode::I8XY6(x, y), r);
            let (m2, res2) = exec(m, Opcode::I8XYE(x, y), r);
            let f1 = m1.v[15] as int;
            let f2 = m2.v[15] as int;
            &&& res1 is Ok && res2 is Ok
            &&& same_but_registers(m, m1) && same_but_registers(m, m2)
            &&& f1 <= 1 && f2 <= 1
            &&& f1 == b % 2
            &&& 256 * f2 <= 2 * b < 256 * (f2 + 1)
            &&& x != 15 ==> 2 * m1.v[x as int] + f1 == b
            &&& x != 15 ==> m2.v[x as int] + 256 * f2 == 2 * b
            &&& registers_kept_except(m, m1, x as int, 15)
            &&& registers_kept_except(m, m2, x as int, 15)
        }),
{
}

/// 6xnn sets Vx to nn; 7xnn adds nn to Vx modulo 256 and leaves VF alone.
pub proof fn law_register_literals(m: Machine, x: u8, nn: u8, r: u32)
    requires
        m.wf(),
        x < NUM_REGS,
    ensures
        ({
            let (m1, res1) = exec(m, Opcode::I6XNN(x, nn), r);
            let (m2, res2) = exec(m, Opcode::I7XNN(x, nn), r);
            &&& res1 is Ok && res2 is Ok
            &&& same_but_registers(m, m1) && same_but_registers(m, m2)
            &&& m1.v[x as int] == nn
            &&& (m2.v[x as int] == m.v[x as int] + nn || m2.v[x as int] + 256 == m.v[x as int] + nn)
            &&& registers_kept_except(m, m1, x as int, x as int)
            &&& registers_kept_except(m, m2, x as int, x as int)
        }),
{
}

/// Cxnn sets Vx to the low byte of the random number masked with nn.
pub proof fn law_random_register(m: Machine, x: u8, nn: u8, r: u32)
    requires
        m.wf(),
        x < NUM_REGS,
    ensures
        ({
            let (m1, res) = exec(m, Opcode::ICXNN(x, nn), r);
            &&& res is Ok
            &&& same_but_registers(m, m1)
            &&& m1.v[x as int] == ((r % 256) as u8 & nn)
            &&& registers_kept_except(m, m1, x as int, x as int)
        }),
{
}

/// 3xnn skips the next instruction when Vx equals nn, 4xnn when it does not,
/// 5xy0 when Vx equals Vy and 9xy0 when it does not; nothing else changes.
pub proof fn law_conditional_skips(m: Machine, x: u8, y: u8, nn: u8, r: u32)
    requires
        m.wf(),
        x < NUM_REGS,
        y < NUM_REGS,
        m.pc + 2 <= u16::MAX,
    ensures
        ({
            let next = (m.pc + 2) as u16;
            let (m3, res3) = exec(m, Opcode::I3XNN(x, nn), r);
            let (m4, res4) = exec(m, Opcode::I4XNN(x, nn), r);
            let (m5, res5) = exec(m, Opcode::I5XY0(x, y), r);
            let (m9, res9) = exec(m, Opcode::I9XY0(x, y), r);
            &&& res3 is Ok && res4 is Ok && res5 is Ok && res9 is Ok
            &&& same_but_pc(m, m3) && same_but_pc(m, m4) && same_but_pc(m, m5) && same_but_pc(m, m9)
            &&& m3.pc == (if m.v[x as int] == nn { next } else { m.pc })
            &&& m4.pc == (if m.v[x as int] != nn { next } else { m.pc })
            &&& m5.pc == (if m.v[x as int] == m.v[y as int] { next } else { m.pc })
            &&& m9.pc == (if m.v[x as int] != m.v[y as int] { next } else { m.pc })
        }),
{
}

/// Ex9E skips the next instruction when the key whose number Vx holds is
/// pressed, ExA1 when it is not; a number past the last key is an error
/// that changes nothing.
pub proof fn law_key_skips(m: Machine, x: u8, r: u32)
    requires
        m.wf(),
        x < NUM_REGS,
        m.pc + 2 <= u16::MAX,
    ensures
        ({
            let key = m.v[x as int] as int;
            let next = (m.pc + 2) as u16;
            let (m1, res1) = exec(m, Opcode::IEX9E(x), r);
            let (m2, res2) = exec(m, Opcode::IEXA1(x), r);
            &&& key >= NUM_REGS ==> res1 is Err && res2 is Err && m1 == m && m2 == m
            &&& key < NUM_REGS ==> {
                &&& res1 is Ok && res2 is Ok
                &&& same_but_pc(m, m1) && same_but_pc(m, m2)
                &&& m1.pc == (if m.input[key] { next } else { m.pc })
                &&& m2.pc == (if !m.input[key] { next } else { m.pc })
            }
        }),
{
}

/// Fx0A loads the lowest pressed key into Vx; with no key pressed it steps
/// the program counter back onto itself.
pub proof fn law_wait_for_key(m: Machine, x: u8, r: u32)
    requires
        m.wf(),
        x < NUM_REGS,
    ensures
        ({
            let (m1, res) = exec(m, Opcode::IFX0A(x), r);
            &&& (exists|k: int| 0 <= k < NUM_REGS && #[trigger] m.input[k]) ==> {
                &&& res is Ok
                &&& same_but_registers(m, m1)
                &&& registers_kept_except(m, m1, x as int, x as int)
                &&& m1.v[x as int] < NUM_REGS
                &&& m.input[m1.v[x as int] as int]
                &&& forall|k: int| 0 <= k < m1.v[x as int] ==> !#[trigger] m.input[k]
            }
            &&& (forall|k: int| 0 <= k < NUM_REGS ==> !#[trigger] m.input[k]) && m.pc >= 2 ==> {
                &&& res is Ok
                &&& same_but_pc(m, m1)
                &&& m1.pc == m.pc - 2
            }
        }),
{
    lemma_first_true(m.input, 0);
}

/// `first_true` finds the first `true` at or after `from`, or the length.
proof fn lemma_first_true(s: Seq<bool>, from: int)
    requires
        0 <= from <= s.len(),
    ensures
        from <= first_true(s, from) <= s.len(),
        first_true(s, from) < s.len() ==> s[first_true(s, from)],
        forall|j: int| from <= j < first_true(s, from) ==> !#[trigger] s[j],
    decreases s.len() - from,
{
    if from < s.len() && !s[from] {
        lemma_first_true(s, from + 1);
    }
}

/// 1nnn jumps to nnn; Bnnn jumps to nnn + V0; Annn sets I to nnn.
pub proof fn law_jumps_and_index(m: Machine, nnn: u16, r: u32)
    requires
        m.wf(),
        nnn < 0x1000,
    ensures
        exec(m, Opcode::I1NNN(nnn), r) == (Machine { pc: nnn, ..m }, Ok::<(), &'static str>(())),
        exec(m, Opcode::IBNNN(nnn), r) == (Machine { pc: (nnn + m.v[0]) as u16, ..m }, Ok::<(), &'static str>(())),
        exec(m, Opcode::IANNN(nnn), r) == (Machine { i: nnn, ..m }, Ok::<(), &'static str>(())),
{
}

/// Fx07 reads the delay timer into Vx; Fx15 and Fx18 set the delay and sound
/// timers from Vx; Fx1E adds Vx to I modulo 2^16; Fx29 sets I to five times
/// Vx modulo 256, the address of the font sprite of a hexadecimal digit.
pub proof fn law_timers_and_index(m: Machine, x: u8, r: u32)
    requires
        m.wf(),
        x < NUM_REGS,
    ensures
        ({
            let vx = m.v[x as int];
            let (m07, r07) = exec(m, Opcode::IFX07(x), r);
            &&& r07 is Ok && same_but_registers(m, m07) && m07.v[x as int] == m.delay
            &&& registers_kept_except(m, m07, x as int, x as int)
        }),
        exec(m, Opcode::IFX15(x), r) == (Machine { delay: m.v[x as int], ..m }, Ok::<(), &'static str>(())),
        exec(m, Opcode::IFX18(x), r) == (Machine { sound: m.v[x as int], ..m }, Ok::<(), &'static str>(())),
        ({
            let (m1, res) = exec(m, Opcode::IFX1E(x), r);
            &&& res is Ok && m1 == Machine { i: m1.i, ..m }
            &&& (m1.i == m.i + m.v[x as int] || m1.i + 0x10000 == m.i + m.v[x as int])
        }),
        ({
            let (m1, res) = exec(m, Opcode::IFX29(x), r);
            &&& res is Ok && m1 == Machine { i: m1.i, ..m }
            &&& m1.i < 256 && (m1.i as int - 5 * m.v[x as int]) % 256 == 0
        }),
{
}

/// 00E0 clears every pixel and changes nothing else.
pub proof fn law_clear_screen(m: Machine, r: u32)
    requires
        m.wf(),
    ensures
        ({
            let (m1, res) = exec(m, Opcode::I00E0, r);
            &&& res is Ok
            &&& m1 == Machine { screen: m1.screen, ..m }
            &&& m1.screen.len() == SCREEN_SIZE
            &&& forall|p: int| 0 <= p < SCREEN_SIZE ==> !#[trigger] m1.screen[p]
        }),
{
}

/// 2nnn pushes the program counter and jumps to nnn; with all sixteen slots
/// in use it fails and changes nothing.
pub proof fn law_call(m: Machine, nnn: u16, r: u32)
    requires
        m.wf(),
        nnn < 0x1000,
    ensures
        ({
            let (m1, res) = exec(m, Opcode::I2NNN(nnn), r);
            &&& m.sp == NUM_REGS ==> res is Err && m1 == m
            &&& m.sp < NUM_REGS ==> {
                &&& res is Ok
                &&& m1.pc == nnn
                &&& m1.sp == m.sp + 1
                &&& m1.stack[m.sp as int] == m.pc
                &&& forall|k: int| 0 <= k < NUM_REGS && k != m.sp ==> #[trigger] m1.stack[k] == m.stack[k]
                &&& m1 == Machine { pc: m1.pc, sp: m1.sp, stack: m1.stack, ..m }
            }
        }),
{
}

/// 00EE pops the top return address into the program counter; on an empty
/// stack it fails and changes nothing.
pub proof fn law_return(m: Machine, r: u32)
    requires
        m.wf(),
    ensures
        ({
            let (m1, res) = exec(m, Opcode::I00EE, r);
            &&& m.sp == 0 ==> res is Err && m1 == m
            &&& m.sp > 0 ==> res is Ok && m1 == Machine { pc: m.stack[m.sp - 1], sp: (m.sp - 1) as u8, ..m }
        }),
{
}

/// Fx55 stores V0 through Vx at I, I+1, ..., I+x, register k at address
/// I + k, and moves I past them; other memory is unchanged. When the last
/// address lies past the end of memory it fails.
pub proof fn law_store_registers(m: Machine, x: u8, r: u32)
    requires
        m.wf(),
        x < NUM_REGS,
    ensures
        ({
            let (m1, res) = exec(m, Opcode::IFX55(x), r);
            &&& (res is Ok <==> m.i + x < MEMORY_SIZE)
            &&& res is Ok ==> {
                &&& m1 == Machine { mem: m1.mem, i: m1.i, ..m }
                &&& m1.mem.len() == MEMORY_SIZE
                &&& forall|k: int| 0 <= k <= x ==> #[trigger] m1.mem[m.i + k] == m.v[k]
                &&& forall|a: int| 0 <= a < MEMORY_SIZE && !(m.i <= a <= m.i + x) ==> #[trigger] m1.mem[a] == m.mem[a]
                &&& m1.i == m.i + x + 1
            }
        }),
{
}

/// Fx65 loads V0 through Vx from I, I+1, ..., I+x, register k from address
/// I + k, and moves I past them; other registers are unchanged. When the
/// last address lies past the end of memory it fails.
pub proof fn law_load_registers(m: Machine, x: u8, r: u32)
    requires
        m.wf(),
        x < NUM_REGS,
    ensures
        ({
            let (m1, res) = exec(m, Opcode::IFX65(x), r);
            &&& (res is Ok <==> m.i + x < MEMORY_SIZE)
            &&& res is Ok ==> {
                &&& m1 == Machine { v: m1.v, i: m1.i, ..m }
                &&& m1.v.len() == NUM_REGS
                &&& forall|k: int| 0 <= k <= x ==> #[trigger] m1.v[k] == m.mem[m.i + k]
                &&& forall|k: int| x < k < NUM_REGS ==> #[trigger] m1.v[k] == m.v[k]
                &&& m1.i == m.i + x + 1
            }
        }),
{
}

/// Fx33 writes the hundreds, tens and ones of Vx at I, I+1 and I+2 and
/// changes nothing else.
pub proof fn law_bcd(m: Machine, x: u8, r: u32)
    requires
        m.wf(),
        x < NUM_REGS,
        m.i + 2 < MEMORY_SIZE,
    ensures
        ({
            let (m1, res) = exec(m, Opcode::IFX33(x), r);
            let a = m.i as int;
            &&& res is Ok
            &&& m1 == Machine { mem: m1.mem, ..m }
            &&& m1.mem.len() == MEMORY_SIZE
            &&& m1.mem[a] < 10 && m1.mem[a + 1] < 10 && m1.mem[a + 2] < 10
            &&& 100 * m1.mem[a] + 10 * m1.mem[a + 1] + m1.mem[a + 2] == m.v[x as int]
            &&& forall|b: int| 0 <= b < MEMORY_SIZE && !(a <= b <= a + 2) ==> #[trigger] m1.mem[b] == m.mem[b]
        }),
{
    let v = m.v[x as int];
    assert(100 * (v / 100) + 10 * ((v / 10) % 10) + v % 10 == v);
}

/// Dxyn draws the n-row sprite at I with its top left corner at column
/// Vx mod 64, row Vy mod 32: the pixel in sprite row `row` and column `col`
/// is flipped exactly when bit 7 - col of the byte at I + row is set, for
/// every row that lies above the bottom edge (and in memory) and every
/// column left of the right edge; all other pixels stay as they were. VF is
/// 1 exactly when some lit pixel went out. The drawing fails exactly when a
/// row above the bottom edge lies past the end of memory.
pub proof fn law_draw(m: Machine, x: u8, y: u8, n: u8, r: u32)
    requires
        m.wf(),
        x < NUM_REGS,
        y < NUM_REGS,
        n < 16,
    ensures
        ({
            let vx = m.v[x as int] as int % 64;
            let vy = m.v[y as int] as int % 32;
            let (m1, res) = exec(m, Opcode::IDXYN(x, y, n), r);
            &&& m1 == Machine { screen: m1.screen, v: m1.v, ..m }
            &&& m1.screen.len() == SCREEN_SIZE
            &&& m1.v.len() == NUM_REGS
            &&& registers_kept_except(m, m1, 15, 15)
            &&& forall|p: int|
                #![trigger m1.screen[p]]
                0 <= p < SCREEN_SIZE && vx <= p % 64 < vx + 8 && vy <= p / 64 < vy + n
                    && m.i + (p / 64 - vy) < MEMORY_SIZE
                    ==> m1.screen[p] == (m.screen[p] != ((m.mem[m.i + (p / 64 - vy)] >> ((7 - (p % 64 - vx)) as u8)) & 1u8 == 1u8))
            &&& forall|p: int|
                #![trigger m1.screen[p]]
                0 <= p < SCREEN_SIZE && !(vx <= p % 64 < vx + 8 && vy <= p / 64 < vy + n
                    && m.i + (p / 64 - vy) < MEMORY_SIZE)
                    ==> m1.screen[p] == m.screen[p]
            &&& m1.v[15] <= 1
            &&& (m1.v[15] == 1 <==> exists|p: int| 0 <= p < SCREEN_SIZE && #[trigger] m.screen[p] && !m1.screen[p])
            &&& (res is Ok <==> ({
                let visible = if n < 32 - vy { n as int } else { 32 - vy };
                visible == 0 || m.i + visible <= MEMORY_SIZE
            }))
        }),
{
    let vx = m.v[x as int] as int % 64;
    let vy = m.v[y as int] as int % 32;
    let visible = if n < 32 - vy { n as int } else { 32 - vy };
    let rows = mem_span(m.i as int, visible);
    let (m1, res) = exec(m, Opcode::IDXYN(x, y, n), r);
    assert(m1 == drawn(m, vx, vy, rows, 0));
    assert forall|p: int| 0 <= p < SCREEN_SIZE implies #[trigger] sprite_covers(m, vx, vy, rows, 0, p)
        == (vx <= p % 64 < vx + 8 && vy <= p / 64 < vy + n && m.i + (p / 64 - vy) < MEMORY_SIZE
            && ((m.mem[m.i + (p / 64 - vy)] >> ((7 - (p % 64 - vx)) as u8)) & 1u8 == 1u8)) by {
        assert(p / 64 < 32);
    }
    if m1.v[15] == 1 {
        let p = choose|p: int| 0 <= p < SCREEN_SIZE && m.screen[p] && #[trigger] sprite_covers(m, vx, vy, rows, 0, p);
        assert(m.screen[p] && !m1.screen[p]);
    }
    if exists|p: int| 0 <= p < SCREEN_SIZE && #[trigger] m.screen[p] && !m1.screen[p] {
        let p = choose|p: int| 0 <= p < SCREEN_SIZE && #[trigger] m.screen[p] && !m1.screen[p];
        assert(sprite_covers(m, vx, vy, rows, 0, p));
    }
}

/// A fresh machine holds the ROM byte for byte from address 0x200, where
/// execution starts; the first 80 bytes hold the font, the rest of memory,
/// the registers, timers, stack, keys and screen are all zero.
pub proof fn law_initial_machine(rom: Seq<u8>)
    requires
        rom.len() <= MEMORY_SIZE - 0x200,
    ensures
        ({
            let m = initial(rom);
            &&& m.wf()
            &&& m.pc == 0x200 && m.i == 0 && m.sp == 0 && m.delay == 0 && m.sound == 0
            &&& forall|k: int| 0 <= k < rom.len() ==> #[trigger] m.mem[0x200 + k] == rom[k]
            &&& forall|a: int| 80 <= a < MEMORY_SIZE && !(0x200 <= a < 0x200 + rom.len()) ==> #[trigger] m.mem[a] == 0
            &&& m.mem[0] == 0xF0 && m.mem[1] == 0x90 && m.mem[79] == 0x80
            &&& forall|k: int| 0 <= k < NUM_REGS ==> #[trigger] m.v[k] == 0 && m.stack[k] == 0 && !m.input[k]
            &&& forall|p: int| 0 <= p < SCREEN_SIZE ==> !#[trigger] m.screen[p]
        }),
{
}

/// A cycle fetches the two bytes at the program counter, the first as the
/// high byte, moves the program counter past them and executes the
/// instruction they encode; a word that encodes none is an error after the
/// move, and a program counter on the last byte of memory is an error that
/// changes nothing.
pub proof fn law_step(m: Machine, r: u32)
    requires
        m.wf(),
    ensures
        ({
            let (m1, res) = step(m, r);
            let word = (m.mem[m.pc as int] * 256 + m.mem[m.pc + 1]) as u16;
            let moved = Machine { pc: (m.pc + 2) as u16, ..m };
            &&& m.pc + 1 >= MEMORY_SIZE ==> res is Err && m1 == m
            &&& m.pc + 1 < MEMORY_SIZE ==> match decode(word) {
                None => res is Err && m1 == moved,
                Some(op) => (m1, res) == exec(moved, op, r),
            }
        }),
{
}

} // verus!
