//! The mathematical model of the CHIP-8 machine and the meaning of each
//! instruction over it.
use vstd::prelude::*;

use crate::opcodes::{decode, Opcode};

verus! {

/// Bytes of addressable memory.
pub const MEMORY_SIZE: usize = 4096;
/// Width of the screen in pixels.
pub const SCREEN_WIDTH: usize = 64;
/// Height of the screen in pixels.
pub const SCREEN_HEIGHT: usize = 32;
/// Number of pixels on the screen.
pub const SCREEN_SIZE: usize = 2048;
/// Address at which a ROM is loaded and execution starts.
pub const ROM_START: usize = 512;
/// Number of general-purpose registers, of stack slots and of keys.
pub const NUM_REGS: usize = 16;

/// The errors, as the messages that the host logs.
pub const ERR_ROM_TOO_LARGE: &'static str = "ROM is too large";
pub const ERR_INVALID_OPCODE: &'static str = "invalid opcode";
pub const ERR_PC_OUT_OF_BOUNDS: &'static str = "program counter out of bounds";
pub const ERR_PC_OVERFLOW: &'static str = "program counter overflow";
pub const ERR_MEMORY_OUT_OF_BOUNDS: &'static str = "memory out of bounds";
pub const ERR_STACK_OVERFLOW: &'static str = "stack overflow";
pub const ERR_STACK_EMPTY: &'static str = "trying to pop a value from an empty stack";
pub const ERR_INVALID_KEY: &'static str = "invalid key index";

/// The built-in hexadecimal font: five bytes for each digit 0 through F.
pub open spec fn font() -> Seq<u8> {
    seq![
        0xF0u8, 0x90, 0x90, 0x90, 0xF0,
        0x20, 0x60, 0x20, 0x20, 0x70,
        0xF0, 0x10, 0xF0, 0x80, 0xF0,
        0xF0, 0x10, 0xF0, 0x10, 0xF0,
        0x90, 0x90, 0xF0, 0x10, 0x10,
        0xF0, 0x80, 0xF0, 0x10, 0xF0,
        0xF0, 0x80, 0xF0, 0x90, 0xF0,
        0xF0, 0x10, 0x20, 0x40, 0x40,
        0xF0, 0x90, 0xF0, 0x90, 0xF0,
        0xF0, 0x90, 0xF0, 0x10, 0xF0,
        0xF0, 0x90, 0xF0, 0x90, 0x90,
        0xE0, 0x90, 0xE0, 0x90, 0xE0,
        0xF0, 0x80, 0x80, 0x80, 0xF0,
        0xE0, 0x90, 0x90, 0x90, 0xE0,
        0xF0, 0x80, 0xF0, 0x80, 0xF0,
        0xF0, 0x80, 0xF0, 0x80, 0x80,
    ]
}

/// The whole state of a CHIP-8 machine.
#[verifier::ext_equal]
pub struct Machine {
    /// Memory, one byte per address.
    pub mem: Seq<u8>,
    /// Program counter: the address of the next instruction.
    pub pc: u16,
    /// Registers V0 through VF.
    pub v: Seq<u8>,
    /// The address register I.
    pub i: u16,
    /// The delay timer.
    pub delay: u8,
    /// The sound timer.
    pub sound: u8,
    /// The call stack; only the first `sp` slots are in use.
    pub stack: Seq<u16>,
    /// Number of return addresses on the stack.
    pub sp: u8,
    /// Which of the sixteen keys are held down.
    pub input: Seq<bool>,
    /// The screen, row by row; `true` is a lit pixel.
    pub screen: Seq<bool>,
}

/// A machine after an operation, and whether the operation succeeded.
pub type Outcome = (Machine, Result<(), &'static str>);

/// `m`, reached without error.
pub open spec fn ok(m: Machine) -> Outcome {
    (m, Ok(()))
}

/// `m`, where the error `e` stopped the operation.
pub open spec fn fail(m: Machine, e: &'static str) -> Outcome {
    (m, Err(e))
}

impl Machine {
    /// Every part has the size that the hardware gives it, and the stack
    /// pointer stays within the stack.
    pub open spec fn wf(self) -> bool {
        &&& self.mem.len() == MEMORY_SIZE
        &&& self.v.len() == NUM_REGS
        &&& self.stack.len() == NUM_REGS
        &&& self.sp <= NUM_REGS
        &&& self.input.len() == NUM_REGS
        &&& self.screen.len() == SCREEN_SIZE
    }

    /// The program counter set to `pc`.
    pub open spec fn with_pc(self, pc: int) -> Machine {
        Machine { pc: pc as u16, ..self }
    }

    /// The address register set to `i`.
    pub open spec fn with_i(self, i: int) -> Machine {
        Machine { i: i as u16, ..self }
    }

    /// Register `x` set to `val`.
    pub open spec fn set_v(self, x: int, val: int) -> Machine {
        Machine { v: self.v.update(x, val as u8), ..self }
    }

    /// Register `x` set to `val`, then VF set to `flag`.
    pub open spec fn set_v_flag(self, x: int, val: int, flag: int) -> Machine {
        Machine { v: self.v.update(x, val as u8).update(15, flag as u8), ..self }
    }
}

/// The machine that `Chip8::new` builds for a ROM that fits: the font at
/// address 0, the ROM at `ROM_START`, everything else zero and the program
/// counter at the ROM.
pub open spec fn initial(rom: Seq<u8>) -> Machine {
    Machine {
        mem: Seq::new(
            MEMORY_SIZE as nat,
            |a: int|
                if a < 80 {
                    font()[a]
                } else if ROM_START <= a < ROM_START + rom.len() {
                    rom[a - ROM_START]
                } else {
                    0u8
                },
        ),
        pc: ROM_START as u16,
        v: Seq::new(NUM_REGS as nat, |k: int| 0u8),
        i: 0,
        delay: 0,
        sound: 0,
        stack: Seq::new(NUM_REGS as nat, |k: int| 0u16),
        sp: 0,
        input: Seq::new(NUM_REGS as nat, |k: int| false),
        screen: Seq::new(SCREEN_SIZE as nat, |p: int| false),
    }
}

/// Advance the program counter past the next instruction.
pub open spec fn skip(m: Machine) -> Outcome {
    if m.pc + 2 <= u16::MAX {
        ok(m.with_pc(m.pc + 2))
    } else {
        fail(m, ERR_PC_OVERFLOW)
    }
}

/// Skip the next instruction when `cond` holds.
pub open spec fn skip_if(m: Machine, cond: bool) -> Outcome {
    if cond {
        skip(m)
    } else {
        ok(m)
    }
}

/// Step the program counter back onto the instruction just fetched.
pub open spec fn repeat(m: Machine) -> Outcome {
    if m.pc >= 2 {
        ok(m.with_pc(m.pc - 2))
    } else {
        fail(m, ERR_PC_OVERFLOW)
    }
}

/// The key whose number register `x` holds, if it names one.
pub open spec fn key_of(m: Machine, x: int) -> Result<bool, &'static str> {
    if m.v[x] >= NUM_REGS {
        Err(ERR_INVALID_KEY)
    } else {
        Ok(m.input[m.v[x] as int])
    }
}

/// Skip the next instruction when the key in register `x` is held
/// (`when_pressed`) or is not held (`!when_pressed`).
pub open spec fn skip_on_key(m: Machine, x: int, when_pressed: bool) -> Outcome {
    match key_of(m, x) {
        Err(e) => fail(m, e),
        Ok(pressed) => skip_if(m, pressed == when_pressed),
    }
}

/// The index of the first `true` in `s` at or after `from`, or `s.len()`.
pub open spec fn first_true(s: Seq<bool>, from: int) -> int
    decreases s.len() - from,
{
    if from >= s.len() {
        s.len() as int
    } else if s[from] {
        from
    } else {
        first_true(s, from + 1)
    }
}

/// Register `x` set to the lowest pressed key; with no key pressed, the
/// instruction is fetched again on the next cycle.
pub open spec fn wait_key(m: Machine, x: int) -> Outcome {
    let k = first_true(m.input, 0);
    if k < m.input.len() {
        ok(m.set_v(x, k))
    } else {
        repeat(m)
    }
}

/// How many of `len` consecutive addresses from `addr` exist in memory
/// before the first one that does not.
pub open spec fn mem_span(addr: int, len: int) -> int {
    if addr >= MEMORY_SIZE {
        0
    } else if addr + len <= MEMORY_SIZE {
        len
    } else {
        MEMORY_SIZE - addr
    }
}

/// Write `bytes` to memory from `addr` on, in order, stopping with an error
/// at the first address past the end of memory.
pub open spec fn store(m: Machine, addr: int, bytes: Seq<u8>) -> Outcome {
    let count = mem_span(addr, bytes.len() as int);
    let m2 = Machine {
        mem: Seq::new(
            m.mem.len(),
            |a: int|
                if addr <= a < addr + count {
                    bytes[a - addr]
                } else {
                    m.mem[a]
                },
        ),
        ..m
    };
    if count < bytes.len() {
        fail(m2, ERR_MEMORY_OUT_OF_BOUNDS)
    } else {
        ok(m2)
    }
}

/// The decimal digits of `val`: hundreds, tens and ones.
pub open spec fn bcd(val: u8) -> Seq<u8> {
    seq![(val / 100) as u8, ((val / 10) % 10) as u8, (val % 10) as u8]
}

/// Bit `k` of `byte`, counting from the least significant.
pub open spec fn bit(byte: u8, k: int) -> bool {
    (byte >> (k as u8)) & 1u8 == 1u8
}

/// Whether pixel `p` is lit by the part of a sprite drawn at column `vx`,
/// row `vy` that covers its first `rows` rows whole and `cols` pixels of the
/// row after them. Sprite row `r` is the byte at `I + r`, its most
/// significant bit leftmost. Pixels past the right edge are not drawn.
pub open spec fn sprite_covers(m: Machine, vx: int, vy: int, rows: int, cols: int, p: int) -> bool {
    let row = p / SCREEN_WIDTH as int - vy;
    let col = p % SCREEN_WIDTH as int - vx;
    &&& 0 <= col < 8
    &&& 0 <= row
    &&& (row < rows || (row == rows && col < cols))
    &&& bit(m.mem[m.i + row], 7 - col)
}

/// Whether some lit pixel of the screen lies under a set pixel of the sprite.
pub open spec fn collides(m: Machine, vx: int, vy: int, rows: int, cols: int) -> bool {
    exists|p: int| 0 <= p < SCREEN_SIZE && m.screen[p] && #[trigger] sprite_covers(m, vx, vy, rows, cols, p)
}

/// The machine after drawing the part of a sprite that `sprite_covers`
/// describes: each covered pixel flipped, and VF telling whether one of them
/// was lit.
pub open spec fn drawn(m: Machine, vx: int, vy: int, rows: int, cols: int) -> Machine {
    Machine {
        screen: Seq::new(m.screen.len(), |p: int| m.screen[p] != sprite_covers(m, vx, vy, rows, cols, p)),
        v: m.v.update(15, if collides(m, vx, vy, rows, cols) { 1u8 } else { 0u8 }),
        ..m
    }
}

/// Draw the `n`-row sprite at I at the position that registers `x` and `y`
/// hold (wrapped onto the screen), flipping each pixel under a set sprite
/// bit and clipping at the right and bottom edges. VF becomes 1 when a lit
/// pixel was turned off, else 0. A sprite row whose address lies past the
/// end of memory stops the drawing with an error.
pub open spec fn draw(m: Machine, x: int, y: int, n: int) -> Outcome {
    let vx = m.v[x] as int % SCREEN_WIDTH as int;
    let vy = m.v[y] as int % SCREEN_HEIGHT as int;
    let visible = if n < SCREEN_HEIGHT - vy { n } else { SCREEN_HEIGHT - vy };
    let rows = mem_span(m.i as int, visible);
    let m2 = drawn(m, vx, vy, rows, 0);
    if rows < visible {
        fail(m2, ERR_MEMORY_OUT_OF_BOUNDS)
    } else {
        ok(m2)
    }
}

/// Registers V0 through Vx loaded from memory at I, I+1, ..., stopping with
/// an error at the first address past the end of memory; on success I moves
/// past the loaded bytes.
pub open spec fn load_regs(m: Machine, x: int) -> Outcome {
    let count = mem_span(m.i as int, x + 1);
    let m2 = Machine {
        v: Seq::new(m.v.len(), |k: int| if k < count { m.mem[m.i + k] } else { m.v[k] }),
        ..m
    };
    if count < x + 1 {
        fail(m2, ERR_MEMORY_OUT_OF_BOUNDS)
    } else {
        ok(m2.with_i((m.i + x + 1) % 0x10000))
    }
}

/// Registers V0 through Vx stored to memory at I, I+1, ...; on success I
/// moves past the stored bytes.
pub open spec fn store_regs(m: Machine, x: int) -> Outcome {
    let (m2, res) = store(m, m.i as int, m.v.subrange(0, x + 1));
    if res is Err {
        (m2, res)
    } else {
        ok(m2.with_i((m.i + x + 1) % 0x10000))
    }
}

/// The machine after executing `op`; `r` is the random number that `Cxnn`
/// draws (no other instruction reads it).
pub open spec fn exec(m: Machine, op: Opcode, r: u32) -> Outcome {
    match op {
        Opcode::I00E0 => ok(Machine { screen: Seq::new(m.screen.len(), |p: int| false), ..m }),
        Opcode::I00EE => if m.sp == 0 {
            fail(m, ERR_STACK_EMPTY)
        } else {
            ok(Machine { sp: (m.sp - 1) as u8, pc: m.stack[m.sp - 1], ..m })
        },
        Opcode::I1NNN(nnn) => ok(m.with_pc(nnn as int)),
        Opcode::I2NNN(nnn) => if m.sp >= NUM_REGS {
            fail(m, ERR_STACK_OVERFLOW)
        } else {
            ok(Machine { stack: m.stack.update(m.sp as int, m.pc), sp: (m.sp + 1) as u8, pc: nnn, ..m })
        },
        Opcode::I3XNN(x, nn) => skip_if(m, m.v[x as int] == nn),
        Opcode::I4XNN(x, nn) => skip_if(m, m.v[x as int] != nn),
        Opcode::I5XY0(x, y) => skip_if(m, m.v[x as int] == m.v[y as int]),
        Opcode::I6XNN(x, nn) => ok(m.set_v(x as int, nn as int)),
        Opcode::I7XNN(x, nn) => ok(m.set_v(x as int, (m.v[x as int] + nn) % 256)),
        Opcode::I8XY0(x, y) => ok(m.set_v(x as int, m.v[y as int] as int)),
        Opcode::I8XY1(x, y) => ok(m.set_v_flag(x as int, (m.v[x as int] | m.v[y as int]) as int, 0)),
        Opcode::I8XY2(x, y) => ok(m.set_v_flag(x as int, (m.v[x as int] & m.v[y as int]) as int, 0)),
        Opcode::I8XY3(x, y) => ok(m.set_v_flag(x as int, (m.v[x as int] ^ m.v[y as int]) as int, 0)),
        Opcode::I8XY4(x, y) => {
            let sum = m.v[x as int] + m.v[y as int];
            ok(m.set_v_flag(x as int, sum % 256, if sum >= 256 { 1 } else { 0 }))
        },
        Opcode::I8XY5(x, y) => {
            let a = m.v[x as int] as int;
            let b = m.v[y as int] as int;
            ok(m.set_v_flag(x as int, (a - b + 256) % 256, if a >= b { 1 } else { 0 }))
        },
        Opcode::I8XY6(x, y) => {
            let val = m.v[y as int] as int;
            ok(m.set_v_flag(x as int, val / 2, val % 2))
        },
        Opcode::I8XY7(x, y) => {
            let a = m.v[x as int] as int;
            let b = m.v[y as int] as int;
            ok(m.set_v_flag(x as int, (b - a + 256) % 256, if b >= a { 1 } else { 0 }))
        },
        Opcode::I8XYE(x, y) => {
            let val = m.v[y as int] as int;
            ok(m.set_v_flag(x as int, (val * 2) % 256, val / 128))
        },
        Opcode::I9XY0(x, y) => skip_if(m, m.v[x as int] != m.v[y as int]),
        Opcode::IANNN(nnn) => ok(m.with_i(nnn as int)),
        Opcode::IBNNN(nnn) => ok(m.with_pc(nnn + m.v[0])),
        Opcode::ICXNN(x, nn) => ok(m.set_v(x as int, ((r % 256) as u8 & nn) as int)),
        Opcode::IDXYN(x, y, n) => draw(m, x as int, y as int, n as int),
        Opcode::IEX9E(x) => skip_on_key(m, x as int, true),
        Opcode::IEXA1(x) => skip_on_key(m, x as int, false),
        Opcode::IFX07(x) => ok(m.set_v(x as int, m.delay as int)),
        Opcode::IFX0A(x) => wait_key(m, x as int),
        Opcode::IFX15(x) => ok(Machine { delay: m.v[x as int], ..m }),
        Opcode::IFX18(x) => ok(Machine { sound: m.v[x as int], ..m }),
        Opcode::IFX1E(x) => ok(m.with_i((m.i + m.v[x as int]) % 0x10000)),
        Opcode::IFX29(x) => ok(m.with_i((m.v[x as int] * 5) % 256)),
        Opcode::IFX33(x) => store(m, m.i as int, bcd(m.v[x as int])),
        Opcode::IFX55(x) => store_regs(m, x as int),
        Opcode::IFX65(x) => load_regs(m, x as int),
    }
}

/// The instruction word at the program counter: the byte there is the high
/// half, the next one the low half.
pub open spec fn word_at(m: Machine, addr: int) -> u16 {
    (m.mem[addr] * 256 + m.mem[addr + 1]) as u16
}

/// One fetch-decode-execute cycle. The program counter moves past the
/// instruction before it executes, also when it fails to decode.
pub open spec fn step(m: Machine, r: u32) -> Outcome {
    if m.pc + 1 >= MEMORY_SIZE {
        fail(m, ERR_PC_OUT_OF_BOUNDS)
    } else {
        let m1 = m.with_pc(m.pc + 2);
        match decode(word_at(m, m.pc as int)) {
            None => fail(m1, ERR_INVALID_OPCODE),
            Some(op) => exec(m1, op, r),
        }
    }
}

/// `k` cycles, the `j`-th drawing the random number `rs[j]`, stopping at
/// the first that fails.
pub open spec fn run(m: Machine, k: nat, rs: Seq<u32>) -> Outcome
    decreases k,
{
    if k == 0 {
        ok(m)
    } else {
        let (m1, res) = run(m, (k - 1) as nat, rs);
        if res is Err {
            (m1, res)
        } else {
            step(m1, rs[k - 1])
        }
    }
}

/// Both timers counted down by one, stopping at zero.
pub open spec fn tick(m: Machine) -> Machine {
    Machine {
        delay: if m.delay > 0 { (m.delay - 1) as u8 } else { 0 },
        sound: if m.sound > 0 { (m.sound - 1) as u8 } else { 0 },
        ..m
    }
}

/// An update: `steps` cycles, then, if all succeeded, a timer tick.
pub open spec fn update(m: Machine, steps: nat, rs: Seq<u32>) -> Outcome {
    let (m1, res) = run(m, steps, rs);
    if res is Err {
        (m1, res)
    } else {
        ok(tick(m1))
    }
}

/// `run` depends only on the first `k` random numbers.
pub proof fn lemma_run_prefix(m: Machine, k: nat, rs1: Seq<u32>, rs2: Seq<u32>)
    requires
        forall|j: int| 0 <= j < k ==> rs1[j] == rs2[j],
    ensures
        run(m, k, rs1) == run(m, k, rs2),
    decreases k,
{
    if k > 0 {
        lemma_run_prefix(m, (k - 1) as nat, rs1, rs2);
    }
}

/// One more cycle after `k` successful ones is one more `step`.
pub proof fn lemma_run_extend(m: Machine, k: nat, rs: Seq<u32>, r: u32)
    requires
        rs.len() == k,
        run(m, k, rs).1 is Ok,
    ensures
        run(m, k + 1, rs.push(r)) == step(run(m, k, rs).0, r),
{
    lemma_run_prefix(m, k, rs, rs.push(r));
}

/// After a failed cycle, further cycles change nothing.
pub proof fn lemma_run_stops(m: Machine, k: nat, j: nat, rs: Seq<u32>)
    requires
        k <= j,
        run(m, k, rs).1 is Err,
    ensures
        run(m, j, rs) == run(m, k, rs),
    decreases j,
{
    if j > k {
        lemma_run_stops(m, k, (j - 1) as nat, rs);
    }
}

/// Screen index `px + py * 64` is the pixel in column `px` of row `py`.
pub proof fn lemma_pixel_index(px: int, py: int)
    requires
        0 <= px < SCREEN_WIDTH,
        0 <= py < SCREEN_HEIGHT,
    ensures
        (px + py * 64) / 64 == py,
        (px + py * 64) % 64 == px,
        0 <= px + py * 64 < SCREEN_SIZE,
{
    vstd::arithmetic::div_mod::lemma_fundamental_div_mod_converse(px + py * 64, 64, py, px);
}

} // verus!
