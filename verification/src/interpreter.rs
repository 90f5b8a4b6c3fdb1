//! The CHIP-8 virtual machine.
use vstd::prelude::*;

use crate::machine;
use crate::machine::{
    Machine, ERR_INVALID_KEY, ERR_INVALID_OPCODE, ERR_MEMORY_OUT_OF_BOUNDS, ERR_PC_OUT_OF_BOUNDS,
    ERR_PC_OVERFLOW, ERR_ROM_TOO_LARGE, ERR_STACK_EMPTY, ERR_STACK_OVERFLOW, MEMORY_SIZE, NUM_REGS,
    ROM_START, SCREEN_HEIGHT, SCREEN_SIZE, SCREEN_WIDTH,
};
use crate::opcodes::Opcode;

verus! {

/// The built-in font.
///
/// The sprite data represents the hexadecimal numbers from 0 through F.
///
/// https://tobiasvl.github.io/blog/write-a-chip-8-emulator/#font
const FONT: [u8; 80] = [
    0xF0, 0x90, 0x90, 0x90, 0xF0, // 0
    0x20, 0x60, 0x20, 0x20, 0x70, // 1
    0xF0, 0x10, 0xF0, 0x80, 0xF0, // 2
    0xF0, 0x10, 0xF0, 0x10, 0xF0, // 3
    0x90, 0x90, 0xF0, 0x10, 0x10, // 4
    0xF0, 0x80, 0xF0, 0x10, 0xF0, // 5
    0xF0, 0x80, 0xF0, 0x90, 0xF0, // 6
    0xF0, 0x10, 0x20, 0x40, 0x40, // 7
    0xF0, 0x90, 0xF0, 0x90, 0xF0, // 8
    0xF0, 0x90, 0xF0, 0x10, 0xF0, // 9
    0xF0, 0x90, 0xF0, 0x90, 0x90, // A
    0xE0, 0x90, 0xE0, 0x90, 0xE0, // B
    0xF0, 0x80, 0x80, 0x80, 0xF0, // C
    0xE0, 0x90, 0x90, 0x90, 0xE0, // D
    0xF0, 0x80, 0xF0, 0x80, 0xF0, // E
    0xF0, 0x80, 0xF0, 0x80, 0x80, // F
];

/// A random number from the host, through `firefly_rust::get_random`.
/// Nothing is stated of the value: it comes from the runtime's generator.
#[verifier::external_body]
fn random_u32() -> u32 {
    firefly_rust::get_random()
}

/// A CHIP-8 machine: memory, registers, timers, call stack, keypad and
/// screen.
pub struct Chip8 {
    mem: [u8; MEMORY_SIZE],
    program_cnt: u16,
    reg_v: [u8; NUM_REGS],
    reg_i: u16,
    delay_timer: u8,
    pub sound_timer: u8,
    stack: [u16; NUM_REGS],
    stack_ptr: u8,
    pub input: [bool; NUM_REGS],
    pub screen: [bool; SCREEN_SIZE],
}

impl View for Chip8 {
    type V = Machine;

    closed spec fn view(&self) -> Machine {
        Machine {
            mem: self.mem@,
            pc: self.program_cnt,
            v: self.reg_v@,
            i: self.reg_i,
            delay: self.delay_timer,
            sound: self.sound_timer,
            stack: self.stack@,
            sp: self.stack_ptr,
            input: self.input@,
            screen: self.screen@,
        }
    }
}

impl Chip8 {
    /// The machine is in a state that its operations keep.
    pub open spec fn wf(&self) -> bool {
        self@.wf()
    }

    /// A machine with `rom` loaded at `ROM_START` and the font at address 0;
    /// an error when the ROM does not fit in memory.
    pub fn new(rom: &[u8]) -> (r: Result<Self, &'static str>)
        ensures
            rom@.len() > MEMORY_SIZE - ROM_START ==> r == Err::<Self, &'static str>(ERR_ROM_TOO_LARGE),
            rom@.len() <= MEMORY_SIZE - ROM_START ==> (r matches Ok(c) && c@ == machine::initial(rom@) && c.wf()),
    {
        let mut memory = [0u8; MEMORY_SIZE];
        let mut k: usize = 0;
        while k < FONT.len()
            invariant
                k <= 80,
                forall|a: int| 0 <= a < k ==> memory@[a] == machine::font()[a],
                forall|a: int| k <= a < MEMORY_SIZE ==> memory@[a] == 0,
            decreases 80 - k,
        {
            memory[k] = FONT[k];
            k = k + 1;
        }
        let max_size = MEMORY_SIZE - ROM_START;
        if rom.len() > max_size {
            return Err(ERR_ROM_TOO_LARGE);
        }
        let rom_end = ROM_START + rom.len();
        let mut k: usize = ROM_START;
        while k < rom_end
            invariant
                ROM_START <= k <= rom_end,
                rom_end == ROM_START + rom@.len(),
                rom_end <= MEMORY_SIZE,
                forall|a: int| 0 <= a < 80 ==> memory@[a] == machine::font()[a],
                forall|a: int| ROM_START <= a < k ==> memory@[a] == rom@[a - ROM_START],
                forall|a: int| 80 <= a < MEMORY_SIZE && !(ROM_START <= a < k) ==> memory@[a] == 0,
            decreases rom_end - k,
        {
            memory[k] = rom[k - ROM_START];
            k = k + 1;
        }
        let chip8 = Self {
            mem: memory,
            program_cnt: 0x200,
            reg_v: [0; NUM_REGS],
            reg_i: 0,
            delay_timer: 0,
            sound_timer: 0,
            stack: [0; NUM_REGS],
            stack_ptr: 0,
            input: [false; NUM_REGS],
            screen: [false; SCREEN_SIZE],
        };
        assert(chip8@ =~= machine::initial(rom@));
        Ok(chip8)
    }

    /// Get the next opcode to execute.
    fn next(&mut self) -> (r: Result<u16, &'static str>)
        requires
            old(self).wf(),
        ensures
            final(self).wf(),
            old(self)@.pc + 1 >= MEMORY_SIZE ==> r == Err::<u16, &'static str>(ERR_PC_OUT_OF_BOUNDS)
                && final(self)@ == old(self)@,
            old(self)@.pc + 1 < MEMORY_SIZE ==> r == Ok::<u16, &'static str>(
                machine::word_at(old(self)@, old(self)@.pc as int),
            ) && final(self)@ == old(self)@.with_pc(old(self)@.pc + 2),
    {
        let pc = self.program_cnt as usize;
        if pc + 1 >= MEMORY_SIZE {
            return Err(ERR_PC_OUT_OF_BOUNDS);
        }
        let high_byte = self.mem[pc];
        let low_byte = self.mem[pc + 1];

        self.program_cnt = match self.program_cnt.checked_add(2) {
            Some(pc) => pc,
            None => return Err(ERR_PC_OVERFLOW),
        };

        let word = ((high_byte as u16) << 8) | low_byte as u16;
        assert(word == high_byte * 256 + low_byte) by (bit_vector)
            requires
                word == ((high_byte as u16) << 8) | low_byte as u16,
        ;
        Ok(word)
    }

    /// The byte at `addr`; an error past the end of memory.
    fn load(&self, addr: usize) -> (r: Result<u8, &'static str>)
        ensures
            addr < MEMORY_SIZE ==> r == Ok::<u8, &'static str>(self@.mem[addr as int]),
            addr >= MEMORY_SIZE ==> r == Err::<u8, &'static str>(ERR_MEMORY_OUT_OF_BOUNDS),
    {
        if addr < MEMORY_SIZE {
            Ok(self.mem[addr])
        } else {
            Err(ERR_MEMORY_OUT_OF_BOUNDS)
        }
    }

    /// Store `value` at `address`; an error, and no change, past the end of
    /// memory.
    fn write_memory(&mut self, address: usize, value: u8) -> (r: Result<(), &'static str>)
        ensures
            address < MEMORY_SIZE ==> r == Ok::<(), &'static str>(())
                && final(self)@ == (Machine { mem: old(self)@.mem.update(address as int, value), ..old(self)@ }),
            address >= MEMORY_SIZE ==> r == Err::<(), &'static str>(ERR_MEMORY_OUT_OF_BOUNDS)
                && final(self)@ == old(self)@,
    {
        if address < MEMORY_SIZE {
            self.mem[address] = value;
            Ok(())
        } else {
            Err(ERR_MEMORY_OUT_OF_BOUNDS)
        }
    }

    /// Skip the next opcode.
    fn skip(&mut self) -> (r: Result<(), &'static str>)
        ensures
            (final(self)@, r) == machine::skip(old(self)@),
    {
        self.program_cnt = match self.program_cnt.checked_add(2) {
            Some(pc) => pc,
            None => return Err(ERR_PC_OVERFLOW),
        };
        Ok(())
    }

    /// Step back to re-execute the current opcode.
    fn repeat(&mut self) -> (r: Result<(), &'static str>)
        ensures
            (final(self)@, r) == machine::repeat(old(self)@),
    {
        self.program_cnt = match self.program_cnt.checked_sub(2) {
            Some(pc) => pc,
            None => return Err(ERR_PC_OVERFLOW),
        };
        Ok(())
    }

    /// Push the value on the stack.
    fn push(&mut self, value: u16) -> (r: Result<(), &'static str>)
        requires
            old(self).wf(),
        ensures
            old(self)@.sp >= NUM_REGS ==> r == Err::<(), &'static str>(ERR_STACK_OVERFLOW)
                && final(self)@ == old(self)@,
            old(self)@.sp < NUM_REGS ==> r == Ok::<(), &'static str>(()) && final(self)@ == (Machine {
                stack: old(self)@.stack.update(old(self)@.sp as int, value),
                sp: (old(self)@.sp + 1) as u8,
                ..old(self)@
            }),
    {
        let stack_index = self.stack_ptr as usize;
        if stack_index >= self.stack.len() {
            return Err(ERR_STACK_OVERFLOW);
        }
        self.stack[stack_index] = value;
        self.stack_ptr += 1;
        Ok(())
    }

    /// Pop a value from the stack.
    fn pop(&mut self) -> (r: Result<u16, &'static str>)
        requires
            old(self).wf(),
        ensures
            old(self)@.sp == 0 ==> r == Err::<u16, &'static str>(ERR_STACK_EMPTY) && final(self)@ == old(self)@,
            old(self)@.sp > 0 ==> r == Ok::<u16, &'static str>(old(self)@.stack[old(self)@.sp - 1])
                && final(self)@ == (Machine { sp: (old(self)@.sp - 1) as u8, ..old(self)@ }),
    {
        if self.stack_ptr == 0 {
            return Err(ERR_STACK_EMPTY);
        }
        self.stack_ptr -= 1;
        Ok(self.stack[self.stack_ptr as usize])
    }

    /// Whether the key whose number register `register_index` holds is
    /// pressed; an error when the register holds no key number.
    fn get_key(&self, register_index: u8) -> (r: Result<bool, &'static str>)
        requires
            register_index < NUM_REGS,
        ensures
            r == machine::key_of(self@, register_index as int),
    {
        let key_index = self.reg_v[register_index as usize];
        if key_index as usize >= self.input.len() {
            return Err(ERR_INVALID_KEY);
        }
        Ok(self.input[key_index as usize])
    }

    /// Run the update cycle: `steps` instructions, then both timers count
    /// down by one (stopping at zero). The first instruction that fails stops
    /// the update with its error, and the timers are left as they are.
    pub fn update(&mut self, steps: u16) -> (r: Result<(), &'static str>)
        requires
            old(self).wf(),
        ensures
            final(self).wf(),
            exists|rs: Seq<u32>|
                rs.len() == steps && (final(self)@, r) == #[trigger] machine::update(old(self)@, steps as nat, rs),
    {
        let ghost m0 = self@;
        let ghost mut rs: Seq<u32> = Seq::empty();
        let mut done: u16 = 0;
        while done < steps
            invariant
                m0 == old(self)@,
                self.wf(),
                done <= steps,
                rs.len() == done,
                machine::run(m0, done as nat, rs) == machine::ok(self@),
            decreases steps - done,
        {
            let ghost before = self@;
            let res = self.step();
            let ghost rnd = choose|rnd: u32| (self@, res) == machine::step(before, rnd);
            proof {
                machine::lemma_run_extend(m0, done as nat, rs, rnd);
                rs = rs.push(rnd);
            }
            if res.is_err() {
                proof {
                    let full = rs + Seq::new((steps - done - 1) as nat, |j: int| 0u32);
                    machine::lemma_run_prefix(m0, (done + 1) as nat, rs, full);
                    machine::lemma_run_stops(m0, (done + 1) as nat, steps as nat, full);
                    assert(full.len() == steps);
                    assert((self@, res) == machine::update(m0, steps as nat, full));
                }
                return res;
            }
            done += 1;
        }
        self.delay_timer = self.delay_timer.saturating_sub(1);
        self.sound_timer = self.sound_timer.saturating_sub(1);
        proof {
            assert(self@ =~= machine::tick(machine::run(m0, steps as nat, rs).0));
            assert((self@, Ok::<(), &'static str>(())) == machine::update(m0, steps as nat, rs));
        }
        Ok(())
    }

    /// Run the update cycle as `update` does, with `randoms[j]` the random
    /// number that the `j`-th instruction gets if it is `Cxnn`.
    pub fn update_with(&mut self, steps: u16, randoms: &[u32]) -> (r: Result<(), &'static str>)
        requires
            old(self).wf(),
            randoms@.len() >= steps,
        ensures
            final(self).wf(),
            (final(self)@, r) == machine::update(old(self)@, steps as nat, randoms@),
    {
        let ghost m0 = self@;
        let mut done: u16 = 0;
        while done < steps
            invariant
                m0 == old(self)@,
                self.wf(),
                done <= steps,
                randoms@.len() >= steps,
                machine::run(m0, done as nat, randoms@) == machine::ok(self@),
            decreases steps - done,
        {
            let res = self.step_with(randoms[done as usize]);
            if res.is_err() {
                proof {
                    machine::lemma_run_stops(m0, (done + 1) as nat, steps as nat, randoms@);
                }
                return res;
            }
            done += 1;
        }
        self.delay_timer = self.delay_timer.saturating_sub(1);
        self.sound_timer = self.sound_timer.saturating_sub(1);
        proof {
            assert(self@ =~= machine::tick(machine::run(m0, steps as nat, randoms@).0));
        }
        Ok(())
    }

    /// Fetch and decode the next opcode.
    fn fetch(&mut self) -> (r: Result<Opcode, &'static str>)
        requires
            old(self).wf(),
        ensures
            final(self).wf(),
            match r {
                Ok(op) => op.wf() && forall|rnd: u32|
                    machine::step(old(self)@, rnd) == #[trigger] machine::exec(final(self)@, op, rnd),
                Err(e) => forall|rnd: u32| #[trigger] machine::step(old(self)@, rnd) == (final(self)@, Err::<(), &'static str>(e)),
            },
    {
        let word = self.next()?;
        match Opcode::new(word) {
            Some(opcode) => Ok(opcode),
            None => Err(ERR_INVALID_OPCODE),
        }
    }

    /// Execute the next opcode.
    fn step(&mut self) -> (r: Result<(), &'static str>)
        requires
            old(self).wf(),
        ensures
            final(self).wf(),
            exists|rnd: u32| (final(self)@, r) == #[trigger] machine::step(old(self)@, rnd),
    {
        let opcode = match self.fetch() {
            Ok(opcode) => opcode,
            Err(e) => {
                assert((self@, Err::<(), &'static str>(e)) == machine::step(old(self)@, 0));
                return Err(e);
            },
        };
        let random = match opcode {
            Opcode::ICXNN(_, _) => random_u32(),
            _ => 0,
        };
        let res = self.exec(opcode, random);
        assert((self@, res) == machine::step(old(self)@, random));
        res
    }

    /// Execute the next opcode, with `random` the number for `Cxnn`.
    fn step_with(&mut self, random: u32) -> (r: Result<(), &'static str>)
        requires
            old(self).wf(),
        ensures
            final(self).wf(),
            (final(self)@, r) == machine::step(old(self)@, random),
    {
        let opcode = self.fetch()?;
        self.exec(opcode, random)
    }

    /// Execute one instruction; `random` is the number that `Cxnn` uses.
    #[verifier::rlimit(60)]
    #[verifier::spinoff_prover]
    pub fn exec(&mut self, opcode: Opcode, random: u32) -> (r: Result<(), &'static str>)
        requires
            old(self).wf(),
            opcode.wf(),
        ensures
            final(self).wf(),
            (final(self)@, r) == machine::exec(old(self)@, opcode, random),
    {
        let ghost m0 = self@;
        match opcode {
            Opcode::I00E0 => {
                self.screen = [false; SCREEN_SIZE];
            },
            Opcode::I00EE => {
                self.program_cnt = self.pop()?;
            },
            Opcode::I1NNN(nnn) => {
                self.program_cnt = nnn;
            },
            Opcode::I2NNN(nnn) => {
                self.push(self.program_cnt)?;
                self.program_cnt = nnn;
            },
            Opcode::I3XNN(x, nn) => {
                if self.reg_v[x as usize] == nn {
                    self.skip()?;
                }
            },
            Opcode::I4XNN(x, nn) => {
                if self.reg_v[x as usize] != nn {
                    self.skip()?;
                }
            },
            Opcode::I5XY0(x, y) => {
                if self.reg_v[x as usize] == self.reg_v[y as usize] {
                    self.skip()?;
                }
            },
            Opcode::I6XNN(x, nn) => {
                self.reg_v[x as usize] = nn;
            },
            Opcode::I7XNN(x, nn) => {
                self.reg_v[x as usize] = self.reg_v[x as usize].wrapping_add(nn);
            },
            Opcode::I8XY0(x, y) => {
                self.reg_v[x as usize] = self.reg_v[y as usize];
            },
            Opcode::I8XY1(x, y) => {
                self.reg_v[x as usize] = self.reg_v[x as usize] | self.reg_v[y as usize];
                self.reg_v[0xF] = 0;
            },
            Opcode::I8XY2(x, y) => {
                self.reg_v[x as usize] = self.reg_v[x as usize] & self.reg_v[y as usize];
                self.reg_v[0xF] = 0;
            },
            Opcode::I8XY3(x, y) => {
                self.reg_v[x as usize] = self.reg_v[x as usize] ^ self.reg_v[y as usize];
                self.reg_v[0xF] = 0;
            },
            Opcode::I8XY4(x, y) => {
                let a = self.reg_v[x as usize];
                let b = self.reg_v[y as usize];
                let result = a.wrapping_add(b);
                let carry = a as u16 + b as u16 > 0xFF;
                self.reg_v[x as usize] = result;
                self.reg_v[0xF] = if carry { 1 } else { 0 };
            },
            Opcode::I8XY5(x, y) => {
                let a = self.reg_v[x as usize];
                let b = self.reg_v[y as usize];
                let result = a.wrapping_sub(b);
                let borrow = a < b;
                self.reg_v[x as usize] = result;
                self.reg_v[0xF] = if !borrow { 1 } else { 0 };
            },
            Opcode::I8XY6(x, y) => {
                self.reg_v[x as usize] = self.reg_v[y as usize];
                let val = self.reg_v[x as usize];
                let lsb = val & 1;
                self.reg_v[x as usize] = val >> 1;
                self.reg_v[0xF] = lsb;
                proof {
                    assert(lsb == val % 2 && val >> 1 == val / 2) by (bit_vector)
                        requires
                            lsb == val & 1,
                    ;
                }
            },
            Opcode::I8XY7(x, y) => {
                let a = self.reg_v[x as usize];
                let b = self.reg_v[y as usize];
                let result = b.wrapping_sub(a);
                let borrow = b < a;
                self.reg_v[x as usize] = result;
                self.reg_v[0xF] = if !borrow { 1 } else { 0 };
            },
            Opcode::I8XYE(x, y) => {
                self.reg_v[x as usize] = self.reg_v[y as usize];
                let val = self.reg_v[x as usize];
                let msb = val >> 7;
                self.reg_v[x as usize] = val << 1;
                self.reg_v[0xF] = msb;
                proof {
                    assert(msb == val / 128 && val << 1 == (val * 2) % 256) by (bit_vector)
                        requires
                            msb == val >> 7,
                    ;
                }
            },
            Opcode::I9XY0(x, y) => {
                if self.reg_v[x as usize] != self.reg_v[y as usize] {
                    self.skip()?;
                }
            },
            Opcode::IANNN(nnn) => {
                self.reg_i = nnn;
            },
            Opcode::IBNNN(nnn) => {
                self.program_cnt = nnn + self.reg_v[0] as u16;
            },
            Opcode::ICXNN(x, nn) => {
                let low = random as u16 as u8;
                proof {
                    assert(low == (random % 256) as u8) by (bit_vector)
                        requires
                            low == random as u16 as u8,
                    ;
                }
                self.reg_v[x as usize] = low & nn;
            },
            Opcode::IDXYN(x, y, n) => {
                return self.draw_sprite(x, y, n);
            },
            Opcode::IEX9E(x) => {
                if self.get_key(x)? {
                    self.skip()?;
                }
            },
            Opcode::IEXA1(x) => {
                if !self.get_key(x)? {
                    self.skip()?;
                }
            },
            Opcode::IFX07(x) => {
                self.reg_v[x as usize] = self.delay_timer;
            },
            Opcode::IFX0A(x) => {
                return self.wait_for_key(x);
            },
            Opcode::IFX15(x) => {
                self.delay_timer = self.reg_v[x as usize];
            },
            Opcode::IFX18(x) => {
                self.sound_timer = self.reg_v[x as usize];
            },
            Opcode::IFX1E(x) => {
                self.reg_i = self.reg_i.wrapping_add(self.reg_v[x as usize] as u16);
            },
            Opcode::IFX29(x) => {
                self.reg_i = self.reg_v[x as usize].wrapping_mul(5) as u16;
            },
            Opcode::IFX33(x) => {
                return self.store_bcd(x);
            },
            Opcode::IFX55(x) => {
                return self.store_registers(x);
            },
            Opcode::IFX65(x) => {
                return self.load_registers(x);
            },
        }
        proof {
            assert(self@ =~= machine::exec(m0, opcode, random).0);
        }
        Ok(())
    }

    /// Load the lowest pressed key into register `x` (Fx0A); with no key
    /// pressed, step back so that the instruction runs again.
    fn wait_for_key(&mut self, x: u8) -> (r: Result<(), &'static str>)
        requires
            old(self).wf(),
            x < NUM_REGS,
        ensures
            final(self).wf(),
            (final(self)@, r) == machine::wait_key(old(self)@, x as int),
    {
        let mut any_pressed = false;
        let mut key_code: usize = 0;
        while key_code < self.input.len()
            invariant_except_break
                !any_pressed,
            invariant
                self@ == old(self)@,
                key_code <= NUM_REGS,
                machine::first_true(self.input@, 0) == machine::first_true(self.input@, key_code as int),
            ensures
                self@ == old(self)@,
                any_pressed ==> key_code < NUM_REGS && machine::first_true(self.input@, 0) == key_code,
                !any_pressed ==> machine::first_true(self.input@, 0) == NUM_REGS,
            decreases NUM_REGS - key_code,
        {
            if self.input[key_code] {
                any_pressed = true;
                break;
            }
            key_code += 1;
        }
        if any_pressed {
            self.reg_v[x as usize] = key_code as u8;
        } else {
            self.repeat()?;
        }
        proof {
            assert(self@ =~= machine::wait_key(old(self)@, x as int).0);
        }
        Ok(())
    }

    /// Store the decimal digits of register `x` at I, I+1 and I+2 (Fx33).
    fn store_bcd(&mut self, x: u8) -> (r: Result<(), &'static str>)
        requires
            old(self).wf(),
            x < NUM_REGS,
        ensures
            final(self).wf(),
            (final(self)@, r) == machine::store(old(self)@, old(self)@.i as int, machine::bcd(old(self)@.v[x as int])),
    {
        let ghost m0 = self@;
        let ghost target = machine::store(m0, m0.i as int, machine::bcd(m0.v[x as int]));
        let hundreds = self.reg_v[x as usize] / 100;
        let tens = (self.reg_v[x as usize] / 10) % 10;
        let ones = self.reg_v[x as usize] % 10;
        let r0 = self.write_memory(self.reg_i as usize, hundreds);
        if r0.is_err() {
            assert(self@ =~= target.0);
            return r0;
        }
        let r1 = self.write_memory(self.reg_i as usize + 1, tens);
        if r1.is_err() {
            assert(self@ =~= target.0);
            return r1;
        }
        let r2 = self.write_memory(self.reg_i as usize + 2, ones);
        if r2.is_err() {
            assert(self@ =~= target.0);
            return r2;
        }
        assert(self@ =~= target.0);
        Ok(())
    }

    /// Store registers V0 through Vx at I, I+1, ... and move I past them
    /// (Fx55).
    fn store_registers(&mut self, x: u8) -> (r: Result<(), &'static str>)
        requires
            old(self).wf(),
            x < NUM_REGS,
        ensures
            final(self).wf(),
            (final(self)@, r) == machine::store_regs(old(self)@, x as int),
    {
        let ghost m0 = self@;
        let mut index: u8 = 0;
        while index <= x
            invariant
                m0 == old(self)@,
                m0.wf(),
                x < NUM_REGS,
                index <= x + 1,
                index == 0 || m0.i + index <= MEMORY_SIZE,
                self@ == (Machine {
                    mem: Seq::new(
                        MEMORY_SIZE as nat,
                        |a: int| if m0.i <= a < m0.i + index { m0.v[a - m0.i] } else { m0.mem[a] },
                    ),
                    ..m0
                }),
            decreases x + 1 - index,
        {
            let address = self.reg_i as usize + index as usize;
            let value = self.reg_v[index as usize];
            let res = self.write_memory(address, value);
            if res.is_err() {
                assert(self@ =~= machine::store_regs(m0, x as int).0);
                return res;
            }
            index += 1;
            assert(self@ =~= (Machine {
                mem: Seq::new(
                    MEMORY_SIZE as nat,
                    |a: int| if m0.i <= a < m0.i + index { m0.v[a - m0.i] } else { m0.mem[a] },
                ),
                ..m0
            }));
        }
        self.reg_i = self.reg_i.wrapping_add(x as u16 + 1);
        assert(self@ =~= machine::store_regs(m0, x as int).0);
        Ok(())
    }

    /// Load registers V0 through Vx from I, I+1, ... and move I past them
    /// (Fx65).
    fn load_registers(&mut self, x: u8) -> (r: Result<(), &'static str>)
        requires
            old(self).wf(),
            x < NUM_REGS,
        ensures
            final(self).wf(),
            (final(self)@, r) == machine::load_regs(old(self)@, x as int),
    {
        let ghost m0 = self@;
        let mut index: u8 = 0;
        while index <= x
            invariant
                m0 == old(self)@,
                m0.wf(),
                x < NUM_REGS,
                index <= x + 1,
                index == 0 || m0.i + index <= MEMORY_SIZE,
                self@ == (Machine {
                    v: Seq::new(
                        NUM_REGS as nat,
                        |k: int| if k < index { m0.mem[m0.i + k] } else { m0.v[k] },
                    ),
                    ..m0
                }),
            decreases x + 1 - index,
        {
            let address = self.reg_i as usize + index as usize;
            let value = match self.load(address) {
                Ok(value) => value,
                Err(e) => {
                    assert(self@ =~= machine::load_regs(m0, x as int).0);
                    return Err(e);
                },
            };
            self.reg_v[index as usize] = value;
            index += 1;
            assert(self@ =~= (Machine {
                v: Seq::new(
                    NUM_REGS as nat,
                    |k: int| if k < index { m0.mem[m0.i + k] } else { m0.v[k] },
                ),
                ..m0
            }));
        }
        self.reg_i = self.reg_i.wrapping_add(x as u16 + 1);
        assert(self@ =~= machine::load_regs(m0, x as int).0);
        Ok(())
    }

    /// Draw the sprite of instruction Dxyn.
    fn draw_sprite(&mut self, x: u8, y: u8, n: u8) -> (r: Result<(), &'static str>)
        requires
            old(self).wf(),
            x < NUM_REGS,
            y < NUM_REGS,
            n < 16,
        ensures
            final(self).wf(),
            (final(self)@, r) == machine::draw(old(self)@, x as int, y as int, n as int),
    {
        let ghost m0 = self@;
        let vx = self.reg_v[x as usize] % SCREEN_WIDTH as u8;
        let vy = self.reg_v[y as usize] % SCREEN_HEIGHT as u8;
        self.reg_v[0xF] = 0;
        let ghost visible: int = if n < SCREEN_HEIGHT - vy { n as int } else { SCREEN_HEIGHT - vy };
        let ghost cols: int = if 8 < SCREEN_WIDTH - vx { 8 } else { SCREEN_WIDTH - vx };
        proof {
            assert(self@ =~= machine::drawn(m0, vx as int, vy as int, 0, 0));
        }
        let mut row: u8 = 0;
        while row < n
            invariant
                m0 == old(self)@,
                m0.wf(),
                x < NUM_REGS,
                y < NUM_REGS,
                vx == m0.v[x as int] % 64,
                vy == m0.v[y as int] % 32,
                n < 16,
                visible == (if n < SCREEN_HEIGHT - vy { n as int } else { SCREEN_HEIGHT - vy }),
                cols == (if 8 < SCREEN_WIDTH - vx { 8 } else { SCREEN_WIDTH - vx }),
                row <= visible,
                row == 0 || m0.i + row <= MEMORY_SIZE,
                self@ == machine::drawn(m0, vx as int, vy as int, row as int, 0),
            ensures
                self@ == machine::drawn(m0, vx as int, vy as int, visible, 0),
                visible == 0 || m0.i + visible <= MEMORY_SIZE,
            decreases n - row,
        {
            let screen_y = vy + row;
            if screen_y >= SCREEN_HEIGHT as u8 {
                break;
            }
            let sprite_address = self.reg_i as usize + row as usize;
            let sprite_row = match self.load(sprite_address) {
                Ok(byte) => byte,
                Err(e) => {
                    assert(machine::mem_span(m0.i as int, visible) == row);
                    return Err(e);
                },
            };
            let mut col: u8 = 0;
            while col < 8
                invariant
                    m0.wf(),
                    vx < 64,
                    vy + row < 32,
                    screen_y == vy + row,
                    cols == (if 8 < SCREEN_WIDTH - vx { 8 } else { SCREEN_WIDTH - vx }),
                    col <= cols,
                    m0.i + row < MEMORY_SIZE,
                    sprite_row == m0.mem[m0.i + row],
                    self@ == machine::drawn(m0, vx as int, vy as int, row as int, col as int),
                ensures
                    self@ == machine::drawn(m0, vx as int, vy as int, row as int, cols),
                decreases 8 - col,
            {
                let screen_x = vx + col;
                if screen_x >= SCREEN_WIDTH as u8 {
                    break;
                }
                let sprite_pixel = (sprite_row & (0b1000_0000 >> col)) != 0;
                proof {
                    lemma_mask_is_bit(sprite_row, col);
                    lemma_drawn_pixel(m0, vx as int, vy as int, row as int, col as int);
                }
                let screen_pixel_index = screen_x as usize + screen_y as usize * SCREEN_WIDTH;
                let screen_pixel = self.screen[screen_pixel_index];
                if sprite_pixel && screen_pixel {
                    self.reg_v[0xF] = 1;
                }
                self.screen[screen_pixel_index] = screen_pixel ^ sprite_pixel;
                col += 1;
                proof {
                    assert(self@ =~= machine::drawn(m0, vx as int, vy as int, row as int, col as int));
                }
            }
            proof {
                lemma_drawn_next_row(m0, vx as int, vy as int, row as int, cols);
            }
            row += 1;
        }
        Ok(())
    }
}

/// The mask that the drawing loop applies picks bit `7 - col` of the byte.
proof fn lemma_mask_is_bit(byte: u8, col: u8)
    requires
        col < 8,
    ensures
        ((byte & (0b1000_0000u8 >> col)) != 0) == machine::bit(byte, 7 - col),
{
    let k = (7 - col) as u8;
    assert(((byte & (0x80u8 >> col)) != 0) == ((byte >> k) & 1u8 == 1u8)) by (bit_vector)
        requires
            col < 8,
            k == 7 - col,
    ;
}

/// Drawing one more pixel of a sprite row flips that pixel only, and adds
/// its collision, if any.
proof fn lemma_drawn_pixel(m: Machine, vx: int, vy: int, row: int, col: int)
    requires
        m.wf(),
        0 <= vx,
        0 <= vy,
        0 <= row,
        0 <= col < 8,
        vx + col < SCREEN_WIDTH,
        vy + row < SCREEN_HEIGHT,
        m.i + row < MEMORY_SIZE,
    ensures
        ({
            let q = (vx + col) + (vy + row) * 64;
            let b = machine::bit(m.mem[m.i + row], 7 - col);
            let before = machine::drawn(m, vx, vy, row, col);
            let after = machine::drawn(m, vx, vy, row, col + 1);
            &&& 0 <= q < SCREEN_SIZE
            &&& before.screen[q] == m.screen[q]
            &&& after.screen =~= before.screen.update(q, before.screen[q] != b)
            &&& machine::collides(m, vx, vy, row, col + 1) == (machine::collides(m, vx, vy, row, col)
                || (m.screen[q] && b))
        }),
{
    let q = (vx + col) + (vy + row) * 64;
    let b = machine::bit(m.mem[m.i + row], 7 - col);
    machine::lemma_pixel_index(vx + col, vy + row);
    assert forall|p: int| 0 <= p < SCREEN_SIZE implies #[trigger] machine::sprite_covers(m, vx, vy, row, col + 1, p)
        == (machine::sprite_covers(m, vx, vy, row, col, p) || (p == q && b)) by {
        machine::lemma_pixel_index(p % 64, p / 64);
    }
    if machine::collides(m, vx, vy, row, col + 1) {
        let p = choose|p: int| 0 <= p < SCREEN_SIZE && m.screen[p] && #[trigger] machine::sprite_covers(m, vx, vy, row, col + 1, p);
        if p != q {
            assert(machine::sprite_covers(m, vx, vy, row, col, p));
        }
    }
    if machine::collides(m, vx, vy, row, col) {
        let p = choose|p: int| 0 <= p < SCREEN_SIZE && m.screen[p] && #[trigger] machine::sprite_covers(m, vx, vy, row, col, p);
        assert(machine::sprite_covers(m, vx, vy, row, col + 1, p));
    }
    if m.screen[q] && b {
        assert(machine::sprite_covers(m, vx, vy, row, col + 1, q));
    }
}

/// Once a sprite row is drawn up to the right edge or its eighth pixel, the
/// next row begins.
proof fn lemma_drawn_next_row(m: Machine, vx: int, vy: int, row: int, cols: int)
    requires
        m.wf(),
        0 <= vx < SCREEN_WIDTH,
        cols == (if 8 < SCREEN_WIDTH - vx { 8 } else { SCREEN_WIDTH - vx }),
    ensures
        machine::drawn(m, vx, vy, row, cols) == machine::drawn(m, vx, vy, row + 1, 0),
{
    assert forall|p: int| 0 <= p < SCREEN_SIZE implies #[trigger] machine::sprite_covers(m, vx, vy, row, cols, p)
        == machine::sprite_covers(m, vx, vy, row + 1, 0, p) by {
    }
    if machine::collides(m, vx, vy, row, cols) {
        let p = choose|p: int| 0 <= p < SCREEN_SIZE && m.screen[p] && #[trigger] machine::sprite_covers(m, vx, vy, row, cols, p);
        assert(machine::sprite_covers(m, vx, vy, row + 1, 0, p));
    }
    if machine::collides(m, vx, vy, row + 1, 0) {
        let p = choose|p: int| 0 <= p < SCREEN_SIZE && m.screen[p] && #[trigger] machine::sprite_covers(m, vx, vy, row + 1, 0, p);
        assert(machine::sprite_covers(m, vx, vy, row, cols, p));
    }
    assert(machine::drawn(m, vx, vy, row, cols) =~= machine::drawn(m, vx, vy, row + 1, 0));
}

} // verus!
