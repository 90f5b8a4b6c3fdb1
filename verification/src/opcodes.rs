//! Decoding of CHIP-8 instructions.
use vstd::prelude::*;

verus! {

/// A decoded CHIP-8 instruction.
///
/// `x` and `y` name registers, `n` is a 4-bit literal, `nn` a byte and
/// `nnn` a 12-bit address.
#[derive(Clone, Copy, PartialEq, Eq, Structural, Debug)]
pub enum Opcode {
    /// 00E0. `cls`: Clear Screen
    I00E0,
    /// 00EE. `ret`: Return
    I00EE,
    /// 1nnn. `jp addr`: Jump to `addr`
    I1NNN(u16),
    /// 2nnn. `call addr`: Call routine at `addr`
    I2NNN(u16),
    /// 3xnn. `se Vn kk`: Skip if `Vn` equals `kk`
    I3XNN(u8, u8),
    /// 4xnn. `sne Vn kk`: Skip if `Vn` does not equal `kk`
    I4XNN(u8, u8),
    /// 5xy0. `se Vx Vy`: Skip if `Vn` equals `Vy`
    I5XY0(u8, u8),
    /// 6xnn. `ld Vx, kk`: Loads a literal value `kk` into `Vx`
    I6XNN(u8, u8),
    /// 7xnn. `add Vn, kk`: Add `kk` to register `Vx`
    I7XNN(u8, u8),
    /// 8xy0. `ld Vx, Vy`: Loads register `Vy` into `Vx`
    I8XY0(u8, u8),
    /// 8xy1. `or Vx, Vy`: Bitwise OR the value in `Vy` with register `Vx`
    I8XY1(u8, u8),
    /// 8xy2. `and Vx, Vy`: Bitwise AND the value in `Vy` with register `Vx`
    I8XY2(u8, u8),
    /// 8xy3. `xor Vx, Vy`: Bitwise XOR the value in `Vy` with register `Vx`
    I8XY3(u8, u8),
    /// 8xy4. `add Vx, Vy`: Add the value in `Vy` to register `Vx`
    I8XY4(u8, u8),
    /// 8xy5. `sub Vx, Vy`: Subtract the value in `Vy` from register `Vx`
    I8XY5(u8, u8),
    /// 8xy6. `shr Vx [, Vy]`: Shift `Vx` to the right with the value in `Vy`
    I8XY6(u8, u8),
    /// 8xy7. `subn Vx, Vy`: Subtract the value in `Vx` from `Vy` into `Vx`
    I8XY7(u8, u8),
    /// 8xyE. `shl Vx [, Vy]`: Shift `Vx` to the left with the value in `Vy`
    I8XYE(u8, u8),
    /// 9xy0. `sne Vx Vy`: Skip if `Vn` does not equal `Vy`
    I9XY0(u8, u8),
    /// Annn. `ld I, nnn`: Loads `nnn` into register `I`
    IANNN(u16),
    /// Bnnn. `jp v0, addr`: Jump to `v0 + addr`
    IBNNN(u16),
    /// Cxnn. `rnd Vn, kk`: random number AND `kk` into `Vn`
    ICXNN(u8, u8),
    /// Dxyn. `drw Vx, Vy, n`: Draw a sprite of `n` rows at `Vx,Vy`
    IDXYN(u8, u8, u8),
    /// Ex9e. `skp Vn`: Skip if key in `Vn` pressed
    IEX9E(u8),
    /// Exa1. `sknp Vn`: Skip if key in `Vn` not pressed
    IEXA1(u8),
    /// Fx07. `ld Vx, DT`: Loads the delay timer into register `Vx`
    IFX07(u8),
    /// Fx0a. `ld Vn, K`: loads a key pressed into `Vn`
    IFX0A(u8),
    /// Fx15. `delay Vx`: Loads register `Vx` into the delay timer
    IFX15(u8),
    /// Fx18. `sound Vx`: Loads register `Vx` into the sound timer
    IFX18(u8),
    /// Fx1E. `add I, Vn`: Add the value in `Vn` to register `I`
    IFX1E(u8),
    /// Fx29. `hex Vx`: Loads the 8x5 font sprite of `Vx` into `I`
    IFX29(u8),
    /// Fx33. `bcd Vx`: Load BCD value of `Vx` into `I` to `I+2`
    IFX33(u8),
    /// Fx55. `stor Vx`: Stores `V0` through `Vx` to the address in `I`
    IFX55(u8),
    /// Fx65. `rstr Vx`: Restores `V0` through `Vx` from the address in `I`
    IFX65(u8),
}

/// The `k`-th hexadecimal digit of `word`, counting from the least significant.
pub open spec fn nibble(word: u16, k: nat) -> u8 {
    ((word as int / vstd::arithmetic::power::pow(16, k)) % 16) as u8
}

/// The register `x`, the second nibble from the left.
pub open spec fn field_x(word: u16) -> u8 {
    nibble(word, 2)
}

/// The register `y`, the third nibble from the left.
pub open spec fn field_y(word: u16) -> u8 {
    nibble(word, 1)
}

/// The 4-bit literal `n`, the last nibble.
pub open spec fn field_n(word: u16) -> u8 {
    nibble(word, 0)
}

/// The byte literal `nn`, the low byte.
pub open spec fn field_nn(word: u16) -> u8 {
    (word % 256) as u8
}

/// The address `nnn`, the low twelve bits.
pub open spec fn field_nnn(word: u16) -> u16 {
    (word % 4096) as u16
}

/// The instruction that the 16-bit word `word` encodes, if any.
pub open spec fn decode(word: u16) -> Option<Opcode> {
    let kind = nibble(word, 3);
    let x = field_x(word);
    let y = field_y(word);
    let n = field_n(word);
    let nn = field_nn(word);
    let nnn = field_nnn(word);
    if kind == 0x0 {
        if word == 0x00E0 {
            Some(Opcode::I00E0)
        } else if word == 0x00EE {
            Some(Opcode::I00EE)
        } else {
            None
        }
    } else if kind == 0x1 {
        Some(Opcode::I1NNN(nnn))
    } else if kind == 0x2 {
        Some(Opcode::I2NNN(nnn))
    } else if kind == 0x3 {
        Some(Opcode::I3XNN(x, nn))
    } else if kind == 0x4 {
        Some(Opcode::I4XNN(x, nn))
    } else if kind == 0x5 {
        if n == 0x0 { Some(Opcode::I5XY0(x, y)) } else { None }
    } else if kind == 0x6 {
        Some(Opcode::I6XNN(x, nn))
    } else if kind == 0x7 {
        Some(Opcode::I7XNN(x, nn))
    } else if kind == 0x8 {
        if n == 0x0 {
            Some(Opcode::I8XY0(x, y))
        } else if n == 0x1 {
            Some(Opcode::I8XY1(x, y))
        } else if n == 0x2 {
            Some(Opcode::I8XY2(x, y))
        } else if n == 0x3 {
            Some(Opcode::I8XY3(x, y))
        } else if n == 0x4 {
            Some(Opcode::I8XY4(x, y))
        } else if n == 0x5 {
            Some(Opcode::I8XY5(x, y))
        } else if n == 0x6 {
            Some(Opcode::I8XY6(x, y))
        } else if n == 0x7 {
            Some(Opcode::I8XY7(x, y))
        } else if n == 0xE {
            Some(Opcode::I8XYE(x, y))
        } else {
            None
        }
    } else if kind == 0x9 {
        if n == 0x0 { Some(Opcode::I9XY0(x, y)) } else { None }
    } else if kind == 0xA {
        Some(Opcode::IANNN(nnn))
    } else if kind == 0xB {
        Some(Opcode::IBNNN(nnn))
    } else if kind == 0xC {
        Some(Opcode::ICXNN(x, nn))
    } else if kind == 0xD {
        Some(Opcode::IDXYN(x, y, n))
    } else if kind == 0xE {
        if nn == 0x9E {
            Some(Opcode::IEX9E(x))
        } else if nn == 0xA1 {
            Some(Opcode::IEXA1(x))
        } else {
            None
        }
    } else {
        if nn == 0x07 {
            Some(Opcode::IFX07(x))
        } else if nn == 0x0A {
            Some(Opcode::IFX0A(x))
        } else if nn == 0x15 {
            Some(Opcode::IFX15(x))
        } else if nn == 0x18 {
            Some(Opcode::IFX18(x))
        } else if nn == 0x1E {
            Some(Opcode::IFX1E(x))
        } else if nn == 0x29 {
            Some(Opcode::IFX29(x))
        } else if nn == 0x33 {
            Some(Opcode::IFX33(x))
        } else if nn == 0x55 {
            Some(Opcode::IFX55(x))
        } else if nn == 0x65 {
            Some(Opcode::IFX65(x))
        } else {
            None
        }
    }
}

impl Opcode {
    /// Every field fits the width that the encoding gives it: registers and
    /// `n` in four bits, addresses in twelve.
    pub open spec fn wf(self) -> bool {
        match self {
            Opcode::I00E0 | Opcode::I00EE => true,
            Opcode::I1NNN(nnn) | Opcode::I2NNN(nnn) | Opcode::IANNN(nnn) | Opcode::IBNNN(nnn) => nnn < 0x1000,
            Opcode::I3XNN(x, _) | Opcode::I4XNN(x, _) | Opcode::I6XNN(x, _) | Opcode::I7XNN(x, _)
            | Opcode::ICXNN(x, _) => x < 16,
            Opcode::I5XY0(x, y) | Opcode::I8XY0(x, y) | Opcode::I8XY1(x, y) | Opcode::I8XY2(x, y)
            | Opcode::I8XY3(x, y) | Opcode::I8XY4(x, y) | Opcode::I8XY5(x, y) | Opcode::I8XY6(x, y)
            | Opcode::I8XY7(x, y) | Opcode::I8XYE(x, y) | Opcode::I9XY0(x, y) => x < 16 && y < 16,
            Opcode::IDXYN(x, y, n) => x < 16 && y < 16 && n < 16,
            Opcode::IEX9E(x) | Opcode::IEXA1(x) | Opcode::IFX07(x) | Opcode::IFX0A(x)
            | Opcode::IFX15(x) | Opcode::IFX18(x) | Opcode::IFX1E(x) | Opcode::IFX29(x)
            | Opcode::IFX33(x) | Opcode::IFX55(x) | Opcode::IFX65(x) => x < 16,
        }
    }

    /// Decode a 16-bit instruction word; `None` for a word that encodes no
    /// instruction.
    pub fn new(opcode: u16) -> (r: Option<Opcode>)
        ensures
            r == decode(opcode),
            r matches Some(op) ==> op.wf(),
    {
        proof {
            lemma_fields(opcode);
        }
        let x = ((opcode >> 8) & 0x000F) as u8;
        let y = ((opcode >> 4) & 0x000F) as u8;
        let n = (opcode & 0x000F) as u8;
        let nn = (opcode & 0x00FF) as u8;
        let nnn = opcode & 0x0FFF;

        match opcode & 0xF000 {
            0x0000 => match opcode {
                0x00E0 => Some(Opcode::I00E0),
                0x00EE => Some(Opcode::I00EE),
                _ => None,
            },
            0x1000 => Some(Opcode::I1NNN(nnn)),
            0x2000 => Some(Opcode::I2NNN(nnn)),
            0x3000 => Some(Opcode::I3XNN(x, nn)),
            0x4000 => Some(Opcode::I4XNN(x, nn)),
            0x5000 => match n {
                0x0 => Some(Opcode::I5XY0(x, y)),
                _ => None,
            },
            0x6000 => Some(Opcode::I6XNN(x, nn)),
            0x7000 => Some(Opcode::I7XNN(x, nn)),
            0x8000 => match n {
                0x0 => Some(Opcode::I8XY0(x, y)),
                0x1 => Some(Opcode::I8XY1(x, y)),
                0x2 => Some(Opcode::I8XY2(x, y)),
                0x3 => Some(Opcode::I8XY3(x, y)),
                0x4 => Some(Opcode::I8XY4(x, y)),
                0x5 => Some(Opcode::I8XY5(x, y)),
                0x6 => Some(Opcode::I8XY6(x, y)),
                0x7 => Some(Opcode::I8XY7(x, y)),
                0xE => Some(Opcode::I8XYE(x, y)),
                _ => None,
            },
            0x9000 => match n {
                0x0 => Some(Opcode::I9XY0(x, y)),
                _ => None,
            },
            0xA000 => Some(Opcode::IANNN(nnn)),
            0xB000 => Some(Opcode::IBNNN(nnn)),
            0xC000 => Some(Opcode::ICXNN(x, nn)),
            0xD000 => Some(Opcode::IDXYN(x, y, n)),
            0xE000 => match nn {
                0x9E => Some(Opcode::IEX9E(x)),
                0xA1 => Some(Opcode::IEXA1(x)),
                _ => None,
            },
            0xF000 => match nn {
                0x07 => Some(Opcode::IFX07(x)),
                0x0A => Some(Opcode::IFX0A(x)),
                0x15 => Some(Opcode::IFX15(x)),
                0x18 => Some(Opcode::IFX18(x)),
                0x1E => Some(Opcode::IFX1E(x)),
                0x29 => Some(Opcode::IFX29(x)),
                0x33 => Some(Opcode::IFX33(x)),
                0x55 => Some(Opcode::IFX55(x)),
                0x65 => Some(Opcode::IFX65(x)),
                _ => None,
            },
            _ => None,
        }
    }
}

/// The masks and shifts that the decoder applies compute the nibbles and
/// fields of the word.
proof fn lemma_fields(w: u16)
    ensures
        ((w >> 8) & 0x000F) as u8 == field_x(w),
        ((w >> 4) & 0x000F) as u8 == field_y(w),
        (w & 0x000F) as u8 == field_n(w),
        (w & 0x00FF) as u8 == field_nn(w),
        w & 0x0FFF == field_nnn(w),
        w & 0xF000 == nibble(w, 3) as u16 * 0x1000,
        field_x(w) < 16,
        field_y(w) < 16,
        field_n(w) < 16,
        field_nnn(w) < 0x1000,
{
    lemma_pow16();
    assert(((w >> 8) & 0x000F) == (w / 256) % 16) by (bit_vector);
    assert(((w >> 4) & 0x000F) == (w / 16) % 16) by (bit_vector);
    assert((w & 0x000F) == w % 16) by (bit_vector);
    assert((w & 0x00FF) == w % 256) by (bit_vector);
    assert((w & 0x0FFF) == w % 4096) by (bit_vector);
    assert((w & 0xF000) == ((w / 4096) % 16) * 4096) by (bit_vector);
}

/// The place values of the four nibbles of a word.
proof fn lemma_pow16()
    ensures
        vstd::arithmetic::power::pow(16, 0) == 1,
        vstd::arithmetic::power::pow(16, 1) == 16,
        vstd::arithmetic::power::pow(16, 2) == 256,
        vstd::arithmetic::power::pow(16, 3) == 4096,
{
    vstd::arithmetic::power::lemma_pow0(16);
    vstd::arithmetic::power::lemma_pow1(16);
    vstd::arithmetic::power::lemma_pow_adds(16, 1, 1);
    vstd::arithmetic::power::lemma_pow_adds(16, 2, 1);
}

/// A word is made of its four nibbles, and the byte and address fields are
/// made of the nibbles below them.
pub proof fn lemma_word_from_fields(w: u16)
    ensures
        w == nibble(w, 3) * 4096 + field_x(w) * 256 + field_y(w) * 16 + field_n(w),
        field_nn(w) == field_y(w) * 16 + field_n(w),
        field_nnn(w) == field_x(w) * 256 + field_nn(w),
        nibble(w, 3) < 16,
{
    lemma_pow16();
    assert(w == ((w / 4096) % 16) * 4096 + ((w / 256) % 16) * 256 + ((w / 16) % 16) * 16 + w % 16
        && w % 256 == ((w / 16) % 16) * 16 + w % 16 && w % 4096 == ((w / 256) % 16) * 256 + w % 256)
        by (bit_vector);
}

/// The instruction word of `op`, written digit by digit as the CHIP-8
/// reference lists it: the kind digit, then x, y, n (or nn, or nnn).
pub open spec fn encode(op: Opcode) -> int {
    match op {
        Opcode::I00E0 => 0x00E0,
        Opcode::I00EE => 0x00EE,
        Opcode::I1NNN(nnn) => 0x1000 + nnn,
        Opcode::I2NNN(nnn) => 0x2000 + nnn,
        Opcode::I3XNN(x, nn) => 0x3000 + x * 0x100 + nn,
        Opcode::I4XNN(x, nn) => 0x4000 + x * 0x100 + nn,
        Opcode::I5XY0(x, y) => 0x5000 + x * 0x100 + y * 0x10,
        Opcode::I6XNN(x, nn) => 0x6000 + x * 0x100 + nn,
        Opcode::I7XNN(x, nn) => 0x7000 + x * 0x100 + nn,
        Opcode::I8XY0(x, y) => 0x8000 + x * 0x100 + y * 0x10,
        Opcode::I8XY1(x, y) => 0x8000 + x * 0x100 + y * 0x10 + 0x1,
        Opcode::I8XY2(x, y) => 0x8000 + x * 0x100 + y * 0x10 + 0x2,
        Opcode::I8XY3(x, y) => 0x8000 + x * 0x100 + y * 0x10 + 0x3,
        Opcode::I8XY4(x, y) => 0x8000 + x * 0x100 + y * 0x10 + 0x4,
        Opcode::I8XY5(x, y) => 0x8000 + x * 0x100 + y * 0x10 + 0x5,
        Opcode::I8XY6(x, y) => 0x8000 + x * 0x100 + y * 0x10 + 0x6,
        Opcode::I8XY7(x, y) => 0x8000 + x * 0x100 + y * 0x10 + 0x7,
        Opcode::I8XYE(x, y) => 0x8000 + x * 0x100 + y * 0x10 + 0xE,
        Opcode::I9XY0(x, y) => 0x9000 + x * 0x100 + y * 0x10,
        Opcode::IANNN(nnn) => 0xA000 + nnn,
        Opcode::IBNNN(nnn) => 0xB000 + nnn,
        Opcode::ICXNN(x, nn) => 0xC000 + x * 0x100 + nn,
        Opcode::IDXYN(x, y, n) => 0xD000 + x * 0x100 + y * 0x10 + n,
        Opcode::IEX9E(x) => 0xE000 + x * 0x100 + 0x9E,
        Opcode::IEXA1(x) => 0xE000 + x * 0x100 + 0xA1,
        Opcode::IFX07(x) => 0xF000 + x * 0x100 + 0x07,
        Opcode::IFX0A(x) => 0xF000 + x * 0x100 + 0x0A,
        Opcode::IFX15(x) => 0xF000 + x * 0x100 + 0x15,
        Opcode::IFX18(x) => 0xF000 + x * 0x100 + 0x18,
        Opcode::IFX1E(x) => 0xF000 + x * 0x100 + 0x1E,
        Opcode::IFX29(x) => 0xF000 + x * 0x100 + 0x29,
        Opcode::IFX33(x) => 0xF000 + x * 0x100 + 0x33,
        Opcode::IFX55(x) => 0xF000 + x * 0x100 + 0x55,
        Opcode::IFX65(x) => 0xF000 + x * 0x100 + 0x65,
    }
}

/// A word that decodes is the encoding of the instruction it decodes to.
pub proof fn law_decode_then_encode(w: u16)
    requires
        decode(w) is Some,
    ensures
        encode(decode(w).unwrap()) == w,
{
    lemma_word_from_fields(w);
}

/// The digits of a word built from four hexadecimal digits are those digits.
proof fn lemma_digits(a: int, b: int, c: int, d: int)
    requires
        0 <= a < 16,
        0 <= b < 16,
        0 <= c < 16,
        0 <= d < 16,
    ensures
        ({
            let w = (a * 4096 + b * 256 + c * 16 + d) as u16;
            &&& w == a * 4096 + b * 256 + c * 16 + d
            &&& nibble(w, 3) == a
            &&& field_x(w) == b
            &&& field_y(w) == c
            &&& field_n(w) == d
            &&& field_nn(w) == c * 16 + d
            &&& field_nnn(w) == b * 256 + c * 16 + d
        }),
{
    let w = (a * 4096 + b * 256 + c * 16 + d) as u16;
    lemma_word_from_fields(w);
    lemma_fields(w);
    let a1 = a as u16;
    let b1 = b as u16;
    let c1 = c as u16;
    let d1 = d as u16;
    assert(w == a1 * 4096 + b1 * 256 + c1 * 16 + d1);
    assert(((w >> 8) & 0xF) == b1 && ((w >> 4) & 0xF) == c1 && (w & 0xF) == d1 && ((w / 4096) % 16) == a1)
        by (bit_vector)
        requires
            w == a1 * 4096 + b1 * 256 + c1 * 16 + d1,
            a1 < 16,
            b1 < 16,
            c1 < 16,
            d1 < 16,
    ;
}

/// Round trip for the instructions of kinds 0 through 7.
#[verifier::spinoff_prover]
proof fn lemma_encode_decode_low(op: Opcode)
    requires
        op.wf(),
    ensures
        0 <= encode(op) <= u16::MAX,
        (
            op is I00E0
            || op is I00EE
            || op is I1NNN
            || op is I2NNN
            || op is I3XNN
            || op is I4XNN
            || op is I5XY0
            || op is I6XNN
            || op is I7XNN
        ) ==> decode(encode(op) as u16) == Some(op),
{
    match op {
        Opcode::I00E0 => lemma_digits(0, 0, 0xE, 0),
        Opcode::I00EE => lemma_digits(0, 0, 0xE, 0xE),
        Opcode::I1NNN(nnn) => lemma_digits(1, nnn as int / 256, (nnn as int / 16) % 16, nnn as int % 16),
        Opcode::I2NNN(nnn) => lemma_digits(2, nnn as int / 256, (nnn as int / 16) % 16, nnn as int % 16),
        Opcode::I3XNN(x, nn) => lemma_digits(3, x as int, nn as int / 16, nn as int % 16),
        Opcode::I4XNN(x, nn) => lemma_digits(4, x as int, nn as int / 16, nn as int % 16),
        Opcode::I5XY0(x, y) => lemma_digits(5, x as int, y as int, 0),
        Opcode::I6XNN(x, nn) => lemma_digits(6, x as int, nn as int / 16, nn as int % 16),
        Opcode::I7XNN(x, nn) => lemma_digits(7, x as int, nn as int / 16, nn as int % 16),
        _ => {},
    }
}

/// Round trip for the instructions of kinds 8 and 9.
#[verifier::spinoff_prover]
proof fn lemma_encode_decode_mid(op: Opcode)
    requires
        op.wf(),
    ensures
        0 <= encode(op) <= u16::MAX,
        (
            op is I8XY0
            || op is I8XY1
            || op is I8XY2
            || op is I8XY3
            || op is I8XY4
            || op is I8XY5
            || op is I8XY6
            || op is I8XY7
            || op is I8XYE
            || op is I9XY0
        ) ==> decode(encode(op) as u16) == Some(op),
{
    match op {
        Opcode::I8XY0(x, y) => lemma_digits(8, x as int, y as int, 0),
        Opcode::I8XY1(x, y) => lemma_digits(8, x as int, y as int, 1),
        Opcode::I8XY2(x, y) => lemma_digits(8, x as int, y as int, 2),
        Opcode::I8XY3(x, y) => lemma_digits(8, x as int, y as int, 3),
        Opcode::I8XY4(x, y) => lemma_digits(8, x as int, y as int, 4),
        Opcode::I8XY5(x, y) => lemma_digits(8, x as int, y as int, 5),
        Opcode::I8XY6(x, y) => lemma_digits(8, x as int, y as int, 6),
        Opcode::I8XY7(x, y) => lemma_digits(8, x as int, y as int, 7),
        Opcode::I8XYE(x, y) => lemma_digits(8, x as int, y as int, 0xE),
        Opcode::I9XY0(x, y) => lemma_digits(9, x as int, y as int, 0),
        _ => {},
    }
}

/// Round trip for the instructions of kinds A through F.
#[verifier::spinoff_prover]
proof fn lemma_encode_decode_high(op: Opcode)
    requires
        op.wf(),
    ensures
        0 <= encode(op) <= u16::MAX,
        (
            op is IANNN
            || op is IBNNN
            || op is ICXNN
            || op is IDXYN
            || op is IEX9E
            || op is IEXA1
            || op is IFX07
            || op is IFX0A
            || op is IFX15
            || op is IFX18
            || op is IFX1E
            || op is IFX29
            || op is IFX33
            || op is IFX55
            || op is IFX65
        ) ==> decode(encode(op) as u16) == Some(op),
{
    match op {
        Opcode::IANNN(nnn) => lemma_digits(0xA, nnn as int / 256, (nnn as int / 16) % 16, nnn as int % 16),
        Opcode::IBNNN(nnn) => lemma_digits(0xB, nnn as int / 256, (nnn as int / 16) % 16, nnn as int % 16),
        Opcode::ICXNN(x, nn) => lemma_digits(0xC, x as int, nn as int / 16, nn as int % 16),
        Opcode::IDXYN(x, y, n) => lemma_digits(0xD, x as int, y as int, n as int),
        Opcode::IEX9E(x) => lemma_digits(0xE, x as int, 9, 0xE),
        Opcode::IEXA1(x) => lemma_digits(0xE, x as int, 0xA, 1),
        Opcode::IFX07(x) => lemma_digits(0xF, x as int, 0, 7),
        Opcode::IFX0A(x) => lemma_digits(0xF, x as int, 0, 0xA),
        Opcode::IFX15(x) => lemma_digits(0xF, x as int, 1, 5),
        Opcode::IFX18(x) => lemma_digits(0xF, x as int, 1, 8),
        Opcode::IFX1E(x) => lemma_digits(0xF, x as int, 1, 0xE),
        Opcode::IFX29(x) => lemma_digits(0xF, x as int, 2, 9),
        Opcode::IFX33(x) => lemma_digits(0xF, x as int, 3, 3),
        Opcode::IFX55(x) => lemma_digits(0xF, x as int, 5, 5),
        Opcode::IFX65(x) => lemma_digits(0xF, x as int, 6, 5),
        _ => {},
    }
}

/// Every well-formed instruction decodes from its encoding.
pub proof fn law_encode_then_decode(op: Opcode)
    requires
        op.wf(),
    ensures
        0 <= encode(op) <= u16::MAX,
        decode(encode(op) as u16) == Some(op),
{
    lemma_encode_decode_low(op);
    lemma_encode_decode_mid(op);
    lemma_encode_decode_high(op);
}

} // verus!
