use firefly_chip8::opcodes::Opcode;

#[test]
fn decodes_fixed_words() {
    assert_eq!(Opcode::new(0x00E0), Some(Opcode::I00E0));
    assert_eq!(Opcode::new(0x00EE), Some(Opcode::I00EE));
    assert_eq!(Opcode::new(0x00E1), None);
    assert_eq!(Opcode::new(0x0123), None);
}

#[test]
fn decodes_fields() {
    assert_eq!(Opcode::new(0x1ABC), Some(Opcode::I1NNN(0xABC)));
    assert_eq!(Opcode::new(0x2ABC), Some(Opcode::I2NNN(0xABC)));
    assert_eq!(Opcode::new(0x3A42), Some(Opcode::I3XNN(0xA, 0x42)));
    assert_eq!(Opcode::new(0x4A42), Some(Opcode::I4XNN(0xA, 0x42)));
    assert_eq!(Opcode::new(0x5AB0), Some(Opcode::I5XY0(0xA, 0xB)));
    assert_eq!(Opcode::new(0x6A42), Some(Opcode::I6XNN(0xA, 0x42)));
    assert_eq!(Opcode::new(0x7A42), Some(Opcode::I7XNN(0xA, 0x42)));
    assert_eq!(Opcode::new(0x9AB0), Some(Opcode::I9XY0(0xA, 0xB)));
    assert_eq!(Opcode::new(0xA123), Some(Opcode::IANNN(0x123)));
    assert_eq!(Opcode::new(0xB123), Some(Opcode::IBNNN(0x123)));
    assert_eq!(Opcode::new(0xC1FF), Some(Opcode::ICXNN(1, 0xFF)));
    assert_eq!(Opcode::new(0xD12F), Some(Opcode::IDXYN(1, 2, 0xF)));
}

#[test]
fn decodes_arithmetic_group() {
    assert_eq!(Opcode::new(0x8120), Some(Opcode::I8XY0(1, 2)));
    assert_eq!(Opcode::new(0x8121), Some(Opcode::I8XY1(1, 2)));
    assert_eq!(Opcode::new(0x8122), Some(Opcode::I8XY2(1, 2)));
    assert_eq!(Opcode::new(0x8123), Some(Opcode::I8XY3(1, 2)));
    assert_eq!(Opcode::new(0x8124), Some(Opcode::I8XY4(1, 2)));
    assert_eq!(Opcode::new(0x8125), Some(Opcode::I8XY5(1, 2)));
    assert_eq!(Opcode::new(0x8126), Some(Opcode::I8XY6(1, 2)));
    assert_eq!(Opcode::new(0x8127), Some(Opcode::I8XY7(1, 2)));
    assert_eq!(Opcode::new(0x812E), Some(Opcode::I8XYE(1, 2)));
    assert_eq!(Opcode::new(0x8128), None);
    assert_eq!(Opcode::new(0x812F), None);
}

#[test]
fn decodes_key_and_misc_group() {
    assert_eq!(Opcode::new(0xE39E), Some(Opcode::IEX9E(3)));
    assert_eq!(Opcode::new(0xE3A1), Some(Opcode::IEXA1(3)));
    assert_eq!(Opcode::new(0xE3A2), None);
    assert_eq!(Opcode::new(0xF307), Some(Opcode::IFX07(3)));
    assert_eq!(Opcode::new(0xF30A), Some(Opcode::IFX0A(3)));
    assert_eq!(Opcode::new(0xF315), Some(Opcode::IFX15(3)));
    assert_eq!(Opcode::new(0xF318), Some(Opcode::IFX18(3)));
    assert_eq!(Opcode::new(0xF31E), Some(Opcode::IFX1E(3)));
    assert_eq!(Opcode::new(0xF329), Some(Opcode::IFX29(3)));
    assert_eq!(Opcode::new(0xF333), Some(Opcode::IFX33(3)));
    assert_eq!(Opcode::new(0xF355), Some(Opcode::IFX55(3)));
    assert_eq!(Opcode::new(0xF365), Some(Opcode::IFX65(3)));
    assert_eq!(Opcode::new(0xF366), None);
}

#[test]
fn rejects_nonzero_last_nibble_in_register_compares() {
    assert_eq!(Opcode::new(0x5AB1), None);
    assert_eq!(Opcode::new(0x9AB1), None);
}

#[test]
fn no_two_words_decode_to_the_same_instruction() {
    let mut decoded: Vec<(u16, Opcode)> = Vec::new();
    for w in 0..=u16::MAX {
        if let Some(op) = Opcode::new(w) {
            decoded.push((w, op));
        }
    }
    let mut ops: Vec<String> = decoded.iter().map(|(_, op)| format!("{:?}", op)).collect();
    let n = ops.len();
    ops.sort();
    ops.dedup();
    assert_eq!(ops.len(), n);
}
