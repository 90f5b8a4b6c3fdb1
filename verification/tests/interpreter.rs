use firefly_chip8::interpreter::Chip8;
use firefly_chip8::machine::{MEMORY_SIZE, ROM_START, SCREEN_WIDTH};
use firefly_chip8::opcodes::Opcode;

fn rom(words: &[u16]) -> Vec<u8> {
    let mut bytes = Vec::new();
    for w in words {
        bytes.push((w >> 8) as u8);
        bytes.push((w & 0xFF) as u8);
    }
    bytes
}

/// Runs an update of `steps` instructions in which `Cxnn` draws zeros.
fn run(chip8: &mut Chip8, steps: u16) -> Result<(), &'static str> {
    chip8.update_with(steps, &vec![0u32; steps as usize])
}

fn machine(words: &[u16]) -> Chip8 {
    Chip8::new(&rom(words)).unwrap()
}

#[test]
fn rom_too_large_is_refused() {
    let too_large = vec![0u8; MEMORY_SIZE - ROM_START + 1];
    assert_eq!(Chip8::new(&too_large).err(), Some("ROM is too large"));
    let largest = vec![0u8; MEMORY_SIZE - ROM_START];
    assert!(Chip8::new(&largest).is_ok());
}

#[test]
fn new_machine_is_blank() {
    let chip8 = machine(&[]);
    assert_eq!(chip8.sound_timer, 0);
    assert!(chip8.screen.iter().all(|p| !*p));
    assert!(chip8.input.iter().all(|k| !*k));
}

#[test]
fn add_and_set_sound_timer() {
    // V0 = 5; V0 += 3; sound = V0; then the timer counts down once.
    let mut chip8 = machine(&[0x6005, 0x7003, 0xF018]);
    assert_eq!(run(&mut chip8, 3), Ok(()));
    assert_eq!(chip8.sound_timer, 7);
}

#[test]
fn add_wraps_around() {
    // V0 = 0xFE; V0 += 5 wraps to 3; sound = V0.
    let mut chip8 = machine(&[0x60FE, 0x7005, 0xF018]);
    assert_eq!(run(&mut chip8, 3), Ok(()));
    assert_eq!(chip8.sound_timer, 2);
}

#[test]
fn add_registers_sets_carry() {
    // V0 = 0xFF; V1 = 5; V0 += V1 (= 4, VF = 1); VF += 6; sound = VF.
    let mut chip8 = machine(&[0x60FF, 0x6105, 0x8014, 0x7F06, 0xFF18]);
    assert_eq!(run(&mut chip8, 5), Ok(()));
    assert_eq!(chip8.sound_timer, 6);
    let mut chip8 = machine(&[0x60FF, 0x6105, 0x8014, 0xF018]);
    assert_eq!(run(&mut chip8, 4), Ok(()));
    assert_eq!(chip8.sound_timer, 3);
}

#[test]
fn subtract_registers_sets_not_borrow() {
    // V0 = 3; V1 = 5; V0 -= V1 (= 0xFE, VF = 0); VF += 9; sound = VF.
    let mut chip8 = machine(&[0x6003, 0x6105, 0x8015, 0x7F09, 0xFF18]);
    assert_eq!(run(&mut chip8, 5), Ok(()));
    assert_eq!(chip8.sound_timer, 8);
    // V0 = 3; V1 = 5; V0 = V1 - V0 (= 2, VF = 1); sound = V0.
    let mut chip8 = machine(&[0x6003, 0x6105, 0x8017, 0xF018]);
    assert_eq!(run(&mut chip8, 4), Ok(()));
    assert_eq!(chip8.sound_timer, 1);
}

#[test]
fn shifts_move_the_lost_bit_to_vf() {
    // V1 = 0x81; V0 = V1 >> 1 (= 0x40, VF = 1); sound = V0.
    let mut chip8 = machine(&[0x6181, 0x8016, 0xF018]);
    assert_eq!(run(&mut chip8, 3), Ok(()));
    assert_eq!(chip8.sound_timer, 0x3F);
    // V1 = 0x81; V0 = V1 << 1 (= 0x02, VF = 1); VF += 4; sound = VF.
    let mut chip8 = machine(&[0x6181, 0x801E, 0x7F04, 0xFF18]);
    assert_eq!(run(&mut chip8, 4), Ok(()));
    assert_eq!(chip8.sound_timer, 4);
}

#[test]
fn logic_ops_reset_vf() {
    // VF = 7; V0 = 0x0C; V1 = 0x0A; V0 |= V1 (= 0x0E, VF = 0); VF += 2; sound = VF.
    let mut chip8 = machine(&[0x6F07, 0x600C, 0x610A, 0x8011, 0x7F02, 0xFF18]);
    assert_eq!(run(&mut chip8, 6), Ok(()));
    assert_eq!(chip8.sound_timer, 1);
    // V0 = 0x0C; V1 = 0x0A; V0 ^= V1 (= 0x06); sound = V0.
    let mut chip8 = machine(&[0x600C, 0x610A, 0x8013, 0xF018]);
    assert_eq!(run(&mut chip8, 4), Ok(()));
    assert_eq!(chip8.sound_timer, 5);
    // V0 = 0x0C; V1 = 0x0A; V0 &= V1 (= 0x08); sound = V0.
    let mut chip8 = machine(&[0x600C, 0x610A, 0x8012, 0xF018]);
    assert_eq!(run(&mut chip8, 4), Ok(()));
    assert_eq!(chip8.sound_timer, 7);
}

#[test]
fn skip_when_equal() {
    // V0 = 5; skip if V0 == 5; V1 = 1 (skipped); V1 += 9; sound = V1.
    let mut chip8 = machine(&[0x6005, 0x3005, 0x6101, 0x7109, 0xF118]);
    assert_eq!(run(&mut chip8, 4), Ok(()));
    assert_eq!(chip8.sound_timer, 8);
    // Not equal: nothing skipped.
    let mut chip8 = machine(&[0x6005, 0x3006, 0x6101, 0x7109, 0xF118]);
    assert_eq!(run(&mut chip8, 5), Ok(()));
    assert_eq!(chip8.sound_timer, 9);
}

#[test]
fn call_then_return() {
    // 200: call 206; 202: sound = V1; 204: jump 204; 206: V1 = 9; 208: return.
    let mut chip8 = machine(&[0x2206, 0xF118, 0x1204, 0x6109, 0x00EE]);
    assert_eq!(run(&mut chip8, 6), Ok(()));
    assert_eq!(chip8.sound_timer, 8);
}

#[test]
fn return_on_empty_stack_fails() {
    let mut chip8 = machine(&[0x00EE]);
    assert_eq!(run(&mut chip8, 1), Err("trying to pop a value from an empty stack"));
}

#[test]
fn seventeenth_call_overflows_the_stack() {
    let mut chip8 = machine(&[0x2200]);
    assert_eq!(run(&mut chip8, 16), Ok(()));
    assert_eq!(run(&mut chip8, 1), Err("stack overflow"));
}

#[test]
fn invalid_opcode_fails() {
    let mut chip8 = machine(&[0x0000]);
    assert_eq!(run(&mut chip8, 1), Err("invalid opcode"));
    let mut chip8 = machine(&[0x5121]);
    assert_eq!(run(&mut chip8, 1), Err("invalid opcode"));
}

#[test]
fn fetch_past_memory_fails() {
    let mut chip8 = machine(&[0x1FFF]);
    assert_eq!(run(&mut chip8, 1), Ok(()));
    assert_eq!(run(&mut chip8, 1), Err("program counter out of bounds"));
}

#[test]
fn failed_update_leaves_timers() {
    // sound = 5 after the first update, then an update that fails.
    let mut chip8 = machine(&[0x6006, 0xF018, 0x0000]);
    assert_eq!(run(&mut chip8, 2), Ok(()));
    assert_eq!(chip8.sound_timer, 5);
    assert_eq!(run(&mut chip8, 1), Err("invalid opcode"));
    assert_eq!(chip8.sound_timer, 5);
}

#[test]
fn bcd_past_memory_fails() {
    // I = 0xFFF; the second digit lands past the end of memory.
    let mut chip8 = machine(&[0xAFFF, 0xF033]);
    assert_eq!(run(&mut chip8, 2), Err("memory out of bounds"));
}

#[test]
fn bcd_then_load_registers() {
    // V0 = 254; I = 0x300; BCD of V0; load V0..V2 (2, 5, 4); sound = V1.
    let mut chip8 = machine(&[0x60FE, 0xA300, 0xF033, 0xF265, 0xF118]);
    assert_eq!(run(&mut chip8, 5), Ok(()));
    assert_eq!(chip8.sound_timer, 4);
}

#[test]
fn store_then_load_registers() {
    // V0 = 7, V1 = 11; I = 0x300; store V0..V1; V1 = 0; I = 0x300; load; sound = V1.
    let mut chip8 = machine(&[0x6007, 0x610B, 0xA300, 0xF155, 0x6100, 0xA300, 0xF165, 0xF118]);
    assert_eq!(run(&mut chip8, 8), Ok(()));
    assert_eq!(chip8.sound_timer, 10);
}

#[test]
fn draw_font_digit_zero() {
    // V0 = 0; I = sprite of digit V0; draw 5 rows at (V0, V0).
    let mut chip8 = machine(&[0x6000, 0xF029, 0xD005]);
    assert_eq!(run(&mut chip8, 3), Ok(()));
    // Row 0 is 0xF0, row 1 is 0x90.
    assert!(chip8.screen[0] && chip8.screen[1] && chip8.screen[2] && chip8.screen[3]);
    assert!(!chip8.screen[4]);
    assert!(chip8.screen[SCREEN_WIDTH] && !chip8.screen[SCREEN_WIDTH + 1]);
    assert!(chip8.screen[SCREEN_WIDTH + 3]);
    assert_eq!(chip8.screen.iter().filter(|p| **p).count(), 14);
}

#[test]
fn draw_twice_clears_and_reports_collision() {
    // Draw digit 0 twice, then VF += 6; sound = VF.
    let mut chip8 = machine(&[0x6000, 0xF029, 0xD005, 0xD005, 0x7F06, 0xFF18]);
    assert_eq!(run(&mut chip8, 6), Ok(()));
    assert!(chip8.screen.iter().all(|p| !*p));
    assert_eq!(chip8.sound_timer, 6);
}

#[test]
fn draw_clips_at_the_right_edge() {
    // V0 = 62 (x), V1 = 0 (y); I = digit 0; draw: only two columns fit.
    let mut chip8 = machine(&[0x603E, 0x6100, 0xF129, 0xD015]);
    assert_eq!(run(&mut chip8, 4), Ok(()));
    assert!(chip8.screen[62] && chip8.screen[63]);
    assert!(!chip8.screen[SCREEN_WIDTH]);
    assert_eq!(chip8.screen.iter().filter(|p| **p).count(), 2 + 1 + 1 + 1 + 2);
}

#[test]
fn clear_screen() {
    let mut chip8 = machine(&[0x6000, 0xF029, 0xD005, 0x00E0]);
    assert_eq!(run(&mut chip8, 4), Ok(()));
    assert!(chip8.screen.iter().all(|p| !*p));
}

#[test]
fn skip_if_key_pressed() {
    // V0 = 5; skip if key V0 pressed; V1 = 1; V1 += 3; sound = V1.
    let words = [0x6005, 0xE09E, 0x6101, 0x7103, 0xF118];
    let mut chip8 = machine(&words);
    chip8.input[5] = true;
    assert_eq!(run(&mut chip8, 4), Ok(()));
    assert_eq!(chip8.sound_timer, 2);
    let mut chip8 = machine(&words);
    assert_eq!(run(&mut chip8, 5), Ok(()));
    assert_eq!(chip8.sound_timer, 3);
}

#[test]
fn invalid_key_index_fails() {
    let mut chip8 = machine(&[0x60FF, 0xE0A1]);
    assert_eq!(run(&mut chip8, 2), Err("invalid key index"));
}

#[test]
fn wait_for_key() {
    // Wait for a key into V0; V0 += 2; sound = V0.
    let mut chip8 = machine(&[0xF00A, 0x7002, 0xF018]);
    assert_eq!(run(&mut chip8, 10), Ok(()));
    assert_eq!(chip8.sound_timer, 0);
    chip8.input[9] = true;
    chip8.input[12] = true;
    assert_eq!(run(&mut chip8, 3), Ok(()));
    assert_eq!(chip8.sound_timer, 10);
}

#[test]
fn delay_timer_round_trip() {
    // V0 = 9; delay = V0; V1 = delay; sound = V1.
    let mut chip8 = machine(&[0x6009, 0xF015, 0xF107, 0xF118]);
    assert_eq!(run(&mut chip8, 4), Ok(()));
    assert_eq!(chip8.sound_timer, 8);
}

#[test]
fn jump_with_offset() {
    // V0 = 6; jump to 0x200 + V0 (= 0x206): skips V1 = 1; V1 += 5; sound = V1.
    let mut chip8 = machine(&[0x6006, 0xB200, 0x6101, 0x7105, 0xF118]);
    assert_eq!(run(&mut chip8, 4), Ok(()));
    assert_eq!(chip8.sound_timer, 4);
}

#[test]
fn exec_random_masks_the_low_byte() {
    let mut chip8 = machine(&[]);
    assert_eq!(chip8.exec(Opcode::ICXNN(0, 0x0F), 0x1234), Ok(()));
    assert_eq!(chip8.exec(Opcode::IFX18(0), 0), Ok(()));
    assert_eq!(chip8.sound_timer, 0x04);
}

#[test]
fn exec_add_to_index_wraps() {
    // I = 0xFFF, then I += V0 (0xFF): still inside u16; Fx33 at the new I fails.
    let mut chip8 = machine(&[]);
    assert_eq!(chip8.exec(Opcode::IANNN(0xFFF), 0), Ok(()));
    assert_eq!(chip8.exec(Opcode::I6XNN(0, 0xFF), 0), Ok(()));
    assert_eq!(chip8.exec(Opcode::IFX1E(0), 0), Ok(()));
    assert_eq!(chip8.exec(Opcode::IFX55(0), 0), Err("memory out of bounds"));
}

#[test]
fn random_instruction_uses_the_cycle_number() {
    // V0 = random & 0x3C; sound = V0: the second cycle's number is unused.
    let mut chip8 = machine(&[0xC03C, 0xF018]);
    assert_eq!(chip8.update_with(2, &[0xABCD, 0xFFFF]), Ok(()));
    assert_eq!(chip8.sound_timer, (0xCD & 0x3C) - 1);
}

#[test]
fn repeat_below_address_zero_fails() {
    // Jump to address 0, then wait for a key with none pressed.
    let mut chip8 = machine(&[]);
    assert_eq!(chip8.exec(Opcode::I1NNN(0), 0), Ok(()));
    assert_eq!(chip8.exec(Opcode::IFX0A(0), 0), Err("program counter overflow"));
}

#[test]
fn empty_update_only_counts_timers_down() {
    let mut chip8 = machine(&[0x6005, 0xF018]);
    assert_eq!(run(&mut chip8, 2), Ok(()));
    assert_eq!(chip8.sound_timer, 4);
    assert_eq!(run(&mut chip8, 0), Ok(()));
    assert_eq!(chip8.sound_timer, 3);
    chip8.sound_timer = 0;
    assert_eq!(run(&mut chip8, 0), Ok(()));
    assert_eq!(chip8.sound_timer, 0);
}

#[test]
fn only_cxnn_reads_the_random_number() {
    let mut a = machine(&[0x6007, 0xF018]);
    let mut b = machine(&[0x6007, 0xF018]);
    assert_eq!(a.update_with(2, &[1, 2]), Ok(()));
    assert_eq!(b.update_with(2, &[0xFFFF_FFFF, 0x1234]), Ok(()));
    assert_eq!(a.sound_timer, b.sound_timer);
    assert_eq!(a.screen, b.screen);
}

#[test]
fn draw_on_blank_screen_reports_no_collision() {
    // Draw digit 0, then VF += 3; sound = VF.
    let mut chip8 = machine(&[0x6000, 0xF029, 0xD005, 0x7F03, 0xFF18]);
    assert_eq!(run(&mut chip8, 5), Ok(()));
    assert_eq!(chip8.sound_timer, 2);
}

#[test]
fn draw_wraps_the_start_position() {
    // V0 = 64 + 1 wraps to column 1, V1 = 32 wraps to row 0; draw digit 1's top row.
    let mut chip8 = machine(&[0x6041, 0x6120, 0x6201, 0xF229, 0xD011]);
    assert_eq!(run(&mut chip8, 5), Ok(()));
    // Digit 1 row 0 is 0x20: one pixel, third from the left.
    assert!(chip8.screen[1 + 2]);
    assert_eq!(chip8.screen.iter().filter(|p| **p).count(), 1);
}
