use firefly_chip8::display::{fade, sound_action, SoundAction};
use firefly_chip8::machine::SCREEN_SIZE;

#[test]
fn lit_pixels_are_full_and_others_fade() {
    let mut levels = [0u8; SCREEN_SIZE];
    levels[1] = 3;
    levels[2] = 1;
    levels[3] = 2;
    let mut screen = [false; SCREEN_SIZE];
    screen[0] = true;
    screen[3] = true;
    fade(&mut levels, &screen);
    assert_eq!(&levels[0..5], &[3, 2, 0, 3, 0]);
    fade(&mut levels, &[false; SCREEN_SIZE]);
    assert_eq!(&levels[0..5], &[2, 1, 0, 2, 0]);
}

#[test]
fn tone_follows_the_sound_timer() {
    assert_eq!(sound_action(false, 5), SoundAction::Start);
    assert_eq!(sound_action(true, 5), SoundAction::Keep);
    assert_eq!(sound_action(true, 0), SoundAction::Stop);
    assert_eq!(sound_action(false, 0), SoundAction::Keep);
}
