//! What the host shows and plays for the machine: pixels that fade out over
//! a few frames, and a tone while the sound timer runs.
use vstd::prelude::*;

use crate::machine::SCREEN_SIZE;

verus! {

/// Brightness a pixel gets in the frame in which it is lit.
pub const FULL_BRIGHTNESS: u8 = 3;

/// The brightness of a pixel after one frame: full while the CHIP-8 pixel is
/// lit, else one step dimmer than before, down to zero.
pub open spec fn faded(level: u8, lit: bool) -> u8 {
    if lit {
        FULL_BRIGHTNESS
    } else if level > 0 {
        (level - 1) as u8
    } else {
        0
    }
}

/// Advance the brightness of every pixel by one frame, given the CHIP-8
/// screen.
pub fn fade(levels: &mut [u8; SCREEN_SIZE], screen: &[bool; SCREEN_SIZE])
    ensures
        forall|p: int| 0 <= p < SCREEN_SIZE ==> final(levels)@[p] == faded(old(levels)@[p], screen@[p]),
{
    let mut i: usize = 0;
    while i < SCREEN_SIZE
        invariant
            i <= SCREEN_SIZE,
            forall|p: int| 0 <= p < i ==> levels@[p] == faded(old(levels)@[p], screen@[p]),
            forall|p: int| i <= p < SCREEN_SIZE ==> levels@[p] == old(levels)@[p],
        decreases SCREEN_SIZE - i,
    {
        if screen[i] {
            levels[i] = FULL_BRIGHTNESS;
        } else {
            levels[i] = levels[i].saturating_sub(1);
        }
        i += 1;
    }
}

/// What to do with the tone after an update.
#[derive(Clone, Copy, PartialEq, Eq, Structural, Debug)]
pub enum SoundAction {
    /// Start playing the tone.
    Start,
    /// Stop the tone.
    Stop,
    /// Leave the tone as it is.
    Keep,
}

/// Stop the tone when it plays and the timer has run out, start it when it
/// is silent and the timer runs.
pub open spec fn sound_decision(plays: bool, sound_timer: u8) -> SoundAction {
    if plays && sound_timer == 0 {
        SoundAction::Stop
    } else if !plays && sound_timer > 0 {
        SoundAction::Start
    } else {
        SoundAction::Keep
    }
}

/// What to do with the tone, given whether it plays and the sound timer.
pub fn sound_action(plays: bool, sound_timer: u8) -> (a: SoundAction)
    ensures
        a == sound_decision(plays, sound_timer),
{
    if plays && sound_timer == 0 {
        SoundAction::Stop
    } else if !plays && sound_timer > 0 {
        SoundAction::Start
    } else {
        SoundAction::Keep
    }
}

/// Whether the tone plays after `action`, which it did before when `plays`.
pub open spec fn plays_after(plays: bool, action: SoundAction) -> bool {
    match action {
        SoundAction::Start => true,
        SoundAction::Stop => false,
        SoundAction::Keep => plays,
    }
}

/// After the action, the tone plays if and only if the sound timer is above
/// zero.
pub proof fn lemma_sound_follows_timer(plays: bool, sound_timer: u8)
    ensures
        plays_after(plays, sound_decision(plays, sound_timer)) == (sound_timer > 0),
{
}

/// A lit pixel shows at full brightness; an unlit one loses one step per
/// frame, never below zero, so that three frames after it went out a pixel
/// is dark.
pub proof fn law_fading(level: u8, lit: bool)
    ensures
        lit ==> faded(level, lit) == 3,
        !lit && level > 0 ==> faded(level, lit) + 1 == level,
        !lit && level == 0 ==> faded(level, lit) == 0,
        faded(faded(faded(3, false), false), false) == 0,
{
}

} // verus!
