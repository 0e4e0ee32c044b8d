//! A passive buzzer on a PWM channel.
//!
//! The buzzer sounds at the frequency of the square wave it is fed: 2 kHz at half duty. With no
//! duty the output stays low and the buzzer is silent.

use vstd::prelude::*;

verus! {

/// Frequency of the clock that the PWM slice counts, in hertz.
pub const SYS_CLOCK_HZ: u32 = 125_000_000;

/// Frequency of the sound in hertz.
pub const TONE_HZ: u32 = 2_000;

/// Last counter value before the PWM slice starts over. The slice counts from zero up to it, so a
/// period has one tick more: 62,500, which is 125 MHz divided by 2 kHz.
pub const TOP: u16 = 62_499;

/// Ticks of a period for which the output is high when the buzzer sounds: half of them.
pub const HALF: u16 = (TOP + 1) / 2;

/// What the PWM slice is set to.
#[derive(Clone, Copy, PartialEq, Eq, Structural, Debug)]
pub struct PwmSetting {
    pub top: u16,
    pub compare_b: u16,
}

/// The slice's setting with the buzzer sounding or not.
pub open spec fn setting(sounding: bool) -> PwmSetting {
    PwmSetting {
        top: TOP,
        compare_b: if sounding {
            HALF
        } else {
            0
        },
    }
}

/// The buzzer.
#[derive(Clone, Copy, Debug)]
pub struct Buzzer {
    pwm: PwmSetting,
}

impl Buzzer {
    /// What the slice is set to.
    pub closed spec fn setting(&self) -> PwmSetting {
        self.pwm
    }

    /// A silent buzzer.
    pub fn new() -> (buzzer: Buzzer)
        ensures
            buzzer.setting() == setting(false),
    {
        Buzzer { pwm: PwmSetting { top: TOP, compare_b: 0 } }
    }

    /// Starts the sound, whatever the buzzer did before.
    pub fn on(&mut self)
        ensures
            final(self).setting() == setting(true),
    {
        self.pwm = PwmSetting { top: TOP, compare_b: HALF };
    }

    /// Stops the sound, whatever the buzzer did before.
    pub fn off(&mut self)
        ensures
            final(self).setting() == setting(false),
    {
        self.pwm = PwmSetting { top: TOP, compare_b: 0 };
    }

    /// The setting for the slice.
    pub fn pwm(&self) -> (pwm: PwmSetting)
        ensures
            pwm == self.setting(),
    {
        self.pwm
    }
}

/// Ticks in a period of a slice, which counts from zero up to its top.
pub open spec fn period(pwm: PwmSetting) -> int {
    pwm.top + 1
}

/// The period is that of the tone whether the buzzer sounds or not; the output is high for exactly
/// half of it when the buzzer sounds, and never when it does not.
pub proof fn law_duty_is_half_or_none(sounding: bool)
    ensures
        period(setting(sounding)) * TONE_HZ == SYS_CLOCK_HZ,
        (setting(sounding).top + 1) * 2_000 == 125_000_000,
        setting(true).compare_b * 2 == setting(true).top + 1,
        setting(false).compare_b == 0,
        2 * setting(sounding).compare_b == if sounding {
            period(setting(sounding))
        } else {
            0
        },
{
}

} // verus!
