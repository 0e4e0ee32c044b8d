//! The AS312 motion sensor, active-high: its output stays high for about two seconds after motion.

use crate::gpio::Level;
use vstd::prelude::*;

verus! {

/// The sensor, with the level that its pin was last read at.
#[derive(Clone, Copy, Debug)]
pub struct Pir {
    pub pin: Level,
}

impl Pir {
    /// A sensor whose pin reads `pin`.
    pub fn new(pin: Level) -> (pir: Pir)
        ensures
            pir.pin == pin,
    {
        Pir { pin }
    }

    /// Whether the sensor sees motion.
    pub fn motion_detected(&self) -> (motion: bool)
        ensures
            motion <==> self.pin == Level::High,
    {
        self.pin == Level::High
    }

    /// The level of the pin itself.
    pub fn raw_str(&self) -> (s: &'static str)
        ensures
            s@ == if self.pin == Level::High {
                "PIR:H"@
            } else {
                "PIR:L"@
            },
    {
        if self.pin == Level::High {
            "PIR:H"
        } else {
            "PIR:L"
        }
    }

    /// The state of the sensor in words.
    pub fn state_str(&self) -> (s: &'static str)
        ensures
            s@ == motion_word(self.pin),
            self.pin == Level::High ==> s@ == "Motion!"@,
            self.pin == Level::Low ==> s@ == "Clear"@,
    {
        if self.motion_detected() {
            "Motion!"
        } else {
            "Clear"
        }
    }
}

/// What a sensor whose pin reads `pin` is said to see.
pub open spec fn motion_word(pin: Level) -> Seq<char> {
    if pin == Level::High {
        "Motion!"@
    } else {
        "Clear"@
    }
}

} // verus!
