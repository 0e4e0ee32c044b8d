//! A momentary button, active-low with a pull-up.

use crate::gpio::Level;
use vstd::prelude::*;

verus! {

/// The button, with the level that its pin was last read at.
#[derive(Clone, Copy, Debug)]
pub struct Button {
    pub pin: Level,
}

impl Button {
    /// A button whose pin reads `pin`.
    pub fn new(pin: Level) -> (button: Button)
        ensures
            button.pin == pin,
    {
        Button { pin }
    }

    /// Whether the button is held down.
    pub fn is_pressed(&self) -> (pressed: bool)
        ensures
            pressed <==> self.pin == Level::Low,
    {
        self.pin == Level::Low
    }

    /// The state of the button in words.
    pub fn state_str(&self) -> (s: &'static str)
        ensures
            s@ == if self.pin == Level::Low {
                "Btn: Pressed"@
            } else {
                "Btn: Released"@
            },
    {
        if self.is_pressed() {
            "Btn: Pressed"
        } else {
            "Btn: Released"
        }
    }
}

} // verus!
