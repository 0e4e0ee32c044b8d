//! Decisions of a sensor board's firmware: input decoding, light, sound, display, WiFi and updates.
//!
//! Each module turns what the board has read into what it should do next, as plain values. Driving
//! the pins, the radio, the display and the flash is left to the program around this library.

pub mod board;
pub mod button;
pub mod buzzer;
pub mod encoder;
pub mod env_file;
pub mod gpio;
pub mod oled;
pub mod ota;
pub mod pio_program;
pub mod pir;
pub mod rgb;
pub mod text;
pub mod wifi;
