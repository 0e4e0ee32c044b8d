use picomate::button::Button;
use picomate::buzzer::{Buzzer, PwmSetting, HALF, TOP};
use picomate::encoder::Encoder;
use picomate::gpio::Level;
use picomate::pir::Pir;

#[test]
fn button_is_active_low() {
    let held = Button::new(Level::Low);
    assert!(held.is_pressed());
    assert_eq!(held.state_str(), "Btn: Pressed");
    let free = Button::new(Level::High);
    assert!(!free.is_pressed());
    assert_eq!(free.state_str(), "Btn: Released");
}

#[test]
fn pir_is_active_high() {
    let motion = Pir::new(Level::High);
    assert!(motion.motion_detected());
    assert_eq!(motion.raw_str(), "PIR:H");
    assert_eq!(motion.state_str(), "Motion!");
    let idle = Pir::new(Level::Low);
    assert!(!idle.motion_detected());
    assert_eq!(idle.raw_str(), "PIR:L");
    assert_eq!(idle.state_str(), "Clear");
}

#[test]
fn buzzer_settings() {
    // The slice counts from zero up to its top.
    assert_eq!(TOP as u32 + 1, 62_500);
    assert_eq!((TOP as u32 + 1) * 2_000, 125_000_000);
    assert_eq!(HALF as u32 * 2, TOP as u32 + 1);
    let silent = PwmSetting { top: 62_499, compare_b: 0 };
    let sounding = PwmSetting { top: 62_499, compare_b: 31_250 };
    let mut buzzer = Buzzer::new();
    assert_eq!(buzzer.pwm(), silent);
    buzzer.on();
    assert_eq!(buzzer.pwm(), sounding);
    buzzer.on();
    assert_eq!(buzzer.pwm(), sounding);
    buzzer.off();
    assert_eq!(buzzer.pwm(), silent);
}

#[test]
fn encoder_counts_falling_edges() {
    let mut enc = Encoder::new(Level::High);
    assert_eq!(enc.count(), 0);
    assert_eq!(enc.update(Level::High, Level::Low), 0);
    assert_eq!(enc.update(Level::Low, Level::High), 1);
    assert_eq!(enc.update(Level::Low, Level::Low), 1);
    assert_eq!(enc.update(Level::High, Level::Low), 1);
    assert_eq!(enc.update(Level::Low, Level::Low), 0);
    assert_eq!(enc.update(Level::High, Level::High), 0);
    assert_eq!(enc.update(Level::Low, Level::Low), -1);
    assert_eq!(enc.count(), -1);
}

#[test]
fn encoder_that_starts_low_needs_a_rise_first() {
    let mut enc = Encoder::new(Level::Low);
    assert_eq!(enc.update(Level::Low, Level::High), 0);
    assert_eq!(enc.update(Level::High, Level::High), 0);
    assert!(enc.can_update(Level::Low, Level::High));
    assert_eq!(enc.update(Level::Low, Level::High), 1);
}

#[test]
fn encoder_steps_cancel() {
    let mut enc = Encoder::new(Level::High);
    for _ in 0..7 {
        enc.update(Level::Low, Level::High);
        enc.update(Level::High, Level::High);
    }
    assert_eq!(enc.count(), 7);
    for _ in 0..7 {
        enc.update(Level::Low, Level::Low);
        enc.update(Level::High, Level::Low);
    }
    assert_eq!(enc.count(), 0);
}

#[test]
fn encoder_count_is_at_most_half_the_polls() {
    for b in [Level::High, Level::Low] {
        let sign = if b == Level::High { 1 } else { -1 };
        let mut enc = Encoder::new(Level::High);
        for n in 1..=9 {
            let a = if n % 2 == 1 { Level::Low } else { Level::High };
            // A that moves in every poll is the fastest: half the polls, rounded up.
            assert_eq!(enc.update(a, b), sign * ((n + 1) / 2));
        }
    }
}
