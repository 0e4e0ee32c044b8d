use picomate::board::{boot_lines, hue_of, Board, BootStage};
use picomate::button::Button;
use picomate::gpio::Level;
use picomate::pir::Pir;

const FREE: Button = Button { pin: Level::High };
const HELD: Button = Button { pin: Level::Low };

#[test]
fn boot_screens() {
    assert_eq!(boot_lines(BootStage::Display), vec!["PicoMate v1", "CYW43..."]);
    assert_eq!(
        boot_lines(BootStage::Chip),
        vec!["PicoMate v1", "CYW43 OK", "GPIO..."]
    );
    assert_eq!(
        boot_lines(BootStage::Pins),
        vec!["PicoMate v1", "CYW43 OK", "GPIO OK", "RGB..."]
    );
    assert_eq!(boot_lines(BootStage::Ready), vec!["PicoMate v1", "Ready"]);
}

#[test]
fn hue_follows_the_count() {
    assert_eq!(hue_of(0), 0);
    assert_eq!(hue_of(1), 5);
    assert_eq!(hue_of(51), 255);
    assert_eq!(hue_of(52), 4);
    assert_eq!(hue_of(256), 0);
    assert_eq!(hue_of(-1), 251);
    assert_eq!(hue_of(i32::MAX), 251);
    assert_eq!(hue_of(i32::MIN), 0);
}

#[test]
fn led_and_display_every_fifth_tick() {
    let mut board = Board::new(Level::High);
    for n in 1..=25u32 {
        assert!(board.can_tick(Level::High, Level::High));
        let out = board.tick(Level::High, Level::High, FREE);
        assert_eq!(out.refresh, n % 5 == 0);
        let expected = if n % 5 == 0 { Some(n / 5 % 2 == 1) } else { None };
        assert_eq!(out.led, expected);
    }
}

#[test]
fn buzzer_follows_the_button() {
    let mut board = Board::new(Level::High);
    assert_eq!(board.tick(Level::High, Level::High, HELD).buzzer.compare_b, 31_250);
    assert_eq!(board.tick(Level::High, Level::High, HELD).buzzer.compare_b, 31_250);
    assert_eq!(board.tick(Level::High, Level::High, FREE).buzzer.compare_b, 0);
}

#[test]
fn encoder_turns_the_pixel() {
    let mut board = Board::new(Level::High);
    // Hue 0 is red alone, dimmed to 32.
    assert_eq!(board.tick(Level::High, Level::High, FREE).pixel, 0x0020_0000);
    // Hue 5 is (240, 15, 0).
    assert_eq!(board.tick(Level::Low, Level::High, FREE).pixel, 0x011e_0000);
}

#[test]
fn status_lines() {
    let mut board = Board::new(Level::High);
    board.tick(Level::High, Level::High, FREE);
    let status = board.status(&Pir::new(Level::Low));
    assert_eq!(
        status.lines(),
        vec!["PicoMate v1", "Btn:Off PIR:Clear", "Enc:+0 RGB:0", ""]
    );
    board.tick(Level::Low, Level::Low, HELD);
    let status = board.status(&Pir::new(Level::High));
    assert_eq!(
        status.lines(),
        vec!["PicoMate v1", "Btn:On  PIR:Motion!", "Enc:-1 RGB:251", ""]
    );
}

#[test]
fn status_of_long_counts() {
    let mut board = Board::new(Level::High);
    for _ in 0..1234 {
        board.tick(Level::Low, Level::High, FREE);
        board.tick(Level::High, Level::High, FREE);
    }
    let status = board.status(&Pir::new(Level::Low));
    assert_eq!(status.wheel.as_str(), "Enc:+1234 RGB:26");
}
