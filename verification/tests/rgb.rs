use embassy_rp::pio::program::{
    Assembler, JmpCondition, MovDestination, MovOperation, MovSource, OutDestination, SideSet,
};
use picomate::pio_program::{assemble, SIDE_SET_PINS, WRAP_SOURCE, WRAP_TARGET};
use picomate::rgb::{wheel, Ws2812, CLOCK_DIVIDER_BITS};

#[test]
fn program_has_the_code_of_the_assembler() {
    let mut a = Assembler::<32>::new_with_side_set(SideSet::new(false, SIDE_SET_PINS, false));
    let mut bitloop = a.label();
    let mut do_zero = a.label();
    let mut wrap_source = a.label();
    a.bind(&mut bitloop);
    a.out_with_delay_and_side_set(OutDestination::X, 1, 2, 0);
    a.jmp_with_delay_and_side_set(JmpCondition::XIsZero, &mut do_zero, 1, 1);
    a.jmp_with_delay_and_side_set(JmpCondition::Always, &mut bitloop, 4, 1);
    a.bind(&mut do_zero);
    a.mov_with_delay_and_side_set(
        MovDestination::Y,
        MovOperation::None,
        MovSource::Y,
        4,
        0,
    );
    a.bind(&mut wrap_source);
    let program = a.assemble_with_wrap(wrap_source, bitloop);
    assert_eq!(assemble(), program.code.to_vec());
    assert_eq!(WRAP_SOURCE, program.wrap.source);
    assert_eq!(WRAP_TARGET, program.wrap.target);
}

#[test]
fn program_code_by_hand() {
    assert_eq!(assemble(), vec![0x6221, 0x1123, 0x1400, 0xa442]);
}

#[test]
fn state_machine_setup() {
    let pixel = Ws2812::new();
    let config = pixel.config();
    assert_eq!(config.code, assemble());
    assert_eq!(config.origin, None);
    assert_eq!(config.side_set_pins, 1);
    assert!(!config.side_set_optional && !config.side_set_directions);
    assert_eq!((config.wrap_target, config.wrap_source), (0, 3));
    assert_eq!(config.clock_divider_bits, 0x0fa0);
    assert_eq!(fixed::types::U24F8::from_bits(CLOCK_DIVIDER_BITS), 15.625);
    assert_eq!(config.threshold, 24);
    assert!(config.tx_only && config.auto_fill && config.shift_left);
}

#[test]
fn wheel_corners() {
    assert_eq!(wheel(0), (255, 0, 0));
    assert_eq!(wheel(1), (252, 3, 0));
    assert_eq!(wheel(84), (3, 252, 0));
    assert_eq!(wheel(85), (0, 255, 0));
    assert_eq!(wheel(169), (0, 3, 252));
    assert_eq!(wheel(170), (0, 0, 255));
    assert_eq!(wheel(254), (252, 0, 3));
    assert_eq!(wheel(255), (255, 0, 0));
}

#[test]
fn wheel_is_equally_bright_and_smooth() {
    for pos in 0..=255u8 {
        let (r, g, b) = wheel(pos);
        assert_eq!(r as u32 + g as u32 + b as u32, 255);
        let (r1, g1, b1) = wheel(pos.wrapping_add(1));
        assert!(r.abs_diff(r1) <= 3 && g.abs_diff(g1) <= 3 && b.abs_diff(b1) <= 3);
    }
}

#[test]
fn colour_words_are_grb_and_dimmed() {
    let pixel = Ws2812::new();
    assert_eq!(pixel.write_color(0, 0, 0), 0);
    assert_eq!(pixel.write_color(255, 0, 0), 0x0020_0000);
    assert_eq!(pixel.write_color(0, 255, 0), 0x2000_0000);
    assert_eq!(pixel.write_color(0, 0, 255), 0x0000_2000);
    assert_eq!(pixel.write_color(128, 64, 7), 0x0810_0000);
    assert_eq!(pixel.write_color(8, 7, 16), 0x0001_0200);
}
