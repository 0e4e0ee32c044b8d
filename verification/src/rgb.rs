//! One WS2812 pixel: colours, the word that carries them, and the PIO program that sends it.
//!
//! The state machine runs ten cycles for each bit: three low, two high, and five that stay high for
//! a one and go low for a zero. At 8 MHz a one is 875 ns high and 375 ns low, a zero 250 ns high
//! and 1000 ns low.

use crate::pio_program::assemble;
use crate::pio_program::SIDE_SET_PINS;
use crate::pio_program::WRAP_SOURCE;
use crate::pio_program::WRAP_TARGET;
use vstd::prelude::*;

verus! {

/// Brightness of the pixel, from 0 to 255. At 255 a WS2812 is very bright.
pub const BRIGHTNESS: u8 = 32;

/// Frequency of the system clock in hertz.
pub const SYS_CLOCK_HZ: u32 = 125_000_000;

/// Frequency at which the state machine has to run, in hertz.
pub const PIO_CLOCK_HZ: u32 = 8_000_000;

/// Length of one cycle of the state machine in nanoseconds.
pub const CYCLE_NS: u32 = 125;

/// The clock divider 15.625 as a fixed-point number with eight fraction bits.
pub const CLOCK_DIVIDER_BITS: u32 = (15 << 8) | 160;

/// Bits of a word that are sent before the next word is fetched.
pub const PIXEL_BITS: u8 = 24;

/// The colour at `pos` on a wheel of 256 hues: red fades to green, green to blue, and blue back to
/// red, three steps at a time.
pub open spec fn hue(pos: int) -> (int, int, int) {
    if pos < 85 {
        (255 - 3 * pos, 3 * pos, 0)
    } else if pos < 170 {
        (0, 255 - 3 * (pos - 85), 3 * (pos - 85))
    } else {
        (3 * (pos - 170), 0, 255 - 3 * (pos - 170))
    }
}

/// Gives the colour at `pos` on the hue wheel as red, green and blue. Positions wrap around: the
/// wheel goes on from 255 at 0.
pub fn wheel(pos: u8) -> (rgb: (u8, u8, u8))
    ensures
        (rgb.0 as int, rgb.1 as int, rgb.2 as int) == hue(pos as int),
{
    if pos < 85 {
        (255 - pos * 3, pos * 3, 0)
    } else if pos < 170 {
        let p: u8 = pos - 85;
        (0, 255 - p * 3, p * 3)
    } else {
        let p: u8 = pos - 170;
        (p * 3, 0, 255 - p * 3)
    }
}

/// Every hue is as bright as any other, and mixes at most two of the three colours.
pub proof fn law_hues_are_equally_bright(pos: u8)
    ensures
        ({
            let (r, g, b) = hue(pos as int);
            &&& r + g + b == 255
            &&& r == 0 || g == 0 || b == 0
            &&& 0 <= r <= 255 && 0 <= g <= 255 && 0 <= b <= 255
        }),
{
}

/// The wheel starts at red. Each position up to 84 takes three from red and gives them to green,
/// each up to 169 takes them from green and gives them to blue, and each from there on takes them
/// from blue and gives them to red; so a third of the wheel on, each colour has handed its value to
/// the next one.
pub proof fn law_wheel_hands_colours_on(pos: u8)
    ensures
        hue(0) == (255int, 0int, 0int),
        ({
            let (r, g, b) = hue(pos as int);
            &&& pos < 85 ==> hue(pos + 1) == (r - 3, g + 3, b)
            &&& 85 <= pos < 170 ==> hue(pos + 1) == (r, g - 3, b + 3)
            &&& 170 <= pos < 255 ==> hue(pos + 1) == (r + 3, g, b - 3)
            &&& pos < 170 ==> hue(pos + 85) == (b, r, g)
            &&& pos == 255 ==> hue(pos as int) == hue(0)
        }),
{
}

/// Going one position on changes no colour by more than three, also across the end of the wheel.
pub proof fn law_wheel_turns_smoothly(pos: u8)
    ensures
        ({
            let (r, g, b) = hue(pos as int);
            let (r1, g1, b1) = hue((pos + 1) % 256);
            -3 <= r1 - r <= 3 && -3 <= g1 - g <= 3 && -3 <= b1 - b <= 3
        }),
{
}

/// A colour value scaled to the brightness.
pub open spec fn dimmed(v: int) -> int {
    v * BRIGHTNESS / 255
}

/// The word for a colour: green, red and blue from the top byte down, scaled to the brightness.
pub open spec fn grb_word(r: int, g: int, b: int) -> int {
    dimmed(g) * 0x100_0000 + dimmed(r) * 0x1_0000 + dimmed(b) * 0x100
}

/// Scales a colour value to the brightness.
fn dim(v: u8) -> (d: u8)
    ensures
        d == dimmed(v as int),
{
    (v as u16 * BRIGHTNESS as u16 / 255) as u8
}

/// Scaling keeps the order of colour values, never brightens one, and takes the brightest to the
/// brightness itself.
pub proof fn law_dimming_is_monotone(v: u8, w: u8)
    requires
        v <= w,
    ensures
        0 <= dimmed(v as int) <= dimmed(w as int) <= BRIGHTNESS,
        dimmed(v as int) <= v,
        dimmed(255) == BRIGHTNESS,
        255 * dimmed(v as int) <= 32 * v < 255 * (dimmed(v as int) + 1),
{
}

/// How the state machine that drives the pixel is set up.
pub struct StateMachineConfig {
    /// Machine code of the program.
    pub code: Vec<u16>,
    /// Address at which the program has to be loaded, if not anywhere.
    pub origin: Option<u8>,
    /// Pins that the program drives by side-set.
    pub side_set_pins: u8,
    /// Whether an instruction may leave its side-set out.
    pub side_set_optional: bool,
    /// Whether side-set gives the pins' directions in place of their levels.
    pub side_set_directions: bool,
    /// Address of the last instruction before the program wraps.
    pub wrap_source: u8,
    /// Address to which it wraps.
    pub wrap_target: u8,
    /// Clock divider as a fixed-point number with eight fraction bits.
    pub clock_divider_bits: u32,
    /// Whether both FIFOs are joined for sending.
    pub tx_only: bool,
    /// Whether a new word is fetched when `threshold` bits are out.
    pub auto_fill: bool,
    /// Bits of each word that are sent.
    pub threshold: u8,
    /// Whether words are sent from the highest bit down.
    pub shift_left: bool,
}

/// The driver of one pixel.
pub struct Ws2812 {
    config: StateMachineConfig,
}

impl Ws2812 {
    /// How the driver's state machine is set up.
    pub closed spec fn setup(&self) -> StateMachineConfig {
        self.config
    }

    /// A driver for an 800 kHz pixel.
    pub fn new() -> (pixel: Ws2812)
        ensures
            pixel.setup().code@.len() == crate::pio_program::program().len(),
            forall|i: int|
                0 <= i < pixel.setup().code@.len() ==> pixel.setup().code@[i]
                    == crate::pio_program::code_of(#[trigger] crate::pio_program::program()[i]),
            pixel.setup().origin is None,
            pixel.setup().side_set_pins == SIDE_SET_PINS,
            !pixel.setup().side_set_optional,
            !pixel.setup().side_set_directions,
            pixel.setup().wrap_source == WRAP_SOURCE,
            pixel.setup().wrap_target == WRAP_TARGET,
            pixel.setup().clock_divider_bits * PIO_CLOCK_HZ == SYS_CLOCK_HZ * 256,
            pixel.setup().tx_only,
            pixel.setup().auto_fill,
            pixel.setup().threshold == PIXEL_BITS,
            pixel.setup().shift_left,
    {
        assert(CLOCK_DIVIDER_BITS == 4000) by {
            assert((15u32 << 8) | 160u32 == 4000u32) by (bit_vector);
        }
        Ws2812 {
            config: StateMachineConfig {
                code: assemble(),
                origin: None,
                side_set_pins: SIDE_SET_PINS,
                side_set_optional: false,
                side_set_directions: false,
                wrap_source: WRAP_SOURCE,
                wrap_target: WRAP_TARGET,
                clock_divider_bits: CLOCK_DIVIDER_BITS,
                tx_only: true,
                auto_fill: true,
                threshold: PIXEL_BITS,
                shift_left: true,
            },
        }
    }

    /// The set-up of the driver's state machine.
    pub fn config(&self) -> (config: &StateMachineConfig)
        ensures
            *config == self.setup(),
    {
        &self.config
    }

    /// The word that sends a colour, scaled to the brightness. The pixel expects green first.
    pub fn write_color(&self, r: u8, g: u8, b: u8) -> (word: u32)
        ensures
            word == grb_word(r as int, g as int, b as int),
            255 * (word / 0x100_0000) <= 32 * g < 255 * (word / 0x100_0000 + 1),
            255 * (word / 0x1_0000 % 0x100) <= 32 * r < 255 * (word / 0x1_0000 % 0x100 + 1),
            255 * (word / 0x100 % 0x100) <= 32 * b < 255 * (word / 0x100 % 0x100 + 1),
            word % 0x100 == 0,
    {
        let green: u32 = dim(g) as u32;
        let red: u32 = dim(r) as u32;
        let blue: u32 = dim(b) as u32;
        assert((green << 24) | (red << 16) | (blue << 8) == green * 0x100_0000 + red * 0x1_0000
            + blue * 0x100) by (bit_vector)
            requires
                green <= 255,
                red <= 255,
                blue <= 255,
        ;
        proof {
            law_word_holds_the_colours(r, g, b);
        }
        (green << 24) | (red << 16) | (blue << 8)
    }
}

/// The bytes of a number that is put together from three of them above an empty fourth.
#[verifier::spinoff_prover]
proof fn lemma_bytes_of_word(top: int, mid: int, low: int)
    requires
        0 <= top <= 255,
        0 <= mid <= 255,
        0 <= low <= 255,
    ensures
        ({
            let word = top * 0x100_0000 + mid * 0x1_0000 + low * 0x100;
            &&& word / 0x100_0000 == top
            &&& word / 0x1_0000 % 0x100 == mid
            &&& word / 0x100 % 0x100 == low
            &&& word % 0x100 == 0
        }),
{
    let word = top * 0x100_0000 + mid * 0x1_0000 + low * 0x100;
    assert(word / 0x1_0000 == top * 0x100 + mid);
    assert(word / 0x100 == top * 0x1_0000 + mid * 0x100 + low);
}

/// The four bytes of a word, from the highest one down, are green, red, blue and nothing, each the
/// largest number that is at most 32 of 255 parts of its colour.
pub proof fn law_word_holds_the_colours(r: u8, g: u8, b: u8)
    ensures
        ({
            let word = grb_word(r as int, g as int, b as int);
            let green = word / 0x100_0000;
            let red = word / 0x1_0000 % 0x100;
            let blue = word / 0x100 % 0x100;
            &&& 0 <= word <= u32::MAX
            &&& 255 * green <= 32 * g < 255 * (green + 1)
            &&& 255 * red <= 32 * r < 255 * (red + 1)
            &&& 255 * blue <= 32 * b < 255 * (blue + 1)
            &&& word % 0x100 == 0
        }),
{
    law_dimming_is_monotone(r, 255);
    law_dimming_is_monotone(g, 255);
    law_dimming_is_monotone(b, 255);
    lemma_bytes_of_word(dimmed(g as int), dimmed(r as int), dimmed(b as int));
}

/// The first `n` bits of a word, from the highest one down.
pub open spec fn word_bits(word: u32, n: nat) -> Seq<bool> {
    Seq::new(n, |i: int| (word >> (31 - i) as u32) & 1 == 1)
}

/// The eight bits of a byte, from the highest one down.
pub open spec fn byte_bits(byte: u8) -> Seq<bool> {
    Seq::new(8, |i: int| (byte >> (7 - i) as u8) & 1 == 1)
}

/// The bits of three bytes above an empty fourth, highest first, are the bits of the first, the
/// second and the third byte.
proof fn lemma_word_bits(word: u32, top: u8, mid: u8, low: u8)
    requires
        word == top * 0x100_0000 + mid * 0x1_0000 + low * 0x100,
    ensures
        word_bits(word, 24) == byte_bits(top) + byte_bits(mid) + byte_bits(low),
{
    let bits = word_bits(word, 24);
    assert forall|i: int| 0 <= i < 24 implies bits[i] == (byte_bits(top) + byte_bits(mid)
        + byte_bits(low))[i] by {
        let k = (7 - i % 8) as u32;
        assert((word >> ((24 + k) as u32)) & 1 == 1 <==> (top >> (k as u8)) & 1 == 1)
            by (bit_vector)
            requires
                word == top * 0x100_0000 + mid * 0x1_0000 + low * 0x100,
                k <= 7,
        ;
        assert((word >> ((16 + k) as u32)) & 1 == 1 <==> (mid >> (k as u8)) & 1 == 1)
            by (bit_vector)
            requires
                word == top * 0x100_0000 + mid * 0x1_0000 + low * 0x100,
                k <= 7,
        ;
        assert((word >> ((8 + k) as u32)) & 1 == 1 <==> (low >> (k as u8)) & 1 == 1)
            by (bit_vector)
            requires
                word == top * 0x100_0000 + mid * 0x1_0000 + low * 0x100,
                k <= 7,
        ;
    }
    assert(bits =~= byte_bits(top) + byte_bits(mid) + byte_bits(low));
}

/// A word that [`Ws2812::write_color`] gives, sent by the state machine up to its threshold, puts
/// the scaled green, red and blue on the pin in this order, each from its highest bit down, in 240
/// cycles, and leaves the machine ready for the next word.
pub proof fn law_colour_on_the_pin(
    word: u32,
    r: u8,
    g: u8,
    b: u8,
    m: crate::pio_program::Machine,
)
    requires
        word == grb_word(r as int, g as int, b as int),
        m.pc == WRAP_TARGET,
        m.bits == word_bits(word, PIXEL_BITS as nat),
    ensures
        m.trace(72) == crate::pio_program::waveform(
            byte_bits(dimmed(g as int) as u8) + byte_bits(dimmed(r as int) as u8) + byte_bits(
                dimmed(b as int) as u8,
            ),
        ),
        m.trace(72).len() == 240,
        m.after(72).pc == WRAP_TARGET,
        m.after(72).bits.len() == 0,
{
    lemma_word_bits(
        word,
        dimmed(g as int) as u8,
        dimmed(r as int) as u8,
        dimmed(b as int) as u8,
    );
    crate::pio_program::law_program_sends_waveform(m);
    crate::pio_program::law_waveform_length(m.bits);
}

/// A bit on the pin lasts 1250 ns in all: a one is high for 875 ns of it, a zero for 250 ns, in one
/// piece that starts after 375 ns.
pub proof fn law_pulse_widths(bit: bool)
    ensures
        ({
            let pulse = crate::pio_program::pulse(bit);
            let high = crate::pio_program::high_cycles(bit);
            &&& pulse.len() * CYCLE_NS == 1250
            &&& high * CYCLE_NS == if bit {
                875int
            } else {
                250int
            }
            &&& crate::pio_program::LOW_CYCLES * CYCLE_NS == 375
            &&& forall|i: int|
                0 <= i < pulse.len() ==> (#[trigger] pulse[i] == crate::gpio::Level::High
                    <==> crate::pio_program::LOW_CYCLES <= i < crate::pio_program::LOW_CYCLES
                    + high)
            &&& CYCLE_NS * PIO_CLOCK_HZ == 1_000_000_000
        }),
{
}

} // verus!
