//! The main loop: what the board does in each tick of 100 ms, and what it shows meanwhile.
//!
//! The encoder turns the pixel's hue, the buzzer sounds while the button is held, and every fifth
//! tick the onboard LED toggles and the display is refreshed.

use crate::button::Button;
use crate::buzzer::Buzzer;
use crate::buzzer::PwmSetting;
use crate::encoder::Encoder;
use crate::gpio::Level;
use crate::pir::Pir;
use crate::rgb::wheel;
use crate::rgb::Ws2812;
use crate::text::as_str;
use crate::text::new_line;
use crate::text::put_decimal;
use crate::text::put_signed_decimal;
use crate::text::put_str;
use crate::text::Line;
use vstd::prelude::*;

verus! {

/// Length of a tick in milliseconds.
pub const TICK_MS: u64 = 100;

/// Ticks between two changes of the LED, and between two refreshes of the display.
pub const BLINK_TICKS: u32 = 5;

/// Positions on the hue wheel that a step of the encoder moves.
pub const HUE_STEP: u8 = 5;

/// How far the board has started.
#[derive(Clone, Copy, PartialEq, Eq, Structural, Debug)]
pub enum BootStage {
    /// The display works; the WiFi chip is next.
    Display,
    /// The WiFi chip works; the pins are next.
    Chip,
    /// The pins and the buzzer work; the pixel is next.
    Pins,
    /// Everything works.
    Ready,
}

/// What the display shows at a stage of the start.
pub open spec fn boot_text(stage: BootStage) -> Seq<Seq<char>> {
    match stage {
        BootStage::Display => seq!["PicoMate v1"@, "CYW43..."@],
        BootStage::Chip => seq!["PicoMate v1"@, "CYW43 OK"@, "GPIO..."@],
        BootStage::Pins => seq!["PicoMate v1"@, "CYW43 OK"@, "GPIO OK"@, "RGB..."@],
        BootStage::Ready => seq!["PicoMate v1"@, "Ready"@],
    }
}

/// The lines that the display shows at a stage of the start.
pub fn boot_lines(stage: BootStage) -> (lines: Vec<&'static str>)
    ensures
        lines@.map_values(|s: &'static str| s@) == boot_text(stage),
{
    let mut lines: Vec<&'static str> = Vec::new();
    lines.push("PicoMate v1");
    match stage {
        BootStage::Display => {
            lines.push("CYW43...");
        },
        BootStage::Chip => {
            lines.push("CYW43 OK");
            lines.push("GPIO...");
        },
        BootStage::Pins => {
            lines.push("CYW43 OK");
            lines.push("GPIO OK");
            lines.push("RGB...");
        },
        BootStage::Ready => {
            lines.push("Ready");
        },
    }
    assert(lines@.map_values(|s: &'static str| s@) =~= boot_text(stage));
    lines
}

/// The position on the hue wheel that an encoder count stands for.
pub open spec fn hue_position(count: int) -> int {
    (HUE_STEP * count) % 256
}

/// Five times a count and five times its low byte are at the same position.
proof fn lemma_low_byte_is_enough(count: int, low: int)
    requires
        low == count % 256,
    ensures
        (low * 5) % 256 == (5 * count) % 256,
{
    let k = count / 256;
    assert(5 * count == 256 * (5 * k) + 5 * low);
}

/// Gives the position on the hue wheel for an encoder count.
pub fn hue_of(count: i32) -> (pos: u8)
    ensures
        pos == hue_position(count as int),
        pos == (5 * count) % 256,
{
    let low: u8 = #[verifier::truncate]
    (count as u8);
    assert(low == (count as u32) % 256 && (count >= 0 ==> count as u32 == count) && (count < 0
        ==> count as u32 == count + 0x1_0000_0000)) by (bit_vector)
        requires
            low == count as u8,
    ;
    let pos: u8 = low.wrapping_mul(HUE_STEP);
    assert(pos == (low * 5) % 256);
    proof {
        lemma_low_byte_is_enough(count as int, low as int);
    }
    pos
}

/// What the board remembers between ticks.
pub struct BoardView {
    pub encoder: crate::encoder::EncoderView,
    pub tick: int,
    pub led_on: bool,
    pub pressed: bool,
}

impl BoardView {
    /// The board before its first tick, with the encoder's A at `a`.
    pub open spec fn start(a: Level) -> BoardView {
        BoardView {
            encoder: crate::encoder::EncoderView { count: 0, last_a: a },
            tick: 0,
            led_on: false,
            pressed: false,
        }
    }

    /// Whether the counters stay in range in a tick.
    pub open spec fn can_tick(self, a: Level, b: Level) -> bool {
        self.tick < u32::MAX && self.encoder.can_poll(a, b)
    }

    /// Whether the next tick is one in which the LED toggles and the display is refreshed.
    pub open spec fn blinks(self) -> bool {
        (self.tick + 1) % BLINK_TICKS as int == 0
    }

    /// The board after a tick in which the pins read `a`, `b` and `button`.
    pub open spec fn next(self, a: Level, b: Level, button: Level) -> BoardView {
        BoardView {
            encoder: self.encoder.poll(a, b),
            tick: self.tick + 1,
            led_on: if self.blinks() {
                !self.led_on
            } else {
                self.led_on
            },
            pressed: button == Level::Low,
        }
    }
}

/// What to do in a tick.
#[derive(Clone, Copy, Debug)]
pub struct Outputs {
    /// The word to send to the pixel.
    pub pixel: u32,
    /// What to set the buzzer's PWM slice to.
    pub buzzer: PwmSetting,
    /// What to switch the onboard LED to, if it changes.
    pub led: Option<bool>,
    /// Whether the display is due.
    pub refresh: bool,
}

/// The two lines of the display that change.
pub struct Status {
    /// The button and the motion sensor.
    pub inputs: Line,
    /// The encoder's count and the hue.
    pub wheel: Line,
}

/// The board.
pub struct Board {
    encoder: Encoder,
    buzzer: Buzzer,
    pixel: Ws2812,
    tick: u32,
    led_on: bool,
    pressed: bool,
}

impl View for Board {
    type V = BoardView;

    closed spec fn view(&self) -> BoardView {
        BoardView {
            encoder: self.encoder@,
            tick: self.tick as int,
            led_on: self.led_on,
            pressed: self.pressed,
        }
    }
}

/// The text of the line about the button and the motion sensor.
pub open spec fn inputs_text(pressed: bool, pir: Level) -> Seq<char> {
    "Btn:"@ + (if pressed {
        "On "@
    } else {
        "Off"@
    }) + " PIR:"@ + crate::pir::motion_word(pir)
}

/// The text of the line about the encoder and the hue.
pub open spec fn wheel_text(count: int) -> Seq<char> {
    "Enc:"@ + crate::text::signed_decimal(count) + " RGB:"@ + crate::text::decimal(
        hue_position(count) as nat,
    )
}

impl Board {
    /// A board that has just started, with the encoder's A at `a`.
    pub fn new(a: Level) -> (board: Board)
        ensures
            board@ == BoardView::start(a),
    {
        Board {
            encoder: Encoder::new(a),
            buzzer: Buzzer::new(),
            pixel: Ws2812::new(),
            tick: 0,
            led_on: false,
            pressed: false,
        }
    }

    /// Whether the counters stay in range when the encoder's pins read `a` and `b`.
    pub fn can_tick(&self, a: Level, b: Level) -> (can: bool)
        ensures
            can == self@.can_tick(a, b),
    {
        self.tick < u32::MAX && self.encoder.can_update(a, b)
    }

    /// Takes the levels of the encoder's pins and the button, and gives what to do.
    pub fn tick(&mut self, a: Level, b: Level, button: Button) -> (out: Outputs)
        requires
            old(self)@.can_tick(a, b),
        ensures
            final(self)@ == old(self)@.next(a, b, button.pin),
            ({
                let now = final(self)@;
                let (r, g, b) = crate::rgb::hue(hue_position(now.encoder.count));
                &&& out.pixel == crate::rgb::grb_word(r, g, b)
                &&& out.buzzer == crate::buzzer::setting(now.pressed)
                &&& out.led == if old(self)@.blinks() {
                    Some(now.led_on)
                } else {
                    None
                }
                &&& out.refresh == old(self)@.blinks()
                &&& out.refresh <==> now.tick % 5 == 0
                &&& out.led == if now.tick % 5 == 0 {
                    Some(!old(self)@.led_on)
                } else {
                    None
                }
                &&& now.tick == old(self)@.tick + 1
                &&& now.pressed <==> button.pin == Level::Low
                &&& out.buzzer.top == 62_499
                &&& out.buzzer.compare_b == if button.pin == Level::Low {
                    31_250
                } else {
                    0int
                }
            }),
    {
        self.tick = self.tick + 1;
        let count: i32 = self.encoder.update(a, b);
        self.pressed = button.is_pressed();
        let (red, green, blue) = wheel(hue_of(count));
        let pixel: u32 = self.pixel.write_color(red, green, blue);
        if self.pressed {
            self.buzzer.on();
        } else {
            self.buzzer.off();
        }
        let blink: bool = self.tick % BLINK_TICKS == 0;
        let led: Option<bool> = if blink {
            self.led_on = !self.led_on;
            Some(self.led_on)
        } else {
            None
        };
        Outputs { pixel, buzzer: self.buzzer.pwm(), led, refresh: blink }
    }

    /// What the display says of the inputs as of the last tick, and of the motion sensor.
    pub fn status(&self, pir: &Pir) -> (status: Status)
        ensures
            crate::text::line_text(status.inputs) == inputs_text(self@.pressed, pir.pin),
            crate::text::line_text(status.wheel) == wheel_text(self@.encoder.count),
            crate::text::line_text(status.inputs) == match (self@.pressed, pir.pin) {
                (true, Level::High) => "Btn:On  PIR:Motion!"@,
                (true, Level::Low) => "Btn:On  PIR:Clear"@,
                (false, Level::High) => "Btn:Off PIR:Motion!"@,
                (false, Level::Low) => "Btn:Off PIR:Clear"@,
            },
    {
        let mut inputs: Line = new_line();
        let mut wheel: Line = new_line();
        let count: i32 = self.encoder.count();
        let pos: u8 = hue_of(count);
        proof {
            reveal_strlit("Btn:");
            reveal_strlit("On ");
            reveal_strlit("Off");
            reveal_strlit(" PIR:");
            reveal_strlit("Motion!");
            reveal_strlit("Clear");
            reveal_strlit("Enc:");
            reveal_strlit(" RGB:");
            law_status_fits_in_a_line(self@.pressed, pir.pin, count as int);
            law_inputs_line_in_full(self@.pressed, pir.pin);
            crate::text::lemma_decimal(pos as nat);
            assert(Seq::<char>::empty() + "Btn:"@ =~= "Btn:"@);
            assert(Seq::<char>::empty() + "Enc:"@ =~= "Enc:"@);
        }
        put_str(&mut inputs, "Btn:");
        put_str(
            &mut inputs,
            if self.pressed {
                "On "
            } else {
                "Off"
            },
        );
        put_str(&mut inputs, " PIR:");
        put_str(&mut inputs, pir.state_str());
        put_str(&mut wheel, "Enc:");
        put_signed_decimal(&mut wheel, count);
        put_str(&mut wheel, " RGB:");
        put_decimal(&mut wheel, pos as u32);
        Status { inputs, wheel }
    }
}

impl Status {
    /// The four lines of the display; the last one is free.
    pub fn lines(&self) -> (lines: Vec<&str>)
        ensures
            lines@.map_values(|s: &str| s@) == seq![
                "PicoMate v1"@,
                crate::text::line_text(self.inputs),
                crate::text::line_text(self.wheel),
                ""@,
            ],
    {
        let mut lines: Vec<&str> = Vec::new();
        lines.push("PicoMate v1");
        lines.push(as_str(&self.inputs));
        lines.push(as_str(&self.wheel));
        lines.push("");
        assert(lines@.map_values(|s: &str| s@) =~= seq![
            "PicoMate v1"@,
            crate::text::line_text(self.inputs),
            crate::text::line_text(self.wheel),
            ""@,
        ]);
        lines
    }
}

/// Both lines of the status fit in a line whatever the board has counted, so nothing of them is
/// ever cut off.
pub proof fn law_status_fits_in_a_line(pressed: bool, pir: Level, count: int)
    requires
        i32::MIN <= count <= i32::MAX,
    ensures
        inputs_text(pressed, pir).len() <= 19,
        wheel_text(count).len() <= 23,
        19 < crate::text::LINE_CAPACITY && 23 < crate::text::LINE_CAPACITY,
{
    reveal_strlit("Btn:");
    reveal_strlit("On ");
    reveal_strlit("Off");
    reveal_strlit(" PIR:");
    reveal_strlit("Motion!");
    reveal_strlit("Clear");
    reveal_strlit("Enc:");
    reveal_strlit(" RGB:");
    crate::text::lemma_decimal(hue_position(count) as nat);
    crate::text::lemma_decimal(
        if count < 0 {
            (-count) as nat
        } else {
            count as nat
        },
    );
}

/// The line about the inputs, for each state of the button and the sensor.
#[verifier::spinoff_prover]
pub proof fn law_inputs_line_in_full(pressed: bool, pir: Level)
    ensures
        inputs_text(pressed, pir) == match (pressed, pir) {
            (true, Level::High) => "Btn:On  PIR:Motion!"@,
            (true, Level::Low) => "Btn:On  PIR:Clear"@,
            (false, Level::High) => "Btn:Off PIR:Motion!"@,
            (false, Level::Low) => "Btn:Off PIR:Clear"@,
        },
{
    reveal_strlit("Btn:");
    reveal_strlit("On ");
    reveal_strlit("Off");
    reveal_strlit(" PIR:");
    reveal_strlit("Motion!");
    reveal_strlit("Clear");
    reveal_strlit("Btn:On  PIR:Motion!");
    reveal_strlit("Btn:On  PIR:Clear");
    reveal_strlit("Btn:Off PIR:Motion!");
    reveal_strlit("Btn:Off PIR:Clear");
    match (pressed, pir) {
        (true, Level::High) => {
            assert(inputs_text(pressed, pir) =~= "Btn:On  PIR:Motion!"@);
        },
        (true, Level::Low) => {
            assert(inputs_text(pressed, pir) =~= "Btn:On  PIR:Clear"@);
        },
        (false, Level::High) => {
            assert(inputs_text(pressed, pir) =~= "Btn:Off PIR:Motion!"@);
        },
        (false, Level::Low) => {
            assert(inputs_text(pressed, pir) =~= "Btn:Off PIR:Clear"@);
        },
    }
}

/// Each part of the line about the inputs depends on its own input alone: whatever the button does,
/// the line ends in `Motion!` exactly when the sensor's pin is high and in `Clear` exactly when it is
/// low; whatever the sensor sees, the line starts with `Btn:On ` exactly when the button is held
/// down and with `Btn:Off` exactly when it is not.
#[verifier::spinoff_prover]
#[verifier::rlimit(40)]
pub proof fn law_inputs_are_shown_independently(pressed: bool, pir: Level)
    ensures
        "Motion!"@.is_suffix_of(inputs_text(pressed, pir)) <==> pir == Level::High,
        "Clear"@.is_suffix_of(inputs_text(pressed, pir)) <==> pir == Level::Low,
        "Btn:On "@.is_prefix_of(inputs_text(pressed, pir)) <==> pressed,
        "Btn:Off"@.is_prefix_of(inputs_text(pressed, pir)) <==> !pressed,
        inputs_text(pressed, pir).take(12) == inputs_text(
            pressed,
            if pir == Level::High {
                Level::Low
            } else {
                Level::High
            },
        ).take(12),
        inputs_text(pressed, pir).skip(7) == inputs_text(!pressed, pir).skip(7),
{
    let text = inputs_text(pressed, pir);
    let sensed = inputs_text(
        pressed,
        if pir == Level::High {
            Level::Low
        } else {
            Level::High
        },
    );
    let held = inputs_text(!pressed, pir);
    reveal_strlit("Btn:");
    reveal_strlit("On ");
    reveal_strlit("Off");
    reveal_strlit(" PIR:");
    reveal_strlit("Motion!");
    reveal_strlit("Clear");
    reveal_strlit("Btn:On ");
    reveal_strlit("Btn:Off");
    assert(text.take(12) =~= sensed.take(12));
    assert(text.skip(7) =~= held.skip(7));
    let end = text.len() as int;
    if pir == Level::High {
        assert(text.subrange(end - 7, end) =~= "Motion!"@);
        assert(text[end - 1] == '!' && "Clear"@[4] == 'r');
        assert(text.subrange(end - 5, end)[4] == '!');
    } else {
        assert(text.subrange(end - 5, end) =~= "Clear"@);
        assert(text[end - 1] == 'r' && "Motion!"@[6] == '!');
        assert(text.subrange(end - 7, end)[6] == 'r');
    }
    assert(text.subrange(0, 7)[5] == text[5]);
    assert("Btn:On "@[5] == 'n' && "Btn:Off"@[5] == 'f');
    if pressed {
        assert(text.subrange(0, 7) =~= "Btn:On "@);
        assert(text[5] == 'n');
    } else {
        assert(text.subrange(0, 7) =~= "Btn:Off"@);
        assert(text[5] == 'f');
    }
}

/// The line about the encoder names the count, with its sign, and the hue: between `Enc:` and
/// ` RGB:` stands the one and behind it the other, each in decimal, so that both read back.
pub proof fn law_wheel_line_reads_back(count: int)
    ensures
        ({
            let text = wheel_text(count);
            let number = crate::text::signed_decimal(count);
            let behind = 4 + number.len() as int;
            &&& text.len() >= behind + 6
            &&& text.take(4) == "Enc:"@
            &&& text.subrange(4, behind) == number
            &&& text.subrange(behind, behind + 5) == " RGB:"@
            &&& crate::text::value(text.skip(behind + 5)) == (5 * count) % 256
            &&& text.skip(behind + 5) == crate::text::decimal(((5 * count) % 256) as nat)
            &&& text[4] == if count < 0 {
                '-'
            } else {
                '+'
            }
            &&& crate::text::value(text.subrange(5, behind)) == if count < 0 {
                -count
            } else {
                count
            }
        }),
{
    let text = wheel_text(count);
    let number = crate::text::signed_decimal(count);
    let behind = 4 + number.len() as int;
    let hue = crate::text::decimal(((5 * count) % 256) as nat);
    reveal_strlit("Enc:");
    reveal_strlit(" RGB:");
    crate::text::law_signed_decimal_reads_back(count);
    crate::text::law_decimal_reads_back(((5 * count) % 256) as nat);
    crate::text::lemma_decimal(((5 * count) % 256) as nat);
    assert(text.take(4) =~= "Enc:"@);
    assert(text.subrange(4, behind) =~= number);
    assert(text.subrange(5, behind) =~= number.skip(1));
    assert(text.subrange(behind, behind + 5) =~= " RGB:"@);
    assert(text.skip(behind + 5) =~= hue);
}

/// A step of the encoder moves the hue by five positions; 51 steps are one position short of a full
/// turn, and 256 steps come back to the same hue.
#[verifier::spinoff_prover]
pub proof fn law_steps_turn_the_hue(count: int)
    ensures
        hue_position(count + 1) == (hue_position(count) + 5) % 256,
        (hue_position(count + 51) + 1) % 256 == hue_position(count),
        hue_position(count + 256) == hue_position(count),
        0 <= hue_position(count) < 256,
        hue_position(0) == 0,
{
    let turns = (5 * count) / 256;
    let pos = hue_position(count);
    assert(5 * count == 256 * turns + pos);
    assert(5 * (count + 1) == 256 * turns + (pos + 5));
    assert(5 * (count + 51) == 256 * turns + (pos + 255));
    assert(5 * (count + 256) == 256 * (turns + 5) + pos);
}

/// Counts less than 256 apart have different hues.
pub proof fn law_hues_differ(count: int, other: int)
    requires
        count < other < count + 256,
    ensures
        hue_position(count) != hue_position(other),
{
    let d = other - count;
    if hue_position(count) == hue_position(other) {
        assert((5 * d) % 256 == 0);
        assert((205 * (5 * d)) % 256 == 0);
        assert(205 * (5 * d) == 1024 * d + d);
    }
}

/// What a tick reads.
pub struct Reading {
    pub a: Level,
    pub b: Level,
    pub button: Level,
}

/// A new board with the encoder's A at `a`, after all of `readings`, the last one last.
pub open spec fn ticked(a: Level, readings: Seq<Reading>) -> BoardView
    decreases readings.len(),
{
    if readings.len() == 0 {
        BoardView::start(a)
    } else {
        let r = readings.last();
        ticked(a, readings.drop_last()).next(r.a, r.b, r.button)
    }
}

/// The encoder's part of the readings.
pub open spec fn samples(readings: Seq<Reading>) -> Seq<crate::encoder::Sample> {
    readings.map_values(|r: Reading| crate::encoder::Sample { a: r.a, b: r.b })
}

/// Whatever the pins read, the board counts its ticks, decodes the encoder from them, and has the
/// LED on in every second run of five ticks; and it can tick more than four thousand million times
/// before a counter could leave its range.
pub proof fn law_board_over_time(a: Level, readings: Seq<Reading>, next: Reading)
    requires
        readings.len() <= 0xFFFF_FFFD,
    ensures
        ({
            let board = ticked(a, readings);
            &&& board.tick == readings.len()
            &&& board.led_on <==> (readings.len() / BLINK_TICKS as nat) % 2 == 1
            &&& board.encoder == crate::encoder::polled(a, samples(readings))
            &&& board.can_tick(next.a, next.b)
            &&& readings.len() > 0 ==> (board.pressed <==> readings.last().button == Level::Low)
            &&& readings.len() == 0 ==> !board.pressed && board.encoder.last_a == a
        }),
    decreases readings.len(),
{
    if readings.len() > 0 {
        law_board_over_time(a, readings.drop_last(), readings.last());
        assert(samples(readings).drop_last() =~= samples(readings.drop_last()));
    }
    crate::encoder::law_count_stays_in_range(
        a,
        samples(readings),
        crate::encoder::Sample { a: next.a, b: next.b },
    );
}

} // verus!
