//! The PIO program that drives the pixel, what it puts on the pin, and its machine code.

use crate::gpio::Level;
use embassy_rp::pio::program::Instruction;
use embassy_rp::pio::program::InstructionOperands;
use embassy_rp::pio::program::JmpCondition;
use embassy_rp::pio::program::MovDestination;
use embassy_rp::pio::program::MovOperation;
use embassy_rp::pio::program::MovSource;
use embassy_rp::pio::program::OutDestination;
use embassy_rp::pio::program::SideSet;
use vstd::prelude::*;

verus! {

/// What an instruction does.
#[derive(Clone, Copy, PartialEq, Eq, Structural, Debug)]
pub enum Op {
    /// Shift `bits` bits out into X.
    OutX { bits: u8 },
    /// Go to `target` if X is zero.
    JmpNotX { target: u8 },
    /// Go to `target`.
    Jmp { target: u8 },
    /// Nothing.
    Nop,
}

/// One instruction: it drives the side-set pin to `side`, and takes `delay` cycles more than one.
#[derive(Clone, Copy, PartialEq, Eq, Structural, Debug)]
pub struct Instr {
    pub op: Op,
    pub side: Level,
    pub delay: u8,
}

impl Instr {
    /// Whether the instruction can be encoded with one side-set pin.
    pub open spec fn encodable(self) -> bool {
        &&& self.delay <= 15
        &&& match self.op {
            Op::OutX { bits } => 1 <= bits <= 32,
            Op::JmpNotX { target } => target < 32,
            Op::Jmp { target } => target < 32,
            Op::Nop => true,
        }
    }
}

/// Pins that every instruction drives by side-set.
pub const SIDE_SET_PINS: u8 = 1;

/// Address of the instruction behind which the program starts over.
pub const WRAP_SOURCE: u8 = 3;

/// Address at which the program starts, and starts over.
pub const WRAP_TARGET: u8 = 0;

/// Address of the instruction that ends a zero.
pub const DO_ZERO: u8 = 3;

/// The program: fetch a bit with the pin low, drive the pin high and branch on the bit, and keep it
/// high for a one or take it low for a zero.
pub open spec fn program() -> Seq<Instr> {
    seq![
        Instr { op: Op::OutX { bits: 1 }, side: Level::Low, delay: 2 },
        Instr { op: Op::JmpNotX { target: DO_ZERO }, side: Level::High, delay: 1 },
        Instr { op: Op::Jmp { target: WRAP_TARGET }, side: Level::High, delay: 4 },
        Instr { op: Op::Nop, side: Level::Low, delay: 4 },
    ]
}

/// A state machine: the address of its next instruction, its scratch register X, and the bits that
/// it has still to shift out, the next one first.
pub struct Machine {
    pub pc: int,
    pub x: nat,
    pub bits: Seq<bool>,
}

/// The number whose binary digits are `bits`, the highest one first.
pub open spec fn number(bits: Seq<bool>) -> nat
    decreases bits.len(),
{
    if bits.len() == 0 {
        0
    } else {
        2 * number(bits.drop_last()) + if bits.last() {
            1nat
        } else {
            0nat
        }
    }
}

impl Machine {
    /// The instruction that comes next.
    pub open spec fn instr(self) -> Instr {
        program()[self.pc]
    }

    /// The address behind the current one, with the wrap.
    pub open spec fn following(self) -> int {
        if self.pc == WRAP_SOURCE {
            WRAP_TARGET as int
        } else {
            self.pc + 1
        }
    }

    /// The machine after one instruction.
    pub open spec fn step(self) -> Machine {
        match self.instr().op {
            Op::OutX { bits } => Machine {
                pc: self.following(),
                x: number(self.bits.take(bits as int)),
                bits: self.bits.skip(bits as int),
            },
            Op::JmpNotX { target } => Machine {
                pc: if self.x == 0 {
                    target as int
                } else {
                    self.following()
                },
                ..self
            },
            Op::Jmp { target } => Machine { pc: target as int, ..self },
            Op::Nop => Machine { pc: self.following(), ..self },
        }
    }

    /// The pin's level in each cycle of the next instruction.
    pub open spec fn levels(self) -> Seq<Level> {
        let instr = self.instr();
        Seq::new((1 + instr.delay) as nat, |cycle: int| instr.side)
    }

    /// The machine after `n` instructions.
    pub open spec fn after(self, n: nat) -> Machine
        decreases n,
    {
        if n == 0 {
            self
        } else {
            self.step().after((n - 1) as nat)
        }
    }

    /// The pin's level in each cycle of the next `n` instructions.
    pub open spec fn trace(self, n: nat) -> Seq<Level>
        decreases n,
    {
        if n == 0 {
            Seq::empty()
        } else {
            self.levels() + self.step().trace((n - 1) as nat)
        }
    }
}

/// Cycles that a bit takes.
pub const BIT_CYCLES: u32 = 10;

/// Cycles for which the pin is low at the start of a bit.
pub const LOW_CYCLES: u32 = 3;

/// Cycles for which the pin is then high.
pub open spec fn high_cycles(bit: bool) -> int {
    if bit {
        7
    } else {
        2
    }
}

/// What one bit looks like on the pin: low, then high for as long as the bit says, then low again
/// to the end.
pub open spec fn pulse(bit: bool) -> Seq<Level> {
    Seq::new(
        BIT_CYCLES as nat,
        |cycle: int|
            if LOW_CYCLES <= cycle < LOW_CYCLES + high_cycles(bit) {
                Level::High
            } else {
                Level::Low
            },
    )
}

/// What a sequence of bits looks like on the pin.
pub open spec fn waveform(bits: Seq<bool>) -> Seq<Level>
    decreases bits.len(),
{
    if bits.len() == 0 {
        Seq::empty()
    } else {
        pulse(bits[0]) + waveform(bits.drop_first())
    }
}

/// Three instructions send one bit.
proof fn lemma_sends_one_bit(m: Machine)
    requires
        m.pc == WRAP_TARGET,
        m.bits.len() > 0,
    ensures
        m.trace(3) == pulse(m.bits[0]),
        m.after(3).pc == WRAP_TARGET,
        m.after(3).bits == m.bits.drop_first(),
{
    reveal_with_fuel(Machine::trace, 4);
    reveal_with_fuel(Machine::after, 4);
    reveal_with_fuel(number, 2);
    assert(m.bits.take(1).drop_last() =~= Seq::<bool>::empty());
    assert(m.bits.skip(1) =~= m.bits.drop_first());
    assert(m.trace(3) =~= pulse(m.bits[0]));
}

/// Running on is running twice.
proof fn lemma_trace_splits(m: Machine, j: nat, k: nat)
    ensures
        m.trace(j + k) == m.trace(j) + m.after(j).trace(k),
        m.after(j + k) == m.after(j).after(k),
    decreases j,
{
    if j > 0 {
        lemma_trace_splits(m.step(), (j - 1) as nat, k);
        assert((j + k - 1) as nat == (j - 1) as nat + k);
        assert(m.trace(j + k) =~= m.trace(j) + m.after(j).trace(k));
    } else {
        assert(m.trace(0) + m.trace(k) =~= m.trace(k));
    }
}

/// The program sends any sequence of bits as the waveform says, bit by bit without a gap, and is
/// then ready for more.
pub proof fn law_program_sends_waveform(m: Machine)
    requires
        m.pc == WRAP_TARGET,
    ensures
        m.trace(3 * m.bits.len()) == waveform(m.bits),
        m.after(3 * m.bits.len()).pc == WRAP_TARGET,
        m.after(3 * m.bits.len()).bits.len() == 0,
    decreases m.bits.len(),
{
    if m.bits.len() > 0 {
        let rest = (m.bits.len() - 1) as nat;
        lemma_sends_one_bit(m);
        law_program_sends_waveform(m.after(3));
        lemma_trace_splits(m, 3, 3 * rest);
        assert(3 * m.bits.len() == 3 + 3 * rest);
    }
}

/// A bit takes ten cycles whatever it is.
pub proof fn law_waveform_length(bits: Seq<bool>)
    ensures
        waveform(bits).len() == BIT_CYCLES * bits.len(),
    decreases bits.len(),
{
    if bits.len() > 0 {
        law_waveform_length(bits.drop_first());
    }
}

/// The upper bits of an instruction's code: the operation and its operands.
pub open spec fn op_code(op: Op) -> int {
    match op {
        Op::OutX { bits } => 0x6020 + bits as int % 32,
        Op::JmpNotX { target } => 0x0020 + target,
        Op::Jmp { target } => target as int,
        Op::Nop => 0xa042,
    }
}

/// The code of an instruction with one side-set pin: between the operation and its operands stand
/// the side-set bit and four bits of delay.
pub open spec fn code_of(instr: Instr) -> int {
    op_code(instr.op) + 0x100 * instr.delay + if instr.side == Level::High {
        0x1000int
    } else {
        0int
    }
}

/// Calls `Instruction::encode` of the `pio` crate, as `embassy_rp` exports it, for a program whose
/// instructions all drive `side_set_pins` pins. With one such pin the code has the operation in
/// bits 13 to 15, the side-set bit in bit 12, the delay in bits 8 to 11, and the operands below; a
/// `Nop` is a move of Y to itself.
#[verifier::external_body]
fn encode(instr: Instr, side_set_pins: u8) -> (code: u16)
    requires
        instr.encodable(),
        side_set_pins == 1,
    ensures
        code == code_of(instr),
{
    let (x, y) = (OutDestination::X, MovDestination::Y);
    let (zero, always) = (JmpCondition::XIsZero, JmpCondition::Always);
    let operands = match instr.op {
        Op::OutX { bits } => InstructionOperands::OUT { destination: x, bit_count: bits },
        Op::JmpNotX { target } => InstructionOperands::JMP { condition: zero, address: target },
        Op::Jmp { target } => InstructionOperands::JMP { condition: always, address: target },
        Op::Nop => InstructionOperands::MOV { destination: y, op: MovOperation::None, source: MovSource::Y },
    };
    let side_set = match instr.side {
        Level::Low => Some(0),
        Level::High => Some(1),
    };
    Instruction { operands, delay: instr.delay, side_set }.encode(SideSet::new(false, side_set_pins, false))
}

/// The machine code of the program, in the order of the addresses.
pub fn assemble() -> (code: Vec<u16>)
    ensures
        code@.len() == program().len(),
        forall|i: int| 0 <= i < code@.len() ==> code@[i] == code_of(#[trigger] program()[i]),
{
    let instrs: [Instr; 4] = [
        Instr { op: Op::OutX { bits: 1 }, side: Level::Low, delay: 2 },
        Instr { op: Op::JmpNotX { target: DO_ZERO }, side: Level::High, delay: 1 },
        Instr { op: Op::Jmp { target: WRAP_TARGET }, side: Level::High, delay: 4 },
        Instr { op: Op::Nop, side: Level::Low, delay: 4 },
    ];
    assert(instrs@ =~= program());
    let mut code: Vec<u16> = Vec::new();
    for i in 0..4
        invariant
            instrs@ == program(),
            code@.len() == i,
            forall|j: int| 0 <= j < i ==> code@[j] == code_of(#[trigger] program()[j]),
    {
        code.push(encode(instrs[i], SIDE_SET_PINS));
    }
    code
}

} // verus!
