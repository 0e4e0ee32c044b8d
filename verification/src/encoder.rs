//! A quadrature rotary encoder, polled.
//!
//! It is decoded on the falling edges of A: B high is a step clockwise, B low one back.

use crate::gpio::Level;
use vstd::prelude::*;

verus! {

/// What an encoder has counted, and where A stood at the last poll.
pub struct EncoderView {
    pub count: int,
    pub last_a: Level,
}

/// By how much the count changes when A goes from `last_a` to `a` and B reads `b`.
pub open spec fn turn(last_a: Level, a: Level, b: Level) -> int {
    if last_a == Level::High && a == Level::Low {
        if b == Level::High {
            1
        } else {
            -1
        }
    } else {
        0
    }
}

impl EncoderView {
    /// The encoder after a poll.
    pub open spec fn poll(self, a: Level, b: Level) -> EncoderView {
        EncoderView { count: self.count + turn(self.last_a, a, b), last_a: a }
    }

    /// Whether the count stays in range in a poll.
    pub open spec fn can_poll(self, a: Level, b: Level) -> bool {
        i32::MIN <= self.poll(a, b).count <= i32::MAX
    }
}

/// The encoder.
#[derive(Clone, Copy, Debug)]
pub struct Encoder {
    count: i32,
    last_a: Level,
}

impl View for Encoder {
    type V = EncoderView;

    closed spec fn view(&self) -> EncoderView {
        EncoderView { count: self.count as int, last_a: self.last_a }
    }
}

impl Encoder {
    /// An encoder whose A reads `a`, at count zero.
    pub fn new(a: Level) -> (encoder: Encoder)
        ensures
            encoder@ == (EncoderView { count: 0, last_a: a }),
    {
        Encoder { count: 0, last_a: a }
    }

    /// Whether the count stays in range when the pins read `a` and `b`.
    pub fn can_update(&self, a: Level, b: Level) -> (can: bool)
        ensures
            can == self@.can_poll(a, b),
    {
        if self.last_a == Level::High && a == Level::Low {
            if b == Level::High {
                self.count < i32::MAX
            } else {
                self.count > i32::MIN
            }
        } else {
            true
        }
    }

    /// Takes the pins' levels and gives the updated count. To be called every 10 ms or so.
    pub fn update(&mut self, a: Level, b: Level) -> (count: i32)
        requires
            old(self)@.can_poll(a, b),
        ensures
            final(self)@ == old(self)@.poll(a, b),
            count == final(self)@.count,
    {
        if a != self.last_a {
            if a == Level::Low {
                if b == Level::High {
                    self.count = self.count + 1;
                } else {
                    self.count = self.count - 1;
                }
            }
            self.last_a = a;
        }
        self.count
    }

    /// The count.
    pub fn count(&self) -> (count: i32)
        ensures
            count == self@.count,
    {
        self.count
    }
}

/// One poll of both pins.
pub struct Sample {
    pub a: Level,
    pub b: Level,
}

/// A new encoder whose A reads `a`, after polling all of `samples`, the last one last.
pub open spec fn polled(a: Level, samples: Seq<Sample>) -> EncoderView
    decreases samples.len(),
{
    if samples.len() == 0 {
        EncoderView { count: 0, last_a: a }
    } else {
        polled(a, samples.drop_last()).poll(samples.last().a, samples.last().b)
    }
}

/// The level of A just before the `i`-th of `samples`.
pub open spec fn a_before(a: Level, samples: Seq<Sample>, i: int) -> Level {
    if i == 0 {
        a
    } else {
        samples[i - 1].a
    }
}

/// How many of the first `n` samples have a falling edge of A at which B reads `b`.
pub open spec fn falls(a: Level, samples: Seq<Sample>, b: Level, n: nat) -> nat
    decreases n,
{
    if n == 0 {
        0
    } else {
        let i = n - 1;
        let fell = a_before(a, samples, i) == Level::High && samples[i].a == Level::Low;
        falls(a, samples, b, i as nat) + if fell && samples[i].b == b {
            1nat
        } else {
            0nat
        }
    }
}

/// Only the samples up to `n` matter to the first `n` edges.
proof fn lemma_falls_prefix(a: Level, samples: Seq<Sample>, b: Level, n: nat)
    requires
        n < samples.len(),
    ensures
        falls(a, samples.drop_last(), b, n) == falls(a, samples, b, n),
    decreases n,
{
    if n > 0 {
        lemma_falls_prefix(a, samples, b, (n - 1) as nat);
    }
}

/// The count is the number of falling edges of A with B high less the number with B low, over all
/// polls since the start.
pub proof fn law_count_is_net_falling_edges(a: Level, samples: Seq<Sample>)
    ensures
        polled(a, samples).count == falls(a, samples, Level::High, samples.len()) - falls(
            a,
            samples,
            Level::Low,
            samples.len(),
        ),
        polled(a, samples).last_a == a_before(a, samples, samples.len() as int),
    decreases samples.len(),
{
    if samples.len() > 0 {
        let before = samples.drop_last();
        law_count_is_net_falling_edges(a, before);
        lemma_falls_prefix(a, samples, Level::High, before.len());
        lemma_falls_prefix(a, samples, Level::Low, before.len());
    }
}

/// Two falling edges are never adjacent, so `n` polls bring at most half of `n` of them when A ends
/// high, and half of `n + 1` when it ends low.
proof fn lemma_count_bound(a: Level, samples: Seq<Sample>)
    ensures
        ({
            let e = polled(a, samples);
            let n = samples.len() as int;
            let bound = if e.last_a == Level::High {
                n / 2
            } else {
                (n + 1) / 2
            };
            -bound <= e.count <= bound
        }),
    decreases samples.len(),
{
    if samples.len() > 0 {
        lemma_count_bound(a, samples.drop_last());
    }
}

/// A falling edge takes two polls, so the count moves by at most half the number of polls, rounded
/// up, and a new encoder can be polled more than four thousand million times before its count could
/// leave its range.
pub proof fn law_count_stays_in_range(a: Level, samples: Seq<Sample>, next: Sample)
    requires
        samples.len() <= 0xFFFF_FFFD,
    ensures
        -((samples.len() + 1) / 2) <= polled(a, samples).count <= (samples.len() + 1) / 2,
        polled(a, samples).can_poll(next.a, next.b),
{
    lemma_count_bound(a, samples);
    let more = samples.push(next);
    lemma_count_bound(a, more);
    assert(more.drop_last() =~= samples);
}

/// A step forward and a step back cancel: A falls with B high, rises, and falls with B low, and the
/// count is what it was.
pub proof fn law_steps_cancel(e: EncoderView, first: Level, rise: Level)
    requires
        e.last_a == Level::High,
    ensures
        e.poll(Level::Low, Level::High).count == e.count + 1,
        e.poll(Level::Low, Level::Low).count == e.count - 1,
        e.poll(Level::Low, first).poll(Level::High, rise).poll(
            Level::Low,
            if first == Level::High {
                Level::Low
            } else {
                Level::High
            },
        ).count == e.count,
{
}

/// Polling pins that have not moved changes nothing, whatever B reads.
pub proof fn law_still_pins_change_nothing(e: EncoderView, b: Level)
    ensures
        e.poll(e.last_a, b) == e,
{
}

} // verus!
