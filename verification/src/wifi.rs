//! Bringing up the WiFi link: chip, network stack, access point, DHCP.
//!
//! [`init`] is the sequence as a function from a stage and how the last action went to the next
//! stage and action. The chip and the stack are driven by the caller.

use crate::text::new_line;
use crate::text::put_decimal;
use crate::text::put_str;
use crate::text::Line;
use vstd::prelude::*;

verus! {

/// Pause before another attempt to join the access point, in seconds.
pub const JOIN_RETRY_SECS: u64 = 2;

/// Seed of the network stack.
pub const STACK_SEED: u64 = 0xdead_beef_cafe_babe;

/// How far the link is.
#[derive(Clone, Copy, PartialEq, Eq, Structural, Debug)]
pub enum Stage {
    /// The chip is being started.
    Chip,
    /// The regulatory data is being loaded.
    Regulatory,
    /// Power save is being switched off.
    PowerSave,
    /// The network stack is being started.
    Stack,
    /// An attempt to join the access point is under way.
    Joining,
    /// The pause after a failed attempt.
    Backoff,
    /// Waiting for an address.
    Configuring,
    /// The link has an address.
    Up,
}

/// How the last action went.
#[derive(Clone, Copy, Debug)]
pub enum Event {
    /// The action is complete.
    Done,
    /// The outcome of [`Action::Join`].
    Joined(Result<(), ()>),
    /// [`Action::WaitConfig`] brought this address.
    Configured([u8; 4]),
}

/// A link that is up.
pub struct Wifi {
    /// The address in dotted decimal.
    pub ip: Line,
}

/// What the caller does next.
pub enum Action {
    /// Power the chip and start the task that runs it.
    StartChip,
    /// Load the chip's regulatory data.
    LoadRegulatory,
    /// Switch the chip's power save off.
    DisablePowerSave,
    /// Start the network stack with DHCP and `seed`, and the task that runs it.
    StartStack { seed: u64 },
    /// Try to join the access point.
    Join,
    /// Wait for `secs` seconds.
    Delay { secs: u64 },
    /// Wait until DHCP has configured an address.
    WaitConfig,
    /// Nothing: the link is up.
    Ready(Wifi),
}

/// [`Action`] with the address as a sequence of characters.
pub enum ActionView {
    StartChip,
    LoadRegulatory,
    DisablePowerSave,
    StartStack { seed: nat },
    Join,
    Delay { secs: nat },
    WaitConfig,
    Ready { ip: Seq<char> },
}

impl View for Action {
    type V = ActionView;

    open spec fn view(&self) -> ActionView {
        match *self {
            Action::StartChip => ActionView::StartChip,
            Action::LoadRegulatory => ActionView::LoadRegulatory,
            Action::DisablePowerSave => ActionView::DisablePowerSave,
            Action::StartStack { seed } => ActionView::StartStack { seed: seed as nat },
            Action::Join => ActionView::Join,
            Action::Delay { secs } => ActionView::Delay { secs: secs as nat },
            Action::WaitConfig => ActionView::WaitConfig,
            Action::Ready(wifi) => ActionView::Ready { ip: crate::text::line_text(wifi.ip) },
        }
    }
}

/// An IPv4 address in dotted decimal.
pub open spec fn dotted(o: Seq<u8>) -> Seq<char> {
    crate::text::decimal(o[0] as nat) + "."@ + crate::text::decimal(o[1] as nat) + "."@
        + crate::text::decimal(o[2] as nat) + "."@ + crate::text::decimal(o[3] as nat)
}

impl Stage {
    /// Whether `event` is an outcome of the action that the stage is waiting on.
    pub open spec fn awaits(self, event: Event) -> bool {
        match self {
            Stage::Joining => event is Joined,
            Stage::Configuring => event is Configured,
            Stage::Up => false,
            _ => event is Done,
        }
    }
}

/// What is done on entering a stage. Only the address of a link that is up is not known from the
/// stage.
pub open spec fn entering(stage: Stage, ip: Seq<char>) -> ActionView {
    match stage {
        Stage::Chip => ActionView::StartChip,
        Stage::Regulatory => ActionView::LoadRegulatory,
        Stage::PowerSave => ActionView::DisablePowerSave,
        Stage::Stack => ActionView::StartStack { seed: STACK_SEED as nat },
        Stage::Joining => ActionView::Join,
        Stage::Backoff => ActionView::Delay { secs: JOIN_RETRY_SECS as nat },
        Stage::Configuring => ActionView::WaitConfig,
        Stage::Up => ActionView::Ready { ip },
    }
}

/// The stage that follows when `event` happens.
pub open spec fn next_stage(stage: Stage, event: Event) -> Stage {
    match stage {
        Stage::Chip => Stage::Regulatory,
        Stage::Regulatory => Stage::PowerSave,
        Stage::PowerSave => Stage::Stack,
        Stage::Stack => Stage::Joining,
        Stage::Joining => if event matches Event::Joined(Ok(_)) {
            Stage::Configuring
        } else {
            Stage::Backoff
        },
        Stage::Backoff => Stage::Joining,
        Stage::Configuring => Stage::Up,
        Stage::Up => Stage::Up,
    }
}

/// The address that `event` brings, in dotted decimal.
pub open spec fn address(event: Event) -> Seq<char> {
    match event {
        Event::Configured(octets) => dotted(octets@),
        _ => Seq::empty(),
    }
}

/// An address in dotted decimal is ASCII and fits in a line.
pub proof fn law_address_fits_in_a_line(o: Seq<u8>)
    requires
        o.len() == 4,
    ensures
        7 <= dotted(o).len() <= 15 < crate::text::LINE_CAPACITY,
        vstd::utf8::is_ascii_chars(dotted(o)),
{
    reveal_strlit(".");
    crate::text::lemma_decimal(o[0] as nat);
    crate::text::lemma_decimal(o[1] as nat);
    crate::text::lemma_decimal(o[2] as nat);
    crate::text::lemma_decimal(o[3] as nat);
}

/// If two texts are equal, so are their parts before the first dot and behind it.
proof fn lemma_split_at_dot(a: Seq<char>, x: Seq<char>, b: Seq<char>, y: Seq<char>)
    requires
        !a.contains('.'),
        !b.contains('.'),
        a + seq!['.'] + x == b + seq!['.'] + y,
    ensures
        a == b,
        x == y,
{
    let s = a + seq!['.'] + x;
    let t = b + seq!['.'] + y;
    assert(s[a.len() as int] == '.' && t[b.len() as int] == '.');
    if a.len() < b.len() {
        assert(t[a.len() as int] == b[a.len() as int]);
    }
    if b.len() < a.len() {
        assert(s[b.len() as int] == a[b.len() as int]);
    }
    assert(a =~= s.take(a.len() as int));
    assert(b =~= t.take(a.len() as int));
    assert(x =~= s.skip(a.len() as int + 1));
    assert(y =~= t.skip(a.len() as int + 1));
}

/// The text of an address is its first octet, a dot and the rest, and so on; no octet has a dot.
proof fn lemma_dotted_parts(o: Seq<u8>)
    requires
        o.len() == 4,
    ensures
        ({
            let d = |i: int| crate::text::decimal(o[i] as nat);
            dotted(o) == d(0) + seq!['.'] + (d(1) + seq!['.'] + (d(2) + seq!['.'] + d(3)))
        }),
        forall|i: int|
            0 <= i < 4 ==> !(#[trigger] crate::text::decimal(o[i] as nat)).contains('.'),
{
    reveal_strlit(".");
    let d = |i: int| crate::text::decimal(o[i] as nat);
    assert("."@ =~= seq!['.']);
    assert(dotted(o) =~= d(0) + seq!['.'] + (d(1) + seq!['.'] + (d(2) + seq!['.'] + d(3))));
    assert forall|i: int| 0 <= i < 4 implies !(#[trigger] crate::text::decimal(
        o[i] as nat,
    )).contains('.') by {
        crate::text::lemma_decimal_is_digits(o[i] as nat);
    }
}

/// An address can be told from its text: two addresses with the same text are the same.
pub proof fn law_text_tells_the_address(o: Seq<u8>, p: Seq<u8>)
    requires
        o.len() == 4,
        p.len() == 4,
        dotted(o) == dotted(p),
    ensures
        o == p,
{
    lemma_dotted_parts(o);
    lemma_dotted_parts(p);
    let d = |i: int| crate::text::decimal(o[i] as nat);
    let e = |i: int| crate::text::decimal(p[i] as nat);
    let dot = seq!['.'];
    lemma_split_at_dot(
        d(0),
        d(1) + dot + (d(2) + dot + d(3)),
        e(0),
        e(1) + dot + (e(2) + dot + e(3)),
    );
    lemma_split_at_dot(d(1), d(2) + dot + d(3), e(1), e(2) + dot + e(3));
    lemma_split_at_dot(d(2), d(3), e(2), e(3));
    assert forall|i: int| 0 <= i < 4 implies o[i] == p[i] by {
        assert(d(i) == e(i));
        crate::text::law_decimal_reads_back(o[i] as nat);
        crate::text::law_decimal_reads_back(p[i] as nat);
    }
    assert(o =~= p);
}

/// However the text of an address is split at three dots, the four parts are the octets in decimal,
/// in their order.
pub proof fn law_address_reads_back(
    o: Seq<u8>,
    a: Seq<char>,
    b: Seq<char>,
    c: Seq<char>,
    d: Seq<char>,
)
    requires
        o.len() == 4,
        !a.contains('.') && !b.contains('.') && !c.contains('.') && !d.contains('.'),
        dotted(o) == a + seq!['.'] + b + seq!['.'] + c + seq!['.'] + d,
    ensures
        crate::text::value(a) == o[0] && a == crate::text::decimal(o[0] as nat),
        crate::text::value(b) == o[1] && b == crate::text::decimal(o[1] as nat),
        crate::text::value(c) == o[2] && c == crate::text::decimal(o[2] as nat),
        crate::text::value(d) == o[3] && d == crate::text::decimal(o[3] as nat),
{
    lemma_dotted_parts(o);
    let e = |i: int| crate::text::decimal(o[i] as nat);
    let dot = seq!['.'];
    assert(dotted(o) =~= a + dot + (b + dot + (c + dot + d)));
    lemma_split_at_dot(a, b + dot + (c + dot + d), e(0), e(1) + dot + (e(2) + dot + e(3)));
    lemma_split_at_dot(b, c + dot + d, e(1), e(2) + dot + e(3));
    lemma_split_at_dot(c, d, e(2), e(3));
    crate::text::law_decimal_reads_back(o[0] as nat);
    crate::text::law_decimal_reads_back(o[1] as nat);
    crate::text::law_decimal_reads_back(o[2] as nat);
    crate::text::law_decimal_reads_back(o[3] as nat);
}

/// The text of an address is its four octets in decimal with a dot between each two.
pub proof fn law_address_is_four_numbers(o: Seq<u8>)
    requires
        o.len() == 4,
    ensures
        dotted(o) == crate::text::decimal(o[0] as nat) + seq!['.'] + crate::text::decimal(
            o[1] as nat,
        ) + seq!['.'] + crate::text::decimal(o[2] as nat) + seq!['.'] + crate::text::decimal(
            o[3] as nat,
        ),
{
    reveal_strlit(".");
    assert("."@ =~= seq!['.']);
}

/// The address that a link reports tells which one DHCP gave: the configured event alone brings the
/// link up, with that address's text, and two addresses are never reported alike.
pub proof fn law_link_reports_the_address(octets: [u8; 4], other: [u8; 4])
    ensures
        ({
            let stage = next_stage(Stage::Configuring, Event::Configured(octets));
            let ip = address(Event::Configured(octets));
            &&& stage == Stage::Up
            &&& entering(stage, ip) == (ActionView::Ready { ip: dotted(octets@) })
            &&& entering(stage, ip) == entering(stage, address(Event::Configured(other)))
                ==> octets@ == other@
        }),
{
    if dotted(octets@) == dotted(other@) {
        law_text_tells_the_address(octets@, other@);
    }
}

/// The link is ready for every outcome of what it asked for.
pub proof fn law_every_outcome_is_awaited(
    stage: Stage,
    ip: Seq<char>,
    r: Result<(), ()>,
    octets: [u8; 4],
)
    ensures
        match entering(stage, ip) {
            ActionView::Join => stage.awaits(Event::Joined(r)),
            ActionView::WaitConfig => stage.awaits(Event::Configured(octets)),
            ActionView::Ready { .. } => stage == Stage::Up,
            _ => stage.awaits(Event::Done),
        },
{
}

/// Writes an address in dotted decimal.
pub fn ip_line(octets: [u8; 4]) -> (ip: Line)
    ensures
        crate::text::line_text(ip) == dotted(octets@),
{
    let mut ip: Line = new_line();
    proof {
        reveal_strlit(".");
        crate::text::lemma_decimal(octets@[0] as nat);
        crate::text::lemma_decimal(octets@[1] as nat);
        crate::text::lemma_decimal(octets@[2] as nat);
        crate::text::lemma_decimal(octets@[3] as nat);
        assert(Seq::<char>::empty() + crate::text::decimal(octets@[0] as nat)
            =~= crate::text::decimal(octets@[0] as nat));
    }
    put_decimal(&mut ip, octets[0] as u32);
    put_str(&mut ip, ".");
    put_decimal(&mut ip, octets[1] as u32);
    put_str(&mut ip, ".");
    put_decimal(&mut ip, octets[2] as u32);
    put_str(&mut ip, ".");
    put_decimal(&mut ip, octets[3] as u32);
    ip
}

impl Stage {
    /// The link before anything has been done.
    pub fn start() -> (r: (Stage, Action))
        ensures
            r.0 == Stage::Chip,
            r.1@ == ActionView::StartChip,
    {
        (Stage::Chip, Action::StartChip)
    }
}

/// Advances the link by the outcome of its last action. A failed attempt to join is repeated after
/// a pause, however often it fails.
pub fn init(stage: Stage, event: Event) -> (r: (Stage, Action))
    requires
        stage.awaits(event),
    ensures
        r.0 == next_stage(stage, event),
        r.1@ == entering(next_stage(stage, event), address(event)),
        match event {
            Event::Done => match stage {
                Stage::Chip => r.0 == Stage::Regulatory && r.1@ is LoadRegulatory,
                Stage::Regulatory => r.0 == Stage::PowerSave && r.1@ is DisablePowerSave,
                Stage::PowerSave => r.0 == Stage::Stack && r.1@ == (ActionView::StartStack {
                    seed: 0xdead_beef_cafe_babe,
                }),
                _ => r.0 == Stage::Joining && r.1@ is Join,
            },
            Event::Joined(Ok(_)) => r.0 == Stage::Configuring && r.1@ is WaitConfig,
            Event::Joined(Err(_)) => r.0 == Stage::Backoff && r.1@ == (ActionView::Delay {
                secs: 2,
            }),
            Event::Configured(octets) => r.0 == Stage::Up && r.1@ == (ActionView::Ready {
                ip: dotted(octets@),
            }),
        },
{
    match (stage, event) {
        (Stage::Chip, _) => (Stage::Regulatory, Action::LoadRegulatory),
        (Stage::Regulatory, _) => (Stage::PowerSave, Action::DisablePowerSave),
        (Stage::PowerSave, _) => (Stage::Stack, Action::StartStack { seed: STACK_SEED }),
        (Stage::Joining, Event::Joined(Ok(_))) => (Stage::Configuring, Action::WaitConfig),
        (Stage::Joining, _) => (Stage::Backoff, Action::Delay { secs: JOIN_RETRY_SECS }),
        (Stage::Configuring, Event::Configured(octets)) => (
            Stage::Up,
            Action::Ready(Wifi { ip: ip_line(octets) }),
        ),
        _ => (Stage::Joining, Action::Join),
    }
}

/// The stage after all of `events`, starting in `from`.
pub open spec fn stage_after(from: Stage, events: Seq<Event>) -> Stage
    decreases events.len(),
{
    if events.len() == 0 {
        from
    } else {
        next_stage(stage_after(from, events.drop_last()), events.last())
    }
}

/// Whether each of `events` is an outcome of the action under way when it happened.
pub open spec fn possible(from: Stage, events: Seq<Event>) -> bool
    decreases events.len(),
{
    events.len() > 0 ==> {
        &&& possible(from, events.drop_last())
        &&& stage_after(from, events.drop_last()).awaits(events.last())
    }
}

/// The first four stages are always chip, regulatory data, power save and stack, and the first
/// attempt to join comes fifth: power save is off before the access point ever sees the board.
pub proof fn law_startup_order(events: Seq<Event>)
    requires
        possible(Stage::Chip, events),
    ensures
        stage_after(Stage::Chip, events) == Stage::Chip <==> events.len() == 0,
        stage_after(Stage::Chip, events) == Stage::Regulatory <==> events.len() == 1,
        stage_after(Stage::Chip, events) == Stage::PowerSave <==> events.len() == 2,
        stage_after(Stage::Chip, events) == Stage::Stack <==> events.len() == 3,
        events.len() == 4 ==> stage_after(Stage::Chip, events) == Stage::Joining,
    decreases events.len(),
{
    if events.len() > 0 {
        law_startup_order(events.drop_last());
    }
}

/// `n` failed attempts to join, each with the pause that follows it.
pub open spec fn failures(n: nat) -> Seq<Event>
    decreases n,
{
    if n == 0 {
        Seq::empty()
    } else {
        failures((n - 1) as nat).push(Event::Joined(Err(()))).push(Event::Done)
    }
}

/// However many attempts to join fail, the link is then about to try again.
pub proof fn law_failed_joins_are_retried(n: nat)
    ensures
        possible(Stage::Joining, failures(n)),
        stage_after(Stage::Joining, failures(n)) == Stage::Joining,
        failures(n).len() == 2 * n,
    decreases n,
{
    if n > 0 {
        let before = failures((n - 1) as nat);
        law_failed_joins_are_retried((n - 1) as nat);
        let failed = before.push(Event::Joined(Err(())));
        assert(failed.drop_last() =~= before);
        assert(failures(n).drop_last() =~= failed);
        assert(stage_after(Stage::Joining, failed) == Stage::Backoff);
        assert(possible(Stage::Joining, failed));
    }
}

/// The link comes up as soon as an attempt to join succeeds and DHCP answers, whatever failed
/// before.
pub proof fn law_first_success_brings_the_link_up(n: nat, octets: [u8; 4])
    ensures
        ({
            let joined = failures(n).push(Event::Joined(Ok(())));
            let configured = joined.push(Event::Configured(octets));
            &&& possible(Stage::Joining, configured)
            &&& stage_after(Stage::Joining, joined) == Stage::Configuring
            &&& stage_after(Stage::Joining, configured) == Stage::Up
        }),
{
    law_failed_joins_are_retried(n);
    let joined = failures(n).push(Event::Joined(Ok(())));
    let configured = joined.push(Event::Configured(octets));
    assert(joined.drop_last() =~= failures(n));
    assert(configured.drop_last() =~= joined);
    assert(possible(Stage::Joining, joined));
}

/// A link that is up has joined an access point and then been given an address, and these were the
/// last two things that happened.
pub proof fn law_up_means_joined_and_configured(events: Seq<Event>)
    requires
        possible(Stage::Chip, events),
        stage_after(Stage::Chip, events) == Stage::Up,
    ensures
        events.len() >= 6,
        events[events.len() - 2] matches Event::Joined(Ok(_)),
        events[events.len() - 1] is Configured,
{
    reveal_with_fuel(possible, 3);
    let joined = events.drop_last();
    law_startup_order(events);
    law_startup_order(joined);
    assert(stage_after(Stage::Chip, joined) == Stage::Configuring);
    let before = joined.drop_last();
    law_startup_order(before);
    assert(stage_after(Stage::Chip, before) == Stage::Joining);
    assert(joined.last() == events[events.len() - 2]);
}

} // verus!
