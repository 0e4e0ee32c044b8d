//! Over-the-air firmware update over TCP: the receiving side's decisions.
//!
//! A client connects to port [`OTA_PORT`], sends the firmware size as four big-endian bytes and
//! then the raw image. The image goes to the DFU partition in chunks of [`ERASE_SIZE`] bytes, the
//! update is marked, and the board resets so that the bootloader swaps the partitions.
//!
//! [`listen`] is the whole protocol as a function from a session and what has just happened to the
//! next session and what to do next. The sockets and the flash are driven by the caller.

use vstd::prelude::*;

verus! {

/// TCP port on which updates are accepted.
pub const OTA_PORT: u16 = 4242;

/// Size of the board's flash in bytes.
pub const FLASH_SIZE: usize = 2 * 1024 * 1024;

/// Size of a flash sector, and so of a full chunk.
pub const ERASE_SIZE: usize = 4096;

/// Length of the size header in bytes.
pub const HEADER_LEN: usize = 4;

/// Idle time after which the socket gives up, in seconds.
pub const SOCKET_TIMEOUT_SECS: u64 = 60;

/// Pause between marking the update and the reset, in milliseconds.
pub const REBOOT_DELAY_MS: u64 = 200;

/// What a read that has to fill a buffer has come to.
pub enum Fill {
    /// The buffer is full.
    Full(Vec<u8>),
    /// More bytes are needed.
    Partial(Vec<u8>),
    /// The peer closed the connection, or the socket failed.
    Failed,
}

/// [`Fill`] over sequences.
pub enum FillView {
    Full(Seq<u8>),
    Partial(Seq<u8>),
    Failed,
}

impl View for Fill {
    type V = FillView;

    open spec fn view(&self) -> FillView {
        match *self {
            Fill::Full(bytes) => FillView::Full(bytes@),
            Fill::Partial(bytes) => FillView::Partial(bytes@),
            Fill::Failed => FillView::Failed,
        }
    }
}

/// Where an update session stands.
pub enum Session {
    /// No client yet.
    Accepting,
    /// Reading the size header, of which `got` has arrived.
    Header { got: Vec<u8> },
    /// Reading the chunk at `offset`, of which `got` has arrived.
    Body { fw_size: usize, offset: usize, got: Vec<u8> },
    /// The chunk of `len` bytes at `offset` is being written.
    Flashing { fw_size: usize, offset: usize, len: usize },
    /// The whole image is in flash; the update is being marked.
    Marking,
    /// The update is marked; the last log messages and packets drain.
    Settling,
    /// The reset has been asked for.
    Rebooting,
}

/// [`Session`] over numbers and sequences.
pub enum SessionView {
    Accepting,
    Header { got: Seq<u8> },
    Body { fw_size: nat, offset: nat, got: Seq<u8> },
    Flashing { fw_size: nat, offset: nat, len: nat },
    Marking,
    Settling,
    Rebooting,
}

impl View for Session {
    type V = SessionView;

    open spec fn view(&self) -> SessionView {
        match *self {
            Session::Accepting => SessionView::Accepting,
            Session::Header { got } => SessionView::Header { got: got@ },
            Session::Body { fw_size, offset, got } => SessionView::Body {
                fw_size: fw_size as nat,
                offset: offset as nat,
                got: got@,
            },
            Session::Flashing { fw_size, offset, len } => SessionView::Flashing {
                fw_size: fw_size as nat,
                offset: offset as nat,
                len: len as nat,
            },
            Session::Marking => SessionView::Marking,
            Session::Settling => SessionView::Settling,
            Session::Rebooting => SessionView::Rebooting,
        }
    }
}

/// What the caller does next.
pub enum Action {
    /// Open a fresh socket that gives up after `timeout_secs` idle seconds, and accept a client on
    /// `port`.
    Accept { port: u16, timeout_secs: u64 },
    /// Read at most `len` bytes from the socket.
    Read { len: usize },
    /// Write the chunk to the DFU partition at `offset`.
    Write { offset: usize, chunk: Vec<u8> },
    /// Mark the update as ready to be swapped in.
    MarkUpdated,
    /// Wait for `ms` milliseconds.
    Delay { ms: u64 },
    /// Reset the board.
    Reset,
}

/// [`Action`] over numbers and sequences.
pub enum ActionView {
    Accept { port: nat, timeout_secs: nat },
    Read { len: nat },
    Write { offset: nat, chunk: Seq<u8> },
    MarkUpdated,
    Delay { ms: nat },
    Reset,
}

impl View for Action {
    type V = ActionView;

    open spec fn view(&self) -> ActionView {
        match *self {
            Action::Accept { port, timeout_secs } => ActionView::Accept {
                port: port as nat,
                timeout_secs: timeout_secs as nat,
            },
            Action::Read { len } => ActionView::Read { len: len as nat },
            Action::Write { offset, chunk } => ActionView::Write {
                offset: offset as nat,
                chunk: chunk@,
            },
            Action::MarkUpdated => ActionView::MarkUpdated,
            Action::Delay { ms } => ActionView::Delay { ms: ms as nat },
            Action::Reset => ActionView::Reset,
        }
    }
}

/// How the last action went.
pub enum Event {
    /// The outcome of [`Action::Accept`].
    Accepted(Result<(), ()>),
    /// The outcome of [`Action::Read`]: the bytes that came, none when the peer has closed.
    Received(Result<Vec<u8>, ()>),
    /// The outcome of [`Action::Write`].
    Written(Result<(), ()>),
    /// The outcome of [`Action::MarkUpdated`].
    Marked(Result<(), ()>),
    /// [`Action::Delay`] is over.
    Waited,
}

/// [`Event`] over sequences.
pub enum EventView {
    Accepted(Result<(), ()>),
    Received(Result<Seq<u8>, ()>),
    Written(Result<(), ()>),
    Marked(Result<(), ()>),
    Waited,
}

/// The bytes of a read over sequences.
pub open spec fn read_view(data: Result<Vec<u8>, ()>) -> Result<Seq<u8>, ()> {
    match data {
        Ok(bytes) => Ok(bytes@),
        Err(e) => Err(e),
    }
}

impl View for Event {
    type V = EventView;

    open spec fn view(&self) -> EventView {
        match *self {
            Event::Accepted(r) => EventView::Accepted(r),
            Event::Received(data) => EventView::Received(read_view(data)),
            Event::Written(r) => EventView::Written(r),
            Event::Marked(r) => EventView::Marked(r),
            Event::Waited => EventView::Waited,
        }
    }
}

/// The number that four big-endian bytes stand for.
pub open spec fn be_u32(b: Seq<u8>) -> nat {
    (b[0] * 0x100_0000 + b[1] * 0x1_0000 + b[2] * 0x100 + b[3]) as nat
}

/// Length of the chunk at `offset` of an image of `fw_size` bytes: a full sector, or what is left.
pub open spec fn chunk_len(fw_size: nat, offset: nat) -> nat {
    let left = (fw_size - offset) as nat;
    if left < ERASE_SIZE {
        left
    } else {
        ERASE_SIZE as nat
    }
}

/// What a read of `want` bytes comes to before the socket is asked: a buffer without room is full.
pub open spec fn fill_start(want: nat) -> FillView {
    if want == 0 {
        FillView::Full(Seq::empty())
    } else {
        FillView::Partial(Seq::empty())
    }
}

/// What a read of `want` bytes comes to when `data` follows the bytes in `got`.
pub open spec fn fill(want: nat, got: Seq<u8>, data: Result<Seq<u8>, ()>) -> FillView {
    match data {
        Ok(bytes) => if bytes.len() == 0 {
            FillView::Failed
        } else if got.len() + bytes.len() == want {
            FillView::Full(got + bytes)
        } else {
            FillView::Partial(got + bytes)
        },
        Err(_) => FillView::Failed,
    }
}

impl SessionView {
    /// What every session that `listen` hands out satisfies.
    pub open spec fn wf(self) -> bool {
        match self {
            SessionView::Header { got } => got.len() < HEADER_LEN,
            SessionView::Body { fw_size, offset, got } => {
                &&& fw_size <= u32::MAX
                &&& offset < fw_size
                &&& offset % ERASE_SIZE as nat == 0
                &&& got.len() < chunk_len(fw_size, offset)
            },
            SessionView::Flashing { fw_size, offset, len } => {
                &&& fw_size <= u32::MAX
                &&& offset < fw_size
                &&& offset % ERASE_SIZE as nat == 0
                &&& len == chunk_len(fw_size, offset)
            },
            _ => true,
        }
    }

    /// Whether `event` is an outcome of the action that the session is waiting on. A read never
    /// brings more than was asked for.
    pub open spec fn awaits(self, event: EventView) -> bool {
        match self {
            SessionView::Accepting => event is Accepted,
            SessionView::Header { got } => event matches EventView::Received(data) && (data
                matches Ok(bytes) ==> got.len() + bytes.len() <= HEADER_LEN),
            SessionView::Body { fw_size, offset, got } => event matches EventView::Received(data)
                && (data matches Ok(bytes) ==> got.len() + bytes.len() <= chunk_len(
                fw_size,
                offset,
            )),
            SessionView::Flashing { .. } => event is Written,
            SessionView::Marking => event is Marked,
            SessionView::Settling => event is Waited,
            SessionView::Rebooting => false,
        }
    }
}

/// The transfer of an image of `fw_size` bytes, `offset` of which are in flash: read the next
/// chunk, or mark the update when nothing is left.
pub open spec fn next_chunk(fw_size: nat, offset: nat) -> (SessionView, ActionView) {
    if offset < fw_size {
        (
            SessionView::Body { fw_size, offset, got: Seq::empty() },
            ActionView::Read { len: chunk_len(fw_size, offset) },
        )
    } else {
        (SessionView::Marking, ActionView::MarkUpdated)
    }
}

/// Waiting for a client, as after every failure.
pub open spec fn restart() -> (SessionView, ActionView) {
    (
        SessionView::Accepting,
        ActionView::Accept {
            port: OTA_PORT as nat,
            timeout_secs: SOCKET_TIMEOUT_SECS as nat,
        },
    )
}

/// The protocol: what follows when `event` happens in `session`.
pub open spec fn next(session: SessionView, event: EventView) -> (SessionView, ActionView) {
    match (session, event) {
        (SessionView::Accepting, EventView::Accepted(Ok(_))) => (
            SessionView::Header { got: Seq::empty() },
            ActionView::Read { len: HEADER_LEN as nat },
        ),
        (SessionView::Header { got }, EventView::Received(data)) => match fill(
            HEADER_LEN as nat,
            got,
            data,
        ) {
            FillView::Full(header) => next_chunk(be_u32(header), 0),
            FillView::Partial(got) => (
                SessionView::Header { got },
                ActionView::Read { len: (HEADER_LEN - got.len()) as nat },
            ),
            FillView::Failed => restart(),
        },
        (SessionView::Body { fw_size, offset, got }, EventView::Received(data)) => match fill(
            chunk_len(fw_size, offset),
            got,
            data,
        ) {
            FillView::Full(chunk) => (
                SessionView::Flashing { fw_size, offset, len: chunk.len() },
                ActionView::Write { offset, chunk },
            ),
            FillView::Partial(got) => (
                SessionView::Body { fw_size, offset, got },
                ActionView::Read { len: (chunk_len(fw_size, offset) - got.len()) as nat },
            ),
            FillView::Failed => restart(),
        },
        (SessionView::Flashing { fw_size, offset, len }, EventView::Written(Ok(_))) => next_chunk(
            fw_size,
            offset + len,
        ),
        (SessionView::Marking, EventView::Marked(Ok(_))) => (
            SessionView::Settling,
            ActionView::Delay { ms: REBOOT_DELAY_MS as nat },
        ),
        (SessionView::Settling, EventView::Waited) => (SessionView::Rebooting, ActionView::Reset),
        _ => restart(),
    }
}

/// Reads the big-endian firmware size out of a full header.
pub fn firmware_size(header: &Vec<u8>) -> (size: u32)
    requires
        header@.len() == HEADER_LEN,
    ensures
        size == be_u32(header@),
        size / 0x100_0000 == header@[0],
        size / 0x1_0000 % 0x100 == header@[1],
        size / 0x100 % 0x100 == header@[2],
        size % 0x100 == header@[3],
{
    header[0] as u32 * 0x100_0000 + header[1] as u32 * 0x1_0000 + header[2] as u32 * 0x100
        + header[3] as u32
}

/// Begins to fill a buffer of `want` bytes. An empty buffer is full at once, and the socket is not
/// read for it, whatever state it is in.
pub fn begin_read(want: usize) -> (step: Fill)
    ensures
        step@ == fill_start(want as nat),
        step@ == if want == 0 {
            FillView::Full(Seq::empty())
        } else {
            FillView::Partial(Seq::empty())
        },
{
    if want == 0 {
        Fill::Full(Vec::new())
    } else {
        Fill::Partial(Vec::new())
    }
}

/// Takes what one socket read brought into a buffer of `want` bytes that holds `got` so far. A
/// read that brings nothing means that the peer has closed the connection.
pub fn read_exact(want: usize, got: Vec<u8>, data: Result<Vec<u8>, ()>) -> (step: Fill)
    requires
        got@.len() < want,
        data matches Ok(bytes) ==> got@.len() + bytes@.len() <= want,
    ensures
        step@ == fill(want as nat, got@, read_view(data)),
        step@ is Failed <==> (data is Err || data->Ok_0@.len() == 0),
        step@ is Full ==> step@ == FillView::Full(got@ + data->Ok_0@) && got@.len()
            + data->Ok_0@.len() == want,
        step@ is Partial ==> step@ == FillView::Partial(got@ + data->Ok_0@) && got@.len()
            + data->Ok_0@.len() < want,
{
    match data {
        Ok(bytes) => {
            if bytes.len() == 0 {
                return Fill::Failed;
            }
            let mut bytes = bytes;
            let mut buf = got;
            buf.append(&mut bytes);
            if buf.len() == want {
                Fill::Full(buf)
            } else {
                Fill::Partial(buf)
            }
        },
        Err(_) => Fill::Failed,
    }
}

/// Length of the chunk to read at `offset`.
fn chunk_size(fw_size: usize, offset: usize) -> (len: usize)
    requires
        offset <= fw_size,
    ensures
        len == chunk_len(fw_size as nat, offset as nat),
{
    let left: usize = fw_size - offset;
    if left < ERASE_SIZE {
        left
    } else {
        ERASE_SIZE
    }
}

/// The next chunk of the transfer, or the mark when the image is complete.
fn advance(fw_size: usize, offset: usize) -> (r: (Session, Action))
    requires
        fw_size <= u32::MAX,
        offset <= fw_size,
        offset % ERASE_SIZE == 0 || offset == fw_size,
    ensures
        (r.0@, r.1@) == next_chunk(fw_size as nat, offset as nat),
        r.0@.wf(),
{
    let len: usize = chunk_size(fw_size, offset);
    match begin_read(len) {
        Fill::Partial(got) => (Session::Body { fw_size, offset, got }, Action::Read { len }),
        _ => (Session::Marking, Action::MarkUpdated),
    }
}

impl Session {
    /// A listener that has not seen a client yet.
    pub fn start() -> (r: (Session, Action))
        ensures
            (r.0@, r.1@) == restart(),
            r.0@.wf(),
    {
        (
            Session::Accepting,
            Action::Accept { port: OTA_PORT, timeout_secs: SOCKET_TIMEOUT_SECS },
        )
    }
}

/// Advances an update session by the outcome of its last action. Any failure drops the connection
/// and waits for a new client; the reset comes only after the update has been marked.
pub fn listen(session: Session, event: Event) -> (r: (Session, Action))
    requires
        session@.wf(),
        session@.awaits(event@),
    ensures
        (r.0@, r.1@) == next(session@, event@),
        r.0@.wf(),
        r.0@ is Accepting <==> r.1@ is Accept,
        r.1@ is Accept <==> match event@ {
            EventView::Accepted(outcome) => outcome is Err,
            EventView::Received(Ok(bytes)) => bytes.len() == 0,
            EventView::Received(Err(_)) => true,
            EventView::Written(outcome) => outcome is Err,
            EventView::Marked(outcome) => outcome is Err,
            EventView::Waited => false,
        },
        r.1@ is Accept ==> r.1@ == (ActionView::Accept { port: 4242, timeout_secs: 60 }),
        event@ matches EventView::Marked(Ok(_)) ==> r.1@ == (ActionView::Delay { ms: 200 }),
        r.1@ is Reset <==> event@ is Waited,
{
    match (session, event) {
        (Session::Accepting, Event::Accepted(Ok(_))) => match begin_read(HEADER_LEN) {
            Fill::Partial(got) => (Session::Header { got }, Action::Read { len: HEADER_LEN }),
            _ => Session::start(),
        },
        (Session::Header { got }, Event::Received(data)) => {
            match read_exact(HEADER_LEN, got, data) {
                Fill::Full(header) => advance(firmware_size(&header) as usize, 0),
                Fill::Partial(got) => {
                    let len: usize = HEADER_LEN - got.len();
                    (Session::Header { got }, Action::Read { len })
                },
                Fill::Failed => Session::start(),
            }
        },
        (Session::Body { fw_size, offset, got }, Event::Received(data)) => {
            let want: usize = chunk_size(fw_size, offset);
            match read_exact(want, got, data) {
                Fill::Full(chunk) => (
                    Session::Flashing { fw_size, offset, len: chunk.len() },
                    Action::Write { offset, chunk },
                ),
                Fill::Partial(got) => {
                    let len: usize = want - got.len();
                    (Session::Body { fw_size, offset, got }, Action::Read { len })
                },
                Fill::Failed => Session::start(),
            }
        },
        (Session::Flashing { fw_size, offset, len }, Event::Written(Ok(_))) => advance(
            fw_size,
            offset + len,
        ),
        (Session::Marking, Event::Marked(Ok(_))) => (
            Session::Settling,
            Action::Delay { ms: REBOOT_DELAY_MS },
        ),
        (Session::Settling, Event::Waited) => (Session::Rebooting, Action::Reset),
        _ => Session::start(),
    }
}

/// The bytes of a header are the digits of its number.
#[verifier::spinoff_prover]
proof fn lemma_digits(b: Seq<u8>)
    requires
        b.len() == 4,
    ensures
        be_u32(b) / 0x100_0000 == b[0],
        be_u32(b) / 0x1_0000 % 0x100 == b[1],
        be_u32(b) / 0x100 % 0x100 == b[2],
        be_u32(b) % 0x100 == b[3],
{
    let size = be_u32(b);
    assert(size == b[0] * 0x100_0000 + b[1] * 0x1_0000 + b[2] * 0x100 + b[3]);
    assert(size / 0x1_0000 == b[0] * 0x100 + b[1]);
    assert(size / 0x100 == b[0] * 0x1_0000 + b[1] * 0x100 + b[2]);
}

/// A number is put together from its digits.
#[verifier::spinoff_prover]
proof fn lemma_digits_put_together(n: u32)
    ensures
        n / 0x100_0000 <= 255,
        n == n / 0x100_0000 * 0x100_0000 + n / 0x1_0000 % 0x100 * 0x1_0000 + n / 0x100 % 0x100
            * 0x100 + n % 0x100,
{
    assert(n / 0x100 == n / 0x1_0000 * 0x100 + n / 0x100 % 0x100);
    assert(n / 0x1_0000 == n / 0x100_0000 * 0x100 + n / 0x1_0000 % 0x100);
}

/// The four bytes of a header are the digits of the announced size in base 256, the highest one
/// first; so every size is read back from its own digits, and two headers that announce the same
/// size are the same.
pub proof fn law_header_holds_the_digits(header: Seq<u8>, other: Seq<u8>, n: u32)
    requires
        header.len() == 4,
        other.len() == 4,
    ensures
        be_u32(header) / 0x100_0000 == header[0],
        be_u32(header) / 0x1_0000 % 0x100 == header[1],
        be_u32(header) / 0x100 % 0x100 == header[2],
        be_u32(header) % 0x100 == header[3],
        be_u32(
            seq![
                (n / 0x100_0000) as u8,
                (n / 0x1_0000 % 0x100) as u8,
                (n / 0x100 % 0x100) as u8,
                (n % 0x100) as u8,
            ],
        ) == n,
        be_u32(header) == be_u32(other) ==> header == other,
{
    lemma_digits(header);
    lemma_digits(other);
    lemma_digits_put_together(n);
    if be_u32(header) == be_u32(other) {
        assert(header[0] == other[0] && header[1] == other[1] && header[2] == other[2] && header[3]
            == other[3]);
        assert(header =~= other);
    }
}

/// Counting a byte of the header up by one makes the announced size larger by that byte's weight,
/// whatever the other bytes are, and a header of zeros announces nothing.
pub proof fn law_header_bytes_have_weights(header: Seq<u8>, i: int)
    requires
        header.len() == 4,
        0 <= i < 4,
        header[i] < 255,
    ensures
        be_u32(header.update(i, (header[i] + 1) as u8)) == be_u32(header) + if i == 0 {
            0x100_0000int
        } else if i == 1 {
            0x1_0000
        } else if i == 2 {
            0x100
        } else {
            1
        },
        be_u32(seq![0u8, 0, 0, 0]) == 0,
{
}

/// What a read of `want` bytes has come to after the socket was read as in `reads`, the last one
/// last.
pub open spec fn filled(want: nat, reads: Seq<Result<Seq<u8>, ()>>) -> FillView
    decreases reads.len(),
{
    if reads.len() == 0 {
        fill_start(want)
    } else {
        match filled(want, reads.drop_last()) {
            FillView::Partial(got) => fill(want, got, reads.last()),
            done => done,
        }
    }
}

/// Whether a read of `want` bytes can read the socket as in `reads`: each time because bytes are
/// missing, and for no more than are missing.
pub open spec fn readable(want: nat, reads: Seq<Result<Seq<u8>, ()>>) -> bool
    decreases reads.len(),
{
    reads.len() > 0 ==> {
        &&& readable(want, reads.drop_last())
        &&& filled(want, reads.drop_last()) matches FillView::Partial(got)
        &&& reads.last() matches Ok(bytes) ==> got.len() + bytes.len() <= want
    }
}

/// The bytes that `reads` took off the socket.
pub open spec fn taken(reads: Seq<Result<Seq<u8>, ()>>) -> Seq<u8>
    decreases reads.len(),
{
    if reads.len() == 0 {
        Seq::empty()
    } else {
        match reads.last() {
            Ok(bytes) => taken(reads.drop_last()) + bytes,
            Err(_) => taken(reads.drop_last()),
        }
    }
}

/// Whether every one of `reads` brought something.
pub open spec fn fruitful(reads: Seq<Result<Seq<u8>, ()>>) -> bool {
    forall|i: int|
        0 <= i < reads.len() ==> (#[trigger] reads[i] matches Ok(bytes) && bytes.len() > 0)
}

/// A read that has not failed holds every byte that it took off the socket, in order, and none
/// else; it is full exactly when these are as many as it wants, and none of its reads failed.
pub proof fn law_read_holds_what_it_took(want: nat, reads: Seq<Result<Seq<u8>, ()>>)
    requires
        readable(want, reads),
    ensures
        match filled(want, reads) {
            FillView::Full(buf) => buf == taken(reads) && buf.len() == want && fruitful(reads),
            FillView::Partial(buf) => buf == taken(reads) && buf.len() < want && fruitful(reads),
            FillView::Failed => !fruitful(reads),
        },
    decreases reads.len(),
{
    if reads.len() > 0 {
        let before = reads.drop_last();
        law_read_holds_what_it_took(want, before);
        let last = reads.last();
        assert(last == reads[reads.len() - 1]);
        if last matches Ok(bytes) && bytes.len() > 0 {
            assert forall|i: int| 0 <= i < reads.len() implies (#[trigger] reads[i] matches Ok(
                piece,
            ) && piece.len() > 0) by {
                if i < before.len() {
                    assert(reads[i] == before[i]);
                }
            }
        }
    }
}

/// However the socket cuts a stream into pieces, a read takes them all until it is full: as long
/// as the pieces are not more than it wants, it holds their bytes, and it is full when they are as
/// many as it wants.
pub proof fn law_cuts_do_not_matter(want: nat, reads: Seq<Result<Seq<u8>, ()>>)
    requires
        fruitful(reads),
        taken(reads).len() <= want,
    ensures
        readable(want, reads),
        filled(want, reads) == if taken(reads).len() == want {
            FillView::Full(taken(reads))
        } else {
            FillView::Partial(taken(reads))
        },
    decreases reads.len(),
{
    if reads.len() > 0 {
        let before = reads.drop_last();
        assert(reads[reads.len() - 1] == reads.last());
        assert forall|i: int| 0 <= i < before.len() implies (#[trigger] before[i] matches Ok(piece)
            && piece.len() > 0) by {
            assert(before[i] == reads[i]);
        }
        law_cuts_do_not_matter(want, before);
    }
}

/// The bytes taken by two runs of reads are those of the first and then those of the second.
proof fn lemma_taken_joins(xs: Seq<Result<Seq<u8>, ()>>, ys: Seq<Result<Seq<u8>, ()>>)
    ensures
        taken(xs + ys) == taken(xs) + taken(ys),
    decreases ys.len(),
{
    if ys.len() == 0 {
        assert(xs + ys =~= xs);
        assert(taken(xs) + taken(ys) =~= taken(xs));
    } else {
        lemma_taken_joins(xs, ys.drop_last());
        assert((xs + ys).drop_last() =~= xs + ys.drop_last());
        assert((xs + ys).last() == ys.last());
        assert(taken(xs + ys) =~= taken(xs) + taken(ys));
    }
}

/// A read that fills `m` bytes takes exactly `m` bytes off the socket, and one that follows it and
/// fills `n` bytes goes on right behind them. Together they fill what one read of `m + n` bytes
/// fills: with the same pieces, and with the same stream cut in any other way.
pub proof fn law_two_reads_fill_what_one_fills(
    m: nat,
    xs: Seq<Result<Seq<u8>, ()>>,
    x: Seq<u8>,
    n: nat,
    ys: Seq<Result<Seq<u8>, ()>>,
    y: Seq<u8>,
    zs: Seq<Result<Seq<u8>, ()>>,
)
    requires
        readable(m, xs),
        filled(m, xs) == FillView::Full(x),
        readable(n, ys),
        filled(n, ys) == FillView::Full(y),
        fruitful(zs),
        taken(zs) == taken(xs + ys),
    ensures
        taken(xs) == x && x.len() == m,
        taken(ys) == y && y.len() == n,
        readable(m + n, xs + ys),
        filled(m + n, xs + ys) == FillView::Full(x + y),
        readable(m + n, zs),
        filled(m + n, zs) == FillView::Full(x + y),
{
    law_read_holds_what_it_took(m, xs);
    law_read_holds_what_it_took(n, ys);
    lemma_taken_joins(xs, ys);
    let both = xs + ys;
    assert forall|i: int| 0 <= i < both.len() implies (#[trigger] both[i] matches Ok(piece)
        && piece.len() > 0) by {
        if i < xs.len() {
            assert(both[i] == xs[i]);
        } else {
            assert(both[i] == ys[i - xs.len()]);
        }
    }
    law_cuts_do_not_matter(m + n, both);
    law_cuts_do_not_matter(m + n, zs);
}

/// A session together with what has gone over the wire and into flash on its connection.
pub struct Transfer {
    pub session: SessionView,
    /// The action whose outcome the session waits for.
    pub pending: ActionView,
    /// Every byte received on the connection.
    pub received: Seq<u8>,
    /// Every byte written to flash on the connection, in the order of the writes.
    pub flashed: Seq<u8>,
}

impl Transfer {
    /// The listener before its first client.
    pub open spec fn start() -> Transfer {
        Transfer {
            session: restart().0,
            pending: restart().1,
            received: Seq::empty(),
            flashed: Seq::empty(),
        }
    }

    /// The transfer after `event`. A session that goes back to accepting has a new connection.
    pub open spec fn step(self, event: EventView) -> Transfer {
        let (session, pending) = next(self.session, event);
        if session is Accepting {
            Transfer { session, pending, received: Seq::empty(), flashed: Seq::empty() }
        } else {
            let received = match event {
                EventView::Received(Ok(bytes)) => self.received + bytes,
                _ => self.received,
            };
            let flashed = match (self.pending, event) {
                (ActionView::Write { chunk, .. }, EventView::Written(Ok(_))) => self.flashed
                    + chunk,
                _ => self.flashed,
            };
            Transfer { session, pending, received, flashed }
        }
    }

    /// The transfer after all of `events`, the last one last.
    pub open spec fn after(events: Seq<EventView>) -> Transfer
        decreases events.len(),
    {
        if events.len() == 0 {
            Transfer::start()
        } else {
            Transfer::after(events.drop_last()).step(events.last())
        }
    }

    /// Whether each of `events` is an outcome of the action that was pending when it happened.
    pub open spec fn possible(events: Seq<EventView>) -> bool
        decreases events.len(),
    {
        events.len() > 0 ==> {
            &&& Transfer::possible(events.drop_last())
            &&& Transfer::after(events.drop_last()).session.awaits(events.last())
        }
    }

    /// The size that the client announced.
    pub open spec fn announced(self) -> nat {
        be_u32(self.received.take(HEADER_LEN as int))
    }

    /// The image bytes received so far: everything behind the header.
    pub open spec fn image(self) -> Seq<u8> {
        self.received.skip(HEADER_LEN as int)
    }

    /// What holds of a transfer at every moment.
    pub open spec fn consistent(self) -> bool {
        &&& self.session.wf()
        &&& match self.session {
            SessionView::Accepting => {
                &&& self.pending == restart().1
                &&& self.received.len() == 0
                &&& self.flashed.len() == 0
            },
            SessionView::Header { got } => {
                &&& self.pending == (ActionView::Read { len: (HEADER_LEN - got.len()) as nat })
                &&& self.received == got
                &&& self.flashed.len() == 0
            },
            SessionView::Body { fw_size, offset, got } => {
                &&& self.pending == (ActionView::Read {
                    len: (chunk_len(fw_size, offset) - got.len()) as nat,
                })
                &&& self.received.len() >= HEADER_LEN
                &&& self.announced() == fw_size
                &&& self.flashed.len() == offset
                &&& self.image() == self.flashed + got
            },
            SessionView::Flashing { fw_size, offset, len } => {
                &&& self.pending matches ActionView::Write { offset: at, chunk }
                &&& at == offset
                &&& chunk.len() == len
                &&& self.received.len() >= HEADER_LEN
                &&& self.announced() == fw_size
                &&& self.flashed.len() == offset
                &&& self.image() == self.flashed + chunk
            },
            SessionView::Marking => {
                &&& self.pending == ActionView::MarkUpdated
                &&& self.delivered()
            },
            SessionView::Settling => {
                &&& self.pending == (ActionView::Delay { ms: REBOOT_DELAY_MS as nat })
                &&& self.delivered()
            },
            SessionView::Rebooting => {
                &&& self.pending == ActionView::Reset
                &&& self.delivered()
            },
        }
    }

    /// The flash holds exactly the image that was sent, and it has the announced size.
    pub open spec fn delivered(self) -> bool {
        &&& self.received.len() >= HEADER_LEN
        &&& self.flashed == self.image()
        &&& self.flashed.len() == self.announced()
    }
}

/// One event keeps a transfer consistent.
proof fn lemma_step_consistent(t: Transfer, event: EventView)
    requires
        t.consistent(),
        t.session.awaits(event),
    ensures
        t.step(event).consistent(),
{
    let u = t.step(event);
    match (t.session, event) {
        (SessionView::Accepting, EventView::Accepted(Ok(_))) => {
            assert(t.received =~= Seq::<u8>::empty());
        },
        (SessionView::Header { got }, EventView::Received(Ok(bytes))) => {
            if got.len() + bytes.len() == HEADER_LEN && bytes.len() > 0 {
                assert(u.received.take(HEADER_LEN as int) =~= got + bytes);
                assert(u.image() =~= Seq::<u8>::empty());
                assert(u.flashed =~= Seq::<u8>::empty());
                assert(u.image() =~= u.flashed + Seq::<u8>::empty());
            }
        },
        (SessionView::Body { fw_size, offset, got }, EventView::Received(Ok(bytes))) => {
            if bytes.len() > 0 {
                assert(u.received.take(HEADER_LEN as int) =~= t.received.take(HEADER_LEN as int));
                assert(u.image() =~= t.image() + bytes);
                assert(u.image() =~= t.flashed + (got + bytes));
            }
        },
        (SessionView::Flashing { fw_size, offset, len }, EventView::Written(Ok(_))) => {
            assert(u.image() =~= u.flashed + Seq::<u8>::empty());
        },
        _ => {},
    }
}

/// Every transfer is consistent at every moment, whatever the network and the flash do.
pub proof fn law_transfer_consistent(events: Seq<EventView>)
    requires
        Transfer::possible(events),
    ensures
        Transfer::after(events).consistent(),
    decreases events.len(),
{
    if events.len() > 0 {
        law_transfer_consistent(events.drop_last());
        lemma_step_consistent(Transfer::after(events.drop_last()), events.last());
    }
}

/// The update is marked, and the board resets, only when the flash holds exactly the bytes that
/// the client sent behind the header, as many as the header announced.
pub proof fn law_marks_only_what_was_sent(events: Seq<EventView>)
    requires
        Transfer::possible(events),
    ensures
        ({
            let t = Transfer::after(events);
            t.pending is MarkUpdated || t.pending is Delay || t.pending is Reset ==> t.delivered()
        }),
{
    law_transfer_consistent(events);
}

/// Chunks go to flash back to back from offset zero: each starts at a sector boundary right behind
/// the last, none is empty, none is longer than a sector or reaches past the announced size, and
/// only the last one of an image is shorter than a sector.
pub proof fn law_writes_are_consecutive_sectors(events: Seq<EventView>)
    requires
        Transfer::possible(events),
    ensures
        ({
            let t = Transfer::after(events);
            t.pending matches ActionView::Write { offset, chunk } ==> {
                &&& offset == t.flashed.len()
                &&& offset % ERASE_SIZE as nat == 0
                &&& 0 < chunk.len() <= ERASE_SIZE
                &&& offset + chunk.len() <= t.announced()
                &&& chunk.len() < ERASE_SIZE ==> offset + chunk.len() == t.announced()
                &&& t.flashed + chunk == t.image()
            }
        }),
{
    law_transfer_consistent(events);
}

/// One write to flash: where it goes, and what is written.
pub struct FlashWrite {
    pub offset: nat,
    pub chunk: Seq<u8>,
}

/// The writes that have been asked for on the connection, the last one last.
pub open spec fn writes(events: Seq<EventView>) -> Seq<FlashWrite>
    decreases events.len(),
{
    if events.len() == 0 {
        Seq::empty()
    } else {
        let before = writes(events.drop_last());
        match Transfer::after(events).pending {
            ActionView::Accept { .. } => Seq::empty(),
            ActionView::Write { offset, chunk } => before.push(FlashWrite { offset, chunk }),
            _ => before,
        }
    }
}

/// How many sectors an image of `fw_size` bytes takes: full ones, and one for a rest.
pub open spec fn sectors(fw_size: nat) -> nat {
    (fw_size + ERASE_SIZE - 1) as nat / ERASE_SIZE as nat
}

/// The `j`-th write of a transfer: the bytes of sector `j` of the image, at the sector's offset.
pub open spec fn sector_write(t: Transfer, j: int) -> FlashWrite {
    let offset = (ERASE_SIZE * j) as nat;
    FlashWrite {
        offset,
        chunk: t.image().subrange(
            offset as int,
            (offset + chunk_len(t.announced(), offset)) as int,
        ),
    }
}

/// How many writes have been asked for where a transfer stands.
pub open spec fn write_count(t: Transfer) -> nat {
    match t.session {
        SessionView::Accepting => 0,
        SessionView::Header { .. } => 0,
        SessionView::Body { offset, .. } => offset / ERASE_SIZE as nat,
        SessionView::Flashing { offset, .. } => offset / ERASE_SIZE as nat + 1,
        _ => sectors(t.announced()),
    }
}

/// The writes of a connection go through the sectors of the image in order: the `j`-th one is at
/// `j` times the sector size and holds the bytes of that sector, none is left out and none is made
/// twice. A completed transfer has written as many sectors as its image takes.
pub proof fn law_each_sector_is_written_once(events: Seq<EventView>)
    requires
        Transfer::possible(events),
    ensures
        ({
            let t = Transfer::after(events);
            &&& writes(events).len() == write_count(t)
            &&& forall|j: int|
                0 <= j < writes(events).len() ==> {
                    &&& #[trigger] writes(events)[j] == sector_write(t, j)
                    &&& ERASE_SIZE * j < t.announced()
                    &&& ERASE_SIZE * j + chunk_len(t.announced(), (ERASE_SIZE * j) as nat)
                        <= t.image().len()
                }
            &&& t.pending is MarkUpdated || t.pending is Delay || t.pending is Reset ==> writes(
                events,
            ).len() == sectors(t.announced())
            &&& t.pending is MarkUpdated || t.pending is Delay || t.pending is Reset ==> 4096 * (
            writes(events).len() - 1) < t.flashed.len() <= 4096 * writes(events).len()
        }),
    decreases events.len(),
{
    law_transfer_consistent(events);
    if events.len() > 0 {
        let before = events.drop_last();
        let event = events.last();
        law_transfer_consistent(before);
        law_each_sector_is_written_once(before);
        let t = Transfer::after(before);
        let u = Transfer::after(events);
        assert(u == t.step(event));
        if !(u.session is Accepting) && !(t.session is Accepting) && !(t.session is Header) {
            assert(u.received.take(HEADER_LEN as int) =~= t.received.take(HEADER_LEN as int));
            assert forall|j: int| 0 <= j < writes(before).len() implies sector_write(u, j)
                == sector_write(t, j) by {
                assert(writes(before)[j] == sector_write(t, j));
                assert(sector_write(u, j).chunk =~= sector_write(t, j).chunk);
            }
            if u.pending is Write {
                let k = writes(before).len() as int;
                assert(u.pending->chunk =~= sector_write(u, k).chunk);
            }
        }
    }
}

/// A read asks for at least one byte, and never for one behind the header or the announced image.
pub proof fn law_reads_stay_inside_the_message(events: Seq<EventView>)
    requires
        Transfer::possible(events),
    ensures
        ({
            let t = Transfer::after(events);
            t.pending matches ActionView::Read { len } ==> {
                &&& 0 < len
                &&& t.received.len() < HEADER_LEN ==> t.received.len() + len <= HEADER_LEN
                &&& t.received.len() >= HEADER_LEN ==> t.image().len() + len <= t.announced()
            }
        }),
{
    law_transfer_consistent(events);
}

/// Whether `event` reports a failure. A read that brings nothing is one: the peer has closed.
pub open spec fn failure(event: EventView) -> bool {
    match event {
        EventView::Accepted(r) => r is Err,
        EventView::Received(Ok(bytes)) => bytes.len() == 0,
        EventView::Received(Err(_)) => true,
        EventView::Written(r) => r is Err,
        EventView::Marked(r) => r is Err,
        EventView::Waited => false,
    }
}

/// Every failure, at any point, drops the transfer and waits for the next client on the update port
/// with the idle limit; nothing else does.
pub proof fn law_failure_waits_for_next_client(session: SessionView, event: EventView)
    requires
        session.awaits(event),
    ensures
        failure(event) <==> next(session, event) == restart(),
        failure(event) <==> next(session, event).0 is Accepting,
        next(session, event).1 is Accept <==> match event {
            EventView::Accepted(outcome) => outcome is Err,
            EventView::Received(Ok(bytes)) => bytes.len() == 0,
            EventView::Received(Err(_)) => true,
            EventView::Written(outcome) => outcome is Err,
            EventView::Marked(outcome) => outcome is Err,
            EventView::Waited => false,
        },
        failure(event) ==> next(session, event).1 == (ActionView::Accept {
            port: 4242,
            timeout_secs: 60,
        }),
{
}

/// What the listener waits for follows from the bytes that have come and the bytes that are in
/// flash alone. Four bytes of header come first; they are the image's size `n`. Then the image comes
/// in chunks of 4096 bytes, the last one as long as what is left: while bytes of a chunk are
/// missing, exactly these are asked for, and once they are there the chunk goes to flash behind the
/// bytes before it. When `n` bytes are in flash, the update is marked, and 200 ms later the board
/// resets.
pub proof fn law_bytes_decide_what_is_pending(events: Seq<EventView>)
    requires
        Transfer::possible(events),
    ensures
        ({
            let t = Transfer::after(events);
            let got = t.received;
            let n = got[0] * 0x100_0000 + got[1] * 0x1_0000 + got[2] * 0x100 + got[3];
            let image = got.skip(4);
            let done = t.flashed.len();
            let end = if n - done < 4096 {
                n
            } else {
                done as int + 4096
            };
            if t.session is Accepting {
                t.pending == (ActionView::Accept { port: 4242, timeout_secs: 60 })
            } else if got.len() < 4 {
                t.pending == (ActionView::Read { len: (4 - got.len()) as nat })
            } else if done < n && image.len() < end {
                t.pending == (ActionView::Read { len: (end - image.len()) as nat })
            } else if done < n {
                &&& image.len() == end
                &&& t.pending == (ActionView::Write { offset: done, chunk: image.skip(done as int) })
            } else {
                &&& done == n
                &&& t.flashed == image
                &&& t.pending is MarkUpdated || t.pending == (ActionView::Delay { ms: 200 })
                    || t.pending is Reset
            }
        }),
        Transfer::after(events).session is Accepting <==> events.len() == 0 || failure(
            events.last(),
        ),
{
    law_transfer_consistent(events);
    let t = Transfer::after(events);
    let image = t.received.skip(4);
    if t.received.len() >= 4 {
        let header = t.received.take(4);
        assert(header[0] == t.received[0] && header[1] == t.received[1] && header[2]
            == t.received[2] && header[3] == t.received[3]);
    }
    if t.pending is Write {
        assert(image.skip(t.flashed.len() as int) =~= t.pending->chunk);
    }
    if events.len() > 0 {
        law_failure_waits_for_next_client(
            Transfer::after(events.drop_last()).session,
            events.last(),
        );
    }
}

/// The listener is ready for every outcome of what it asked for: any success and any failure, and
/// any number of bytes up to those that it asked for.
pub proof fn law_every_outcome_is_awaited(
    events: Seq<EventView>,
    r: Result<(), ()>,
    bytes: Seq<u8>,
)
    requires
        Transfer::possible(events),
    ensures
        ({
            let t = Transfer::after(events);
            match t.pending {
                ActionView::Accept { .. } => t.session.awaits(EventView::Accepted(r)),
                ActionView::Read { len } => {
                    &&& t.session.awaits(EventView::Received(Err(())))
                    &&& bytes.len() <= len ==> t.session.awaits(EventView::Received(Ok(bytes)))
                },
                ActionView::Write { .. } => t.session.awaits(EventView::Written(r)),
                ActionView::MarkUpdated => t.session.awaits(EventView::Marked(r)),
                ActionView::Delay { .. } => t.session.awaits(EventView::Waited),
                ActionView::Reset => true,
            }
        }),
{
    law_transfer_consistent(events);
}

/// A marked update waits for 200 ms and then resets the board, and nothing comes between.
pub proof fn law_mark_leads_to_the_reset(events: Seq<EventView>)
    requires
        Transfer::possible(events),
        Transfer::after(events).pending is MarkUpdated,
    ensures
        ({
            let marked = Transfer::after(events).step(EventView::Marked(Ok(())));
            let waited = marked.step(EventView::Waited);
            &&& marked.pending == (ActionView::Delay { ms: 200 })
            &&& waited.pending is Reset
            &&& waited.flashed == Transfer::after(events).flashed
        }),
{
    law_transfer_consistent(events);
}

/// The board resets only right after the update was marked and the delay has passed.
pub proof fn law_reset_follows_the_mark(events: Seq<EventView>)
    requires
        Transfer::possible(events),
        Transfer::after(events).pending is Reset,
    ensures
        events.len() >= 2,
        events[events.len() - 1] == EventView::Waited,
        events[events.len() - 2] matches EventView::Marked(Ok(_)),
{
    reveal_with_fuel(Transfer::possible, 3);
    reveal_with_fuel(Transfer::after, 3);
    let before = events.drop_last();
    law_transfer_consistent(events);
    law_transfer_consistent(before);
    assert(Transfer::after(before).session is Settling);
    let earlier = before.drop_last();
    law_transfer_consistent(earlier);
    assert(Transfer::after(earlier).session is Marking);
    assert(before.last() == events[events.len() - 2]);
}

/// Once a client has sent a header and the whole image that it announces, in pieces of any size,
/// only flash operations are left: the last write and then the mark, with exactly that image in
/// flash.
pub proof fn law_sent_image_is_delivered(events: Seq<EventView>, header: Seq<u8>, image: Seq<u8>)
    requires
        Transfer::possible(events),
        header.len() == HEADER_LEN,
        be_u32(header) == image.len(),
        Transfer::after(events).received == header + image,
    ensures
        ({
            let t = Transfer::after(events);
            let written = t.step(EventView::Written(Ok(())));
            if t.pending is Write {
                written.pending == ActionView::MarkUpdated && written.flashed == image
            } else {
                (t.pending is MarkUpdated || t.pending is Delay || t.pending is Reset) && t.flashed
                    == image
            }
        }),
{
    law_transfer_consistent(events);
    let t = Transfer::after(events);
    assert(t.received.take(HEADER_LEN as int) =~= header);
    assert(t.image() =~= image);
    if t.pending is Write {
        lemma_step_consistent(t, EventView::Written(Ok(())));
    }
}

impl Transfer {
    /// How far an announced image is from being received, written, marked and booted.
    pub open spec fn owed(self) -> int {
        let bytes = 2 * self.announced() - self.image().len() - self.flashed.len();
        match self.session {
            SessionView::Settling => bytes + 1,
            SessionView::Rebooting => bytes,
            _ => bytes + 2,
        }
    }
}

/// Every event that is no failure brings a connected client's update nearer to the reset: header
/// bytes arrive until the header is complete, and from then on less is owed after each event.
pub proof fn law_success_makes_progress(events: Seq<EventView>, event: EventView)
    requires
        Transfer::possible(events),
        !(Transfer::after(events).session is Accepting),
        Transfer::after(events).session.awaits(event),
        !failure(event),
    ensures
        ({
            let t = Transfer::after(events);
            let u = t.step(event);
            if t.session is Header {
                t.received.len() < u.received.len() <= HEADER_LEN
            } else {
                &&& u.announced() == t.announced()
                &&& 0 <= u.owed() < t.owed()
            }
        }),
{
    law_transfer_consistent(events);
    let t = Transfer::after(events);
    let u = t.step(event);
    lemma_step_consistent(t, event);
    if !(t.session is Header) {
        assert(u.received.take(HEADER_LEN as int) =~= t.received.take(HEADER_LEN as int));
    }
}

} // verus!
