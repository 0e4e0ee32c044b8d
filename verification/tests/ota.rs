use picomate::ota::{
    begin_read, firmware_size, listen, read_exact, Action, Event, Fill, Session, ERASE_SIZE, OTA_PORT,
};

/// Sends `message` in pieces of at most `cut` bytes and gives what ended up in flash, and whether
/// the board was reset.
fn transfer(message: &[u8], cut: usize) -> (Vec<u8>, bool) {
    let mut flash: Vec<u8> = Vec::new();
    let mut sent = 0;
    let (mut session, mut action) = Session::start();
    let mut accepted = false;
    loop {
        let event = match action {
            Action::Accept { .. } => {
                if accepted {
                    return (flash, false);
                }
                accepted = true;
                Event::Accepted(Ok(()))
            }
            Action::Read { len } => {
                let n = len.min(cut).min(message.len() - sent);
                let piece = message[sent..sent + n].to_vec();
                sent += n;
                Event::Received(Ok(piece))
            }
            Action::Write { offset, chunk } => {
                assert_eq!(offset, flash.len());
                assert_eq!(offset % ERASE_SIZE, 0);
                assert!(!chunk.is_empty() && chunk.len() <= ERASE_SIZE);
                flash.extend(chunk);
                Event::Written(Ok(()))
            }
            Action::MarkUpdated => Event::Marked(Ok(())),
            Action::Delay { .. } => Event::Waited,
            Action::Reset => return (flash, true),
        };
        let next = listen(session, event);
        session = next.0;
        action = next.1;
    }
}

fn message(image: &[u8]) -> Vec<u8> {
    let mut bytes = (image.len() as u32).to_be_bytes().to_vec();
    bytes.extend_from_slice(image);
    bytes
}

fn image(len: usize) -> Vec<u8> {
    (0..len).map(|i| (i * 7 + i / 256) as u8).collect()
}

#[test]
fn images_of_all_sizes_arrive_in_any_cut() {
    for len in [0, 1, 5, 4095, 4096, 4097, 8192, 10_000] {
        for cut in [1, 3, 1000, 4096, 100_000] {
            let image = image(len);
            assert_eq!(transfer(&message(&image), cut), (image, true));
        }
    }
}

/// The offsets and lengths of the writes for an image of `len` bytes.
fn writes(len: usize) -> Vec<(usize, usize)> {
    let bytes = message(&image(len));
    let mut sent = 0;
    let mut writes = Vec::new();
    let (mut session, mut action) = Session::start();
    loop {
        let event = match action {
            Action::Accept { .. } => Event::Accepted(Ok(())),
            Action::Read { len } => {
                let n = len.min(700);
                sent += n;
                Event::Received(Ok(bytes[sent - n..sent].to_vec()))
            }
            Action::Write { offset, chunk } => {
                writes.push((offset, chunk.len()));
                Event::Written(Ok(()))
            }
            _ => return writes,
        };
        (session, action) = listen(session, event);
    }
}

#[test]
fn each_sector_is_written_once() {
    assert_eq!(writes(0), vec![]);
    assert_eq!(writes(1), vec![(0, 1)]);
    assert_eq!(writes(4096), vec![(0, 4096)]);
    assert_eq!(writes(4097), vec![(0, 4096), (4096, 1)]);
    assert_eq!(writes(10_000), vec![(0, 4096), (4096, 4096), (8192, 1808)]);
}

#[test]
fn listener_opens_its_port_with_a_timeout() {
    let (session, action) = Session::start();
    assert!(matches!(session, Session::Accepting));
    assert!(matches!(action, Action::Accept { port: 4242, timeout_secs: 60 }));
}

#[test]
fn bytes_behind_the_image_are_not_read() {
    let image = image(5000);
    let mut bytes = message(&image);
    bytes.extend_from_slice(&[1, 2, 3]);
    assert_eq!(transfer(&bytes, 4096), (image, true));
}

#[test]
fn short_image_is_not_marked() {
    let mut bytes = message(&image(5000));
    bytes.truncate(4 + 4999);
    let (flash, reset) = transfer(&bytes, 4096);
    assert_eq!(flash, image(5000)[..4096].to_vec());
    assert!(!reset);
}

#[test]
fn closed_header_is_not_marked() {
    assert_eq!(transfer(&[0, 0, 1], 4096), (vec![], false));
}

#[test]
fn failed_accept_is_tried_again() {
    let (session, _) = Session::start();
    let (session, action) = listen(session, Event::Accepted(Err(())));
    assert!(matches!(session, Session::Accepting));
    assert!(matches!(action, Action::Accept { port: 4242, timeout_secs: 60 }));
}

/// A session with a one-byte image, its chunk on the way to flash.
fn flashing() -> Session {
    let (session, _) = Session::start();
    let (session, _) = listen(session, Event::Accepted(Ok(())));
    let (session, action) = listen(session, Event::Received(Ok(vec![0, 0, 0, 1])));
    assert!(matches!(action, Action::Read { len: 1 }));
    let (session, action) = listen(session, Event::Received(Ok(vec![0xaa])));
    assert!(matches!(action, Action::Write { offset: 0, chunk } if chunk == [0xaa]));
    session
}

#[test]
fn failed_read_waits_for_the_next_client() {
    let (session, _) = Session::start();
    let (session, _) = listen(session, Event::Accepted(Ok(())));
    let (session, action) = listen(session, Event::Received(Ok(vec![0, 0])));
    assert!(matches!(action, Action::Read { len: 2 }));
    let (session, action) = listen(session, Event::Received(Err(())));
    assert!(matches!(session, Session::Accepting));
    assert!(matches!(action, Action::Accept { port: 4242, timeout_secs: 60 }));
}

#[test]
fn failed_write_waits_for_the_next_client() {
    let (session, action) = listen(flashing(), Event::Written(Err(())));
    assert!(matches!(session, Session::Accepting));
    assert!(matches!(action, Action::Accept { port: 4242, timeout_secs: 60 }));
}

#[test]
fn failed_mark_waits_for_the_next_client() {
    let (session, action) = listen(flashing(), Event::Written(Ok(())));
    assert!(matches!(action, Action::MarkUpdated));
    let (session, action) = listen(session, Event::Marked(Err(())));
    assert!(matches!(session, Session::Accepting));
    assert!(matches!(action, Action::Accept { port: 4242, timeout_secs: 60 }));
}

#[test]
fn reset_follows_the_mark() {
    let (session, _) = listen(flashing(), Event::Written(Ok(())));
    let (session, action) = listen(session, Event::Marked(Ok(())));
    assert!(matches!(action, Action::Delay { ms: 200 }));
    let (session, action) = listen(session, Event::Waited);
    assert!(matches!(session, Session::Rebooting));
    assert!(matches!(action, Action::Reset));
}

#[test]
fn empty_image_is_marked_at_once() {
    let (session, _) = Session::start();
    let (session, _) = listen(session, Event::Accepted(Ok(())));
    let (_, action) = listen(session, Event::Received(Ok(vec![0, 0, 0, 0])));
    assert!(matches!(action, Action::MarkUpdated));
}

#[test]
fn size_is_big_endian() {
    assert_eq!(firmware_size(&vec![0x01, 0x02, 0x03, 0x04]), 0x0102_0304);
    assert_eq!(firmware_size(&vec![0xff, 0xff, 0xff, 0xff]), u32::MAX);
}

#[test]
fn reads_fill_the_buffer() {
    assert!(matches!(read_exact(3, vec![1], Ok(vec![2, 3])), Fill::Full(b) if b == [1, 2, 3]));
    assert!(matches!(read_exact(3, vec![1], Ok(vec![2])), Fill::Partial(b) if b == [1, 2]));
    assert!(matches!(read_exact(3, vec![1], Ok(vec![])), Fill::Failed));
    assert!(matches!(read_exact(3, vec![1], Err(())), Fill::Failed));
}

#[test]
fn empty_buffer_is_full_without_a_read() {
    assert!(matches!(begin_read(0), Fill::Full(b) if b.is_empty()));
    assert!(matches!(begin_read(1), Fill::Partial(b) if b.is_empty()));
}

/// Fills a buffer of `want` bytes from `stream` in pieces of at most `cut` bytes, and gives the
/// buffer and the rest of the stream.
fn fill(want: usize, stream: &[u8], cut: usize) -> (Vec<u8>, &[u8]) {
    let mut rest = stream;
    let mut step = begin_read(want);
    loop {
        match step {
            Fill::Full(buf) => return (buf, rest),
            Fill::Partial(got) => {
                let n = (want - got.len()).min(cut).min(rest.len());
                step = read_exact(want, got, Ok(rest[..n].to_vec()));
                rest = &rest[n..];
            }
            Fill::Failed => panic!("the stream is too short"),
        }
    }
}

#[test]
fn two_reads_fill_what_one_fills() {
    let stream = image(30);
    for (m, n) in [(0, 7), (4, 0), (4, 9), (10, 20)] {
        let (x, rest) = fill(m, &stream, 3);
        assert_eq!(rest.len(), 30 - m);
        let (y, rest) = fill(n, rest, 5);
        let (both, same) = fill(m + n, &stream, 4);
        assert_eq!([x, y].concat(), both);
        assert_eq!(rest, same);
    }
}

#[test]
fn chunks_are_flash_sectors() {
    assert_eq!(ERASE_SIZE, embassy_rp::flash::ERASE_SIZE);
    assert_eq!(OTA_PORT, 4242);
}
