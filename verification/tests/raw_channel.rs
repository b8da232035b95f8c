use unix_ipc::control::{
    control_space, recv_impl, send_control, send_impl, ControlMessage, Credentials,
};
use unix_ipc::error::{ChannelError, ErrorCategory};
use unix_ipc::header::{MsgHeader, HEADER_LEN};
use unix_ipc::raw_channel::{raw_channel, RawReceiver, RawSender};
use unix_ipc::recv::{RecvEvent, RecvMessage, RecvStep, Received};
use unix_ipc::send::{SendEvent, SendMessage, SendStep};

/// What one send call put on the wire.
struct Piece {
    bytes: Vec<u8>,
    control: Vec<ControlMessage>,
}

fn me() -> Credentials {
    Credentials::new(4711, 1000, 100)
}

/// Sends a message over a socket that takes at most `room` bytes at a time.
fn transmit(message: SendMessage<'_>, room: usize) -> Result<(usize, Vec<Piece>), ChannelError> {
    let mut pieces = Vec::new();
    let mut message = message;
    loop {
        let n = message.remaining().len().min(room);
        let bytes = message.remaining()[..n].to_vec();
        let control = message.control(me());
        match message.step(SendEvent::Sent(n)) {
            SendStep::AwaitWritable(next) => {
                pieces.push(Piece { bytes, control });
                message = next;
            }
            SendStep::SendNow(_) => panic!("nothing was interrupted"),
            SendStep::Complete(sent) => {
                pieces.push(Piece { bytes, control });
                return Ok((sent, pieces));
            }
            SendStep::Fail(e) => return Err(e),
        }
    }
}

/// Receives a message from a socket that hands out what was sent piece by piece.
fn receive(message: RecvMessage, pieces: Vec<Piece>) -> Result<Received, ChannelError> {
    let mut message = message;
    for piece in pieces {
        let asked = message.wanted();
        assert!(piece.bytes.len() <= asked);
        let event = RecvEvent::Message {
            data: piece.bytes,
            control: piece.control,
        };
        match message.step(event) {
            RecvStep::AwaitReadable(next) => message = next,
            RecvStep::RecvNow(_) => panic!("nothing was interrupted"),
            RecvStep::Complete(received) => return Ok(received),
            RecvStep::Fail(e) => return Err(e),
        }
    }
    panic!("the message is not complete");
}

fn bytes_event(data: &[u8]) -> RecvEvent {
    RecvEvent::Message {
        data: data.to_vec(),
        control: Vec::new(),
    }
}

fn rights_event(data: &[u8], fds: &[i32]) -> RecvEvent {
    RecvEvent::Message {
        data: data.to_vec(),
        control: vec![ControlMessage::Rights(fds.to_vec())],
    }
}

fn await_readable(step: RecvStep) -> RecvMessage {
    match step {
        RecvStep::AwaitReadable(m) => m,
        other => panic!("unexpected {:?}", other),
    }
}

fn await_writable(step: SendStep<'_>) -> SendMessage<'_> {
    match step {
        SendStep::AwaitWritable(m) => m,
        other => panic!("unexpected {:?}", other),
    }
}

#[test]
fn test_raw_channel_test_basic() {
    let (tx, rx) = raw_channel(3, 4);
    let (sent, pieces) = transmit(tx.send(b"Hello World!", &[][..]), 4096).unwrap();
    assert_eq!(sent, 12);
    assert_eq!(pieces.len(), 2);

    let received = receive(rx.recv(), pieces).unwrap();
    assert_eq!(received.data, b"Hello World!");
    assert_eq!(received.fds, None);
    assert!(received.creds.is_none());
}

#[test]
fn test_creds() {
    let (tx, rx) = raw_channel(3, 4);
    let (_, pieces) =
        transmit(tx.send_with_credentials(b"Hello World!", &[][..]), 4096).unwrap();

    let received = receive(rx.recv_with_credentials(), pieces).unwrap();
    let creds = received.creds.unwrap();
    assert_eq!(received.data, b"Hello World!");
    assert_eq!(received.fds, None);
    assert_eq!(creds.uid(), 1000);
    assert_eq!(creds.pid(), 4711);
    assert_eq!(creds.gid(), 100);
}

#[test]
fn test_large_buffer() {
    let mut buf = String::new();
    for x in 0..100000 {
        buf.push_str(&format!("{}", x));
    }
    let (tx, rx) = raw_channel(3, 4);
    let (sent, pieces) = transmit(tx.send(buf.as_bytes(), &[][..]), 65536).unwrap();
    assert_eq!(sent, buf.len());
    assert!(pieces.len() > 2);

    let received = receive(rx.recv(), pieces).unwrap();
    assert_eq!(received.data, buf.as_bytes());
    assert_eq!(received.fds, None);
}

#[test]
fn every_way_to_cut_a_message_gives_it_back() {
    let (tx, rx) = raw_channel(3, 4);
    for room in 1..20 {
        let (sent, pieces) = transmit(tx.send(b"Hello World!", &[7, 9]), room).unwrap();
        assert_eq!(sent, 12);
        let wire: Vec<u8> = pieces.iter().flat_map(|p| p.bytes.clone()).collect();
        let mut expected = MsgHeader::new(12, 2).as_buf().to_vec();
        expected.extend_from_slice(b"Hello World!");
        assert_eq!(wire, expected);

        let received = receive(rx.recv(), pieces).unwrap();
        assert_eq!(received.data, b"Hello World!");
        assert_eq!(received.fds, Some(vec![7, 9]));
    }
}

#[test]
fn a_receiver_knows_what_to_expect() {
    let rx = RawReceiver::from_std(4);
    let message = rx.recv();
    assert_eq!((message.wanted(), message.fd_count()), (HEADER_LEN, 0));
    let message = await_readable(message.step(bytes_event(MsgHeader::new(4, 2).as_buf())));
    assert_eq!((message.wanted(), message.fd_count()), (4, 2));
    let message = await_readable(message.step(rights_event(b"abc", &[8, 9])));
    assert_eq!((message.wanted(), message.fd_count()), (1, 2));
}

#[test]
fn descriptors_and_credentials_ride_where_they_belong() {
    let tx = RawSender::from_std(3);
    let (_, pieces) = transmit(tx.send_with_credentials(b"abcd", &[5]), 3).unwrap();
    let shapes: Vec<(usize, bool, bool)> = pieces
        .iter()
        .map(|p| {
            (
                p.bytes.len(),
                p.control
                    .iter()
                    .any(|c| matches!(c, ControlMessage::Rights(fds) if fds == &[5])),
                p.control
                    .iter()
                    .any(|c| matches!(c, ControlMessage::Credentials(_))),
            )
        })
        .collect();
    assert_eq!(
        shapes,
        [
            (3, false, true),
            (3, false, true),
            (2, false, true),
            (3, true, false),
            (1, false, false)
        ]
    );
}

#[test]
fn header_bytes_are_native() {
    let mut header = MsgHeader::new(0x0102_0304, 5);
    let mut expected = 0x0102_0304u32.to_ne_bytes().to_vec();
    expected.extend_from_slice(&5u32.to_ne_bytes());
    assert_eq!(header.as_buf(), &expected[..]);
    assert_eq!(header.payload_len(), 0x0102_0304);
    assert_eq!(header.fd_count(), 5);

    header.as_buf_mut().copy_from_slice(MsgHeader::new(3, 1).as_buf());
    assert_eq!((header.payload_len(), header.fd_count()), (3, 1));
    assert_eq!(header.make_buffer(), vec![0, 0, 0]);

    let empty = MsgHeader::default();
    assert_eq!(empty.as_buf(), &[0; HEADER_LEN][..]);
    assert_eq!((empty.payload_len(), empty.fd_count()), (0, 0));
}

#[test]
fn empty_message_is_not_sent() {
    let tx = RawSender::from_std(3);
    assert_eq!(
        transmit(tx.send(b"", &[]), 4096).err(),
        Some(ChannelError::CouldNotSend)
    );
}

#[test]
fn empty_message_is_not_received() {
    let rx = RawReceiver::from_std(4);
    let message = await_readable(rx.recv().step(bytes_event(MsgHeader::new(0, 0).as_buf())));
    assert_eq!(message.wanted(), 0);
    assert!(matches!(
        message.step(bytes_event(b"")),
        RecvStep::Fail(ChannelError::CouldNotRead)
    ));
}

#[test]
fn closed_socket_is_the_end() {
    let rx = RawReceiver::from_std(4);
    let message = await_readable(rx.recv().step(bytes_event(&[0, 0, 0])));
    assert_eq!(message.wanted(), 5);
    assert!(matches!(
        message.step(bytes_event(b"")),
        RecvStep::Fail(ChannelError::CouldNotRead)
    ));
}

#[test]
fn missing_credentials_are_an_error() {
    let rx = RawReceiver::from_std(4);
    let message = rx.recv_with_credentials();
    assert!(message.want_creds());
    assert!(matches!(
        message.step(bytes_event(MsgHeader::new(1, 0).as_buf())),
        RecvStep::Fail(ChannelError::MissingCredentials)
    ));
}

#[test]
fn credentials_of_the_last_piece_of_the_header_count() {
    let rx = RawReceiver::from_std(4);
    let header = MsgHeader::new(1, 0);
    let with = |data: &[u8], pid| RecvEvent::Message {
        data: data.to_vec(),
        control: vec![ControlMessage::Credentials(Credentials::new(pid, 1, 2))],
    };
    let message = await_readable(
        rx.recv_with_credentials()
            .step(with(&header.as_buf()[..4], 10)),
    );
    let message = await_readable(message.step(with(&header.as_buf()[4..], 11)));
    assert!(!message.want_creds());
    match message.step(with(b"x", 12)) {
        RecvStep::Complete(received) => assert_eq!(received.creds.unwrap().pid(), 11),
        other => panic!("unexpected {:?}", other),
    }
}

#[test]
fn interrupted_calls_are_repeated() {
    let rx = RawReceiver::from_std(4);
    let message = await_readable(rx.recv().step(bytes_event(MsgHeader::new(4, 1).as_buf())));
    let message = await_readable(message.step(rights_event(b"ab", &[8])));
    let message = match message.step(RecvEvent::Interrupted) {
        RecvStep::RecvNow(m) => m,
        other => panic!("unexpected {:?}", other),
    };
    match message.step(bytes_event(b"cd")) {
        RecvStep::Complete(received) => {
            assert_eq!(received.data, b"abcd");
            assert_eq!(received.fds, Some(vec![8]));
        }
        other => panic!("unexpected {:?}", other),
    }

    let tx = RawSender::from_std(3);
    let message = tx.send(b"ab", &[]);
    match message.step(SendEvent::Interrupted) {
        SendStep::SendNow(m) => assert_eq!(m.remaining(), MsgHeader::new(2, 0).as_buf()),
        other => panic!("unexpected {:?}", other),
    }
}

#[test]
fn a_dry_socket_keeps_held_descriptors() {
    let rx = RawReceiver::from_std(4);
    let message = await_readable(rx.recv().step(bytes_event(MsgHeader::new(4, 1).as_buf())));
    let message = await_readable(message.step(rights_event(b"ab", &[8])));
    let message = await_readable(message.step(RecvEvent::WouldBlock));
    match message.step(bytes_event(b"cd")) {
        RecvStep::Complete(received) => {
            assert_eq!(received.data, b"abcd");
            assert_eq!(received.fds, Some(vec![8]));
        }
        other => panic!("unexpected {:?}", other),
    }
}

#[test]
fn a_full_socket_keeps_the_descriptors() {
    let tx = RawSender::from_std(3);
    let message = await_writable(tx.send(b"ab", &[6]).step(SendEvent::Sent(HEADER_LEN)));
    let message = await_writable(message.step(SendEvent::WouldBlock));
    assert_eq!(message.remaining(), b"ab");
    assert!(matches!(
        &message.control(me())[..],
        [ControlMessage::Rights(fds)] if fds == &[6]
    ));
    let message = await_writable(message.step(SendEvent::Sent(1)));
    assert_eq!(message.remaining(), b"b");
    assert!(message.control(me()).is_empty());
    assert!(matches!(
        message.step(SendEvent::Sent(1)),
        SendStep::Complete(2)
    ));
}

#[test]
fn errors_of_the_system_are_passed_on() {
    let rx = RawReceiver::from_std(4);
    assert!(matches!(
        rx.recv().step(RecvEvent::Failed(104)),
        RecvStep::Fail(ChannelError::Os(104))
    ));
    let tx = RawSender::from_std(3);
    assert!(matches!(
        tx.send(b"a", &[]).step(SendEvent::Failed(32)),
        SendStep::Fail(ChannelError::Os(32))
    ));
}

#[test]
fn errors_describe_themselves() {
    let e = ChannelError::CouldNotRead;
    assert_eq!(e.category(), Some(ErrorCategory::UnexpectedEof));
    assert_eq!(e.message(), Some("could not read"));
    let e = ChannelError::CouldNotSend;
    assert_eq!(e.category(), Some(ErrorCategory::WriteZero));
    assert_eq!(e.message(), Some("could not send"));
    let e = ChannelError::MissingCredentials;
    assert_eq!(e.category(), Some(ErrorCategory::InvalidData));
    assert_eq!(e.message(), Some("Remote did not provide credentials"));
    assert_eq!(ChannelError::Os(2).category(), None);
    assert_eq!(ChannelError::Os(2).message(), None);
}

#[test]
fn ancillary_data_of_one_call() {
    let control = vec![
        ControlMessage::Rights(vec![1]),
        ControlMessage::Rights(vec![2, 3]),
        ControlMessage::Rights(vec![]),
        ControlMessage::Other,
        ControlMessage::Credentials(Credentials::new(1, 2, 3)),
    ];
    let (n, fds, creds) = recv_impl(9, control, Some(vec![7])).unwrap();
    assert_eq!(n, 9);
    assert_eq!(fds, Some(vec![7, 2, 3]));
    assert_eq!(creds.unwrap().gid(), 3);

    let (_, fds, creds) = recv_impl(1, Vec::new(), Some(vec![7])).unwrap();
    assert_eq!(fds, Some(vec![7]));
    assert!(creds.is_none());
    let (_, fds, _) = recv_impl(1, vec![ControlMessage::Rights(vec![4])], None).unwrap();
    assert_eq!(fds, Some(vec![4]));
    assert_eq!(
        recv_impl(0, vec![ControlMessage::Rights(vec![4])], None).err(),
        Some(ChannelError::CouldNotRead)
    );
}

#[test]
fn what_a_send_call_is_given() {
    assert!(send_control(&[], None).is_empty());
    assert!(matches!(
        &send_control(&[], Some(me()))[..],
        [ControlMessage::Credentials(_)]
    ));
    assert!(matches!(
        &send_control(&[1, 2], None)[..],
        [ControlMessage::Rights(fds)] if fds == &[1, 2]
    ));
    assert!(matches!(
        &send_control(&[1, 2], Some(me()))[..],
        [ControlMessage::Rights(_), ControlMessage::Credentials(_)]
    ));
    assert_eq!(send_impl(3), Ok(3));
    assert_eq!(send_impl(0), Err(ChannelError::CouldNotSend));
}

#[test]
fn room_for_ancillary_data() {
    assert_eq!(control_space(24, 32, 3, false), Some(72));
    assert_eq!(control_space(24, 32, 3, true), Some(104));
    assert_eq!(control_space(24, 32, 0, true), Some(32));
    assert_eq!(control_space(24, 32, u32::MAX, false), None);
    assert_eq!(control_space(1, 1, u32::MAX, true), None);

    let rx = RawReceiver::from_std(4);
    let message = rx.recv_with_credentials();
    assert_eq!(message.control_space(24, 32), Some(32));
    let message = await_readable(rx.recv().step(bytes_event(MsgHeader::new(1, 3).as_buf())));
    assert_eq!(message.fd_count(), 3);
    assert_eq!(message.control_space(24, 32), Some(72));
}

#[test]
fn a_descriptor_is_handed_over_once() {
    let mut tx = RawSender::from_std(11);
    assert_eq!(tx.as_raw_fd(), 11);
    assert_eq!(tx.fd_to_close(), Some(11));
    assert!(!tx.is_dead());
    assert_eq!(tx.extract_raw_fd(), 11);
    assert!(tx.is_dead());
    assert_eq!(tx.fd_to_close(), None);
    assert_eq!(tx.as_raw_fd(), 11);

    let mut rx = RawReceiver::from_std(12);
    assert_eq!(rx.fd_to_close(), Some(12));
    assert_eq!(rx.extract_raw_fd(), 12);
    assert!(rx.is_dead());
    assert_eq!(rx.fd_to_close(), None);
    assert_eq!(RawReceiver::from_std(13).into_raw_fd(), 13);
    assert_eq!(RawSender::from_std(14).into_raw_fd(), 14);
}
