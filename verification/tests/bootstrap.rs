use unix_ipc::bootstrap::{socket_path, BootstrapStep, Bootstrapper};
use unix_ipc::control::Credentials;
use unix_ipc::header::MsgHeader;
use unix_ipc::raw_channel::{RawReceiver, RawSender};
use unix_ipc::recv::{RecvEvent, RecvMessage, RecvStep};
use unix_ipc::send::{SendEvent, SendMessage, SendStep};
use unix_ipc::serde::{serialize, HandleRef, IpcFds};
use unix_ipc::typed_channel::{channel, Receiver, Sender};

/// Sends a message over a socket that takes at most three bytes at a time, and receives it at
/// the other end.
fn carry(message: SendMessage<'_>, receiver: RecvMessage) -> Vec<u8> {
    let mut message = message;
    let mut receiver = receiver;
    loop {
        let n = message.remaining().len().min(3);
        let event = RecvEvent::Message {
            data: message.remaining()[..n].to_vec(),
            control: message.control(Credentials::new(1, 2, 3)),
        };
        match (message.step(SendEvent::Sent(n)), receiver.step(event)) {
            (SendStep::AwaitWritable(m), RecvStep::AwaitReadable(r)) => {
                message = m;
                receiver = r;
            }
            (SendStep::Complete(_), RecvStep::Complete(received)) => return received.data,
            other => panic!("unexpected {:?}", other),
        }
    }
}

#[test]
fn socket_paths() {
    let path = |dir: &str, secs, nonce| {
        String::from_utf8(socket_path(&dir.as_bytes().to_vec(), secs, nonce)).unwrap()
    };
    assert_eq!(
        path("/tmp", 1234567890, 42),
        "/tmp/.rust-unix-ipc.1234567890-42.sock"
    );
    assert_eq!(path("/tmp/", 0, 9), "/tmp/.rust-unix-ipc.0-9.sock");
    assert_eq!(
        path("", 10, u64::MAX),
        ".rust-unix-ipc.10-18446744073709551615.sock"
    );
}

#[test]
fn the_clock_decides_whether_there_is_a_socket() {
    let dir = b"/tmp".to_vec();
    let made: Bootstrapper<RawSender> = Bootstrapper::at(&dir, Some(5), 7).unwrap();
    assert_eq!(made.path(), b"/tmp/.rust-unix-ipc.5-7.sock");
    assert!(matches!(made.send_raw(), BootstrapStep::Accept));
    assert!(Bootstrapper::<RawSender>::at(&dir, None, 7).is_none());
}

#[test]
fn new_sockets_have_random_names() {
    let dir = b"/tmp".to_vec();
    let a: Bootstrapper<RawSender> = Bootstrapper::new(&dir).unwrap();
    let b: Bootstrapper<RawSender> = Bootstrapper::new(&dir).unwrap();
    assert_ne!(a.path(), b.path());

    let path = String::from_utf8(a.path().clone()).unwrap();
    let name = path.strip_prefix("/tmp/.rust-unix-ipc.").unwrap();
    let name = name.strip_suffix(".sock").unwrap();
    let (secs, nonce) = name.split_once('-').unwrap();
    assert!(secs.parse::<u64>().unwrap() > 1_500_000_000);
    nonce.parse::<u64>().unwrap();
}

#[test]
fn test_bootstrap() {
    let mut bootstrapper = Bootstrapper::bind(b"/tmp/s".to_vec());
    assert_eq!(bootstrapper.path(), b"/tmp/s");
    assert!(matches!(bootstrapper.send_raw(), BootstrapStep::Accept));
    assert!(bootstrapper.accepted(RawSender::from_std(3)).is_none());

    let receiver = Receiver::<u32>::from(RawReceiver::from_std(4));
    let mut received = Vec::new();
    for value in [42u32, 23] {
        let payload = Sender::<u32>::payload(bincode::serialize(&value).unwrap());
        match bootstrapper.send_raw() {
            BootstrapStep::Send(sender) => {
                assert_eq!(sender.as_raw_fd(), 3);
                let data = carry(sender.send(payload.as_bytes(), &[]), receiver.recv());
                let decoded = bincode::deserialize::<(u32, bool)>(&data);
                received.push(Receiver::<u32>::value(decoded).unwrap());
            }
            BootstrapStep::Accept => panic!("a receiver is connected"),
        }
    }
    assert_eq!(received[0] + received[1], 65);

    let replaced = bootstrapper.accepted(RawSender::from_std(4)).unwrap();
    assert_eq!(replaced.as_raw_fd(), 3);
}

#[test]
fn a_bootstrapper_sends_the_end_of_a_channel() {
    let mut bootstrapper = Bootstrapper::bind(b"/tmp/s".to_vec());
    bootstrapper.accepted(RawSender::from_std(3));
    let (tx, _rx) = channel::<u32>(10, 11);

    let mut ipc = IpcFds::new();
    ipc.enter_ipc_mode(&Vec::new());
    let handle = HandleRef(tx.into_raw_sender().into_raw_fd());
    let index = handle.serialize(&mut ipc).unwrap();
    let (body, fds) = serialize(&mut ipc, bincode::serialize(&index)).unwrap();
    let payload = Sender::<u32>::payload(body);
    let message = match bootstrapper.send_raw() {
        BootstrapStep::Send(sender) => sender.send(payload.as_bytes(), &fds),
        BootstrapStep::Accept => panic!("a receiver is connected"),
    };
    assert_eq!(payload.as_bytes(), [0, 0, 0, 0, 1]);
    assert_eq!(fds, [10]);
    assert_eq!(message.remaining(), MsgHeader::new(5, 1).as_buf());
}
