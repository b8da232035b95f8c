use unix_ipc::control::{ControlMessage, Credentials};
use unix_ipc::error::{ChannelError, ErrorCategory};
use unix_ipc::recv::{Received, RecvEvent, RecvMessage, RecvStep};
use unix_ipc::send::{SendEvent, SendMessage, SendStep};
use unix_ipc::serde::{deserialize, serialize, Handle, IpcFds};
use unix_ipc::typed_channel::{channel, Receiver, Sender};

/// What crosses the socket: the bytes and ancillary data of each send call.
type Wire = Vec<(Vec<u8>, Vec<ControlMessage>)>;

/// Sends a message over a socket that takes at most four bytes at a time.
fn transmit(message: SendMessage<'_>) -> Wire {
    let mut wire = Vec::new();
    let mut message = message;
    loop {
        let n = message.remaining().len().min(4);
        let bytes = message.remaining()[..n].to_vec();
        wire.push((bytes, message.control(Credentials::new(1, 2, 3))));
        match message.step(SendEvent::Sent(n)) {
            SendStep::AwaitWritable(next) => message = next,
            SendStep::Complete(_) => return wire,
            other => panic!("unexpected {:?}", other),
        }
    }
}

/// Receives a message from a socket that hands out what was sent and then closes.
fn receive(message: RecvMessage, wire: Wire) -> Result<Received, ChannelError> {
    let mut message = message;
    let mut wire = wire.into_iter();
    loop {
        let (data, control) = wire.next().unwrap_or_default();
        match message.step(RecvEvent::Message { data, control }) {
            RecvStep::AwaitReadable(next) => message = next,
            RecvStep::Complete(received) => return Ok(received),
            RecvStep::Fail(e) => return Err(e),
            other => panic!("unexpected {:?}", other),
        }
    }
}

/// Sends the string `msg` and receives it again.
fn say(tx: &Sender<String>, rx: &Receiver<String>, msg: &str) -> String {
    let payload = Sender::<String>::payload(bincode::serialize(msg).unwrap());
    let received = receive(rx.recv(), transmit(tx.send(&payload, &Vec::new()))).unwrap();
    assert_eq!(received.fds, None);
    Receiver::value(bincode::deserialize::<(String, bool)>(&received.data)).unwrap()
}

const HELO: &str = "HELO from server";
const SUP: &str = "SUP from client";
const MORE: &str = "ANOTHER msg from client";
const BYE: &str = "BYE msg from server";

#[test]
fn test_pair_from_std() {
    let (client_tx, client_rx) = channel::<String>(3, 4);
    let (server_tx, server_rx) = channel::<String>(5, 6);
    assert_eq!(say(&client_tx, &server_rx, SUP), SUP);
    assert_eq!(say(&server_tx, &client_rx, HELO), HELO);
    for _ in 0..3 {
        assert_eq!(say(&client_tx, &server_rx, MORE), MORE);
    }
    assert_eq!(say(&server_tx, &client_rx, BYE), BYE);

    let end = receive(server_rx.recv(), Vec::new()).err().unwrap();
    assert_eq!(end.category(), Some(ErrorCategory::UnexpectedEof));
}

#[test]
fn test_basic_asymmetric() {
    let (tx, rx) = channel::<Vec<u8>>(3, 4);
    let out: Vec<u8> = (0..=200).collect();
    let payload = Sender::<Vec<u8>>::payload(bincode::serialize(&out).unwrap());
    let received = receive(rx.recv(), transmit(tx.send(&payload, &Vec::new()))).unwrap();
    let decoded = bincode::deserialize::<(Vec<u8>, bool)>(&received.data);
    let got = Receiver::<Vec<u8>>::value(decoded).unwrap();
    assert_eq!(got, out);
    assert!(got.len() > 100);
}

#[test]
fn a_value_that_does_not_decode_leaves_the_stream_in_step() {
    let (tx, rx) = channel::<String>(3, 4);
    let bad = Sender::<String>::payload(vec![9]);
    let good = Sender::<String>::payload(bincode::serialize("ok").unwrap());
    let mut wire = transmit(tx.send(&bad, &Vec::new()));
    let first_calls = wire.len();
    wire.extend(transmit(tx.send(&good, &Vec::new())));

    let rest = wire.split_off(first_calls);
    let first = receive(rx.recv(), wire).unwrap();
    assert_eq!(first.data, [9, 1]);
    assert!(Receiver::value(bincode::deserialize::<(String, bool)>(&first.data)).is_err());

    let second = receive(rx.recv(), rest).unwrap();
    let decoded = bincode::deserialize::<(String, bool)>(&second.data);
    assert_eq!(Receiver::value(decoded).unwrap(), "ok");
}

#[test]
fn handles_cross_a_channel() {
    let (tx, rx) = channel::<(u32, u32)>(3, 4);
    let mut ipc = IpcFds::new();
    let mut first = Handle::new(21);
    let mut second = Handle::new(22);

    ipc.enter_ipc_mode(&Vec::new());
    let indices = (
        first.serialize(&mut ipc, |fd| fd).unwrap(),
        second.serialize(&mut ipc, |fd| fd).unwrap(),
    );
    let encoded = bincode::serialize(&indices);
    let (body, fds) = serialize(&mut ipc, encoded).unwrap();
    assert_eq!(fds, [21, 22]);
    let payload = Sender::<(u32, u32)>::payload(body);
    let wire = transmit(tx.send(&payload, &fds));

    // The receiving process knows the descriptors by other numbers.
    let wire = wire
        .into_iter()
        .map(|(data, control)| {
            let control = control
                .into_iter()
                .map(|c| match c {
                    ControlMessage::Rights(fds) => {
                        ControlMessage::Rights(fds.iter().map(|fd| fd + 100).collect())
                    }
                    other => other,
                })
                .collect();
            (data, control)
        })
        .collect();

    let received = receive(rx.recv(), wire).unwrap();
    let fds = Receiver::<(u32, u32)>::fds(received.fds);
    ipc.enter_ipc_mode(&fds);
    let decoded = bincode::deserialize::<((u32, u32), bool)>(&received.data);
    let (a, b) = Receiver::value(decoded).unwrap();
    let a = Handle::deserialize(&ipc, a, |fd| fd).unwrap().into_inner();
    let b = Handle::deserialize(&ipc, b, |fd| fd).unwrap().into_inner();
    assert_eq!(deserialize::<_, ()>(&mut ipc, Ok((a, b))), Ok((121, 122)));
}

#[test]
fn test_conversion() {
    let (tx, rx) = channel::<i32>(3, 4);
    let raw_tx = tx.into_raw_sender();
    let raw_rx = rx.into_raw_receiver();
    assert_eq!(raw_tx.as_raw_fd(), 3);
    assert_eq!(raw_rx.as_raw_fd(), 4);
    let tx = Sender::<bool>::from(raw_tx);
    let rx = Receiver::<bool>::from(raw_rx);
    assert_eq!(tx.as_raw_sender().as_raw_fd(), 3);
    assert_eq!(rx.as_raw_receiver().as_raw_fd(), 4);

    let payload = Sender::<bool>::payload(bincode::serialize(&true).unwrap());
    let received = receive(rx.recv(), transmit(tx.send(&payload, &Vec::new()))).unwrap();
    let decoded = bincode::deserialize::<(bool, bool)>(&received.data);
    assert_eq!(Receiver::<bool>::value(decoded).unwrap(), true);
}

#[test]
fn test_zero_sized_type() {
    let (tx, rx) = channel::<()>(3, 4);
    let payload = Sender::<()>::payload(bincode::serialize(&()).unwrap());
    assert_eq!(payload.as_bytes(), [1]);
    let received = receive(rx.recv(), transmit(tx.send(&payload, &Vec::new()))).unwrap();
    let decoded = bincode::deserialize::<((), bool)>(&received.data);
    Receiver::<()>::value(decoded).unwrap();
}

#[test]
fn payload_is_the_value_and_a_flag() {
    let value = (7u32, String::from("abc"));
    let payload = Sender::<(u32, String)>::payload(bincode::serialize(&value).unwrap());
    assert_eq!(
        payload.as_bytes(),
        bincode::serialize(&(value, true)).unwrap()
    );

    let cut = bincode::deserialize::<(u32, bool)>(&[1, 0, 0, 0]);
    assert!(Receiver::<u32>::value(cut).is_err());
}

#[test]
fn no_descriptors_are_an_empty_list() {
    assert_eq!(Receiver::<u8>::fds(None), Vec::<i32>::new());
    assert_eq!(Receiver::<u8>::fds(Some(vec![3, 4])), vec![3, 4]);
}

#[test]
fn test_multiple_fds() {
    let (tx1, rx1) = channel::<(u32, u32, u32, u32)>(3, 4);
    let mut ends = Vec::new();
    for i in 0..2 {
        let (tx, rx) = channel::<()>(10 + 2 * i, 11 + 2 * i);
        ends.push(tx.into_raw_sender().into_raw_fd());
        ends.push(rx.into_raw_receiver().into_raw_fd());
    }
    let mut ipc = IpcFds::new();
    ipc.enter_ipc_mode(&Vec::new());
    let i: Vec<u32> = ends.iter().map(|&fd| ipc.register_fd(fd)).collect();
    let encoded = bincode::serialize(&(i[0], i[1], i[2], i[3]));
    let (body, fds) = serialize(&mut ipc, encoded).unwrap();
    assert_eq!(fds, [10, 11, 12, 13]);
    let payload = Sender::<(u32, u32, u32, u32)>::payload(body);

    let received = receive(rx1.recv(), transmit(tx1.send(&payload, &fds))).unwrap();
    ipc.enter_ipc_mode(&Receiver::<()>::fds(received.fds));
    let decoded = bincode::deserialize::<((u32, u32, u32, u32), bool)>(&received.data);
    let (a, b, c, d) = Receiver::value(decoded).unwrap();
    let channels = [a, b, c, d].map(|idx| ipc.lookup_fd(idx));
    assert_eq!(channels, [Some(10), Some(11), Some(12), Some(13)]);
}
