//! The two ends of a channel that carries serialized values.
use std::marker::PhantomData;
use vstd::prelude::*;

use crate::raw_channel::{raw_channel, RawReceiver, RawSender};
use crate::recv::{RecvMessage, RecvView};
use crate::send::{SendMessage, SendView};

verus! {

/// `bincode::Error`, which is a boxed `bincode::ErrorKind`.
#[verifier::external_type_specification]
#[verifier::external_body]
pub struct ExErrorKind(bincode::ErrorKind);

/// Calls `bincode::serialize_into` on a `bool` and a growing buffer.  The flag takes one byte
/// behind what the buffer holds, 1 for `true` and 0 for `false`; a buffer takes every byte, and
/// there is no size limit, so the call succeeds.
#[verifier::external_body]
fn serialize_flag_into(out: &mut Vec<u8>, flag: bool) -> (r: Result<(), bincode::Error>)
    ensures
        r is Ok,
        final(out)@ == old(out)@.push(
            if flag {
                1u8
            } else {
                0u8
            },
        ),
{
    bincode::serialize_into(out, &flag)
}

/// The payload of a message that carries a serialized value: the value followed by a dummy flag,
/// so that the message will not be empty because of zero sized types.  Its view is the value.
#[derive(Debug)]
pub struct Payload {
    bytes: Vec<u8>,
}

impl View for Payload {
    type V = Seq<u8>;

    closed spec fn view(&self) -> Seq<u8> {
        self.bytes@.drop_last()
    }
}

impl Payload {
    #[verifier::type_invariant]
    spec fn wf(self) -> bool {
        self.bytes@.len() > 0 && self.bytes@.last() == 1
    }

    /// The bytes of the payload, as they are sent.
    pub fn as_bytes(&self) -> (r: &[u8])
        ensures
            r@ == self@.push(1u8),
    {
        proof {
            use_type_invariant(self);
        }
        assert(self.bytes@ =~= self@.push(1u8));
        self.bytes.as_slice()
    }
}

/// A typed sender.
pub struct Sender<T> {
    raw_sender: RawSender,
    marker: PhantomData<T>,
}

/// A typed receiver.
pub struct Receiver<T> {
    raw_receiver: RawReceiver,
    marker: PhantomData<T>,
}

impl<T> From<RawSender> for Sender<T> {
    fn from(value: RawSender) -> (r: Self)
        ensures
            r.raw() == value,
    {
        Sender { raw_sender: value, marker: PhantomData }
    }
}

impl<T> vstd::std_specs::convert::FromSpecImpl<RawSender> for Sender<T> {
    open spec fn obeys_from_spec() -> bool {
        true
    }

    closed spec fn from_spec(value: RawSender) -> Self {
        Sender { raw_sender: value, marker: PhantomData }
    }
}

impl<T> From<RawReceiver> for Receiver<T> {
    fn from(value: RawReceiver) -> (r: Self)
        ensures
            r.raw() == value,
    {
        Receiver { raw_receiver: value, marker: PhantomData }
    }
}

impl<T> vstd::std_specs::convert::FromSpecImpl<RawReceiver> for Receiver<T> {
    open spec fn obeys_from_spec() -> bool {
        true
    }

    closed spec fn from_spec(value: RawReceiver) -> Self {
        Receiver { raw_receiver: value, marker: PhantomData }
    }
}

impl<T> Sender<T> {
    /// The raw sender inside.
    pub closed spec fn raw(&self) -> RawSender {
        self.raw_sender
    }

    /// The raw sender inside, which stays there.
    pub fn as_raw_sender(&self) -> (r: &RawSender)
        ensures
            *r == self.raw(),
    {
        &self.raw_sender
    }

    /// Converts the typed sender into a raw one.
    pub fn into_raw_sender(self) -> (r: RawSender)
        ensures
            r == self.raw(),
    {
        self.raw_sender
    }

    /// The payload for the serialized value `body`.
    pub fn payload(body: Vec<u8>) -> (r: Payload)
        ensures
            r@ == body@,
    {
        let mut bytes = body;
        let _ = serialize_flag_into(&mut bytes, true);
        let r = Payload { bytes };
        assert(r@ =~= body@);
        r
    }

    /// Sends a structured message: a serialized value, which the dummy flag follows, and the
    /// descriptors of the handles in it.
    pub fn send<'a>(&self, payload: &'a Payload, fds: &'a Vec<i32>) -> (r: SendMessage<'a>)
        ensures
            r@ == SendView::start(payload@.push(1u8), fds@, false),
    {
        self.raw_sender.send(payload.as_bytes(), fds.as_slice())
    }
}

impl<T> Receiver<T> {
    /// The raw receiver inside.
    pub closed spec fn raw(&self) -> RawReceiver {
        self.raw_receiver
    }

    /// The raw receiver inside, which stays there.
    pub fn as_raw_receiver(&self) -> (r: &RawReceiver)
        ensures
            *r == self.raw(),
    {
        &self.raw_receiver
    }

    /// Converts the typed receiver into a raw one.
    pub fn into_raw_receiver(self) -> (r: RawReceiver)
        ensures
            r == self.raw(),
    {
        self.raw_receiver
    }

    /// Receives a structured message, which is then deserialized from its payload.
    pub fn recv(&self) -> (r: RecvMessage)
        ensures
            r@ == (RecvView::Header { want_creds: false, got: seq![] }),
    {
        self.raw_receiver.recv()
    }

    /// The descriptors for deserializing a message that came with `fds`.
    pub fn fds(fds: Option<Vec<i32>>) -> (r: Vec<i32>)
        ensures
            match fds {
                Some(v) => r == v,
                None => r@ == Seq::<i32>::empty(),
            },
    {
        match fds {
            Some(v) => v,
            None => Vec::new(),
        }
    }

    /// The value of a deserialized message: what stands before the dummy flag.
    pub fn value<E>(decoded: Result<(T, bool), E>) -> (r: Result<T, E>)
        ensures
            match decoded {
                Ok((value, _)) => r == Ok::<T, E>(value),
                Err(e) => r == Err::<T, E>(e),
            },
    {
        match decoded {
            Ok((value, _)) => Ok(value),
            Err(e) => Err(e),
        }
    }
}

/// Creates a typed channel from the descriptors of two connected sockets.
pub fn channel<T>(sender: i32, receiver: i32) -> (r: (Sender<T>, Receiver<T>))
    ensures
        r.0.raw().fd() == sender,
        !r.0.raw().dead(),
        r.1.raw().fd() == receiver,
        !r.1.raw().dead(),
{
    let (tx, rx) = raw_channel(sender, receiver);
    (Sender::from(tx), Receiver::from(rx))
}

} // verus!
