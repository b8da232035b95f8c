//! Receiving one message, decided step by step.
//!
//! A [`RecvMessage`] says what to ask the socket for next and learns from a [`RecvEvent`] what
//! came of it.  It does no I/O itself.
use vstd::prelude::*;

use crate::control::{
    control_space, control_view, fds_view, join_fds, last_credentials, last_rights, recv_impl,
    ControlMessage, Credentials,
};
use crate::error::ChannelError;
use crate::header::{announced_fds, announced_len, MsgHeader, HEADER_LEN};

verus! {

/// What one receive call on the socket came to.
#[derive(Debug)]
pub enum RecvEvent {
    /// The call returned these bytes and this ancillary data.
    Message {
        /// The bytes that were received, at most as many as were asked for.
        data: Vec<u8>,
        /// The ancillary data that came with them.
        control: Vec<ControlMessage>,
    },
    /// A signal interrupted the call before anything was received.
    Interrupted,
    /// Nothing was there to be received.
    WouldBlock,
    /// The operating system reported this error number.
    Failed(i32),
}

/// A message that was received completely.
#[derive(Debug)]
pub struct Received {
    /// The payload.
    pub data: Vec<u8>,
    /// The descriptors that came with the payload, if any did.
    pub fds: Option<Vec<i32>>,
    /// The sender's credentials, if they were asked for.
    pub creds: Option<Credentials>,
}

/// How to go on after a receive call.
#[derive(Debug)]
pub enum RecvStep {
    /// Wait until the socket is readable, then receive again.
    AwaitReadable(RecvMessage),
    /// Receive again at once.
    RecvNow(RecvMessage),
    /// The message is complete.
    Complete(Received),
    /// The message cannot be received.
    Fail(ChannelError),
}

/// How far the reception of a message has come.
pub enum RecvView {
    /// The header is being received.
    Header { want_creds: bool, got: Seq<u8> },
    /// The header is known and the payload is being received.
    Payload {
        header: Seq<u8>,
        creds: Option<Credentials>,
        got: Seq<u8>,
        fds: Option<Seq<i32>>,
    },
}

impl RecvView {
    /// The number of bytes that the next receive call asks for.
    pub open spec fn wanted(self) -> int {
        match self {
            RecvView::Header { got, .. } => HEADER_LEN - got.len(),
            RecvView::Payload { header, got, .. } => announced_len(header) - got.len(),
        }
    }

    /// The number of descriptors that the next receive call leaves room for.
    pub open spec fn fd_count(self) -> u32 {
        match self {
            RecvView::Header { .. } => 0,
            RecvView::Payload { header, .. } => announced_fds(header),
        }
    }

    /// Whether the next receive call leaves room for credentials.
    pub open spec fn want_creds(self) -> bool {
        match self {
            RecvView::Header { want_creds, .. } => want_creds,
            RecvView::Payload { .. } => false,
        }
    }
}

/// How to go on after a receive call, over the views.
pub enum RecvStepView {
    AwaitReadable(RecvView),
    RecvNow(RecvView),
    Complete { data: Seq<u8>, fds: Option<Seq<i32>>, creds: Option<Credentials> },
    Fail(ChannelError),
}

impl View for RecvStep {
    type V = RecvStepView;

    open spec fn view(&self) -> RecvStepView {
        match *self {
            RecvStep::AwaitReadable(m) => RecvStepView::AwaitReadable(m@),
            RecvStep::RecvNow(m) => RecvStepView::RecvNow(m@),
            RecvStep::Complete(received) => RecvStepView::Complete {
                data: received.data@,
                fds: fds_view(received.fds),
                creds: received.creds,
            },
            RecvStep::Fail(e) => RecvStepView::Fail(e),
        }
    }
}

/// What follows from the bytes `data` and the ancillary data `control` in the state `s`.
pub open spec fn recv_message_step(
    s: RecvView,
    data: Seq<u8>,
    control: Seq<ControlMessage>,
) -> RecvStepView {
    if data.len() == 0 {
        RecvStepView::Fail(ChannelError::CouldNotRead)
    } else {
        match s {
            RecvView::Header { want_creds, got } => {
                let sender = last_credentials(control_view(control));
                if data.len() < s.wanted() {
                    RecvStepView::AwaitReadable(RecvView::Header { want_creds, got: got + data })
                } else if want_creds && sender is None {
                    RecvStepView::Fail(ChannelError::MissingCredentials)
                } else {
                    RecvStepView::AwaitReadable(
                        RecvView::Payload {
                            header: got + data,
                            creds: if want_creds {
                                sender
                            } else {
                                None
                            },
                            got: seq![],
                            fds: None,
                        },
                    )
                }
            },
            RecvView::Payload { header, creds, got, fds } => {
                let all_fds = join_fds(fds, last_rights(control_view(control)));
                if data.len() < s.wanted() {
                    RecvStepView::AwaitReadable(
                        RecvView::Payload { header, creds, got: got + data, fds: all_fds },
                    )
                } else {
                    RecvStepView::Complete { data: got + data, fds: all_fds, creds }
                }
            },
        }
    }
}

/// What follows from the event `event` in the state `s`.
pub open spec fn recv_step(s: RecvView, event: RecvEvent) -> RecvStepView {
    match event {
        RecvEvent::Message { data, control } => recv_message_step(s, data@, control@),
        RecvEvent::Interrupted => RecvStepView::RecvNow(s),
        RecvEvent::WouldBlock => RecvStepView::AwaitReadable(s),
        RecvEvent::Failed(code) => RecvStepView::Fail(ChannelError::Os(code)),
    }
}

/// Copies `data` into `buf` from position `pos` on.
fn fill(buf: &mut [u8], pos: usize, data: &Vec<u8>)
    requires
        pos + data@.len() <= old(buf)@.len(),
    ensures
        final(buf)@.len() == old(buf)@.len(),
        final(buf)@.take(pos as int) == old(buf)@.take(pos as int),
        final(buf)@.take(pos + data@.len()) == old(buf)@.take(pos as int) + data@,
{
    let ghost before = buf@;
    let len: usize = buf.len();
    for i in 0..data.len()
        invariant
            buf@.len() == before.len() == len,
            pos + data@.len() <= before.len(),
            buf@.take(pos + i) =~= before.take(pos as int) + data@.take(i as int),
    {
        let ghost prev = buf@;
        buf[pos + i] = data[i];
        proof {
            assert(buf@.take(pos + i) =~= prev.take(pos + i));
            assert(buf@.take(pos + i + 1) =~= buf@.take(pos + i).push(data[i as int]));
            assert(data@.take(i + 1) =~= data@.take(i as int).push(data[i as int]));
        }
    }
    proof {
        assert(data@.take(data@.len() as int) =~= data@);
        assert(buf@.take(pos as int) =~= buf@.take(pos + data@.len()).take(pos as int));
        assert(before.take(pos as int) =~= (before.take(pos as int) + data@).take(pos as int));
    }
}

/// The reception of one message.
#[derive(Debug)]
pub struct RecvMessage {
    want_creds: bool,
    header: MsgHeader,
    creds: Option<Credentials>,
    payload: Option<Vec<u8>>,
    pos: usize,
    fds: Option<Vec<i32>>,
}

impl View for RecvMessage {
    type V = RecvView;

    closed spec fn view(&self) -> RecvView {
        match self.payload {
            None => RecvView::Header {
                want_creds: self.want_creds,
                got: self.header@.take(self.pos as int),
            },
            Some(buf) => RecvView::Payload {
                header: self.header@,
                creds: self.creds,
                got: buf@.take(self.pos as int),
                fds: fds_view(self.fds),
            },
        }
    }
}

impl RecvMessage {
    #[verifier::type_invariant]
    spec fn wf(self) -> bool {
        &&& self.header@.len() == HEADER_LEN
        &&& match self.payload {
            None => self.pos < HEADER_LEN,
            Some(buf) => {
                &&& buf@.len() == announced_len(self.header@)
                &&& self.pos < buf@.len() || self.pos == buf@.len() == 0
            },
        }
    }

    /// Starts to receive a message, of whose header nothing has arrived yet.  With
    /// `want_creds` the sender's credentials must come with the header.
    pub fn new(want_creds: bool) -> (r: RecvMessage)
        ensures
            r@ == (RecvView::Header { want_creds, got: seq![] }),
    {
        let r = RecvMessage {
            want_creds,
            header: MsgHeader::default(),
            creds: None,
            payload: None,
            pos: 0,
            fds: None,
        };
        assert(r.header@.take(0) =~= seq![]);
        r
    }

    /// The number of bytes that the next receive call asks for.
    pub fn wanted(&self) -> (r: usize)
        ensures
            r == self@.wanted(),
    {
        proof {
            use_type_invariant(self);
        }
        match &self.payload {
            None => HEADER_LEN - self.pos,
            Some(buf) => buf.len() - self.pos,
        }
    }

    /// The number of descriptors that the next receive call leaves room for.
    pub fn fd_count(&self) -> (r: u32)
        ensures
            r == self@.fd_count(),
    {
        match &self.payload {
            None => 0,
            Some(_) => self.header.fd_count(),
        }
    }

    /// Whether the next receive call leaves room for credentials.
    pub fn want_creds(&self) -> (r: bool)
        ensures
            r == self@.want_creds(),
    {
        match &self.payload {
            None => self.want_creds,
            Some(_) => false,
        }
    }

    /// The size of the ancillary data buffer for the next receive call, where one descriptor
    /// takes `fd_space` bytes and credentials take `cred_space`.  `None` if the size is not
    /// representable.
    pub fn control_space(&self, fd_space: u32, cred_space: u32) -> (r: Option<u32>)
        ensures
            ({
                let size = fd_space * self@.fd_count() + if self@.want_creds() {
                    cred_space as int
                } else {
                    0
                };
                r == if size <= u32::MAX {
                    Some(size as u32)
                } else {
                    None
                }
            }),
    {
        control_space(fd_space, cred_space, self.fd_count(), self.want_creds())
    }

    /// Goes on after a receive call that asked for [`wanted`](Self::wanted) bytes.
    pub fn step(self, event: RecvEvent) -> (r: RecvStep)
        requires
            event matches RecvEvent::Message { data, .. } ==> data@.len() <= self@.wanted(),
        ensures
            r@ == recv_step(self@, event),
            event matches RecvEvent::Message { data, .. } && data@.len() == 0 ==> r
                == RecvStep::Fail(ChannelError::CouldNotRead),
    {
        proof {
            use_type_invariant(&self);
        }
        match event {
            RecvEvent::Interrupted => RecvStep::RecvNow(self),
            RecvEvent::WouldBlock => RecvStep::AwaitReadable(self),
            RecvEvent::Failed(code) => RecvStep::Fail(ChannelError::Os(code)),
            RecvEvent::Message { data, control } => self.message(data, control),
        }
    }

    /// Goes on after a receive call that returned `data` and `control`.
    fn message(self, data: Vec<u8>, control: Vec<ControlMessage>) -> (r: RecvStep)
        requires
            data@.len() <= self@.wanted(),
        ensures
            r@ == recv_message_step(self@, data@, control@),
            data@.len() == 0 ==> r == RecvStep::Fail(ChannelError::CouldNotRead),
    {
        proof {
            use_type_invariant(&self);
        }
        let RecvMessage { want_creds, mut header, creds, payload, pos, fds } = self;
        let (bytes, fds, sender) = match recv_impl(data.len(), control, fds) {
            Ok(chunk) => chunk,
            Err(e) => {
                return RecvStep::Fail(e);
            },
        };
        let pos_now = pos + bytes;
        match payload {
            None => {
                fill(header.as_buf_mut(), pos, &data);
                if pos_now < HEADER_LEN {
                    return RecvStep::AwaitReadable(
                        RecvMessage { want_creds, header, creds, payload: None, pos: pos_now, fds },
                    );
                }
                assert(header@ =~= header@.take(HEADER_LEN as int));
                if want_creds && sender.is_none() {
                    return RecvStep::Fail(ChannelError::MissingCredentials);
                }
                let creds = if want_creds {
                    sender
                } else {
                    None
                };
                let buf = header.make_buffer();
                assert(buf@.take(0) =~= seq![]);
                RecvStep::AwaitReadable(
                    RecvMessage { want_creds, header, creds, payload: Some(buf), pos: 0, fds: None },
                )
            },
            Some(mut buf) => {
                fill(buf.as_mut_slice(), pos, &data);
                if pos_now < buf.len() {
                    RecvStep::AwaitReadable(
                        RecvMessage {
                            want_creds,
                            header,
                            creds,
                            payload: Some(buf),
                            pos: pos_now,
                            fds,
                        },
                    )
                } else {
                    assert(buf@ =~= buf@.take(pos_now as int));
                    RecvStep::Complete(Received { data: buf, fds, creds })
                }
            },
        }
    }
}

} // verus!
