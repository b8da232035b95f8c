//! Sending one message, decided step by step.
//!
//! A [`SendMessage`] says what to hand to the socket next and learns from a [`SendEvent`] what
//! came of it.  It does no I/O itself.
use vstd::prelude::*;
use vstd::slice::slice_subrange;

use crate::control::{
    all_credentials, all_rights, control_view, send_control, send_control_view, send_impl,
    ControlMessage, Credentials,
};
use crate::error::ChannelError;
use crate::header::{
    header_bytes, lemma_header_round_trip, low_u32, truncate_len, MsgHeader, HEADER_LEN,
};

verus! {

/// What one send call on the socket came to.
#[derive(Clone, Copy, Debug)]
pub enum SendEvent {
    /// The socket took this many bytes, and all the ancillary data.
    Sent(usize),
    /// A signal interrupted the call before anything was sent.
    Interrupted,
    /// The socket had no room.
    WouldBlock,
    /// The operating system reported this error number.
    Failed(i32),
}

/// How to go on after a send call.
#[derive(Debug)]
pub enum SendStep<'a> {
    /// Wait until the socket is writable, then send again.
    AwaitWritable(SendMessage<'a>),
    /// Send again at once.
    SendNow(SendMessage<'a>),
    /// The message was sent; its payload has this length.
    Complete(usize),
    /// The message cannot be sent.
    Fail(ChannelError),
}

/// How far the transmission of a message has come: `pos` bytes of the header have been sent,
/// or, once `in_header` no longer holds, `pos` bytes of the payload.
pub struct SendView {
    pub data: Seq<u8>,
    pub fds: Seq<i32>,
    pub with_creds: bool,
    pub in_header: bool,
    pub pos: int,
}

/// The header of the message that consists of `data` and `fds`.
pub open spec fn message_header(data: Seq<u8>, fds: Seq<i32>) -> Seq<u8> {
    header_bytes(low_u32(data.len()), low_u32(fds.len()))
}

/// All the bytes that a message puts on the wire.
pub open spec fn message_bytes(data: Seq<u8>, fds: Seq<i32>) -> Seq<u8> {
    message_header(data, fds) + data
}

impl SendView {
    /// A message of which nothing has been sent.
    pub open spec fn start(data: Seq<u8>, fds: Seq<i32>, with_creds: bool) -> SendView {
        SendView { data, fds, with_creds, in_header: true, pos: 0 }
    }

    /// The part of the message that is being sent: its header or its payload.
    pub open spec fn part(self) -> Seq<u8> {
        if self.in_header {
            message_header(self.data, self.fds)
        } else {
            self.data
        }
    }

    /// The bytes that the next send call offers.
    pub open spec fn remaining(self) -> Seq<u8> {
        self.part().skip(self.pos)
    }

    /// The descriptors that accompany them: all of them with the first bytes of the payload,
    /// and none at any other time.
    pub open spec fn attached_fds(self) -> Seq<i32> {
        if !self.in_header && self.pos == 0 {
            self.fds
        } else {
            seq![]
        }
    }

    /// Whether the credentials of this process accompany them, as they do with the header if
    /// they are sent at all.
    pub open spec fn attached_creds(self) -> bool {
        self.with_creds && self.in_header
    }
}

/// How to go on after a send call, over the views.
pub enum SendStepView {
    AwaitWritable(SendView),
    SendNow(SendView),
    Complete(int),
    Fail(ChannelError),
}

impl<'a> View for SendStep<'a> {
    type V = SendStepView;

    open spec fn view(&self) -> SendStepView {
        match *self {
            SendStep::AwaitWritable(m) => SendStepView::AwaitWritable(m@),
            SendStep::SendNow(m) => SendStepView::SendNow(m@),
            SendStep::Complete(n) => SendStepView::Complete(n as int),
            SendStep::Fail(e) => SendStepView::Fail(e),
        }
    }
}

/// What follows when the socket took `n` bytes in the state `s`.
pub open spec fn sent_step(s: SendView, n: int) -> SendStepView {
    if n == 0 {
        SendStepView::Fail(ChannelError::CouldNotSend)
    } else if n < s.remaining().len() {
        SendStepView::AwaitWritable(SendView { pos: s.pos + n, ..s })
    } else if s.in_header {
        SendStepView::AwaitWritable(SendView { in_header: false, pos: 0, ..s })
    } else {
        SendStepView::Complete(s.pos + n)
    }
}

/// What follows from the event `event` in the state `s`.
pub open spec fn send_step(s: SendView, event: SendEvent) -> SendStepView {
    match event {
        SendEvent::Sent(n) => sent_step(s, n as int),
        SendEvent::Interrupted => SendStepView::SendNow(s),
        SendEvent::WouldBlock => SendStepView::AwaitWritable(s),
        SendEvent::Failed(code) => SendStepView::Fail(ChannelError::Os(code)),
    }
}

/// The transmission of one message.
#[derive(Debug)]
pub struct SendMessage<'a> {
    header: MsgHeader,
    data: &'a [u8],
    fds: &'a [i32],
    with_creds: bool,
    in_header: bool,
    pos: usize,
}

impl<'a> View for SendMessage<'a> {
    type V = SendView;

    closed spec fn view(&self) -> SendView {
        SendView {
            data: self.data@,
            fds: self.fds@,
            with_creds: self.with_creds,
            in_header: self.in_header,
            pos: self.pos as int,
        }
    }
}

impl<'a> SendMessage<'a> {
    #[verifier::type_invariant]
    spec fn wf(self) -> bool {
        &&& self.header@ == message_header(self.data@, self.fds@)
        &&& self.header@.len() == HEADER_LEN
        &&& if self.in_header {
            self.pos < HEADER_LEN
        } else {
            self.pos < self.data@.len() || self.pos == self.data@.len() == 0
        }
    }

    /// Starts to send a message with the payload `data` and the descriptors `fds`.  With
    /// `with_creds` the credentials of this process go with the header.
    pub fn new(data: &'a [u8], fds: &'a [i32], with_creds: bool) -> (r: SendMessage<'a>)
        ensures
            r@ == SendView::start(data@, fds@, with_creds),
    {
        let header = MsgHeader::new(truncate_len(data.len()), truncate_len(fds.len()));
        proof {
            lemma_header_round_trip(low_u32(data@.len()), low_u32(fds@.len()));
        }
        SendMessage { header, data, fds, with_creds, in_header: true, pos: 0 }
    }

    /// The bytes that the next send call offers.
    pub fn remaining(&self) -> (r: &[u8])
        ensures
            r@ == self@.remaining(),
    {
        proof {
            use_type_invariant(self);
        }
        let part = if self.in_header {
            self.header.as_buf()
        } else {
            self.data
        };
        slice_subrange(part, self.pos, part.len())
    }

    /// The ancillary data of the next send call, where `own` are the credentials of this
    /// process.
    pub fn control(&self, own: Credentials) -> (r: Vec<ControlMessage>)
        ensures
            control_view(r@) == send_control_view(
                self@.attached_fds(),
                if self@.attached_creds() {
                    Some(own)
                } else {
                    None
                },
            ),
            all_rights(control_view(r@)) == self@.attached_fds(),
            all_credentials(control_view(r@)) == if self@.attached_creds() {
                seq![own]
            } else {
                seq![]
            },
    {
        let creds = if self.with_creds && self.in_header {
            Some(own)
        } else {
            None
        };
        if !self.in_header && self.pos == 0 {
            send_control(self.fds, creds)
        } else {
            let none: [i32; 0] = [];
            assert(none@ =~= seq![]);
            send_control(none.as_slice(), creds)
        }
    }

    /// Goes on after a send call that offered [`remaining`](Self::remaining).
    pub fn step(self, event: SendEvent) -> (r: SendStep<'a>)
        requires
            event matches SendEvent::Sent(n) ==> n <= self@.remaining().len(),
        ensures
            r@ == send_step(self@, event),
    {
        proof {
            use_type_invariant(&self);
        }
        match event {
            SendEvent::Interrupted => SendStep::SendNow(self),
            SendEvent::WouldBlock => SendStep::AwaitWritable(self),
            SendEvent::Failed(code) => SendStep::Fail(ChannelError::Os(code)),
            SendEvent::Sent(n) => {
                let sent = match send_impl(n) {
                    Ok(sent) => sent,
                    Err(e) => {
                        return SendStep::Fail(e);
                    },
                };
                let SendMessage { header, data, fds, with_creds, in_header, pos } = self;
                let len: usize = if in_header {
                    HEADER_LEN
                } else {
                    data.len()
                };
                assert(pos + sent <= len);
                let pos_now = pos + sent;
                if pos_now < len {
                    SendStep::AwaitWritable(
                        SendMessage { header, data, fds, with_creds, in_header, pos: pos_now },
                    )
                } else if in_header {
                    SendStep::AwaitWritable(
                        SendMessage { header, data, fds, with_creds, in_header: false, pos: 0 },
                    )
                } else {
                    SendStep::Complete(pos_now)
                }
            },
        }
    }
}

} // verus!
