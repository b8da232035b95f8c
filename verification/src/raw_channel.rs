//! The two ends of a channel that carries bytes and descriptors.
use vstd::prelude::*;

use crate::recv::{RecvMessage, RecvView};
use crate::send::{SendMessage, SendView};

verus! {

/// The sending end of a raw channel.
///
/// It owns its descriptor until the descriptor is handed over to someone else, which can happen
/// once.
#[derive(Debug)]
pub struct RawSender {
    fd: i32,
    dead: bool,
}

impl RawSender {
    /// The descriptor of the socket.
    pub closed spec fn fd(&self) -> i32 {
        self.fd
    }

    /// Whether the descriptor was handed over.
    pub closed spec fn dead(&self) -> bool {
        self.dead
    }

    /// The descriptor that has to be closed when this end goes away: its own, unless it was
    /// handed over.
    pub open spec fn closes(&self) -> Option<i32> {
        if self.dead() {
            None
        } else {
            Some(self.fd())
        }
    }

    /// Takes ownership of the descriptor of a connected socket.
    pub fn from_std(fd: i32) -> (r: RawSender)
        ensures
            r.fd() == fd,
            !r.dead(),
            r.closes() == Some(fd),
    {
        RawSender { fd, dead: false }
    }

    /// The descriptor of the socket, which stays owned by this end.
    pub fn as_raw_fd(&self) -> (r: i32)
        ensures
            r == self.fd(),
    {
        self.fd
    }

    /// Whether the descriptor was handed over.
    pub fn is_dead(&self) -> (r: bool)
        ensures
            r == self.dead(),
    {
        self.dead
    }

    /// Hands the descriptor over.
    pub fn extract_raw_fd(&mut self) -> (r: i32)
        requires
            !old(self).dead(),
        ensures
            r == old(self).fd(),
            final(self).fd() == old(self).fd(),
            final(self).dead(),
            old(self).closes() == Some(r),
            final(self).closes() is None,
    {
        self.dead = true;
        self.fd
    }

    /// Hands the descriptor over and consumes this end.
    pub fn into_raw_fd(self) -> (r: i32)
        requires
            !self.dead(),
        ensures
            r == self.fd(),
    {
        let mut end = self;
        end.extract_raw_fd()
    }

    /// The descriptor that has to be closed when this end goes away: its own, unless it was
    /// handed over.
    pub fn fd_to_close(&self) -> (r: Option<i32>)
        ensures
            r == self.closes(),
    {
        if self.dead {
            None
        } else {
            Some(self.fd)
        }
    }

    /// Sends raw bytes and descriptors.
    pub fn send<'a>(&self, data: &'a [u8], fds: &'a [i32]) -> (r: SendMessage<'a>)
        ensures
            r@ == SendView::start(data@, fds@, false),
    {
        SendMessage::new(data, fds, false)
    }

    /// Sends raw bytes and descriptors along with the credentials of this process.
    pub fn send_with_credentials<'a>(&self, data: &'a [u8], fds: &'a [i32]) -> (r: SendMessage<'a>)
        ensures
            r@ == SendView::start(data@, fds@, true),
    {
        SendMessage::new(data, fds, true)
    }
}

/// The receiving end of a raw channel.
///
/// It owns its descriptor until the descriptor is handed over to someone else, which can happen
/// once.
#[derive(Debug)]
pub struct RawReceiver {
    fd: i32,
    dead: bool,
}

impl RawReceiver {
    /// The descriptor of the socket.
    pub closed spec fn fd(&self) -> i32 {
        self.fd
    }

    /// Whether the descriptor was handed over.
    pub closed spec fn dead(&self) -> bool {
        self.dead
    }

    /// The descriptor that has to be closed when this end goes away: its own, unless it was
    /// handed over.
    pub open spec fn closes(&self) -> Option<i32> {
        if self.dead() {
            None
        } else {
            Some(self.fd())
        }
    }

    /// Takes ownership of the descriptor of a connected socket.
    pub fn from_std(fd: i32) -> (r: RawReceiver)
        ensures
            r.fd() == fd,
            !r.dead(),
            r.closes() == Some(fd),
    {
        RawReceiver { fd, dead: false }
    }

    /// The descriptor of the socket, which stays owned by this end.
    pub fn as_raw_fd(&self) -> (r: i32)
        ensures
            r == self.fd(),
    {
        self.fd
    }

    /// Whether the descriptor was handed over.
    pub fn is_dead(&self) -> (r: bool)
        ensures
            r == self.dead(),
    {
        self.dead
    }

    /// Hands the descriptor over.
    pub fn extract_raw_fd(&mut self) -> (r: i32)
        requires
            !old(self).dead(),
        ensures
            r == old(self).fd(),
            final(self).fd() == old(self).fd(),
            final(self).dead(),
            old(self).closes() == Some(r),
            final(self).closes() is None,
    {
        self.dead = true;
        self.fd
    }

    /// Hands the descriptor over and consumes this end.
    pub fn into_raw_fd(self) -> (r: i32)
        requires
            !self.dead(),
        ensures
            r == self.fd(),
    {
        let mut end = self;
        end.extract_raw_fd()
    }

    /// The descriptor that has to be closed when this end goes away: its own, unless it was
    /// handed over.
    pub fn fd_to_close(&self) -> (r: Option<i32>)
        ensures
            r == self.closes(),
    {
        if self.dead {
            None
        } else {
            Some(self.fd)
        }
    }

    /// Receives raw bytes from the socket.
    pub fn recv(&self) -> (r: RecvMessage)
        ensures
            r@ == (RecvView::Header { want_creds: false, got: seq![] }),
    {
        RecvMessage::new(false)
    }

    /// Receives raw bytes and credentials from the socket.
    pub fn recv_with_credentials(&self) -> (r: RecvMessage)
        ensures
            r@ == (RecvView::Header { want_creds: true, got: seq![] }),
    {
        RecvMessage::new(true)
    }
}

/// Creates a raw channel from the descriptors of two connected sockets.
pub fn raw_channel(sender: i32, receiver: i32) -> (r: (RawSender, RawReceiver))
    ensures
        r.0.fd() == sender,
        !r.0.dead(),
        r.1.fd() == receiver,
        !r.1.dead(),
{
    (RawSender::from_std(sender), RawReceiver::from_std(receiver))
}

} // verus!
