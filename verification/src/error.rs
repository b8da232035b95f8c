//! Why a transfer over a channel failed.
use vstd::prelude::*;

verus! {

/// The general category of an error that a channel itself detected.
#[derive(Clone, Copy, Debug, PartialEq, Eq, Structural)]
pub enum ErrorCategory {
    /// The peer closed the socket before the message was complete.
    UnexpectedEof,
    /// The socket took none of the bytes that it was given.
    WriteZero,
    /// The peer sent something other than what was asked for.
    InvalidData,
}

/// An error of a transfer over a channel.
#[derive(Clone, Copy, Debug, PartialEq, Eq, Structural)]
pub enum ChannelError {
    /// A receive call returned no bytes.
    CouldNotRead,
    /// A send call took no bytes.
    CouldNotSend,
    /// Credentials were asked for and the peer sent none.
    MissingCredentials,
    /// The operating system refused a call, with this error number.
    Os(i32),
}

impl ChannelError {
    /// The category of the error; `None` where the operating system's error number says it.
    pub fn category(&self) -> (r: Option<ErrorCategory>)
        ensures
            r == match *self {
                ChannelError::CouldNotRead => Some(ErrorCategory::UnexpectedEof),
                ChannelError::CouldNotSend => Some(ErrorCategory::WriteZero),
                ChannelError::MissingCredentials => Some(ErrorCategory::InvalidData),
                ChannelError::Os(_) => None,
            },
    {
        match self {
            ChannelError::CouldNotRead => Some(ErrorCategory::UnexpectedEof),
            ChannelError::CouldNotSend => Some(ErrorCategory::WriteZero),
            ChannelError::MissingCredentials => Some(ErrorCategory::InvalidData),
            ChannelError::Os(_) => None,
        }
    }

    /// What the error tells a reader; `None` where the operating system's error number says it.
    pub fn message(&self) -> (r: Option<&'static str>)
        ensures
            match *self {
                ChannelError::CouldNotRead => r matches Some(m) && m@ == "could not read"@,
                ChannelError::CouldNotSend => r matches Some(m) && m@ == "could not send"@,
                ChannelError::MissingCredentials => r matches Some(m)
                    && m@ == "Remote did not provide credentials"@,
                ChannelError::Os(_) => r is None,
            },
    {
        match self {
            ChannelError::CouldNotRead => Some("could not read"),
            ChannelError::CouldNotSend => Some("could not send"),
            ChannelError::MissingCredentials => Some("Remote did not provide credentials"),
            ChannelError::Os(_) => None,
        }
    }
}

} // verus!
