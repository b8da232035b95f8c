//! The protocol of an IPC channel over UNIX domain sockets that carries bytes, file descriptors
//! and serialized values between processes.
//!
//! Everything here computes; nothing does I/O.  A [`raw_channel`] knows how to send and receive
//! a message: [`send`] and [`recv`] say which call to make on the socket next and learn what
//! came of it.  A [`typed_channel`] puts serialized values into messages, and [`serde`] keeps
//! track of the file handles in them.  [`bootstrap`] lets two processes find each other through
//! a socket in the file system, and [`panic`] describes panics that are to be reported to
//! another process.  [`laws`] states what holds of whole conversations, and [`operations`] what
//! single operations come to.

pub mod bootstrap;
pub mod control;
pub mod error;
pub mod header;
pub mod laws;
pub mod operations;
pub mod panic;
pub mod raw_channel;
pub mod recv;
pub mod send;
pub mod serde;
pub mod typed_channel;
