//! File handles inside serialized messages.
//!
//! A handle is serialized as an index into a list of descriptors that is sent beside the
//! message.  [`IpcFds`] keeps that list while a message is being serialized or deserialized,
//! which is the time when the thread is in IPC mode.
use vstd::prelude::*;

use crate::header::{low_u32, truncate_len};

verus! {

/// Why a handle could not be serialized or deserialized.
#[derive(Clone, Copy, Debug, PartialEq, Eq, Structural)]
pub enum HandleError {
    /// A handle was serialized outside IPC mode.
    SerializeOutsideIpc,
    /// A handle was deserialized outside IPC mode.
    DeserializeOutsideIpc,
    /// The message names a descriptor that did not come with it.
    FdNotFound,
}

impl HandleError {
    /// What the error tells a reader.
    pub fn message(&self) -> (r: &'static str)
        ensures
            r@ == match *self {
                HandleError::SerializeOutsideIpc => "can only serialize in ipc mode"@,
                HandleError::DeserializeOutsideIpc => "can only deserialize in ipc mode"@,
                HandleError::FdNotFound => "fd not found in mapping"@,
            },
    {
        match self {
            HandleError::SerializeOutsideIpc => "can only serialize in ipc mode",
            HandleError::DeserializeOutsideIpc => "can only deserialize in ipc mode",
            HandleError::FdNotFound => "fd not found in mapping",
        }
    }
}

/// The descriptors of the messages that are being serialized or deserialized, innermost last.
#[derive(Debug)]
pub struct IpcFds {
    frames: Vec<Vec<i32>>,
}

impl View for IpcFds {
    type V = Seq<Seq<i32>>;

    closed spec fn view(&self) -> Seq<Seq<i32>> {
        self.frames@.map_values(|v: Vec<i32>| v@)
    }
}

/// The descriptors of the innermost message; none outside IPC mode.
pub open spec fn innermost(frames: Seq<Seq<i32>>) -> Seq<i32> {
    if frames.len() == 0 {
        seq![]
    } else {
        frames.last()
    }
}

/// What is left when the innermost message is done.
pub open spec fn left(frames: Seq<Seq<i32>>) -> Seq<Seq<i32>> {
    if frames.len() == 0 {
        frames
    } else {
        frames.drop_last()
    }
}

/// What `frames` become when `fd` joins the innermost message.
pub open spec fn registered(frames: Seq<Seq<i32>>, fd: i32) -> Seq<Seq<i32>> {
    frames.drop_last().push(frames.last().push(fd))
}

/// What `frames` become when all of `fds` join the innermost message, one after the other.
pub open spec fn registered_all(frames: Seq<Seq<i32>>, fds: Seq<i32>) -> Seq<Seq<i32>>
    decreases fds.len(),
{
    if fds.len() == 0 {
        frames
    } else {
        registered(registered_all(frames, fds.drop_last()), fds.last())
    }
}

/// The index by which the next descriptor that joins the innermost message is found again.
pub open spec fn next_index(frames: Seq<Seq<i32>>) -> u32 {
    low_u32(innermost(frames).len())
}

/// The descriptor with the index `idx` in the innermost message.
pub open spec fn found(frames: Seq<Seq<i32>>, idx: u32) -> Option<i32> {
    if idx < innermost(frames).len() {
        Some(innermost(frames)[idx as int])
    } else {
        None
    }
}

/// The index that serializing one more descriptor yields.
pub open spec fn serialized(frames: Seq<Seq<i32>>) -> Result<u32, HandleError> {
    if frames.len() == 0 {
        Err(HandleError::SerializeOutsideIpc)
    } else {
        Ok(next_index(frames))
    }
}

/// The descriptor that deserializing the index `idx` yields.
pub open spec fn deserialized(frames: Seq<Seq<i32>>, idx: u32) -> Result<i32, HandleError> {
    if frames.len() == 0 {
        Err(HandleError::DeserializeOutsideIpc)
    } else {
        match found(frames, idx) {
            Some(fd) => Ok(fd),
            None => Err(HandleError::FdNotFound),
        }
    }
}

impl IpcFds {
    /// The state outside IPC mode.
    pub fn new() -> (r: IpcFds)
        ensures
            r@ == Seq::<Seq<i32>>::empty(),
    {
        let r = IpcFds { frames: Vec::new() };
        assert(r@ =~= seq![]);
        r
    }

    /// Enters IPC mode for a message whose descriptors so far are `fds`.
    pub fn enter_ipc_mode(&mut self, fds: &Vec<i32>)
        ensures
            final(self)@ == old(self)@.push(fds@),
    {
        let frame = fds.clone();
        assert(frame@ =~= fds@);
        self.frames.push(frame);
        assert(self@ =~= old(self)@.push(fds@));
    }

    /// Leaves the innermost IPC mode and returns the descriptors of its message.
    pub fn leave_ipc_mode(&mut self) -> (r: Vec<i32>)
        ensures
            r@ == innermost(old(self)@),
            final(self)@ == left(old(self)@),
    {
        let frame = self.frames.pop();
        assert(self@ =~= left(old(self)@));
        match frame {
            Some(fds) => fds,
            None => {
                let none: Vec<i32> = Vec::new();
                assert(none@ =~= seq![]);
                none
            },
        }
    }

    /// Adds a descriptor to the innermost message and returns the index by which it is found
    /// again.
    pub fn register_fd(&mut self, fd: i32) -> (r: u32)
        requires
            old(self)@.len() > 0,
        ensures
            r == next_index(old(self)@),
            final(self)@ == registered(old(self)@, fd),
    {
        let last: usize = self.frames.len() - 1;
        let rv = truncate_len(self.frames[last].len());
        self.frames[last].push(fd);
        assert(self@ =~= registered(old(self)@, fd));
        rv
    }

    /// The descriptor with the index `idx` in the innermost message.
    pub fn lookup_fd(&self, idx: u32) -> (r: Option<i32>)
        ensures
            r == found(self@, idx),
    {
        if self.frames.len() == 0 {
            return None;
        }
        let fds = &self.frames[self.frames.len() - 1];
        if (idx as usize) < fds.len() {
            Some(fds[idx as usize])
        } else {
            None
        }
    }
}

/// Checks if the thread is in IPC mode.
///
/// This can be used to customize the behavior of serialization and deserialization for the use
/// over a channel.
pub fn is_ipc_mode(ipc: &IpcFds) -> (r: bool)
    ensures
        r == (ipc@.len() > 0),
{
    ipc.frames.len() > 0
}

/// Ends the serialization of a message for IPC communication, of which `encoded` came.
///
/// IPC mode is left either way.  The descriptors that were registered are handed out beside the
/// bytes, because a socket transmits them separately.
pub fn serialize<E>(ipc: &mut IpcFds, encoded: Result<Vec<u8>, E>) -> (r: Result<
    (Vec<u8>, Vec<i32>),
    E,
>)
    ensures
        final(ipc)@ == left(old(ipc)@),
        match encoded {
            Ok(bytes) => r matches Ok((out, fds)) && out == bytes && fds@ == innermost(
                old(ipc)@,
            ),
            Err(e) => r == Err::<(Vec<u8>, Vec<i32>), E>(e),
        },
{
    let fds = ipc.leave_ipc_mode();
    match encoded {
        Ok(bytes) => Ok((bytes, fds)),
        Err(e) => Err(e),
    }
}

/// Ends the deserialization of a message from IPC communication, of which `decoded` came.
///
/// IPC mode is left either way.
pub fn deserialize<D, E>(ipc: &mut IpcFds, decoded: Result<D, E>) -> (r: Result<D, E>)
    ensures
        final(ipc)@ == left(old(ipc)@),
        r == decoded,
{
    let _ = ipc.leave_ipc_mode();
    decoded
}

/// Can transfer a unix file handle across processes.
///
/// The basic requirement is an object that can be converted into a descriptor and back.  Once
/// the handle has been serialized it no longer lets go of the value contained in it: its view is
/// that value, or `None` once the value was moved out.
#[derive(Debug)]
pub struct Handle<F> {
    inner: Option<F>,
}

impl<F> View for Handle<F> {
    type V = Option<F>;

    closed spec fn view(&self) -> Option<F> {
        self.inner
    }
}

impl<F> From<F> for Handle<F> {
    fn from(f: F) -> (r: Self)
        ensures
            r@ == Some(f),
    {
        Handle { inner: Some(f) }
    }
}

impl<F> vstd::std_specs::convert::FromSpecImpl<F> for Handle<F> {
    open spec fn obeys_from_spec() -> bool {
        true
    }

    closed spec fn from_spec(f: F) -> Self {
        Handle { inner: Some(f) }
    }
}

impl<F> Handle<F> {
    /// Wraps the value in a handle.
    pub fn new(f: F) -> (r: Self)
        ensures
            r@ == Some(f),
    {
        Handle::from(f)
    }

    /// Whether the value was moved out of the handle.
    pub fn is_moved(&self) -> (r: bool)
        ensures
            r == (self@ is None),
    {
        self.inner.is_none()
    }

    /// Moves the value out of the handle and turns it into a descriptor.
    pub fn extract_raw_fd<C: FnOnce(F) -> i32>(&mut self, into_raw_fd: C) -> (fd: i32)
        requires
            old(self)@ is Some,
            call_requires(into_raw_fd, (old(self)@->0,)),
        ensures
            final(self)@ is None,
            call_ensures(into_raw_fd, (old(self)@->0,), fd),
    {
        let f = self.inner.take().unwrap();
        into_raw_fd(f)
    }

    /// Extracts the internal value.
    pub fn into_inner(self) -> (f: F)
        requires
            self@ is Some,
        ensures
            self@ == Some(f),
    {
        self.inner.unwrap()
    }

    /// Serializes the handle: moves the value out and yields the index that stands for it.
    ///
    /// The value is moved out even if the thread is not in IPC mode.
    pub fn serialize<C: FnOnce(F) -> i32>(&mut self, ipc: &mut IpcFds, into_raw_fd: C) -> (r:
        Result<u32, HandleError>)
        requires
            old(self)@ is Some,
            call_requires(into_raw_fd, (old(self)@->0,)),
        ensures
            final(self)@ is None,
            r == serialized(old(ipc)@),
            r is Ok <==> old(ipc)@.len() > 0,
            r matches Ok(idx) ==> {
                let held = old(ipc)@.last().len();
                &&& final(ipc)@.last().len() == held + 1
                &&& call_ensures(into_raw_fd, (old(self)@->0,), final(ipc)@.last()[held as int])
                &&& held <= u32::MAX ==> idx == held
            },
            exists|fd: i32|
                #![trigger registered(old(ipc)@, fd)]
                {
                    &&& call_ensures(into_raw_fd, (old(self)@->0,), fd)
                    &&& final(ipc)@ == if r is Ok {
                        registered(old(ipc)@, fd)
                    } else {
                        old(ipc)@
                    }
                },
    {
        let fd = self.extract_raw_fd(into_raw_fd);
        let ghost joined = registered(ipc@, fd);
        HandleRef(fd).serialize(ipc)
    }

    /// Deserializes a handle from the index `idx` that stands for it.
    pub fn deserialize<C: FnOnce(i32) -> F>(ipc: &IpcFds, idx: u32, from_fd: C) -> (r: Result<
        Handle<F>,
        HandleError,
    >)
        requires
            deserialized(ipc@, idx) matches Ok(fd) ==> call_requires(from_fd, (fd,)),
        ensures
            match deserialized(ipc@, idx) {
                Ok(fd) => r matches Ok(h) && h@ is Some && call_ensures(
                    from_fd,
                    (fd,),
                    h@->0,
                ),
                Err(e) => r == Err::<Handle<F>, _>(e),
            },
            r is Ok <==> ipc@.len() > 0 && idx < ipc@.last().len(),
            r matches Ok(h) ==> h@ is Some && call_ensures(
                from_fd,
                (ipc@.last()[idx as int],),
                h@->0,
            ),
    {
        if is_ipc_mode(ipc) {
            match ipc.lookup_fd(idx) {
                Some(fd) => Ok(Handle::new(from_fd(fd))),
                None => Err(HandleError::FdNotFound),
            }
        } else {
            Err(HandleError::DeserializeOutsideIpc)
        }
    }
}

/// A raw reference to a handle.
///
/// This serializes the same way as a [`Handle`] but only uses a raw descriptor to represent it.
/// Useful to implement custom serializers.
#[derive(Clone, Copy, Debug, PartialEq, Eq, Structural)]
pub struct HandleRef(pub i32);

impl HandleRef {
    /// Serializes the descriptor: yields the index that stands for it.
    pub fn serialize(&self, ipc: &mut IpcFds) -> (r: Result<u32, HandleError>)
        ensures
            r == serialized(old(ipc)@),
            final(ipc)@ == if r is Ok {
                registered(old(ipc)@, self.0)
            } else {
                old(ipc)@
            },
            r is Ok <==> old(ipc)@.len() > 0,
            r matches Ok(idx) ==> {
                let held = old(ipc)@.last().len();
                &&& final(ipc)@.last() == old(ipc)@.last().push(self.0)
                &&& held <= u32::MAX ==> idx == held
            },
    {
        if is_ipc_mode(ipc) {
            Ok(ipc.register_fd(self.0))
        } else {
            Err(HandleError::SerializeOutsideIpc)
        }
    }
}

} // verus!
