//! The ancillary data of a socket message: descriptors and credentials.
use vstd::prelude::*;

use crate::error::ChannelError;
use crate::operations::law_send_control_hands_over_each_once;

verus! {

/// The identity of the process at the other end of a socket.
#[derive(Debug, Clone, Copy)]
pub struct Credentials {
    pid: libc::pid_t,
    uid: libc::uid_t,
    gid: libc::gid_t,
}

impl Credentials {
    /// The process identifier.
    pub closed spec fn spec_pid(&self) -> libc::pid_t {
        self.pid
    }

    /// The user identifier.
    pub closed spec fn spec_uid(&self) -> libc::uid_t {
        self.uid
    }

    /// The group identifier.
    pub closed spec fn spec_gid(&self) -> libc::gid_t {
        self.gid
    }

    /// The credentials that consist of these three identifiers.
    pub fn new(pid: libc::pid_t, uid: libc::uid_t, gid: libc::gid_t) -> (r: Credentials)
        ensures
            r.spec_pid() == pid,
            r.spec_uid() == uid,
            r.spec_gid() == gid,
    {
        Credentials { pid, uid, gid }
    }

    /// The remote process identifier.
    pub fn pid(&self) -> (r: libc::pid_t)
        ensures
            r == self.spec_pid(),
    {
        self.pid
    }

    /// The remote process user ID.
    pub fn uid(&self) -> (r: libc::uid_t)
        ensures
            r == self.spec_uid(),
    {
        self.uid
    }

    /// The remote process group ID.
    pub fn gid(&self) -> (r: libc::gid_t)
        ensures
            r == self.spec_gid(),
    {
        self.gid
    }
}

/// One piece of ancillary data that travels beside the bytes of a message.
#[derive(Debug)]
pub enum ControlMessage {
    /// Descriptors.
    Rights(Vec<i32>),
    /// The credentials of the sending process.
    Credentials(Credentials),
    /// Anything else; it is ignored.
    Other,
}

/// What a [`ControlMessage`] holds.
pub enum ControlView {
    Rights(Seq<i32>),
    Credentials(Credentials),
    Other,
}

impl View for ControlMessage {
    type V = ControlView;

    open spec fn view(&self) -> ControlView {
        match *self {
            ControlMessage::Rights(fds) => ControlView::Rights(fds@),
            ControlMessage::Credentials(c) => ControlView::Credentials(c),
            ControlMessage::Other => ControlView::Other,
        }
    }
}

/// What a list of control messages holds, piece by piece.
pub open spec fn control_view(control: Seq<ControlMessage>) -> Seq<ControlView> {
    control.map_values(|c: ControlMessage| c@)
}

/// The descriptors in an optional list of descriptors.
pub open spec fn fds_view(fds: Option<Vec<i32>>) -> Option<Seq<i32>> {
    match fds {
        Some(v) => Some(v@),
        None => None,
    }
}

/// The descriptors that the ancillary data of one receive call yields: those of the last
/// descriptor message that holds any.
pub open spec fn last_rights(control: Seq<ControlView>) -> Option<Seq<i32>>
    decreases control.len(),
{
    if control.len() == 0 {
        None
    } else {
        match control.last() {
            ControlView::Rights(fds) if fds.len() > 0 => Some(fds),
            _ => last_rights(control.drop_last()),
        }
    }
}

/// The credentials that the ancillary data of one receive call yields: those of the last
/// credentials message.
pub open spec fn last_credentials(control: Seq<ControlView>) -> Option<Credentials>
    decreases control.len(),
{
    if control.len() == 0 {
        None
    } else {
        match control.last() {
            ControlView::Credentials(c) => Some(c),
            _ => last_credentials(control.drop_last()),
        }
    }
}

/// The descriptors held so far followed by newly received ones.
pub open spec fn join_fds(held: Option<Seq<i32>>, new: Option<Seq<i32>>) -> Option<Seq<i32>> {
    match (held, new) {
        (None, Some(new)) => Some(new),
        (Some(held), Some(new)) => Some(held + new),
        (held, None) => held,
    }
}

/// Evaluates one successful receive call, which returned `bytes` bytes and the ancillary data
/// `control` while the descriptors `fds` were held from earlier calls.
///
/// A call that returned no bytes means that the peer is gone.  Otherwise the new descriptors
/// join the held ones.
pub fn recv_impl(
    bytes: usize,
    control: Vec<ControlMessage>,
    fds: Option<Vec<i32>>,
) -> (r: Result<(usize, Option<Vec<i32>>, Option<Credentials>), ChannelError>)
    ensures
        bytes == 0 ==> r == Err::<(usize, Option<Vec<i32>>, Option<Credentials>), _>(
            ChannelError::CouldNotRead,
        ),
        bytes != 0 ==> (r matches Ok((n, new_fds, creds)) && {
            &&& n == bytes
            &&& fds_view(new_fds) == join_fds(
                fds_view(fds),
                last_rights(control_view(control@)),
            )
            &&& creds == last_credentials(control_view(control@))
        }),
{
    let mut new_fds: Option<Vec<i32>> = None;
    let mut creds: Option<Credentials> = None;
    let ghost view = control_view(control@);
    for message in iter: control
        invariant
            view == control_view(iter.seq()),
            fds_view(new_fds) == last_rights(view.take(iter.index())),
            creds == last_credentials(view.take(iter.index())),
    {
        proof {
            let seen = view.take(iter.index() + 1);
            assert(seen.drop_last() =~= view.take(iter.index()));
            assert(seen.last() == message@);
        }
        match message {
            ControlMessage::Rights(rights) => {
                if rights.len() > 0 {
                    new_fds = Some(rights);
                }
            },
            ControlMessage::Credentials(c) => {
                creds = Some(c);
            },
            ControlMessage::Other => {},
        }
    }
    assert(view.take(view.len() as int) =~= view);
    if bytes == 0 {
        return Err(ChannelError::CouldNotRead);
    }
    let joined = match (fds, new_fds) {
        (None, Some(new)) => Some(new),
        (Some(old_fds), Some(new)) => {
            let mut all: Vec<i32> = old_fds;
            let mut new: Vec<i32> = new;
            all.append(&mut new);
            Some(all)
        },
        (old_fds, None) => old_fds,
    };
    Ok((bytes, joined, creds))
}

/// The size of the ancillary data buffer that a receive call needs for `fd_count` descriptors
/// and, if wanted, credentials, where one descriptor takes `fd_space` bytes and the credentials
/// take `cred_space`.  `None` if the size is not representable.
pub fn control_space(fd_space: u32, cred_space: u32, fd_count: u32, want_creds: bool) -> (r: Option<
    u32,
>)
    ensures
        ({
            let size = fd_space * fd_count + if want_creds {
                cred_space as int
            } else {
                0
            };
            r == if size <= u32::MAX {
                Some(size as u32)
            } else {
                None
            }
        }),
{
    let cred_size: u32 = if want_creds {
        cred_space
    } else {
        0
    };
    match fd_space.checked_mul(fd_count) {
        Some(fd_size) => fd_size.checked_add(cred_size),
        None => None,
    }
}

/// All the descriptors in a list of ancillary data, one message after the other.
pub open spec fn all_rights(control: Seq<ControlView>) -> Seq<i32>
    decreases control.len(),
{
    if control.len() == 0 {
        seq![]
    } else {
        all_rights(control.drop_last()) + match control.last() {
            ControlView::Rights(fds) => fds,
            _ => seq![],
        }
    }
}

/// All the credentials in a list of ancillary data, one message after the other.
pub open spec fn all_credentials(control: Seq<ControlView>) -> Seq<Credentials>
    decreases control.len(),
{
    if control.len() == 0 {
        seq![]
    } else {
        all_credentials(control.drop_last()) + match control.last() {
            ControlView::Credentials(c) => seq![c],
            _ => seq![],
        }
    }
}

/// The ancillary data that accompanies the bytes of one send call.
pub open spec fn send_control_view(fds: Seq<i32>, creds: Option<Credentials>) -> Seq<ControlView> {
    match creds {
        None => if fds.len() == 0 {
            seq![]
        } else {
            seq![ControlView::Rights(fds)]
        },
        Some(c) => if fds.len() == 0 {
            seq![ControlView::Credentials(c)]
        } else {
            seq![ControlView::Rights(fds), ControlView::Credentials(c)]
        },
    }
}

/// The ancillary data for a send call that hands over `fds` and, if given, `creds`.
///
/// A message without descriptors carries no descriptor list at all.
pub fn send_control(fds: &[i32], creds: Option<Credentials>) -> (r: Vec<ControlMessage>)
    ensures
        control_view(r@) == send_control_view(fds@, creds),
        all_rights(control_view(r@)) == fds@,
        all_credentials(control_view(r@)) == match creds {
            Some(c) => seq![c],
            None => seq![],
        },
{
    let mut control: Vec<ControlMessage> = Vec::new();
    if fds.len() > 0 {
        let mut rights: Vec<i32> = Vec::new();
        rights.extend_from_slice(fds);
        assert(rights@ =~= fds@);
        control.push(ControlMessage::Rights(rights));
    }
    if let Some(c) = creds {
        control.push(ControlMessage::Credentials(c));
    }
    assert(control_view(control@) =~= send_control_view(fds@, creds));
    proof {
        law_send_control_hands_over_each_once(fds@, creds);
    }
    control
}

/// Evaluates one successful send call, which took `sent` bytes.
///
/// A call that took no bytes made no progress and will not make any.
pub fn send_impl(sent: usize) -> (r: Result<usize, ChannelError>)
    ensures
        r == if sent == 0 {
            Err(ChannelError::CouldNotSend)
        } else {
            Ok(sent)
        },
{
    if sent == 0 {
        return Err(ChannelError::CouldNotSend);
    }
    Ok(sent)
}

} // verus!
