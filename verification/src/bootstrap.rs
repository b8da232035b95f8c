//! A socket in the file system through which two processes find each other.
use vstd::prelude::*;

verus! {

/// The bytes of a text that consists of ASCII characters.
pub open spec fn ascii(s: Seq<char>) -> Seq<u8> {
    s.map_values(|c: char| c as u8)
}

/// The decimal digits of `n`.
pub open spec fn decimal(n: nat) -> Seq<u8>
    decreases n,
{
    let digit = (0x30 + n % 10) as u8;
    if n < 10 {
        seq![digit]
    } else {
        decimal(n / 10).push(digit)
    }
}

/// The name of the socket that is made at the second `secs` with the random number `nonce`.
pub open spec fn socket_name(secs: u64, nonce: u64) -> Seq<u8> {
    ascii(".rust-unix-ipc."@) + decimal(secs as nat) + ascii("-"@) + decimal(nonce as nat) + ascii(
        ".sock"@,
    )
}

/// The path of the entry `name` in the directory `dir`.
pub open spec fn entry_path(dir: Seq<u8>, name: Seq<u8>) -> Seq<u8> {
    if dir.len() == 0 || dir.last() == 0x2f {
        dir + name
    } else {
        dir.push(0x2f) + name
    }
}

/// Calls `rand::RngCore::next_u64` on `rand::thread_rng`.  The number is random, so nothing is
/// claimed of it.
#[verifier::external_body]
fn random_u64() -> u64 {
    rand::RngCore::next_u64(&mut rand::thread_rng())
}

/// Calls `std::time::SystemTime::elapsed` on the beginning of the year 1970 and hands out the
/// time since then, or `None` if the clock shows an earlier time.  It depends on the clock, so
/// nothing is claimed of the result.
#[verifier::external_body]
fn since_epoch() -> Option<std::time::Duration> {
    std::time::SystemTime::UNIX_EPOCH.elapsed().ok()
}

/// Calls `std::time::Duration::as_secs`, which drops the fraction of a second.  How long a
/// duration is cannot be said in a contract, so nothing is claimed of the result.
#[verifier::external_body]
fn whole_seconds(since: std::time::Duration) -> u64 {
    since.as_secs()
}

/// Appends the characters of an ASCII text.
fn push_ascii(out: &mut Vec<u8>, s: &str)
    requires
        vstd::string::is_ascii(s),
    ensures
        final(out)@ == old(out)@ + ascii(s@),
{
    broadcast use vstd::string::is_ascii_spec_bytes;

    let bytes = s.as_bytes();
    assert(bytes@ =~= ascii(s@));
    out.extend_from_slice(bytes);
    assert(out@ =~= old(out)@ + ascii(s@));
}

/// Appends the decimal digits of `n`.
fn push_decimal(out: &mut Vec<u8>, n: u64)
    ensures
        final(out)@ == old(out)@ + decimal(n as nat),
    decreases n,
{
    if n >= 10 {
        push_decimal(out, n / 10);
    }
    out.push(0x30 + (n % 10) as u8);
    assert(out@ =~= old(out)@ + decimal(n as nat));
}

/// The path, in the directory `dir`, of the socket that is made at the second `secs` with the
/// random number `nonce`.
pub fn socket_path(dir: &Vec<u8>, secs: u64, nonce: u64) -> (r: Vec<u8>)
    ensures
        r@ == entry_path(dir@, socket_name(secs, nonce)),
{
    proof {
        reveal_strlit(".rust-unix-ipc.");
        reveal_strlit("-");
        reveal_strlit(".sock");
    }
    let mut path: Vec<u8> = Vec::new();
    path.extend_from_slice(dir.as_slice());
    assert(path@ =~= dir@);
    if path.len() > 0 && path[path.len() - 1] != 0x2f {
        path.push(0x2f);
    }
    push_ascii(&mut path, ".rust-unix-ipc.");
    push_decimal(&mut path, secs);
    push_ascii(&mut path, "-");
    push_decimal(&mut path, nonce);
    push_ascii(&mut path, ".sock");
    assert(path@ =~= entry_path(dir@, socket_name(secs, nonce)));
    path
}

/// A bootstrap helper.
///
/// It stands for a socket that is linked to the file system so that a receiver can connect to
/// it, and lets messages be sent to the connected receiver through a sender of type `S`.
#[derive(Debug)]
pub struct Bootstrapper<S> {
    path: Vec<u8>,
    sender: Option<S>,
}

/// What is needed to send a message through a [`Bootstrapper`].
#[derive(Debug)]
pub enum BootstrapStep<'a, S> {
    /// Accept a connection and report its sender to [`Bootstrapper::accepted`].
    Accept,
    /// Send through this sender.
    Send(&'a S),
}

/// What a [`Bootstrapper`] holds.
pub struct BootstrapView<S> {
    pub path: Seq<u8>,
    pub sender: Option<S>,
}

impl<S> View for Bootstrapper<S> {
    type V = BootstrapView<S>;

    closed spec fn view(&self) -> BootstrapView<S> {
        BootstrapView { path: self.path@, sender: self.sender }
    }
}

/// What an optional [`Bootstrapper`] holds.
pub open spec fn bootstrap_view<S>(b: Option<Bootstrapper<S>>) -> Option<BootstrapView<S>> {
    match b {
        Some(b) => Some(b@),
        None => None,
    }
}

/// The bootstrapper in the directory `dir` that is made with the random number `nonce` when the
/// clock shows the second `secs`: none if it shows a time before 1970, and otherwise one that
/// nothing is connected to, at the path of its socket.
pub open spec fn made<S>(dir: Seq<u8>, secs: Option<u64>, nonce: u64) -> Option<BootstrapView<S>> {
    match secs {
        Some(secs) => Some(
            BootstrapView { path: entry_path(dir, socket_name(secs, nonce)), sender: None },
        ),
        None => None,
    }
}

impl<S> Bootstrapper<S> {
    /// Creates a bootstrapper at a random socket in the directory `dir`; `None` if the clock
    /// shows a time before 1970.
    ///
    /// What the clock and the random number generator say is not known beforehand;
    /// [`at`](Self::at) tells what comes of it.
    pub fn new(dir: &Vec<u8>) -> (r: Option<Bootstrapper<S>>)
        ensures
            exists|secs: Option<u64>, nonce: u64|
                bootstrap_view(r) == #[trigger] made::<S>(dir@, secs, nonce),
    {
        let secs = match since_epoch() {
            Some(since) => Some(whole_seconds(since)),
            None => None,
        };
        let nonce = random_u64();
        Bootstrapper::at(dir, secs, nonce)
    }

    /// Creates a bootstrapper in the directory `dir` with the random number `nonce` at the
    /// second `secs`, which is `None` if the clock shows a time before 1970.
    pub fn at(dir: &Vec<u8>, secs: Option<u64>, nonce: u64) -> (r: Option<Bootstrapper<S>>)
        ensures
            bootstrap_view(r) == made::<S>(dir@, secs, nonce),
    {
        match secs {
            Some(secs) => Some(Bootstrapper::bind(socket_path(dir, secs, nonce))),
            None => None,
        }
    }

    /// Creates a bootstrapper at a specific socket path.
    pub fn bind(path: Vec<u8>) -> (r: Bootstrapper<S>)
        ensures
            r@ == (BootstrapView { path: path@, sender: None::<S> }),
    {
        Bootstrapper { path, sender: None }
    }

    /// Returns the path of the socket.
    pub fn path(&self) -> (r: &Vec<u8>)
        ensures
            r@ == self@.path,
    {
        &self.path
    }

    /// Sends a raw value into the bootstrapper.
    ///
    /// This can be called multiple times to send more than one value into the inner socket.  The
    /// first call has to wait for a receiver to connect.
    pub fn send_raw(&self) -> (r: BootstrapStep<S>)
        ensures
            match self@.sender {
                None => r is Accept,
                Some(s) => r == BootstrapStep::Send(&s),
            },
    {
        match &self.sender {
            None => BootstrapStep::Accept,
            Some(s) => BootstrapStep::Send(s),
        }
    }

    /// Takes note of the sender for a connection that was accepted, and returns the one that it
    /// replaces.
    pub fn accepted(&mut self, sender: S) -> (r: Option<S>)
        ensures
            final(self)@ == (BootstrapView { path: old(self)@.path, sender: Some(sender) }),
            r == old(self)@.sender,
    {
        let replaced = self.sender.take();
        self.sender = Some(sender);
        replaced
    }
}

} // verus!
