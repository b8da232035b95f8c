//! The fixed-size header that precedes every message on the wire.
use vstd::endian::{endianness, Endian};
use vstd::prelude::*;

verus! {

/// The number of bytes that a header occupies on the wire.
pub const HEADER_LEN: usize = 8;

/// The low 32 bits of `n`, which is all that a 32-bit field has room for.
pub open spec fn low_u32(n: nat) -> u32 {
    (n % 0x1_0000_0000) as u32
}

/// The four bytes that hold `x` when integers are laid out in the order `order`.
pub open spec fn u32_bytes(order: Endian, x: u32) -> Seq<u8> {
    let b0 = (x % 0x100) as u8;
    let b1 = (x / 0x100 % 0x100) as u8;
    let b2 = (x / 0x1_0000 % 0x100) as u8;
    let b3 = (x / 0x100_0000) as u8;
    match order {
        Endian::Little => seq![b0, b1, b2, b3],
        Endian::Big => seq![b3, b2, b1, b0],
    }
}

/// The integer whose bytes, in the order `order`, are the four bytes `s`.
pub open spec fn u32_value(order: Endian, s: Seq<u8>) -> u32 {
    match order {
        Endian::Little => (s[0] + s[1] * 0x100 + s[2] * 0x1_0000 + s[3] * 0x100_0000) as u32,
        Endian::Big => (s[3] + s[2] * 0x100 + s[1] * 0x1_0000 + s[0] * 0x100_0000) as u32,
    }
}

/// The bytes of a header that announces `payload_len` bytes and `fd_count` descriptors.
pub open spec fn header_bytes(payload_len: u32, fd_count: u32) -> Seq<u8> {
    u32_bytes(endianness(), payload_len) + u32_bytes(endianness(), fd_count)
}

/// The payload length that the header bytes `s` announce.
pub open spec fn announced_len(s: Seq<u8>) -> u32 {
    u32_value(endianness(), s.subrange(0, 4))
}

/// The number of descriptors that the header bytes `s` announce.
pub open spec fn announced_fds(s: Seq<u8>) -> u32 {
    u32_value(endianness(), s.subrange(4, 8))
}

/// Reading an integer back from its own bytes gives the integer.
pub proof fn lemma_u32_round_trip(order: Endian, x: u32)
    ensures
        u32_bytes(order, x).len() == 4,
        u32_value(order, u32_bytes(order, x)) == x,
{
}

/// A number below 2^32 splits into the base-256 digits that it is the sum of.
pub(crate) proof fn lemma_digits(a: int, b: int, c: int, d: int)
    requires
        0 <= a < 0x100,
        0 <= b < 0x100,
        0 <= c < 0x100,
        0 <= d < 0x100,
    ensures
        ({
            let x = a + b * 0x100 + c * 0x1_0000 + d * 0x100_0000;
            &&& 0 <= x <= u32::MAX
            &&& x % 0x100 == a
            &&& x / 0x100 % 0x100 == b
            &&& x / 0x1_0000 % 0x100 == c
            &&& x / 0x100_0000 == d
        }),
{
    let x = a + b * 0x100 + c * 0x1_0000 + d * 0x100_0000;
    assert(x / 0x100 == b + c * 0x100 + d * 0x1_0000);
    assert(x / 0x1_0000 == c + d * 0x100);
    assert(x / 0x100_0000 == d);
}

/// Writing the integer that four bytes hold gives the four bytes.
pub proof fn lemma_u32_bytes_round_trip(order: Endian, s: Seq<u8>)
    requires
        s.len() == 4,
    ensures
        u32_bytes(order, u32_value(order, s)) == s,
{
    lemma_digits(s[0] as int, s[1] as int, s[2] as int, s[3] as int);
    lemma_digits(s[3] as int, s[2] as int, s[1] as int, s[0] as int);
    assert(u32_bytes(order, u32_value(order, s)) =~= s);
}

/// A header announces what it was made for: the two numbers can be read back from its bytes.
pub proof fn lemma_header_round_trip(payload_len: u32, fd_count: u32)
    ensures
        header_bytes(payload_len, fd_count).len() == HEADER_LEN,
        announced_len(header_bytes(payload_len, fd_count)) == payload_len,
        announced_fds(header_bytes(payload_len, fd_count)) == fd_count,
{
    let s = header_bytes(payload_len, fd_count);
    lemma_u32_round_trip(endianness(), payload_len);
    lemma_u32_round_trip(endianness(), fd_count);
    assert(s.subrange(0, 4) =~= u32_bytes(endianness(), payload_len));
    assert(s.subrange(4, 8) =~= u32_bytes(endianness(), fd_count));
}

/// Any eight bytes are the header of the two numbers that they announce.
pub proof fn lemma_header_bytes_round_trip(s: Seq<u8>)
    requires
        s.len() == HEADER_LEN,
    ensures
        header_bytes(announced_len(s), announced_fds(s)) == s,
{
    lemma_u32_bytes_round_trip(endianness(), s.subrange(0, 4));
    lemma_u32_bytes_round_trip(endianness(), s.subrange(4, 8));
    assert(header_bytes(announced_len(s), announced_fds(s)) =~= s);
}

/// Calls `u32::to_ne_bytes`: the bytes of the integer in the order of the hardware that the
/// program runs on, which is what [`endianness`] stands for.
#[verifier::external_body]
fn u32_to_ne_bytes(x: u32) -> (r: [u8; 4])
    ensures
        r@ == u32_bytes(endianness(), x),
{
    x.to_ne_bytes()
}

/// Calls `u32::from_ne_bytes`: the integer whose bytes, in the order of the hardware that the
/// program runs on, are the given ones.
#[verifier::external_body]
fn u32_from_ne_bytes(bytes: [u8; 4]) -> (r: u32)
    ensures
        r == u32_value(endianness(), bytes@),
{
    u32::from_ne_bytes(bytes)
}

/// The low 32 bits of a length.
pub(crate) fn truncate_len(n: usize) -> (r: u32)
    ensures
        r == low_u32(n as nat),
{
    (n as u64 % 0x1_0000_0000) as u32
}

/// `<[T; N]>::as_mut_slice`: the returned slice covers the whole array, so it starts with the
/// array's elements, and what is written through it is what the array holds afterwards.
pub assume_specification<Item, const N: usize>[ <[Item; N]>::as_mut_slice ](
    array: &mut [Item; N],
) -> (r: &mut [Item])
    ensures
        r@ == old(array)@,
        final(array)@ == final(r)@,
;

/// The header of a message: how long its payload is and how many descriptors come with it.
///
/// A header is kept in the form in which it crosses the socket, both numbers in the byte order
/// of the machine, so that it can be sent from and received into [`as_buf`](Self::as_buf) and
/// [`as_buf_mut`](Self::as_buf_mut) directly.  Its view is those bytes.
#[derive(Debug)]
pub struct MsgHeader {
    bytes: [u8; 8],
}

impl View for MsgHeader {
    type V = Seq<u8>;

    closed spec fn view(&self) -> Seq<u8> {
        self.bytes@
    }
}

impl Default for MsgHeader {
    /// The header that announces nothing.
    fn default() -> (r: Self)
        ensures
            r@ == header_bytes(0, 0),
            r@ == Seq::new(8, |i: int| 0u8),
    {
        let r = MsgHeader { bytes: [0, 0, 0, 0, 0, 0, 0, 0] };
        assert(r@ =~= Seq::new(8, |i: int| 0u8));
        assert(r@ =~= header_bytes(0, 0));
        r
    }
}

impl MsgHeader {
    /// The header of a message with `payload_len` bytes and `fd_count` descriptors.
    pub fn new(payload_len: u32, fd_count: u32) -> (r: MsgHeader)
        ensures
            r@ == header_bytes(payload_len, fd_count),
    {
        let p = u32_to_ne_bytes(payload_len);
        let f = u32_to_ne_bytes(fd_count);
        let r = MsgHeader { bytes: [p[0], p[1], p[2], p[3], f[0], f[1], f[2], f[3]] };
        assert(r@ =~= p@ + f@);
        r
    }

    /// The length of the payload, as the header announces it.
    pub fn payload_len(&self) -> (r: u32)
        ensures
            r == announced_len(self@),
    {
        let b = [self.bytes[0], self.bytes[1], self.bytes[2], self.bytes[3]];
        assert(b@ =~= self@.subrange(0, 4));
        u32_from_ne_bytes(b)
    }

    /// The number of descriptors, as the header announces it.
    pub fn fd_count(&self) -> (r: u32)
        ensures
            r == announced_fds(self@),
    {
        let b = [self.bytes[4], self.bytes[5], self.bytes[6], self.bytes[7]];
        assert(b@ =~= self@.subrange(4, 8));
        u32_from_ne_bytes(b)
    }

    /// The bytes of the header, as they are sent.
    pub fn as_buf(&self) -> (r: &[u8])
        ensures
            r@ == self@,
            r@ == header_bytes(announced_len(self@), announced_fds(self@)),
            r@.len() == HEADER_LEN,
    {
        proof {
            lemma_header_bytes_round_trip(self@);
        }
        self.bytes.as_slice()
    }

    /// The bytes of the header, to be received into.
    pub fn as_buf_mut(&mut self) -> (r: &mut [u8])
        ensures
            r@ == old(self)@,
            r@.len() == HEADER_LEN,
            final(self)@ == final(r)@,
    {
        self.bytes.as_mut_slice()
    }

    /// A zeroed buffer for the payload that the header announces.
    pub fn make_buffer(&self) -> (r: Vec<u8>)
        ensures
            r@ == Seq::new(announced_len(self@) as nat, |i: int| 0u8),
    {
        let r: Vec<u8> = vec![0u8; self.payload_len() as usize];
        assert(r@ =~= Seq::new(announced_len(self@) as nat, |i: int| 0u8));
        r
    }
}

} // verus!
