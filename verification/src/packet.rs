//! Packet framing: a packet travels as its payload's length, four bytes in
//! network (big-endian) byte order, followed by the payload.

use vstd::prelude::*;
use byteorder::ByteOrder;

verus! {

/// The four bytes of `n`, most significant first.
pub open spec fn be_bytes(n: u32) -> Seq<u8> {
    seq![(n >> 24u32) as u8, ((n >> 16u32) & 0xffu32) as u8, ((n >> 8u32) & 0xffu32) as u8, (n & 0xffu32) as u8]
}

/// The number whose four bytes, most significant first, are `b`.
pub open spec fn be_value(b: Seq<u8>) -> int {
    b[0] * 0x100_0000 + b[1] * 0x1_0000 + b[2] * 0x100 + b[3]
}

/// Writes `n` into `buf` with `byteorder::NetworkEndian::write_u32`.
/// Trusted: the crate copies `n.to_be_bytes()` into the first four bytes of
/// the buffer, here all of it.
#[verifier::external_body]
fn write_u32_be(buf: &mut [u8; 4], n: u32)
    ensures
        final(buf)@ == be_bytes(n),
{
    byteorder::NetworkEndian::write_u32(buf, n)
}

/// Reads a number from `buf` with `byteorder::NetworkEndian::read_u32`.
/// Trusted: the crate returns `u32::from_be_bytes` of the first four bytes
/// of the buffer, here all of it.
#[verifier::external_body]
fn read_u32_be(buf: &[u8; 4]) -> (n: u32)
    ensures
        n == be_value(buf@),
{
    byteorder::NetworkEndian::read_u32(buf)
}

proof fn lemma_be_round_trip(n: u32)
    ensures
        be_value(be_bytes(n)) == n,
        be_bytes(n).len() == 4,
{
    let b0 = n >> 24u32;
    let b1 = (n >> 16u32) & 0xffu32;
    let b2 = (n >> 8u32) & 0xffu32;
    let b3 = n & 0xffu32;
    assert(b0 < 256 && b1 < 256 && b2 < 256 && b3 < 256) by (bit_vector)
        requires b0 == n >> 24u32, b1 == (n >> 16u32) & 0xffu32, b2 == (n >> 8u32) & 0xffu32, b3 == n & 0xffu32;
    assert(b0 * 0x100_0000 + b1 * 0x1_0000 + b2 * 0x100 + b3 == n) by (bit_vector)
        requires b0 == n >> 24u32, b1 == (n >> 16u32) & 0xffu32, b2 == (n >> 8u32) & 0xffu32, b3 == n & 0xffu32;
}

/// The header of a packet whose payload is `len` bytes long.
pub fn packet_header(len: u32) -> (h: [u8; 4])
    ensures
        h@ == be_bytes(len),
{
    let mut size: [u8; 4] = [0; 4];
    write_u32_be(&mut size, len);
    size
}

/// The payload length a packet header announces.
pub fn packet_length(header: &[u8; 4]) -> (len: usize)
    ensures
        len == be_value(header@),
{
    read_u32_be(header) as usize
}

/// The bytes that carry the packet `payload`: its header, then the payload.
pub fn frame_packet(payload: &[u8]) -> (bytes: Vec<u8>)
    requires
        payload@.len() <= u32::MAX,
    ensures
        bytes@ == be_bytes(payload@.len() as u32) + payload@,
{
    let header = packet_header(payload.len() as u32);
    let mut bytes: Vec<u8> = Vec::new();
    let mut i: usize = 0;
    while i < 4
        invariant
            i <= 4,
            bytes@ == header@.take(i as int),
        decreases 4 - i,
    {
        bytes.push(header[i]);
        proof {
            assert(header@.take(i + 1) =~= header@.take(i as int).push(header@[i as int]));
        }
        i = i + 1;
    }
    let mut j: usize = 0;
    while j < payload.len()
        invariant
            j <= payload@.len(),
            bytes@ == header@ + payload@.take(j as int),
        decreases payload@.len() - j,
    {
        bytes.push(payload[j]);
        proof {
            assert(payload@.take(j + 1) =~= payload@.take(j as int).push(payload@[j as int]));
        }
        j = j + 1;
    }
    proof {
        assert(header@.take(4) =~= header@);
        assert(payload@.take(payload@.len() as int) =~= payload@);
    }
    bytes
}

/// The first packet in `bytes`, with the number of bytes it takes: `None`
/// while the header or the payload it announces is not complete.
pub open spec fn unframed(bytes: Seq<u8>) -> Option<(Seq<u8>, int)> {
    if bytes.len() < 4 {
        None
    } else {
        let len = be_value(bytes.take(4));
        if bytes.len() - 4 < len {
            None
        } else {
            Some((bytes.subrange(4, 4 + len), 4 + len))
        }
    }
}

/// The first packet in `bytes` and the number of bytes it takes, once the
/// bytes hold all of it.
pub fn unframe_packet(bytes: &[u8]) -> (r: Option<(Vec<u8>, usize)>)
    ensures
        match r {
            Some((payload, used)) => unframed(bytes@) == Some((payload@, used as int)),
            None => unframed(bytes@) is None,
        },
{
    if bytes.len() < 4 {
        return None;
    }
    let header: [u8; 4] = [bytes[0], bytes[1], bytes[2], bytes[3]];
    proof {
        assert(header@ =~= bytes@.take(4));
    }
    let len = packet_length(&header);
    let n = bytes.len();
    if n - 4 < len {
        return None;
    }
    let used = 4 + len;
    let mut payload: Vec<u8> = Vec::new();
    let mut i: usize = 0;
    while i < len
        invariant
            i <= len,
            used == 4 + len,
            used <= bytes@.len(),
            payload@ == bytes@.subrange(4, 4 + i),
        decreases len - i,
    {
        payload.push(bytes[4 + i]);
        proof {
            assert(bytes@.subrange(4, 4 + i + 1) =~= bytes@.subrange(4, 4 + i).push(bytes@[4 + i]));
        }
        i = i + 1;
    }
    Some((payload, used))
}

/// Law of the framing: the first packet read back from the bytes of a
/// framed payload, whatever follows them, is that payload, and it takes
/// the header and the payload.
pub proof fn lemma_unframe_frame(payload: Seq<u8>, rest: Seq<u8>)
    requires
        payload.len() <= u32::MAX,
    ensures
        unframed(be_bytes(payload.len() as u32) + payload + rest) == Some((payload, 4 + payload.len() as int)),
{
    let n = payload.len() as u32;
    let bytes = be_bytes(n) + payload + rest;
    lemma_be_round_trip(n);
    assert(bytes.take(4) =~= be_bytes(n));
    assert(bytes.subrange(4, 4 + payload.len() as int) =~= payload);
}

} // verus!
