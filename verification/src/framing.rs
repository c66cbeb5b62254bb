//! Length-prefixed framing of messages on a stream: each frame is the
//! payload's length as a big-endian `u32`, then the payload.

use vstd::prelude::*;

verus! {

/// The largest payload a receiver accepts, in bytes.
pub const MAX_MESSAGE_LEN: u32 = 1_048_576;

/// The length of a frame header.
pub const HEADER_LEN: usize = 4;

/// The big-endian bytes of `n`.
pub open spec fn be_bytes(n: u32) -> Seq<u8> {
    seq![(n / 0x1000000) as u8, ((n / 0x10000) % 0x100) as u8, ((n / 0x100) % 0x100) as u8, (n % 0x100) as u8]
}

/// The value of four big-endian bytes.
pub open spec fn be_value(b: Seq<u8>) -> int
    recommends
        b.len() >= 4,
{
    b[0] * 0x1000000 + b[1] * 0x10000 + b[2] * 0x100 + b[3]
}

/// The frame that carries `payload`; the length field holds the payload's
/// length cast to `u32` (modulo 2^32).
pub open spec fn frame_of(payload: Seq<u8>) -> Seq<u8> {
    be_bytes(payload.len() as u32) + payload
}

/// What a receiver makes of the bytes at the start of a stream.
#[derive(Debug, PartialEq, Eq)]
pub enum FrameDecode {
    /// More bytes are needed: the frame is `needed` bytes long in all (the
    /// header alone while it is incomplete).
    Incomplete { needed: usize },
    /// The header announces a payload over `MAX_MESSAGE_LEN`.
    TooLarge { len: u32 },
    /// A whole frame: its payload and the number of bytes it took.
    Complete { payload: Vec<u8>, consumed: usize },
}

/// The frame carrying `payload`.
pub fn encode_frame(payload: &[u8]) -> (frame: Vec<u8>)
    ensures
        frame@ == frame_of(payload@),
{
    let n = payload.len() as u32;
    let mut frame: Vec<u8> = Vec::new();
    frame.push((n / 0x1000000) as u8);
    frame.push(((n / 0x10000) % 0x100) as u8);
    frame.push(((n / 0x100) % 0x100) as u8);
    frame.push((n % 0x100) as u8);
    let mut i: usize = 0;
    while i < payload.len()
        invariant
            i <= payload@.len(),
            frame@ == be_bytes(n) + payload@.take(i as int),
        decreases payload.len() - i,
    {
        frame.push(payload[i]);
        assert(frame@ =~= be_bytes(n) + payload@.take(i + 1));
        i += 1;
    }
    assert(payload@.take(payload@.len() as int) =~= payload@);
    frame
}

/// The payload length announced by a header.
pub fn header_value(b0: u8, b1: u8, b2: u8, b3: u8) -> (n: u32)
    ensures
        n == be_value(seq![b0, b1, b2, b3]),
{
    (b0 as u32) * 0x1000000 + (b1 as u32) * 0x10000 + (b2 as u32) * 0x100 + (b3 as u32)
}

/// Decode the frame at the start of `buf`: the payload and the bytes taken
/// once the whole frame is there; how many bytes are needed before that;
/// and a refusal of any payload longer than `MAX_MESSAGE_LEN`.
pub fn decode_frame(buf: &[u8]) -> (r: FrameDecode)
    ensures
        buf@.len() < 4 ==> r == (FrameDecode::Incomplete { needed: HEADER_LEN }),
        buf@.len() >= 4 && be_value(buf@) > MAX_MESSAGE_LEN ==> r == (FrameDecode::TooLarge {
            len: be_value(buf@) as u32,
        }),
        buf@.len() >= 4 && be_value(buf@) <= MAX_MESSAGE_LEN && buf@.len() < 4 + be_value(buf@)
            ==> r == (FrameDecode::Incomplete { needed: (4 + be_value(buf@)) as usize }),
        buf@.len() >= 4 && be_value(buf@) <= MAX_MESSAGE_LEN && buf@.len() >= 4 + be_value(buf@)
            ==> (r matches FrameDecode::Complete { payload, consumed } && consumed == 4 + be_value(buf@)
            && payload@ == buf@.subrange(4, 4 + be_value(buf@))),
{
    if buf.len() < HEADER_LEN {
        return FrameDecode::Incomplete { needed: HEADER_LEN };
    }
    let len = header_value(buf[0], buf[1], buf[2], buf[3]);
    if len > MAX_MESSAGE_LEN {
        return FrameDecode::TooLarge { len };
    }
    let total = HEADER_LEN + len as usize;
    if buf.len() < total {
        return FrameDecode::Incomplete { needed: total };
    }
    let mut payload: Vec<u8> = Vec::new();
    let mut i: usize = HEADER_LEN;
    while i < total
        invariant
            HEADER_LEN <= i <= total <= buf@.len(),
            payload@ == buf@.subrange(4, i as int),
        decreases total - i,
    {
        payload.push(buf[i]);
        assert(payload@ =~= buf@.subrange(4, i + 1));
        i += 1;
    }
    FrameDecode::Complete { payload, consumed: total }
}

/// The header of `frame_of(p)` announces `p`'s length, for any payload that
/// fits in a `u32` length.
pub proof fn lemma_header_of_frame(p: Seq<u8>)
    requires
        p.len() <= u32::MAX,
    ensures
        frame_of(p).len() == 4 + p.len(),
        be_value(frame_of(p)) == p.len(),
        frame_of(p).subrange(4, 4 + p.len() as int) == p,
{
    let n = p.len() as u32;
    let f = frame_of(p);
    assert(f[0] == (n / 0x1000000) as u8);
    assert(f[1] == ((n / 0x10000) % 0x100) as u8);
    assert(f[2] == ((n / 0x100) % 0x100) as u8);
    assert(f[3] == (n % 0x100) as u8);
    assert((n / 0x1000000) as u8 as int * 0x1000000 + ((n / 0x10000) % 0x100) as u8 as int * 0x10000
        + ((n / 0x100) % 0x100) as u8 as int * 0x100 + (n % 0x100) as u8 as int == n) by (bit_vector);
    assert(f.subrange(4, 4 + p.len() as int) =~= p);
}

/// Decoding what encoding produced gives the payload back, whatever follows
/// the frame on the stream, for any payload of at most `MAX_MESSAGE_LEN`
/// bytes; a longer payload is refused by its length.
pub proof fn law_frame_round_trip(p: Seq<u8>, rest: Seq<u8>)
    requires
        p.len() <= u32::MAX,
    ensures
        p.len() <= MAX_MESSAGE_LEN ==> {
            let buf = frame_of(p) + rest;
            &&& buf.len() >= 4
            &&& be_value(buf) <= MAX_MESSAGE_LEN
            &&& buf.len() >= 4 + be_value(buf)
            &&& buf.subrange(4, 4 + be_value(buf)) == p
            &&& 4 + be_value(buf) == frame_of(p).len()
        },
        p.len() > MAX_MESSAGE_LEN ==> be_value(frame_of(p) + rest) > MAX_MESSAGE_LEN,
{
    lemma_header_of_frame(p);
    let buf = frame_of(p) + rest;
    assert(buf[0] == frame_of(p)[0]);
    assert(buf[1] == frame_of(p)[1]);
    assert(buf[2] == frame_of(p)[2]);
    assert(buf[3] == frame_of(p)[3]);
    assert(buf.subrange(4, 4 + p.len() as int) =~= frame_of(p).subrange(4, 4 + p.len() as int));
}

} // verus!
