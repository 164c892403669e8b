//! Length-prefixed framing shared by all custom protocols.
//!
//! Every packet travels as a 4-byte big-endian length followed by that many
//! payload bytes. A declared length above 16 MiB is a protocol error and the
//! substream carrying it is torn down by the handler.

use vstd::prelude::*;
use crate::MAX_FRAME_LEN;

verus! {

/// Why a buffer failed to decode as a frame.
#[derive(Debug, Clone, Copy, PartialEq, Eq, Structural)]
pub enum FrameError {
    /// The buffer ends before the declared frame does.
    Incomplete,
    /// The declared payload length exceeds 16 MiB.
    TooLarge,
}

/// The four big-endian bytes of a 32-bit length.
pub open spec fn be32(n: u32) -> Seq<u8> {
    seq![(n >> 24) as u8, (n >> 16) as u8, (n >> 8) as u8, n as u8]
}

/// The 32-bit value read from four big-endian bytes.
pub open spec fn be32_val(b0: u8, b1: u8, b2: u8, b3: u8) -> u32 {
    ((b0 as u32) << 24) | ((b1 as u32) << 16) | ((b2 as u32) << 8) | (b3 as u32)
}

/// A frame on the wire: the length prefix followed by the payload.
pub open spec fn spec_encode_frame(p: Seq<u8>) -> Seq<u8> {
    be32(p.len() as u32) + p
}

/// What a buffer holds when read as one frame: the payload and the number
/// of bytes the frame occupies, or the error.
pub open spec fn spec_decode_frame(b: Seq<u8>) -> Result<(Seq<u8>, int), FrameError> {
    if b.len() < 4 {
        Err(FrameError::Incomplete)
    } else {
        let n = be32_val(b[0], b[1], b[2], b[3]) as int;
        if n > MAX_FRAME_LEN {
            Err(FrameError::TooLarge)
        } else if b.len() < 4 + n {
            Err(FrameError::Incomplete)
        } else {
            Ok((b.subrange(4, 4 + n), 4 + n))
        }
    }
}

/// Reading four big-endian bytes gives back the encoded value.
pub proof fn lemma_be32_round_trip(n: u32)
    ensures
        be32_val((n >> 24) as u8, (n >> 16) as u8, (n >> 8) as u8, n as u8) == n,
{
    assert((((n >> 24) as u8) as u32) << 24 | (((n >> 16) as u8) as u32) << 16 | (((n >> 8) as u8)
        as u32) << 8 | ((n as u8) as u32) == n) by (bit_vector);
}

/// Decoding an encoded frame, with anything after it, yields the original
/// payload and consumes exactly the frame.
pub proof fn lemma_frame_round_trip(p: Seq<u8>, rest: Seq<u8>)
    requires
        p.len() <= MAX_FRAME_LEN,
    ensures
        spec_decode_frame(spec_encode_frame(p) + rest) == Ok::<(Seq<u8>, int), FrameError>(
            (p, 4 + p.len() as int),
        ),
{
    let n = p.len() as u32;
    let b = spec_encode_frame(p) + rest;
    lemma_be32_round_trip(n);
    assert(b[0] == (n >> 24) as u8 && b[1] == (n >> 16) as u8 && b[2] == (n >> 8) as u8 && b[3]
        == n as u8);
    assert(be32_val(b[0], b[1], b[2], b[3]) == n);
    assert(b.subrange(4, 4 + n as int) =~= p);
}

/// Frame a payload for the wire.
pub fn encode_frame(payload: &Vec<u8>) -> (r: Vec<u8>)
    requires
        payload@.len() <= MAX_FRAME_LEN,
    ensures
        r@ == spec_encode_frame(payload@),
{
    let n: u32 = payload.len() as u32;
    let mut out: Vec<u8> = Vec::new();
    out.push((n >> 24) as u8);
    out.push((n >> 16) as u8);
    out.push((n >> 8) as u8);
    out.push(n as u8);
    let m = payload.len();
    let mut i: usize = 0;
    while i < m
        invariant
            m == payload@.len(),
            0 <= i <= m,
            out@ == be32(m as u32) + payload@.subrange(0, i as int),
        decreases m - i,
    {
        out.push(payload[i]);
        proof {
            assert(out@ =~= be32(m as u32) + payload@.subrange(0, i + 1));
        }
        i = i + 1;
    }
    proof {
        assert(out@ =~= spec_encode_frame(payload@));
    }
    out
}

/// Read one frame from the front of a buffer. Returns the payload and how
/// many bytes of the buffer the frame occupied, or says why it cannot.
pub fn decode_frame(buf: &Vec<u8>) -> (r: Result<(Vec<u8>, usize), FrameError>)
    ensures
        match r {
            Ok((payload, used)) => {
                &&& spec_decode_frame(buf@) is Ok
                &&& payload@ == spec_decode_frame(buf@)->Ok_0.0
                &&& used as int == spec_decode_frame(buf@)->Ok_0.1
            },
            Err(e) => spec_decode_frame(buf@) == Err::<(Seq<u8>, int), FrameError>(e),
        },
{
    if buf.len() < 4 {
        return Err(FrameError::Incomplete);
    }
    let n: u32 = be32_read(buf[0], buf[1], buf[2], buf[3]);
    if n > MAX_FRAME_LEN {
        return Err(FrameError::TooLarge);
    }
    let n_us: usize = n as usize;
    if buf.len() - 4 < n_us {
        return Err(FrameError::Incomplete);
    }
    let mut payload: Vec<u8> = Vec::new();
    let mut i: usize = 0;
    while i < n_us
        invariant
            4 + n_us <= buf@.len(),
            buf@.len() <= usize::MAX,
            0 <= i <= n_us,
            payload@ == buf@.subrange(4, 4 + i as int),
        decreases n_us - i,
    {
        payload.push(buf[4 + i]);
        proof {
            assert(payload@ =~= buf@.subrange(4, 4 + (i + 1)));
        }
        i = i + 1;
    }
    Ok((payload, 4 + n_us))
}

/// Combine four big-endian bytes into their 32-bit value.
fn be32_read(b0: u8, b1: u8, b2: u8, b3: u8) -> (r: u32)
    ensures
        r == be32_val(b0, b1, b2, b3),
{
    ((b0 as u32) << 24) | ((b1 as u32) << 16) | ((b2 as u32) << 8) | (b3 as u32)
}

} // verus!
