use vstd::prelude::*;

use crate::error::{BngError, ErrView};

verus! {

/// The 4-byte big-endian encoding of a 32-bit length.
pub open spec fn u32_be_bytes(n: u32) -> Seq<u8> {
    seq![
        (n >> 24u32) as u8,
        ((n >> 16u32) & 0xffu32) as u8,
        ((n >> 8u32) & 0xffu32) as u8,
        (n & 0xffu32) as u8,
    ]
}

/// The 32-bit value read back from 4 big-endian bytes.
pub open spec fn spec_u32_from_be_bytes(b0: u8, b1: u8, b2: u8, b3: u8) -> u32 {
    ((b0 as u32) << 24u32) | ((b1 as u32) << 16u32) | ((b2 as u32) << 8u32) | (b3 as u32)
}

/// Reading four big-endian bytes undoes writing them.
pub broadcast proof fn lemma_u32_be_roundtrip(n: u32)
    ensures
        #[trigger] spec_u32_from_be_bytes(
            (n >> 24u32) as u8,
            ((n >> 16u32) & 0xffu32) as u8,
            ((n >> 8u32) & 0xffu32) as u8,
            (n & 0xffu32) as u8,
        ) == n,
{
    assert(((((n >> 24u32) as u8) as u32) << 24u32) | (((((n >> 16u32) & 0xffu32) as u8) as u32)
        << 16u32) | (((((n >> 8u32) & 0xffu32) as u8) as u32) << 8u32) | (((n & 0xffu32) as u8)
        as u32) == n) by (bit_vector);
}

/// A payload framed for the wire: 4-byte big-endian length prefix, then the
/// payload bytes themselves. The prefix always equals the exact number of
/// payload bytes that follow; a frame may carry zero bytes.
pub open spec fn frame_of(payload: Seq<u8>) -> Seq<u8>
    recommends
        payload.len() <= u32::MAX,
{
    u32_be_bytes(payload.len() as u32) + payload
}

/// Whether a complete frame starts at `pos` in `data`.
pub open spec fn frame_ok(data: Seq<u8>, pos: int) -> bool {
    &&& pos + 4 <= data.len()
    &&& pos + 4 + spec_frame_len(data, pos) <= data.len()
}

/// The length prefix of the frame starting at `pos`, as an integer.
pub open spec fn spec_frame_len(data: Seq<u8>, pos: int) -> int
    recommends
        pos + 4 <= data.len(),
{
    spec_u32_from_be_bytes(data[pos], data[pos + 1], data[pos + 2], data[pos + 3]) as int
}

/// The payload of the frame starting at `pos`.
pub open spec fn frame_payload(data: Seq<u8>, pos: int) -> Seq<u8>
    recommends
        frame_ok(data, pos),
{
    data.subrange(pos + 4, pos + 4 + spec_frame_len(data, pos))
}

/// The position just past the frame starting at `pos`.
pub open spec fn frame_end(data: Seq<u8>, pos: int) -> int
    recommends
        frame_ok(data, pos),
{
    pos + 4 + spec_frame_len(data, pos)
}

/// Frame a payload for the wire.
///
/// The result is the 4-byte big-endian length followed by the payload bytes;
/// this layer enforces no size limit beyond what the 32-bit prefix can
/// express.
pub fn write_frame(payload: &Vec<u8>) -> (r: Vec<u8>)
    requires
        payload@.len() <= u32::MAX,
    ensures
        r@ == frame_of(payload@),
        r@.len() == payload@.len() + 4,
{
    let n = payload.len() as u32;
    let mut out: Vec<u8> = Vec::with_capacity(payload.len());
    out.push((n >> 24u32) as u8);
    out.push(((n >> 16u32) & 0xffu32) as u8);
    out.push(((n >> 8u32) & 0xffu32) as u8);
    out.push((n & 0xffu32) as u8);
    out.extend_from_slice(payload.as_slice());
    proof {
        assert(out@ =~= frame_of(payload@));
    }
    out
}

/// Read one length-prefixed frame out of the received bytes, starting at
/// `pos`.
///
/// Returns the payload together with the position just past the frame. If the
/// received bytes end before the 4 header bytes are complete, or before the
/// announced number of payload bytes has arrived, the stream closed mid-frame
/// and the result is a disconnection condition, never a generic I/O one.
pub fn read_frame(data: &Vec<u8>, pos: usize) -> (r: Result<(Vec<u8>, usize), BngError>)
    requires
        pos <= data@.len(),
    ensures
        r is Ok <==> frame_ok(data@, pos as int),
        r is Ok ==> ({
            &&& r->Ok_0.0@ == frame_payload(data@, pos as int)
            &&& r->Ok_0.1 as int == frame_end(data@, pos as int)
            &&& pos < r->Ok_0.1 <= data@.len()
        }),
        r is Err ==> r->Err_0 is Disconnected,
        pos + 4 > data@.len() ==> (r is Err && r->Err_0@ == ErrView::Disconnected(
            "Connection closed while reading frame header"@,
        )),
        (pos + 4 <= data@.len() && !frame_ok(data@, pos as int)) ==> (r is Err && r->Err_0@
            == ErrView::Disconnected("Connection closed while reading frame body"@)),
{
    if data.len() - pos < 4 {
        return Err(BngError::Disconnected(
            "Connection closed while reading frame header".to_owned(),
        ));
    }
    let n = u32_from_be_bytes(data[pos], data[pos + 1], data[pos + 2], data[pos + 3]);
    let len = n as usize;
    if data.len() - (pos + 4) < len {
        return Err(BngError::Disconnected(
            "Connection closed while reading frame body".to_owned(),
        ));
    }
    let body_start = pos + 4;
    let mut payload: Vec<u8> = Vec::with_capacity(len);
    let mut i: usize = 0;
    while i < len
        invariant
            i <= len,
            data@.len() <= usize::MAX,
            body_start + len <= data@.len(),
            body_start == pos + 4,
            payload@ =~= data@.subrange(body_start as int, body_start + i),
        decreases len - i,
    {
        payload.push(data[body_start + i]);
        i = i + 1;
    }
    proof {
        assert(payload@ =~= frame_payload(data@, pos as int));
    }
    Ok((payload, body_start + len))
}

/// Exec twin of [`spec_u32_from_be_bytes`].
#[verifier::when_used_as_spec(spec_u32_from_be_bytes)]
pub fn u32_from_be_bytes(b0: u8, b1: u8, b2: u8, b3: u8) -> (r: u32)
    ensures
        r == spec_u32_from_be_bytes(b0, b1, b2, b3),
{
    ((b0 as u32) << 24u32) | ((b1 as u32) << 16u32) | ((b2 as u32) << 8u32) | (b3 as u32)
}

/// The frame round trip: what `write_frame` produces, `read_frame` undoes —
/// the payload comes back exactly, the cursor lands just past the frame, and
/// the first four written bytes are the big-endian encoding of the payload's
/// length.
pub proof fn lemma_frame_roundtrip(payload: Seq<u8>, pos: int, data: Seq<u8>)
    requires
        payload.len() <= u32::MAX,
        0 <= pos,
        data.len() >= pos + 4 + payload.len(),
        data.subrange(pos, pos + 4 + payload.len()) == frame_of(payload),
    ensures
        frame_ok(data, pos),
        frame_payload(data, pos) == payload,
        frame_end(data, pos) == pos + 4 + payload.len(),
        data.subrange(pos, pos + 4) == u32_be_bytes(payload.len() as u32),
{
    broadcast use lemma_u32_be_roundtrip;

    let n = payload.len() as u32;
    let f = frame_of(payload);
    let sub = data.subrange(pos, pos + 4 + payload.len());
    assert(u32_be_bytes(n).len() == 4);
    assert(f.len() == 4 + payload.len());
    assert forall|i: int| 0 <= i < f.len() implies data[pos + i] == f[i] by {
        assert(sub[i] == data[pos + i]);
    }
    assert(f[0] == u32_be_bytes(n)[0]);
    assert(f[1] == u32_be_bytes(n)[1]);
    assert(f[2] == u32_be_bytes(n)[2]);
    assert(f[3] == u32_be_bytes(n)[3]);
    assert(spec_u32_from_be_bytes(f[0], f[1], f[2], f[3]) == n);
    assert(spec_frame_len(data, pos) == n as int);
    assert(frame_payload(data, pos) =~= payload) by {
        assert forall|i: int| 0 <= i < payload.len() implies frame_payload(data, pos)[i]
            == payload[i] by {
            assert(data[pos + 4 + i] == f[4 + i]);
            assert(f[4 + i] == payload[i]);
        }
    }
    assert(data.subrange(pos, pos + 4) =~= u32_be_bytes(n));
}

} // verus!
