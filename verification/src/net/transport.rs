//! Framing for the remote protocol.
//!
//! Messages are framed as `[u64 little-endian length][message bytes]`. A 4 GiB
//! frame cap bounds peak allocation: a corrupt or hostile length prefix is
//! refused before anything is allocated for it.

use vstd::bytes::{
    lemma_auto_spec_u64_to_from_le_bytes, spec_u64_from_le_bytes, spec_u64_to_le_bytes,
    u64_from_le_bytes, u64_to_le_bytes,
};
use vstd::prelude::*;
use vstd::slice::slice_to_vec;

use crate::error::{Error, ProtocolError};

verus! {

/// Maximum accepted frame length (4 GiB).
pub const MAX_FRAME: u64 = 4294967296;

/// Length of a frame header.
pub const FRAME_HEADER: usize = 8;

/// The bytes of a frame carrying `payload`.
pub open spec fn frame_spec(payload: Seq<u8>) -> Seq<u8> {
    spec_u64_to_le_bytes(payload.len() as u64) + payload
}

/// Frames one encoded message. Fails with [`ProtocolError::FrameTooLarge`]
/// when the payload exceeds [`MAX_FRAME`].
pub fn frame(payload: &[u8]) -> (r: Result<Vec<u8>, Error>)
    ensures
        payload@.len() <= MAX_FRAME ==> (r matches Ok(b) && b@ == frame_spec(payload@)),
        payload@.len() > MAX_FRAME ==> r == Err::<Vec<u8>, Error>(
            Error::Protocol(ProtocolError::FrameTooLarge(payload@.len() as u64)),
        ),
{
    let len = payload.len() as u64;
    if len > MAX_FRAME {
        return Err(Error::Protocol(ProtocolError::FrameTooLarge(len)));
    }
    let mut out = u64_to_le_bytes(len);
    let mut body = slice_to_vec(payload);
    out.append(&mut body);
    proof {
        assert(out@ =~= frame_spec(payload@));
    }
    Ok(out)
}

/// Reads a frame header: the payload length, refused with
/// [`ProtocolError::FrameTooLarge`] above [`MAX_FRAME`].
pub fn frame_len(header: &[u8; 8]) -> (r: Result<u64, Error>)
    ensures
        spec_u64_from_le_bytes(header@) <= MAX_FRAME ==> r == Ok::<u64, Error>(
            spec_u64_from_le_bytes(header@),
        ),
        spec_u64_from_le_bytes(header@) > MAX_FRAME ==> r == Err::<u64, Error>(
            Error::Protocol(ProtocolError::FrameTooLarge(spec_u64_from_le_bytes(header@))),
        ),
{
    let len = u64_from_le_bytes(header);
    if len > MAX_FRAME {
        return Err(Error::Protocol(ProtocolError::FrameTooLarge(len)));
    }
    Ok(len)
}

/// A frame's header reads back as the length of the payload it carries.
pub proof fn lemma_frame_header_roundtrip(payload: Seq<u8>)
    requires
        payload.len() <= MAX_FRAME,
    ensures
        frame_spec(payload).take(8) == spec_u64_to_le_bytes(payload.len() as u64),
        spec_u64_from_le_bytes(frame_spec(payload).take(8)) == payload.len(),
        frame_spec(payload).skip(8) == payload,
{
    lemma_auto_spec_u64_to_from_le_bytes();
    let h = spec_u64_to_le_bytes(payload.len() as u64);
    assert(h.len() == 8);
    assert(frame_spec(payload).take(8) =~= h);
    assert(frame_spec(payload).skip(8) =~= payload);
}

} // verus!
