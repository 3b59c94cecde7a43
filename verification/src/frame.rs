//! Frames on a byte stream: a length of 32 bits and that many bytes.

use crate::bytes::{
    copy_of, le32, lemma_append_associates, lemma_parse_u32, parse_u32, put_raw, put_u32, rest_of,
    take_u32,
};
use crate::text::{copy_text, decimal, push_decimal};
use vstd::prelude::*;
use vstd::slice::slice_subrange;
use vstd::string::*;

verus! {

/// A longer frame is refused before anything is read of it, so that a length
/// alone cannot make a reader allocate without bound.
pub const MAX_FRAME_LEN: u32 = 67_108_864;

/// Why there is no frame.
#[derive(Debug, Clone, Copy, PartialEq, Eq, Structural)]
pub enum FrameError {
    /// The payload is longer than a length of 32 bits can say.
    PayloadTooLarge,
    /// The length exceeds [`MAX_FRAME_LEN`].
    TooLong { len: u32 },
    /// The stream ends within the frame.
    UnexpectedEnd,
}

impl FrameError {
    /// What went wrong, for a person.
    pub open spec fn text(self) -> Seq<char> {
        match self {
            FrameError::PayloadTooLarge => "payload too large for a u32 frame length"@,
            FrameError::TooLong { len } => "frame length "@ + decimal(len as nat)
                + " exceeds MAX_FRAME_LEN ("@ + decimal(MAX_FRAME_LEN as nat) + ")"@,
            FrameError::UnexpectedEnd => "failed to fill whole buffer"@,
        }
    }

    /// What went wrong, for a person.
    pub fn message(&self) -> (text: String)
        ensures
            text@ == self.text(),
    {
        match self {
            FrameError::PayloadTooLarge => copy_text("payload too large for a u32 frame length"),
            FrameError::TooLong { len } => {
                let mut text = copy_text("frame length ");
                push_decimal(&mut text, *len as u128);
                text.append(" exceeds MAX_FRAME_LEN (");
                push_decimal(&mut text, MAX_FRAME_LEN as u128);
                text.append(")");
                text
            },
            FrameError::UnexpectedEnd => copy_text("failed to fill whole buffer"),
        }
    }
}

/// The bytes of a frame.
pub open spec fn frame_bytes(payload: Seq<u8>) -> Seq<u8> {
    le32(payload.len() as u32) + payload
}

/// The payload at the front of a stream, and the rest.
pub open spec fn parse_frame(s: Seq<u8>) -> Result<(Seq<u8>, Seq<u8>), FrameError> {
    match parse_u32(s) {
        Err(_) => Err(FrameError::UnexpectedEnd),
        Ok((len, rest)) => if len > MAX_FRAME_LEN {
            Err(FrameError::TooLong { len })
        } else if rest.len() < len {
            Err(FrameError::UnexpectedEnd)
        } else {
            Ok((rest.take(len as int), rest.skip(len as int)))
        },
    }
}

/// What a reader of a frame returned, viewed.
pub open spec fn frame_at(r: Result<(Vec<u8>, &[u8]), FrameError>) -> Result<
    (Seq<u8>, Seq<u8>),
    FrameError,
> {
    match r {
        Ok((payload, rest)) => Ok((payload@, rest@)),
        Err(e) => Err(e),
    }
}

/// Appends a frame with the given payload; nothing, where its length does not
/// fit.
pub fn write_frame(w: &mut Vec<u8>, payload: &[u8]) -> (r: Result<(), FrameError>)
    ensures
        payload@.len() <= u32::MAX ==> r == Ok::<(), FrameError>(()) && final(w)@ == old(w)@
            + frame_bytes(payload@),
        payload@.len() > u32::MAX ==> r == Err::<(), FrameError>(FrameError::PayloadTooLarge)
            && final(w)@ == old(w)@,
{
    broadcast use lemma_append_associates;

    if payload.len() as u64 > u32::MAX as u64 {
        return Err(FrameError::PayloadTooLarge);
    }
    put_u32(w, payload.len() as u32);
    put_raw(w, payload);
    Ok(())
}

/// The length of a frame, from the four bytes before it.
pub fn frame_len(header: [u8; 4]) -> (r: Result<u32, FrameError>)
    ensures
        (match parse_u32(header@) {
            Ok((len, _)) => if len > MAX_FRAME_LEN {
                r == Err::<u32, FrameError>(FrameError::TooLong { len })
            } else {
                r == Ok::<u32, FrameError>(len)
            },
            Err(_) => false,
        }),
{
    match take_u32(vstd::array::array_as_slice(&header)) {
        Err(_) => Err(FrameError::UnexpectedEnd),
        Ok((len, _)) => if len > MAX_FRAME_LEN {
            Err(FrameError::TooLong { len })
        } else {
            Ok(len)
        },
    }
}

/// Reads one frame off the front of what a stream has delivered.
pub fn read_frame(r: &[u8]) -> (res: Result<(Vec<u8>, &[u8]), FrameError>)
    ensures
        frame_at(res) == parse_frame(r@),
{
    match take_u32(r) {
        Err(_) => Err(FrameError::UnexpectedEnd),
        Ok((len, rest)) => {
            if len > MAX_FRAME_LEN {
                return Err(FrameError::TooLong { len });
            }
            if (rest.len() as u64) < len as u64 {
                return Err(FrameError::UnexpectedEnd);
            }
            let n: usize = len as usize;
            let payload = slice_subrange(rest, 0, n);
            assert(payload@ =~= rest@.take(n as int));
            Ok((copy_of(payload), rest_of(rest, n)))
        },
    }
}

/// Reading gives back the payload that was written, and leaves what follows.
pub proof fn law_frame_round_trip(payload: Seq<u8>, rest: Seq<u8>)
    requires
        payload.len() <= MAX_FRAME_LEN,
    ensures
        parse_frame(frame_bytes(payload) + rest) == Ok::<(Seq<u8>, Seq<u8>), FrameError>(
            (payload, rest),
        ),
{
    broadcast use {lemma_append_associates, crate::bytes::lemma_split_joined};

    lemma_parse_u32(payload.len() as u32, payload + rest);
}

} // verus!
