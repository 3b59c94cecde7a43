//! Frames between nodes: many calls share one connection, so each message says
//! which call it belongs to.

use crate::authority::ThreadId;
use crate::bytes::{
    copy_of, le32, le64, lemma_append_associates, lemma_le_len, lemma_parse_u32, lemma_parse_u64,
    lemma_parse_u8, lemma_read_integers, lemma_read_u8, parse_u32, parse_u64, parse_u8, put_raw,
    put_u32, put_u64, put_u8, take_u32, take_u64, take_u8,
};
use crate::wire_error::{Header, Tag, WireError};
use vstd::prelude::*;

verus! {

/// Whether a frame carries a request of the peer or the answer to one of ours.
#[derive(Debug, Clone, Copy, PartialEq, Eq, Structural)]
pub enum EnvelopeKind {
    Request,
    Response,
}

/// An encoded request or response with the id of the call it belongs to and,
/// for a request, the thread that is to handle it.
#[derive(Debug, Clone, PartialEq, Eq)]
pub struct Envelope {
    pub correlation_id: u64,
    pub kind: EnvelopeKind,
    pub target_thread: ThreadId,
    pub body: Vec<u8>,
}

/// The mathematical content of an [`Envelope`].
pub struct EnvelopeModel {
    pub correlation_id: u64,
    pub kind: EnvelopeKind,
    pub target_thread: ThreadId,
    pub body: Seq<u8>,
}

impl View for Envelope {
    type V = EnvelopeModel;

    open spec fn view(&self) -> EnvelopeModel {
        EnvelopeModel {
            correlation_id: self.correlation_id,
            kind: self.kind,
            target_thread: self.target_thread,
            body: self.body@,
        }
    }
}

pub const ENVELOPE_KIND_REQUEST: u8 = 0;

pub const ENVELOPE_KIND_RESPONSE: u8 = 1;

/// The size of what stands before the body.
pub const ENVELOPE_HEADER_LEN: usize = 13;

pub open spec fn kind_byte(kind: EnvelopeKind) -> u8 {
    match kind {
        EnvelopeKind::Request => ENVELOPE_KIND_REQUEST,
        EnvelopeKind::Response => ENVELOPE_KIND_RESPONSE,
    }
}

/// The bytes of an envelope.
pub open spec fn envelope_bytes(m: EnvelopeModel) -> Seq<u8> {
    le64(m.correlation_id) + (seq![kind_byte(m.kind)] + (le32(m.target_thread.0) + m.body))
}

/// The envelope that bytes spell.
pub open spec fn parse_envelope(s: Seq<u8>) -> Result<EnvelopeModel, WireError> {
    if s.len() < ENVELOPE_HEADER_LEN {
        Err(WireError::TooShort { what: Header::Envelope, found: s.len() as u64 })
    } else {
        match parse_u64(s) {
            Err(e) => Err(e),
            Ok((correlation_id, s1)) => match parse_u8(s1) {
                Err(e) => Err(e),
                Ok((tag, s2)) => if tag > ENVELOPE_KIND_RESPONSE {
                    Err(WireError::UnknownTag { what: Tag::Envelope, tag })
                } else {
                    match parse_u32(s2) {
                        Err(e) => Err(e),
                        Ok((thread, body)) => Ok(
                            EnvelopeModel {
                                correlation_id,
                                kind: if tag == ENVELOPE_KIND_REQUEST {
                                    EnvelopeKind::Request
                                } else {
                                    EnvelopeKind::Response
                                },
                                target_thread: ThreadId(thread),
                                body,
                            },
                        ),
                    }
                },
            },
        }
    }
}

/// A decoded envelope, viewed.
pub open spec fn envelope_view(r: Result<Envelope, WireError>) -> Result<EnvelopeModel, WireError> {
    match r {
        Ok(env) => Ok(env@),
        Err(e) => Err(e),
    }
}

pub fn encode_envelope(env: &Envelope) -> (buf: Vec<u8>)
    ensures
        buf@ == envelope_bytes(env@),
{
    broadcast use lemma_append_associates;

    let mut buf: Vec<u8> = Vec::new();
    put_u64(&mut buf, env.correlation_id);
    assert(buf@ =~= le64(env.correlation_id));
    put_u8(
        &mut buf,
        match env.kind {
            EnvelopeKind::Request => ENVELOPE_KIND_REQUEST,
            EnvelopeKind::Response => ENVELOPE_KIND_RESPONSE,
        },
    );
    put_u32(&mut buf, env.target_thread.0);
    put_raw(&mut buf, env.body.as_slice());
    buf
}

pub fn decode_envelope(buf: &[u8]) -> (r: Result<Envelope, WireError>)
    ensures
        envelope_view(r) == parse_envelope(buf@),
        r is Ok <==> buf@.len() >= ENVELOPE_HEADER_LEN && buf@[8] <= ENVELOPE_KIND_RESPONSE,
{
    if buf.len() < ENVELOPE_HEADER_LEN {
        return Err(WireError::TooShort { what: Header::Envelope, found: buf.len() as u64 });
    }
    let (correlation_id, s1) = match take_u64(buf) {
        Err(e) => return Err(e),
        Ok(x) => x,
    };
    let (tag, s2) = match take_u8(s1) {
        Err(e) => return Err(e),
        Ok(x) => x,
    };
    let kind = if tag == ENVELOPE_KIND_REQUEST {
        EnvelopeKind::Request
    } else if tag == ENVELOPE_KIND_RESPONSE {
        EnvelopeKind::Response
    } else {
        return Err(WireError::UnknownTag { what: Tag::Envelope, tag });
    };
    let (thread, s3) = match take_u32(s2) {
        Err(e) => return Err(e),
        Ok(x) => x,
    };
    Ok(Envelope { correlation_id, kind, target_thread: ThreadId(thread), body: copy_of(s3) })
}

/// Decoding gives back the envelope that was encoded.
pub proof fn law_envelope_round_trip(m: EnvelopeModel)
    ensures
        parse_envelope(envelope_bytes(m)) == Ok::<EnvelopeModel, WireError>(m),
{
    let t2 = le32(m.target_thread.0) + m.body;
    let t1 = seq![kind_byte(m.kind)] + t2;
    lemma_le_len(m.correlation_id as nat, 8);
    lemma_le_len(m.target_thread.0 as nat, 4);
    lemma_parse_u64(m.correlation_id, t1);
    lemma_parse_u8(kind_byte(m.kind), t2);
    lemma_parse_u32(m.target_thread.0, m.body);
}

/// Bytes that are read as an envelope are its encoding.
pub proof fn law_envelope_is_its_encoding(s: Seq<u8>)
    ensures
        parse_envelope(s) matches Ok(m) ==> s == envelope_bytes(m),
{
    if let Ok(m) = parse_envelope(s) {
        let (_, s1) = parse_u64(s)->Ok_0;
        let (_, s2) = parse_u8(s1)->Ok_0;
        lemma_read_integers(s);
        lemma_read_u8(s1);
        lemma_read_integers(s2);
    }
}

} // verus!
