//! Nodes, threads, and who owns a datum.

use crate::bytes::{
    le32, le64, lemma_append_associates, lemma_le_len, lemma_parse_u32, lemma_parse_u64, parse_u32,
    parse_u64, put_u32, put_u64, put_u8, rest_of, take_u32, take_u64,
};
use crate::wire_error::{Tag, WireError};
use vstd::array::array_as_slice;
use vstd::prelude::*;

verus! {

/// Identifies a compute node within the cluster.
#[derive(Debug, Clone, Copy, PartialEq, Eq, Hash, PartialOrd, Ord, Structural)]
pub struct NodeId(pub u64);

/// Identifies one owning thread within a compute node.
#[derive(Debug, Clone, Copy, PartialEq, Eq, Hash, Structural)]
pub struct ThreadId(pub u32);

/// The current owner of a datum: the home that the ring gives it, or a thread
/// that it has been moved to for a while.
#[derive(Debug, Clone, Copy, PartialEq, Eq, Structural)]
pub enum AuthorityIdx {
    Native,
    Foreign { node_id: NodeId, thread_id: ThreadId },
}

/// The size of an encoded [`AuthorityIdx`]: a tag byte, a node id of eight
/// bytes and a thread id of four.
pub const ENCODED_LEN: usize = 13;

pub const TAG_NATIVE: u8 = 0;

pub const TAG_FOREIGN: u8 = 1;

impl AuthorityIdx {
    /// The encoded form: the tag, and for a foreign owner the node and the
    /// thread, lowest byte first. A native owner has zeros in their place.
    pub open spec fn bytes(self) -> Seq<u8> {
        match self {
            AuthorityIdx::Native => seq![0u8; 13],
            AuthorityIdx::Foreign { node_id, thread_id } => seq![TAG_FOREIGN] + (le64(node_id.0)
                + le32(thread_id.0)),
        }
    }

    /// What an encoded form says. Behind a native tag the bytes are ignored.
    pub open spec fn of_bytes(s: Seq<u8>) -> Result<AuthorityIdx, WireError> {
        if s[0] == TAG_NATIVE {
            Ok(AuthorityIdx::Native)
        } else if s[0] == TAG_FOREIGN {
            match parse_u64(s.skip(1)) {
                Err(e) => Err(e),
                Ok((node, rest)) => match parse_u32(rest) {
                    Err(e) => Err(e),
                    Ok((thread, _)) => Ok(
                        AuthorityIdx::Foreign { node_id: NodeId(node), thread_id: ThreadId(thread) },
                    ),
                },
            }
        } else {
            Err(WireError::UnknownTag { what: Tag::Authority, tag: s[0] })
        }
    }

    pub fn encode(&self) -> (buf: [u8; ENCODED_LEN])
        ensures
            buf@ == self.bytes(),
    {
        let mut buf: [u8; ENCODED_LEN] = [0, 0, 0, 0, 0, 0, 0, 0, 0, 0, 0, 0, 0];
        match self {
            AuthorityIdx::Native => {
                assert(buf@ =~= self.bytes());
                buf
            },
            AuthorityIdx::Foreign { node_id, thread_id } => {
                broadcast use lemma_append_associates;

                let mut fields: Vec<u8> = Vec::new();
                put_u8(&mut fields, TAG_FOREIGN);
                put_u64(&mut fields, node_id.0);
                put_u32(&mut fields, thread_id.0);
                proof {
                    lemma_le_len(node_id.0 as nat, 8);
                    lemma_le_len(thread_id.0 as nat, 4);
                }
                let mut i: usize = 0;
                while i < ENCODED_LEN
                    invariant
                        i <= ENCODED_LEN,
                        fields.len() == ENCODED_LEN,
                        forall|j: int| 0 <= j < i ==> buf@[j] == fields@[j],
                    decreases ENCODED_LEN - i,
                {
                    buf[i] = fields[i];
                    i = i + 1;
                }
                assert(fields@ =~= self.bytes());
                assert(buf@ =~= fields@);
                buf
            },
        }
    }

    pub fn decode(buf: [u8; ENCODED_LEN]) -> (r: Result<Self, WireError>)
        ensures
            r == Self::of_bytes(buf@),
            buf@[0] <= TAG_FOREIGN ==> r is Ok,
            buf@[0] > TAG_FOREIGN ==> r == Err::<Self, WireError>(
                WireError::UnknownTag { what: Tag::Authority, tag: buf@[0] },
            ),
    {
        let s = array_as_slice(&buf);
        if s[0] == TAG_NATIVE {
            Ok(AuthorityIdx::Native)
        } else if s[0] == TAG_FOREIGN {
            match take_u64(rest_of(s, 1)) {
                Err(e) => Err(e),
                Ok((node, rest)) => match take_u32(rest) {
                    Err(e) => Err(e),
                    Ok((thread, _)) => Ok(
                        AuthorityIdx::Foreign { node_id: NodeId(node), thread_id: ThreadId(thread) },
                    ),
                },
            }
        } else {
            Err(WireError::UnknownTag { what: Tag::Authority, tag: s[0] })
        }
    }
}

/// Decoding gives back the owner that was encoded.
pub proof fn law_authority_round_trip(a: AuthorityIdx)
    ensures
        a.bytes().len() == ENCODED_LEN,
        AuthorityIdx::of_bytes(a.bytes()) == Ok::<AuthorityIdx, WireError>(a),
{
    match a {
        AuthorityIdx::Native => {},
        AuthorityIdx::Foreign { node_id, thread_id } => {
            lemma_le_len(node_id.0 as nat, 8);
            lemma_le_len(thread_id.0 as nat, 4);
            assert(a.bytes().skip(1) =~= le64(node_id.0) + le32(thread_id.0));
            lemma_parse_u64(node_id.0, le32(thread_id.0));
            assert(le32(thread_id.0) + seq![] =~= le32(thread_id.0));
            lemma_parse_u32(thread_id.0, seq![]);
        },
    }
}

} // verus!
