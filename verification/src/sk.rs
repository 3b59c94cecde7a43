//! The content of a secondary-key datum: a list of the primary datums that the
//! key matches now, each with its owner.

use crate::authority::{law_authority_round_trip, AuthorityIdx, ENCODED_LEN};
use crate::bytes::{
    le32, lemma_append_associates, lemma_le_len, lemma_parse_u32, lemma_split_joined, parse_u32,
    prefix, put_raw, put_u32, rest_of, take_u32, Parsed,
};
use crate::datum::{lemma_id_len, lemma_parse_id, parse_id, put_id, take_id, DatumId};
use crate::list_wire::{
    all_fit, items_bytes, lemma_items_round_trip, models, parse_items, put_items, take_items, Wire,
};
use crate::wire_error::{Entries, Missing, Part, WireError};
use vstd::array::array_as_slice;
use vstd::prelude::*;

verus! {

/// The size of an entry: an id and an owner.
pub const ENTRY_LEN: u64 = 29;

/// The owner in the first bytes of a sequence.
pub open spec fn parse_authority(s: Seq<u8>) -> Parsed<AuthorityIdx> {
    if s.len() < ENCODED_LEN {
        Err(WireError::Truncated { part: Part::Bytes { expected: ENCODED_LEN as u32 }, left: s.len() as u64 })
    } else {
        match AuthorityIdx::of_bytes(s.take(ENCODED_LEN as int)) {
            Err(e) => Err(e),
            Ok(a) => Ok((a, s.skip(ENCODED_LEN as int))),
        }
    }
}

fn take_authority(buf: &[u8]) -> (r: Result<(AuthorityIdx, &[u8]), WireError>)
    ensures
        crate::bytes::at(r) == parse_authority(buf@),
{
    if buf.len() < ENCODED_LEN {
        return Err(WireError::Truncated { part: Part::Bytes { expected: ENCODED_LEN as u32 }, left: buf.len() as u64 });
    }
    let mut field: [u8; ENCODED_LEN] = [0u8; 13];
    let mut i: usize = 0;
    while i < ENCODED_LEN
        invariant
            i <= ENCODED_LEN <= buf.len(),
            forall|j: int| 0 <= j < i ==> field@[j] == buf@[j],
        decreases ENCODED_LEN - i,
    {
        field[i] = buf[i];
        i = i + 1;
    }
    assert(field@ =~= buf@.take(ENCODED_LEN as int));
    match AuthorityIdx::decode(field) {
        Err(e) => Err(e),
        Ok(a) => Ok((a, rest_of(buf, ENCODED_LEN))),
    }
}

/// A datum with its owner.
impl Wire for (DatumId, AuthorityIdx) {
    type Model = (DatumId, AuthorityIdx);

    open spec fn model(self) -> (DatumId, AuthorityIdx) {
        self
    }

    open spec fn bytes_of(m: (DatumId, AuthorityIdx)) -> Seq<u8> {
        m.0.bytes() + m.1.bytes()
    }

    open spec fn parse(s: Seq<u8>) -> Parsed<(DatumId, AuthorityIdx)> {
        match parse_id(s) {
            Err(e) => Err(e),
            Ok((id, rest)) => match parse_authority(rest) {
                Err(e) => Err(e),
                Ok((a, rest)) => Ok(((id, a), rest)),
            },
        }
    }

    open spec fn fits(m: (DatumId, AuthorityIdx)) -> bool {
        true
    }

    fn put(&self, out: &mut Vec<u8>) {
        broadcast use lemma_append_associates;

        put_id(out, self.0);
        let b: [u8; ENCODED_LEN] = self.1.encode();
        put_raw(out, array_as_slice(&b));
    }

    fn take(buf: &[u8]) -> (r: Result<(Self, &[u8]), WireError>) {
        match take_id(buf) {
            Err(e) => Err(e),
            Ok((id, rest)) => match take_authority(rest) {
                Err(e) => Err(e),
                Ok((a, rest)) => Ok(((id, a), rest)),
            },
        }
    }

    proof fn lemma_round_trip(m: (DatumId, AuthorityIdx), rest: Seq<u8>) {
        broadcast use {lemma_append_associates, lemma_parse_id, lemma_split_joined};

        law_authority_round_trip(m.1);
    }
}

/// The bytes of a list: the number of its entries and the entries.
pub open spec fn sk_entries_bytes(entries: Seq<(DatumId, AuthorityIdx)>) -> Seq<u8> {
    le32(prefix(entries.len())) + items_bytes::<(DatumId, AuthorityIdx)>(entries)
}

/// The list that bytes spell: a count and exactly as many entries.
pub open spec fn parse_sk_entries(s: Seq<u8>) -> Result<Seq<(DatumId, AuthorityIdx)>, WireError> {
    match parse_u32(s) {
        Err(_) => Err(WireError::Missing { what: Missing::SkEntriesCount }),
        Ok((count, rest)) => if s.len() != 4 + count * ENTRY_LEN {
            Err(
                WireError::WrongCount {
                    what: Entries::Sk,
                    count,
                    expected: (4 + count * ENTRY_LEN) as u64,
                    found: s.len() as u64,
                },
            )
        } else {
            match parse_items::<(DatumId, AuthorityIdx)>(count as nat, rest) {
                Err(e) => Err(e),
                Ok((entries, _)) => Ok(entries),
            }
        },
    }
}

pub fn encode_sk_entries(entries: &[(DatumId, AuthorityIdx)]) -> (buf: Vec<u8>)
    ensures
        buf@ == sk_entries_bytes(entries@),
{
    let mut buf: Vec<u8> = Vec::new();
    put_u32(
        &mut buf,
        #[verifier::truncate]
        (entries.len() as u32),
    );
    put_items(&mut buf, entries);
    assert(models(entries@) =~= entries@);
    assert(buf@ =~= sk_entries_bytes(entries@));
    buf
}

pub fn decode_sk_entries(bytes: &[u8]) -> (r: Result<Vec<(DatumId, AuthorityIdx)>, WireError>)
    ensures
        (match r {
            Ok(entries) => Ok::<Seq<(DatumId, AuthorityIdx)>, WireError>(entries@),
            Err(e) => Err(e),
        }) == parse_sk_entries(bytes@),
{
    match take_u32(bytes) {
        Err(_) => Err(WireError::Missing { what: Missing::SkEntriesCount }),
        Ok((count, rest)) => {
            let expected: u64 = 4 + count as u64 * ENTRY_LEN;
            if bytes.len() as u64 != expected {
                return Err(
                    WireError::WrongCount {
                        what: Entries::Sk,
                        count,
                        expected,
                        found: bytes.len() as u64,
                    },
                );
            }
            match take_items::<(DatumId, AuthorityIdx)>(count, rest) {
                Err(e) => Err(e),
                Ok((entries, _)) => {
                    assert(models(entries@) =~= entries@);
                    Ok(entries)
                },
            }
        },
    }
}

proof fn lemma_sk_entries_len(entries: Seq<(DatumId, AuthorityIdx)>)
    ensures
        items_bytes::<(DatumId, AuthorityIdx)>(entries).len() == entries.len() * ENTRY_LEN,
    decreases entries.len(),
{
    if entries.len() > 0 {
        let tail = entries.skip(1);
        lemma_sk_entries_len(tail);
        lemma_id_len(entries[0].0);
        law_authority_round_trip(entries[0].1);
        assert(entries.len() * ENTRY_LEN == tail.len() * ENTRY_LEN + ENTRY_LEN)
            by (nonlinear_arith)
            requires
                entries.len() == tail.len() + 1,
        ;
    }
}

/// Decoding gives back the list that was encoded, where its count fits the
/// prefix of 32 bits.
pub proof fn law_sk_entries_round_trip(entries: Seq<(DatumId, AuthorityIdx)>)
    requires
        entries.len() <= u32::MAX,
    ensures
        parse_sk_entries(sk_entries_bytes(entries)) == Ok::<
            Seq<(DatumId, AuthorityIdx)>,
            WireError,
        >(entries),
{
    lemma_sk_entries_len(entries);
    let body = items_bytes::<(DatumId, AuthorityIdx)>(entries);
    lemma_le_len(entries.len(), 4);
    lemma_parse_u32(prefix(entries.len()), body);
    assert(body + seq![] =~= body);
    assert(all_fit::<(DatumId, AuthorityIdx)>(entries));
    lemma_items_round_trip::<(DatumId, AuthorityIdx)>(entries, seq![]);
}

} // verus!
