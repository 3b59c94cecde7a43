//! Queries of a ranked index and their results, on the wire.

use crate::bytes::{
    copy_of, le32, lemma_append_associates, lemma_le_len, lemma_parse_u32, lemma_read_integers,
    lemma_split_joined, parse_u32, prefix, put_raw, put_u32, put_u8, rest_of, take_u32, Parsed,
};
use crate::datum::{lemma_id_len, lemma_parse_id, parse_id, put_id, take_id, DatumId};
use crate::list_wire::{
    all_fit, items_bytes, lemma_items_round_trip, models, parse_items, put_items, take_items, Wire,
};
use crate::wire_error::{Entries, Missing, Part, Subject, Tag, WireError};
use vstd::prelude::*;
use vstd::slice::slice_subrange;

verus! {

/// What a query asks of a ranked index, and for how many entries.
#[derive(Debug, Clone, Copy, PartialEq, Eq, Structural)]
pub enum RkQueryKind {
    TopN(u32),
    BottomN(u32),
    PercentileSample(u32),
}

pub const RK_QUERY_TOP_N: u8 = 0;

pub const RK_QUERY_BOTTOM_N: u8 = 1;

pub const RK_QUERY_PERCENTILE_SAMPLE: u8 = 2;

/// The size of an encoded query: a tag byte and a count.
pub const RK_QUERY_LEN: usize = 5;

/// The size of a rank key.
pub const RK_RANK_KEY_LEN: usize = 8;

/// The size of an entry of a result: a rank key and an id.
pub const RK_ENTRY_LEN: u64 = 24;

pub open spec fn rk_query_tag(q: RkQueryKind) -> u8 {
    match q {
        RkQueryKind::TopN(_) => RK_QUERY_TOP_N,
        RkQueryKind::BottomN(_) => RK_QUERY_BOTTOM_N,
        RkQueryKind::PercentileSample(_) => RK_QUERY_PERCENTILE_SAMPLE,
    }
}

pub open spec fn rk_query_count(q: RkQueryKind) -> u32 {
    match q {
        RkQueryKind::TopN(n) => n,
        RkQueryKind::BottomN(n) => n,
        RkQueryKind::PercentileSample(n) => n,
    }
}

/// The bytes of a query: which kind, and how many entries.
pub open spec fn rk_query_bytes(q: RkQueryKind) -> Seq<u8> {
    seq![rk_query_tag(q)] + le32(rk_query_count(q))
}

/// The query that bytes spell.
pub open spec fn parse_rk_query(s: Seq<u8>) -> Result<RkQueryKind, WireError> {
    if s.len() != RK_QUERY_LEN {
        Err(
            WireError::WrongLength {
                what: Subject::RkQueryKind,
                expected: RK_QUERY_LEN as u64,
                found: s.len() as u64,
            },
        )
    } else {
        match parse_u32(s.skip(1)) {
            Err(e) => Err(e),
            Ok((n, _)) => if s[0] == RK_QUERY_TOP_N {
                Ok(RkQueryKind::TopN(n))
            } else if s[0] == RK_QUERY_BOTTOM_N {
                Ok(RkQueryKind::BottomN(n))
            } else if s[0] == RK_QUERY_PERCENTILE_SAMPLE {
                Ok(RkQueryKind::PercentileSample(n))
            } else {
                Err(WireError::UnknownTag { what: Tag::RkQueryKind, tag: s[0] })
            },
        }
    }
}

pub fn encode_rk_query_kind(q: &RkQueryKind) -> (buf: Vec<u8>)
    ensures
        buf@ == rk_query_bytes(*q),
{
    let mut buf: Vec<u8> = Vec::new();
    match q {
        RkQueryKind::TopN(n) => {
            put_u8(&mut buf, RK_QUERY_TOP_N);
            put_u32(&mut buf, *n);
        },
        RkQueryKind::BottomN(n) => {
            put_u8(&mut buf, RK_QUERY_BOTTOM_N);
            put_u32(&mut buf, *n);
        },
        RkQueryKind::PercentileSample(n) => {
            put_u8(&mut buf, RK_QUERY_PERCENTILE_SAMPLE);
            put_u32(&mut buf, *n);
        },
    }
    assert(buf@ =~= rk_query_bytes(*q));
    buf
}

pub fn decode_rk_query_kind(buf: &[u8]) -> (r: Result<RkQueryKind, WireError>)
    ensures
        r == parse_rk_query(buf@),
{
    if buf.len() != RK_QUERY_LEN {
        return Err(
            WireError::WrongLength {
                what: Subject::RkQueryKind,
                expected: RK_QUERY_LEN as u64,
                found: buf.len() as u64,
            },
        );
    }
    match take_u32(rest_of(buf, 1)) {
        Err(e) => Err(e),
        Ok((n, _)) => if buf[0] == RK_QUERY_TOP_N {
            Ok(RkQueryKind::TopN(n))
        } else if buf[0] == RK_QUERY_BOTTOM_N {
            Ok(RkQueryKind::BottomN(n))
        } else if buf[0] == RK_QUERY_PERCENTILE_SAMPLE {
            Ok(RkQueryKind::PercentileSample(n))
        } else {
            Err(WireError::UnknownTag { what: Tag::RkQueryKind, tag: buf[0] })
        },
    }
}

/// Decoding gives back the query that was encoded.
pub proof fn law_rk_query_round_trip(q: RkQueryKind)
    ensures
        rk_query_bytes(q).len() == RK_QUERY_LEN,
        parse_rk_query(rk_query_bytes(q)) == Ok::<RkQueryKind, WireError>(q),
{
    let n = rk_query_count(q);
    lemma_le_len(n as nat, 4);
    assert(rk_query_bytes(q).skip(1) =~= le32(n) + seq![]);
    lemma_parse_u32(n, seq![]);
}

/// Bytes that are read as a query are its encoding.
pub proof fn law_rk_query_is_its_encoding(s: Seq<u8>)
    ensures
        parse_rk_query(s) matches Ok(q) ==> s == rk_query_bytes(q),
{
    lemma_read_integers(s.skip(1));
    if let Ok((n, rest)) = parse_u32(s.skip(1)) {
        lemma_le_len(n as nat, 4);
        if s.len() == RK_QUERY_LEN {
            assert(rest.len() == 0);
            assert(s =~= seq![s[0]] + le32(n));
        }
    }
}

// ---- entries ----

/// Eight bytes at the front of a sequence.
pub open spec fn parse_rank_key(s: Seq<u8>) -> Parsed<Seq<u8>> {
    if s.len() < RK_RANK_KEY_LEN {
        Err(WireError::Truncated { part: Part::RankKey, left: s.len() as u64 })
    } else {
        Ok((s.take(RK_RANK_KEY_LEN as int), s.skip(RK_RANK_KEY_LEN as int)))
    }
}

/// An entry of a result: a rank key and the id that it ranks.
impl Wire for (Vec<u8>, DatumId) {
    type Model = (Seq<u8>, DatumId);

    open spec fn model(self) -> (Seq<u8>, DatumId) {
        (self.0@, self.1)
    }

    open spec fn bytes_of(m: (Seq<u8>, DatumId)) -> Seq<u8> {
        m.0 + m.1.bytes()
    }

    open spec fn parse(s: Seq<u8>) -> Parsed<(Seq<u8>, DatumId)> {
        match parse_rank_key(s) {
            Err(e) => Err(e),
            Ok((key, rest)) => match parse_id(rest) {
                Err(e) => Err(e),
                Ok((id, rest)) => Ok(((key, id), rest)),
            },
        }
    }

    open spec fn fits(m: (Seq<u8>, DatumId)) -> bool {
        m.0.len() == RK_RANK_KEY_LEN
    }

    fn put(&self, out: &mut Vec<u8>) {
        broadcast use lemma_append_associates;

        put_raw(out, self.0.as_slice());
        put_id(out, self.1);
    }

    fn take(buf: &[u8]) -> (r: Result<(Self, &[u8]), WireError>) {
        if buf.len() < RK_RANK_KEY_LEN {
            return Err(WireError::Truncated { part: Part::RankKey, left: buf.len() as u64 });
        }
        let key = slice_subrange(buf, 0, RK_RANK_KEY_LEN);
        assert(key@ =~= buf@.take(RK_RANK_KEY_LEN as int));
        match take_id(rest_of(buf, RK_RANK_KEY_LEN)) {
            Err(e) => Err(e),
            Ok((id, rest)) => Ok(((copy_of(key), id), rest)),
        }
    }

    proof fn lemma_round_trip(m: (Seq<u8>, DatumId), rest: Seq<u8>) {
        broadcast use {lemma_append_associates, lemma_split_joined, lemma_parse_id};

    }
}

/// The bytes of a result: the number of entries and the entries. The key of an
/// entry is written as it is.
pub open spec fn rk_entries_bytes(entries: Seq<(Seq<u8>, DatumId)>) -> Seq<u8> {
    le32(prefix(entries.len())) + items_bytes::<(Vec<u8>, DatumId)>(entries)
}

/// The result that bytes spell: a count, and exactly as many entries with keys
/// of eight bytes.
pub open spec fn parse_rk_entries(s: Seq<u8>) -> Result<Seq<(Seq<u8>, DatumId)>, WireError> {
    match parse_u32(s) {
        Err(_) => Err(WireError::Missing { what: Missing::RkEntriesCount }),
        Ok((count, rest)) => if s.len() != 4 + count * RK_ENTRY_LEN {
            Err(
                WireError::WrongCount {
                    what: Entries::Rk,
                    count,
                    expected: (4 + count * RK_ENTRY_LEN) as u64,
                    found: s.len() as u64,
                },
            )
        } else {
            match parse_items::<(Vec<u8>, DatumId)>(count as nat, rest) {
                Err(e) => Err(e),
                Ok((entries, _)) => Ok(entries),
            }
        },
    }
}

/// A decoded result, modelled.
pub open spec fn rk_entries_model(
    r: Result<Vec<(Vec<u8>, DatumId)>, WireError>,
) -> Result<Seq<(Seq<u8>, DatumId)>, WireError> {
    match r {
        Ok(entries) => Ok(models(entries@)),
        Err(e) => Err(e),
    }
}

/// Rank keys are meant to be eight bytes long: only such entries can be
/// decoded again.
pub fn encode_rk_entries(entries: &[(Vec<u8>, DatumId)]) -> (buf: Vec<u8>)
    ensures
        buf@ == rk_entries_bytes(models(entries@)),
{
    let mut buf: Vec<u8> = Vec::new();
    put_u32(
        &mut buf,
        #[verifier::truncate]
        (entries.len() as u32),
    );
    put_items(&mut buf, entries);
    assert(buf@ =~= rk_entries_bytes(models(entries@)));
    buf
}

pub fn decode_rk_entries(buf: &[u8]) -> (r: Result<Vec<(Vec<u8>, DatumId)>, WireError>)
    ensures
        rk_entries_model(r) == parse_rk_entries(buf@),
{
    match take_u32(buf) {
        Err(_) => Err(WireError::Missing { what: Missing::RkEntriesCount }),
        Ok((count, rest)) => {
            let expected: u64 = 4 + count as u64 * RK_ENTRY_LEN;
            if buf.len() as u64 != expected {
                return Err(
                    WireError::WrongCount {
                        what: Entries::Rk,
                        count,
                        expected,
                        found: buf.len() as u64,
                    },
                );
            }
            match take_items::<(Vec<u8>, DatumId)>(count, rest) {
                Err(e) => Err(e),
                Ok((entries, _)) => Ok(entries),
            }
        },
    }
}

proof fn lemma_rk_entries_len(entries: Seq<(Seq<u8>, DatumId)>)
    requires
        all_fit::<(Vec<u8>, DatumId)>(entries),
    ensures
        items_bytes::<(Vec<u8>, DatumId)>(entries).len() == entries.len() * RK_ENTRY_LEN,
    decreases entries.len(),
{
    if entries.len() > 0 {
        let tail = entries.skip(1);
        assert forall|i: int| 0 <= i < tail.len() implies <(Vec<u8>, DatumId)>::fits(
            #[trigger] tail[i],
        ) by {
            assert(tail[i] == entries[i + 1]);
        }
        lemma_rk_entries_len(tail);
        lemma_id_len(entries[0].1);
        assert(<(Vec<u8>, DatumId)>::fits(entries[0]));
        assert(entries.len() * RK_ENTRY_LEN == tail.len() * RK_ENTRY_LEN + RK_ENTRY_LEN)
            by (nonlinear_arith)
            requires
                entries.len() == tail.len() + 1,
        ;
    }
}

/// Decoding gives back the entries that were encoded, where every rank key has
/// its eight bytes and the count fits its prefix.
pub proof fn law_rk_entries_round_trip(entries: Seq<(Seq<u8>, DatumId)>)
    requires
        entries.len() <= u32::MAX,
        forall|i: int| 0 <= i < entries.len() ==> (#[trigger] entries[i]).0.len() == RK_RANK_KEY_LEN,
    ensures
        parse_rk_entries(rk_entries_bytes(entries)) == Ok::<Seq<(Seq<u8>, DatumId)>, WireError>(
            entries,
        ),
{
    assert(all_fit::<(Vec<u8>, DatumId)>(entries));
    lemma_rk_entries_len(entries);
    let body = items_bytes::<(Vec<u8>, DatumId)>(entries);
    lemma_le_len(entries.len(), 4);
    lemma_parse_u32(prefix(entries.len()), body);
    assert(body + seq![] =~= body);
    lemma_items_round_trip::<(Vec<u8>, DatumId)>(entries, seq![]);
}

} // verus!
