//! Identity of a single datum, the unit of ownership.

use crate::bytes::{
    at, byte_span, lemma_append_associates, lemma_parse_u8, lemma_read_u8, parse_u8, put_raw,
    put_u8, rest_of, take_u8, Parsed,
};
use crate::wire_error::{Part, Tag, WireError};
use vstd::array::array_as_slice;
use vstd::prelude::*;

verus! {

/// A globally unique id of a datum. Fresh ids are UUIDs of version 7, which
/// sort by the time of their creation; op ids are datum ids, and an older op
/// has the smaller one.
#[derive(Debug, Clone, Copy, PartialEq, Eq, Hash, PartialOrd, Ord, Structural)]
pub struct DatumId {
    value: u128,
}

/// The integer whose bytes are `s`, highest first.
pub open spec fn be_value(s: Seq<u8>) -> nat
    decreases s.len(),
{
    if s.len() == 0 {
        0
    } else {
        256 * be_value(s.drop_last()) + s.last() as nat
    }
}

/// The `width` bytes of `v`, highest first.
pub open spec fn be_bytes(v: nat, width: nat) -> Seq<u8>
    decreases width,
{
    if width == 0 {
        seq![]
    } else {
        be_bytes(v / 256, (width - 1) as nat).push((v % 256) as u8)
    }
}

proof fn lemma_be_bytes(v: nat, width: nat)
    requires
        v < byte_span(width),
    ensures
        be_bytes(v, width).len() == width,
        be_value(be_bytes(v, width)) == v,
    decreases width,
{
    if width > 0 {
        lemma_be_bytes(v / 256, (width - 1) as nat);
        assert(be_bytes(v, width).drop_last() =~= be_bytes(v / 256, (width - 1) as nat));
    }
}

proof fn lemma_be_value(s: Seq<u8>)
    ensures
        be_value(s) < byte_span(s.len()),
        be_bytes(be_value(s), s.len()) == s,
    decreases s.len(),
{
    if s.len() > 0 {
        lemma_be_value(s.drop_last());
        let high = be_value(s.drop_last());
        let low = s.last() as nat;
        assert((256 * high + low) % 256 == low);
        assert((256 * high + low) / 256 == high);
        assert(be_bytes(be_value(s), s.len()) =~= s);
    } else {
        assert(be_bytes(0, 0) =~= s);
    }
}

proof fn lemma_span_16()
    ensures
        byte_span(16) == 0x1_0000_0000_0000_0000_0000_0000_0000_0000,
{
    reveal_with_fuel(byte_span, 17);
}

/// The name-based UUID of version 5 of a name in a namespace: sixteen bytes.
pub uninterp spec fn uuid_v5(namespace: Seq<u8>, name: Seq<u8>) -> Seq<u8>;

/// Whether sixteen bytes are a UUID of the given version, of the variant that
/// RFC 9562 describes.
pub open spec fn is_uuid_version(b: Seq<u8>, version: u8) -> bool {
    b[6] / 16 == version && b[8] / 64 == 2
}

/// Draws a UUID with `uuid::Uuid::now_v7`. Claimed of it: its version field
/// says 7 and its variant that of RFC 9562. That two draws differ, and that a
/// later one sorts behind an earlier one, rests on the clock and on chance and
/// is not claimed.
#[verifier::external_body]
fn uuid_now_v7() -> (b: [u8; 16])
    ensures
        is_uuid_version(b@, 7),
{
    *uuid::Uuid::now_v7().as_bytes()
}

/// Derives a UUID with `uuid::Uuid::new_v5`. Claimed of it: its bytes depend on
/// those of the namespace and of the name alone, its version field says 5 and
/// its variant that of RFC 9562.
#[verifier::external_body]
fn uuid_new_v5(namespace: [u8; 16], name: &[u8]) -> (b: [u8; 16])
    ensures
        b@ == uuid_v5(namespace@, name@),
        is_uuid_version(b@, 5),
{
    *uuid::Uuid::new_v5(&uuid::Uuid::from_bytes(namespace), name).as_bytes()
}

impl DatumId {
    /// The id as one integer, by which ids are ordered.
    pub closed spec fn rank(self) -> u128 {
        self.value
    }

    /// The sixteen bytes of the id, highest first.
    pub open spec fn bytes(self) -> Seq<u8> {
        be_bytes(self.rank() as nat, 16)
    }

    /// The id that has the given bytes.
    pub closed spec fn of_bytes(s: Seq<u8>) -> DatumId {
        DatumId { value: be_value(s) as u128 }
    }

    /// The id that has the given rank.
    pub closed spec fn of_rank(rank: u128) -> DatumId {
        DatumId { value: rank }
    }

    /// A fresh id, a UUID of version 7 of the current time.
    pub fn new() -> (id: Self)
        ensures
            is_uuid_version(id.bytes(), 7),
    {
        let b: [u8; 16] = uuid_now_v7();
        Self::from_bytes(b)
    }

    /// The id that has these sixteen bytes.
    pub fn from_bytes(bytes: [u8; 16]) -> (id: Self)
        ensures
            id == Self::of_bytes(bytes@),
            id.bytes() == bytes@,
    {
        let value: u128 = read_be(array_as_slice(&bytes));
        proof {
            lemma_be_value(bytes@);
            lemma_span_16();
            assert(bytes@.take(16) =~= bytes@);
        }
        DatumId { value }
    }

    /// The sixteen bytes of the id.
    pub fn as_bytes(&self) -> (b: [u8; 16])
        ensures
            b@ == self.bytes(),
    {
        let mut b: [u8; 16] = [0u8; 16];
        let mut rest: u128 = self.value;
        let mut i: usize = 16;
        while i > 0
            invariant
                i <= 16,
                be_bytes(rest as nat, i as nat) + b@.skip(i as int) == self.bytes(),
            decreases i,
        {
            let ghost before = b@;
            i = i - 1;
            b[i] = (rest % 256) as u8;
            proof {
                let high = be_bytes((rest / 256) as nat, i as nat);
                assert(be_bytes(rest as nat, (i + 1) as nat) + before.skip(i + 1) =~= high
                    + b@.skip(i as int));
            }
            rest = rest / 256;
        }
        assert(b@.skip(0) =~= b@);
        assert(be_bytes(rest as nat, 0) + b@ =~= b@);
        b
    }

    /// The id that belongs to `name` in `namespace`: always the same for the
    /// same two. Used for keys that must lead to the same datum every time.
    pub fn from_name(namespace: &DatumId, name: &[u8]) -> (id: Self)
        ensures
            id == Self::of_bytes(uuid_v5(namespace.bytes(), name@)),
            id.bytes() == uuid_v5(namespace.bytes(), name@),
            is_uuid_version(id.bytes(), 5),
    {
        let b: [u8; 16] = uuid_new_v5(namespace.as_bytes(), name);
        Self::from_bytes(b)
    }

    /// The id as one integer, by which ids are ordered.
    pub fn as_rank(&self) -> (rank: u128)
        ensures
            rank == self.rank(),
    {
        self.value
    }

    /// The id that has the given rank.
    pub fn from_rank(rank: u128) -> (id: Self)
        ensures
            id == Self::of_rank(rank),
    {
        DatumId { value: rank }
    }
}

impl Default for DatumId {
    /// A fresh id.
    fn default() -> (id: Self)
        ensures
            is_uuid_version(id.bytes(), 7),
    {
        Self::new()
    }
}

/// The integer in the first sixteen bytes of `buf`.
fn read_be(buf: &[u8]) -> (v: u128)
    requires
        16 <= buf.len(),
    ensures
        v == be_value(buf@.take(16)),
{
    let mut v: u128 = 0;
    let mut i: usize = 0;
    while i < 16
        invariant
            i <= 16 <= buf.len(),
            v == be_value(buf@.take(i as int)),
        decreases 16 - i,
    {
        let ghost head = buf@.take(i + 1);
        assert(head.drop_last() =~= buf@.take(i as int));
        proof {
            lemma_be_value(head);
            lemma_span_16();
            lemma_span_within_16(head.len());
        }
        v = 256 * v + buf[i] as u128;
        i = i + 1;
    }
    v
}

proof fn lemma_span_within_16(width: nat)
    requires
        width <= 16,
    ensures
        byte_span(width) <= byte_span(16),
    decreases 16 - width,
{
    if width < 16 {
        lemma_span_within_16(width + 1);
    }
}

/// Ids have the bytes they were made from, and ids with the same bytes, or
/// with the same rank, are the same id.
pub proof fn law_id_bytes(a: DatumId, b: DatumId, s: Seq<u8>)
    requires
        s.len() == 16,
    ensures
        a.bytes().len() == 16,
        DatumId::of_bytes(a.bytes()) == a,
        DatumId::of_bytes(s).bytes() == s,
        a.bytes() == b.bytes() ==> a == b,
        a.rank() == b.rank() ==> a == b,
        DatumId::of_rank(a.rank()) == a,
{
    lemma_span_16();
    lemma_be_bytes(a.value as nat, 16);
    lemma_be_bytes(b.value as nat, 16);
    lemma_be_value(s);
}

/// The id of a rank has that rank.
pub proof fn law_rank_of_rank(rank: u128)
    ensures
        DatumId::of_rank(rank).rank() == rank,
{
}

/// Whether `a` comes before `b` byte by byte.
pub open spec fn bytes_before(a: Seq<u8>, b: Seq<u8>) -> bool {
    exists|i: int|
        0 <= i < a.len() && i < b.len() && a.take(i) == b.take(i) && #[trigger] a[i] < b[i]
}

proof fn lemma_be_order(a: Seq<u8>, b: Seq<u8>)
    requires
        a.len() == b.len(),
        be_value(a) < be_value(b),
    ensures
        bytes_before(a, b),
    decreases a.len(),
{
    let n = a.len();
    if n > 0 {
        let ah = a.drop_last();
        let bh = b.drop_last();
        if be_value(ah) < be_value(bh) {
            lemma_be_order(ah, bh);
            let i = choose|i: int|
                0 <= i < ah.len() && i < bh.len() && ah.take(i) == bh.take(i) && #[trigger] ah[i] < bh[i];
            assert(a.take(i) =~= ah.take(i));
            assert(b.take(i) =~= bh.take(i));
            assert(a[i] < b[i]);
        } else {
            assert(be_value(ah) == be_value(bh));
            lemma_be_value(ah);
            lemma_be_value(bh);
            assert(ah == bh);
            assert(a.take(n - 1) =~= ah);
            assert(b.take(n - 1) =~= bh);
            assert(a[n - 1] < b[n - 1]);
        }
    }
}

/// Ids are ordered by their bytes, first byte first.
pub proof fn law_id_order(a: DatumId, b: DatumId)
    ensures
        a.rank() < b.rank() ==> bytes_before(a.bytes(), b.bytes()),
{
    lemma_span_16();
    lemma_be_bytes(a.value as nat, 16);
    lemma_be_bytes(b.value as nat, 16);
    if a.rank() < b.rank() {
        lemma_be_order(a.bytes(), b.bytes());
    }
}

// ---- ids on the wire ----

/// The first sixteen bytes as an id.
pub open spec fn parse_id(s: Seq<u8>) -> Parsed<DatumId> {
    if s.len() < 16 {
        Err(WireError::Truncated { part: Part::Id, left: s.len() as u64 })
    } else {
        Ok((DatumId::of_bytes(s.take(16)), s.skip(16)))
    }
}

pub fn put_id(out: &mut Vec<u8>, id: DatumId)
    ensures
        final(out)@ == old(out)@ + id.bytes(),
{
    let b: [u8; 16] = id.as_bytes();
    put_raw(out, array_as_slice(&b));
}

pub fn take_id(buf: &[u8]) -> (r: Result<(DatumId, &[u8]), WireError>)
    ensures
        at(r) == parse_id(buf@),
{
    if buf.len() < 16 {
        return Err(WireError::Truncated { part: Part::Id, left: buf.len() as u64 });
    }
    proof {
        lemma_span_16();
        lemma_be_value(buf@.take(16));
    }
    Ok((DatumId { value: read_be(buf) }, rest_of(buf, 16)))
}

pub broadcast proof fn lemma_parse_id(id: DatumId, rest: Seq<u8>)
    ensures
        #[trigger] parse_id(id.bytes() + rest) == Ok::<(DatumId, Seq<u8>), WireError>((id, rest)),
{
    broadcast use crate::bytes::lemma_split_joined;

    lemma_id_len(id);
    law_id_bytes(id, id, id.bytes());
}

/// What was read is what stood there.
pub proof fn lemma_read_id(s: Seq<u8>)
    ensures
        parse_id(s) matches Ok((id, rest)) ==> s == id.bytes() + rest,
{
    if s.len() >= 16 {
        lemma_span_16();
        lemma_be_value(s.take(16));
        assert(s =~= s.take(16) + s.skip(16));
    }
}

pub broadcast proof fn lemma_id_len(id: DatumId)
    ensures
        #[trigger] id.bytes().len() == 16,
{
    lemma_span_16();
    lemma_be_bytes(id.value as nat, 16);
}

/// The bytes of an optional id: a flag, and the id where there is one.
pub open spec fn optional_id_field(id: Option<DatumId>) -> Seq<u8> {
    match id {
        None => seq![0u8],
        Some(id) => seq![1u8] + id.bytes(),
    }
}

pub open spec fn parse_optional_id(s: Seq<u8>) -> Parsed<Option<DatumId>> {
    match parse_u8(s) {
        Err(e) => Err(e),
        Ok((flag, rest)) => if flag == 0 {
            Ok((None, rest))
        } else if flag == 1 {
            match parse_id(rest) {
                Err(e) => Err(e),
                Ok((id, rest)) => Ok((Some(id), rest)),
            }
        } else {
            Err(WireError::UnknownTag { what: Tag::Flag, tag: flag })
        },
    }
}

pub fn put_optional_id(out: &mut Vec<u8>, id: Option<DatumId>)
    ensures
        final(out)@ == old(out)@ + optional_id_field(id),
{
    broadcast use lemma_append_associates;

    match id {
        None => put_u8(out, 0),
        Some(id) => {
            put_u8(out, 1);
            put_id(out, id);
        },
    }
}

pub fn take_optional_id(buf: &[u8]) -> (r: Result<(Option<DatumId>, &[u8]), WireError>)
    ensures
        at(r) == parse_optional_id(buf@),
{
    match take_u8(buf) {
        Err(e) => Err(e),
        Ok((flag, rest)) => if flag == 0 {
            Ok((None, rest))
        } else if flag == 1 {
            match take_id(rest) {
                Err(e) => Err(e),
                Ok((id, rest)) => Ok((Some(id), rest)),
            }
        } else {
            Err(WireError::UnknownTag { what: Tag::Flag, tag: flag })
        },
    }
}

pub broadcast proof fn lemma_parse_optional_id(id: Option<DatumId>, rest: Seq<u8>)
    ensures
        #[trigger] parse_optional_id(optional_id_field(id) + rest) == Ok::<
            (Option<DatumId>, Seq<u8>),
            WireError,
        >((id, rest)),
{
    broadcast use {lemma_append_associates, lemma_parse_u8, lemma_parse_id};

}

/// What was read is what stood there.
pub proof fn lemma_read_optional_id(s: Seq<u8>)
    ensures
        parse_optional_id(s) matches Ok((id, rest)) ==> s == optional_id_field(id) + rest,
{
    broadcast use lemma_append_associates;

    lemma_read_u8(s);
    if let Ok((_, rest)) = parse_u8(s) {
        lemma_read_id(rest);
    }
}

/// A copy of some ids.
pub fn copy_ids(ids: &Vec<DatumId>) -> (copy: Vec<DatumId>)
    ensures
        copy@ == ids@,
{
    let mut copy: Vec<DatumId> = Vec::new();
    let mut i: usize = 0;
    while i < ids.len()
        invariant
            i <= ids.len(),
            copy@ == ids@.take(i as int),
        decreases ids.len() - i,
    {
        copy.push(ids[i]);
        assert(ids@.take(i + 1) =~= ids@.take(i as int).push(ids@[i as int]));
        i = i + 1;
    }
    assert(ids@.take(i as int) =~= ids@);
    copy
}

} // verus!
