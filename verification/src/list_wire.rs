//! Lists on the wire: items of one kind, one behind the other.

use crate::bytes::{
    le16, lemma_append_associates, lemma_parse_u16, lemma_read_integers, parse_u16, prefix, put_u16,
    put_u32, take_u16, take_u32, Parsed, le32, lemma_parse_u32, parse_u32,
};
use crate::datum::{lemma_parse_id, lemma_read_id, parse_id, put_id, take_id, DatumId};
use crate::wire_error::WireError;
use vstd::prelude::*;

verus! {

/// A value that has a place in a list on the wire.
pub trait Wire: Sized {
    /// What the value is, mathematically.
    type Model;

    spec fn model(self) -> Self::Model;

    /// The bytes of a value.
    spec fn bytes_of(m: Self::Model) -> Seq<u8>;

    /// The value at the front of a sequence, and the rest.
    spec fn parse(s: Seq<u8>) -> Parsed<Self::Model>;

    /// Whether a value's length prefixes have room for its lengths.
    spec fn fits(m: Self::Model) -> bool;

    fn put(&self, out: &mut Vec<u8>)
        ensures
            final(out)@ == old(out)@ + Self::bytes_of(self.model()),
    ;

    fn take(buf: &[u8]) -> (r: Result<(Self, &[u8]), WireError>)
        ensures
            (match r {
                Ok((v, rest)) => Ok::<(Self::Model, Seq<u8>), WireError>((v.model(), rest@)),
                Err(e) => Err(e),
            }) == Self::parse(buf@),
    ;

    proof fn lemma_round_trip(m: Self::Model, rest: Seq<u8>)
        requires
            Self::fits(m),
        ensures
            Self::parse(Self::bytes_of(m) + rest) == Ok::<(Self::Model, Seq<u8>), WireError>(
                (m, rest),
            ),
    ;
}

/// The items of a list, modelled.
pub open spec fn models<T: Wire>(items: Seq<T>) -> Seq<T::Model> {
    Seq::new(items.len(), |i: int| items[i].model())
}

/// The bytes of the items, one behind the other.
pub open spec fn items_bytes<T: Wire>(items: Seq<T::Model>) -> Seq<u8>
    decreases items.len(),
{
    if items.len() == 0 {
        seq![]
    } else {
        T::bytes_of(items[0]) + items_bytes::<T>(items.skip(1))
    }
}

/// `count` items at the front of a sequence.
pub open spec fn parse_items<T: Wire>(count: nat, s: Seq<u8>) -> Parsed<Seq<T::Model>>
    decreases count,
{
    if count == 0 {
        Ok((seq![], s))
    } else {
        match T::parse(s) {
            Err(e) => Err(e),
            Ok((item, rest)) => match parse_items::<T>((count - 1) as nat, rest) {
                Err(e) => Err(e),
                Ok((items, rest)) => Ok((seq![item] + items, rest)),
            },
        }
    }
}

/// The bytes of a list: the number of its items and the items.
pub open spec fn list_field<T: Wire>(items: Seq<T::Model>) -> Seq<u8> {
    le32(prefix(items.len())) + items_bytes::<T>(items)
}

pub open spec fn parse_list<T: Wire>(s: Seq<u8>) -> Parsed<Seq<T::Model>> {
    match parse_u32(s) {
        Err(e) => Err(e),
        Ok((count, rest)) => parse_items::<T>(count as nat, rest),
    }
}

pub open spec fn all_fit<T: Wire>(items: Seq<T::Model>) -> bool {
    forall|i: int| 0 <= i < items.len() ==> T::fits(#[trigger] items[i])
}

/// What a reader of a list returned, modelled.
pub open spec fn items_at<T: Wire>(r: Result<(Vec<T>, &[u8]), WireError>) -> Parsed<
    Seq<T::Model>,
> {
    match r {
        Ok((items, rest)) => Ok((models(items@), rest@)),
        Err(e) => Err(e),
    }
}

pub fn put_items<T: Wire>(out: &mut Vec<u8>, items: &[T])
    ensures
        final(out)@ == old(out)@ + items_bytes::<T>(models(items@)),
{
    broadcast use lemma_append_associates;

    let ghost all = models(items@);
    let mut i: usize = 0;
    assert(all.skip(0) =~= all);
    while i < items.len()
        invariant
            i <= items.len(),
            all == models(items@),
            out@ + items_bytes::<T>(all.skip(i as int)) == old(out)@ + items_bytes::<T>(all),
        decreases items.len() - i,
    {
        assert(all.skip(i as int).skip(1) =~= all.skip(i + 1));
        items[i].put(out);
        i = i + 1;
    }
    assert(all.skip(i as int) =~= seq![]);
    assert(out@ + seq![] =~= out@);
}

pub fn put_list<T: Wire>(out: &mut Vec<u8>, items: &[T])
    ensures
        final(out)@ == old(out)@ + list_field::<T>(models(items@)),
{
    broadcast use lemma_append_associates;

    put_u32(
        out,
        #[verifier::truncate]
        (items.len() as u32),
    );
    put_items(out, items);
}

/// `acc` in front of the items of a parse.
spec fn after<T: Wire>(acc: Seq<T::Model>, p: Parsed<Seq<T::Model>>) -> Parsed<Seq<T::Model>> {
    match p {
        Err(e) => Err(e),
        Ok((items, rest)) => Ok((acc + items, rest)),
    }
}

pub fn take_items<T: Wire>(count: u32, buf: &[u8]) -> (r: Result<(Vec<T>, &[u8]), WireError>)
    ensures
        items_at(r) == parse_items::<T>(count as nat, buf@),
{
    let mut items: Vec<T> = Vec::new();
    let mut rest: &[u8] = buf;
    let mut i: u32 = 0;
    let ghost whole = parse_items::<T>(count as nat, buf@);
    proof {
        assert(models(items@) =~= seq![]);
        if let Ok((all, r)) = whole {
            assert(Seq::<T::Model>::empty() + all =~= all);
        }
    }
    while i < count
        invariant
            i <= count,
            whole == parse_items::<T>(count as nat, buf@),
            whole == after::<T>(models(items@), parse_items::<T>((count - i) as nat, rest@)),
        decreases count - i,
    {
        match T::take(rest) {
            Err(e) => {
                return Err(e);
            },
            Ok((item, tail)) => {
                let ghost before = models(items@);
                let ghost m = item.model();
                items.push(item);
                assert(models(items@) =~= before + seq![m]);
                proof {
                    if let Ok((more, end)) = parse_items::<T>((count - i - 1) as nat, tail@) {
                        lemma_append_associates(before, seq![m], more);
                    }
                }
                rest = tail;
                i = i + 1;
            },
        }
    }
    assert(models(items@) + seq![] =~= models(items@));
    Ok((items, rest))
}

pub fn take_list<T: Wire>(buf: &[u8]) -> (r: Result<(Vec<T>, &[u8]), WireError>)
    ensures
        items_at(r) == parse_list::<T>(buf@),
{
    match take_u32(buf) {
        Err(e) => Err(e),
        Ok((count, rest)) => take_items::<T>(count, rest),
    }
}

/// Reading as many items as were written gives them back.
pub proof fn lemma_items_round_trip<T: Wire>(items: Seq<T::Model>, rest: Seq<u8>)
    requires
        all_fit::<T>(items),
    ensures
        parse_items::<T>(items.len(), items_bytes::<T>(items) + rest) == Ok::<
            (Seq<T::Model>, Seq<u8>),
            WireError,
        >((items, rest)),
    decreases items.len(),
{
    broadcast use lemma_append_associates;

    if items.len() == 0 {
        assert(items =~= seq![]);
        assert(Seq::<u8>::empty() + rest =~= rest);
    } else {
        let tail = items.skip(1);
        assert(all_fit::<T>(tail)) by {
            assert forall|i: int| 0 <= i < tail.len() implies T::fits(#[trigger] tail[i]) by {
                assert(tail[i] == items[i + 1]);
            }
        }
        lemma_items_round_trip::<T>(tail, rest);
        T::lemma_round_trip(items[0], items_bytes::<T>(tail) + rest);
        assert(seq![items[0]] + tail =~= items);
    }
}

pub proof fn lemma_list_round_trip<T: Wire>(items: Seq<T::Model>, rest: Seq<u8>)
    requires
        all_fit::<T>(items),
        items.len() <= u32::MAX,
    ensures
        parse_list::<T>(list_field::<T>(items) + rest) == Ok::<
            (Seq<T::Model>, Seq<u8>),
            WireError,
        >((items, rest)),
{
    broadcast use {lemma_append_associates, lemma_parse_u32};

    lemma_items_round_trip::<T>(items, rest);
}

impl Wire for DatumId {
    type Model = DatumId;

    open spec fn model(self) -> DatumId {
        self
    }

    open spec fn bytes_of(m: DatumId) -> Seq<u8> {
        m.bytes()
    }

    open spec fn parse(s: Seq<u8>) -> Parsed<DatumId> {
        parse_id(s)
    }

    open spec fn fits(m: DatumId) -> bool {
        true
    }

    fn put(&self, out: &mut Vec<u8>) {
        put_id(out, *self);
    }

    fn take(buf: &[u8]) -> (r: Result<(Self, &[u8]), WireError>) {
        take_id(buf)
    }

    proof fn lemma_round_trip(m: DatumId, rest: Seq<u8>) {
        lemma_parse_id(m, rest);
    }
}

proof fn lemma_read_id_items(count: nat, s: Seq<u8>)
    ensures
        parse_items::<DatumId>(count, s) matches Ok((ids, rest)) ==> ids.len() == count && s
            == items_bytes::<DatumId>(ids) + rest,
    decreases count,
{
    broadcast use lemma_append_associates;

    if count == 0 {
        assert(items_bytes::<DatumId>(seq![]) + s =~= s);
    } else {
        lemma_read_id(s);
        if let Ok((id, rest)) = parse_id(s) {
            lemma_read_id_items((count - 1) as nat, rest);
            if let Ok((ids, _)) = parse_items::<DatumId>((count - 1) as nat, rest) {
                assert((seq![id] + ids).skip(1) =~= ids);
            }
        }
    }
}

/// What was read is what stood there.
pub proof fn lemma_read_ids(s: Seq<u8>)
    ensures
        parse_list::<DatumId>(s) matches Ok((ids, rest)) ==> s == list_field::<DatumId>(ids) + rest
            && ids.len() <= u32::MAX,
{
    broadcast use lemma_append_associates;

    lemma_read_integers(s);
    if let Ok((count, rest)) = parse_u32(s) {
        lemma_read_id_items(count as nat, rest);
    }
}

/// An id with its replication factor.
impl Wire for (DatumId, u16) {
    type Model = (DatumId, u16);

    open spec fn model(self) -> (DatumId, u16) {
        self
    }

    open spec fn bytes_of(m: (DatumId, u16)) -> Seq<u8> {
        m.0.bytes() + le16(m.1)
    }

    open spec fn parse(s: Seq<u8>) -> Parsed<(DatumId, u16)> {
        match parse_id(s) {
            Err(e) => Err(e),
            Ok((id, rest)) => match parse_u16(rest) {
                Err(e) => Err(e),
                Ok((n, rest)) => Ok(((id, n), rest)),
            },
        }
    }

    open spec fn fits(m: (DatumId, u16)) -> bool {
        true
    }

    fn put(&self, out: &mut Vec<u8>) {
        broadcast use lemma_append_associates;

        put_id(out, self.0);
        put_u16(out, self.1);
    }

    fn take(buf: &[u8]) -> (r: Result<(Self, &[u8]), WireError>) {
        match take_id(buf) {
            Err(e) => Err(e),
            Ok((id, rest)) => match take_u16(rest) {
                Err(e) => Err(e),
                Ok((n, rest)) => Ok(((id, n), rest)),
            },
        }
    }

    proof fn lemma_round_trip(m: (DatumId, u16), rest: Seq<u8>) {
        broadcast use {lemma_append_associates, lemma_parse_id, lemma_parse_u16};

    }
}

} // verus!
