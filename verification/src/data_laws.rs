//! What holds of the data that workers and storage nodes handle: of copies and
//! staged writes, of indexes and collections, and of how ids are written.

use crate::authority::NodeId;
use crate::cache::CacheModel;
use crate::collection_store::{
    answers, collection_file, comes_by, stands_for, CollectionReply, CollectionRequest, OpenPlan,
    TreeCall, TreeReply,
};
use crate::context::{lists_staged, ContextModel};
use crate::datum::{law_id_bytes, DatumId};
use crate::index_handler::{
    opened, updated, used, IndexCall, IndexKind, IndexOpening, ResidentIndex, UpdateModel,
};
use crate::registry::outcome_of;
use crate::ring::{home, Slot};
use crate::store::{lookup, replay, StoreCall};
use crate::text::{decimal, digit, hex, id_text};
use vstd::prelude::*;

verus! {

// ---- copies ----

/// Whether every copy that a cache has is what its store holds, where the store
/// started empty and nobody else calls it.
pub open spec fn coherent(c: CacheModel) -> bool {
    forall|k: u128| #[trigger]
        c.entries.contains_key(k) ==> replay(c.calls).contains_key(k) && replay(c.calls)[k]
            == c.entries[k]
}

/// A cache in front of a store that is its own never has a copy that differs from
/// what the store holds, whatever is done with it. A read returns what the store
/// holds and changes nothing there; a write or a deletion is in the store when it
/// returns, and touches no other datum.
pub proof fn law_copies_agree_with_the_store(
    c: CacheModel,
    id: DatumId,
    content: Seq<u8>,
    n: u16,
    slots: Seq<Slot>,
    node: NodeId,
    other: u128,
)
    requires
        coherent(c),
        other != id.rank(),
    ensures
        coherent(c.after_put(id, content, n)),
        coherent(c.after_delete(id, n)),
        coherent(c.after_get(id, n, lookup(replay(c.calls), id))),
        coherent(c.without(id)),
        coherent(c.at_home(slots, node)),
        c.entries.contains_key(id.rank()) ==> lookup(c.entries, id) == lookup(replay(c.calls), id),
        replay(c.after_get(id, n, lookup(replay(c.calls), id)).calls) == replay(c.calls),
        lookup(replay(c.calls), id) is Some ==> c.after_get(
            id,
            n,
            lookup(replay(c.calls), id),
        ).entries.contains_key(id.rank()),
        replay(c.after_put(id, content, n).calls).contains_pair(id.rank(), content),
        !replay(c.after_delete(id, n).calls).contains_key(id.rank()),
        !c.after_delete(id, n).entries.contains_key(id.rank()),
        replay(c.after_put(id, content, n).calls).contains_key(other) == replay(
            c.calls,
        ).contains_key(other),
        replay(c.after_put(id, content, n).calls)[other] == replay(c.calls)[other],
        replay(c.after_delete(id, n).calls).contains_key(other) == replay(c.calls).contains_key(
            other,
        ),
        replay(c.after_delete(id, n).calls)[other] == replay(c.calls)[other],
{
    let put = StoreCall::Put { id, content, previous: lookup(c.entries, id), n };
    assert(c.calls.push(put).drop_last() =~= c.calls);
    assert(c.calls.push(put).last() == put);
    let delete = StoreCall::Delete { id, n };
    assert(c.calls.push(delete).drop_last() =~= c.calls);
    assert(c.calls.push(delete).last() == delete);
    let get = StoreCall::Get { id, n, found: lookup(replay(c.calls), id) };
    assert(c.calls.push(get).drop_last() =~= c.calls);
    assert(c.calls.push(get).last() == get);
}

/// Of the copies exactly those stay whose datum is at home on a node, as they are,
/// and the store is not called.
pub proof fn law_only_copies_at_home_stay(
    c: CacheModel,
    slots: Seq<Slot>,
    node: NodeId,
    id: DatumId,
)
    ensures
        c.at_home(slots, node).entries.contains_key(id.rank()) <==> c.entries.contains_key(
            id.rank(),
        ) && home(slots, id).0 == node,
        c.at_home(slots, node).entries.contains_key(id.rank()) ==> c.at_home(
            slots,
            node,
        ).entries[id.rank()] == c.entries[id.rank()],
        c.at_home(slots, node).calls == c.calls,
{
    law_id_bytes(id, id, Seq::new(16, |i: int| 0u8));
}

/// A copy that is there is read without a call of the store, and one that is not
/// costs exactly one call, for that datum.
pub proof fn law_reads_call_the_store_once(
    c: CacheModel,
    id: DatumId,
    n: u16,
    found: Option<Seq<u8>>,
)
    ensures
        c.entries.contains_key(id.rank()) ==> c.after_get(id, n, found) == c,
        !c.entries.contains_key(id.rank()) ==> c.after_get(id, n, found).calls == c.calls.push(
            StoreCall::Get { id, n, found },
        ),
        found matches Some(content) ==> (!c.entries.contains_key(id.rank()) ==> c.after_get(
            id,
            n,
            found,
        ).entries == c.entries.insert(id.rank(), content)),
        found is None ==> c.after_get(id, n, found).entries == c.entries,
{
}

// ---- staged writes ----

/// Of several writes of a datum the last one counts, and a write of one datum
/// changes what is read of no other.
pub proof fn law_last_write_counts(
    c: ContextModel,
    id: DatumId,
    first: Option<Seq<u8>>,
    n: u16,
    second: Option<Seq<u8>>,
    m: u16,
    other: DatumId,
    found: Option<Seq<u8>>,
)
    requires
        other.rank() != id.rank(),
    ensures
        c.with(id, first, n).with(id, second, m) == c.with(id, second, m),
        c.with(id, first, n).reads(other, found) == c.reads(other, found),
        c.with(id, first, n).after_get(other, m, found) == c.after_get(other, m, found).with(
            id,
            first,
            n,
        ),
        c.with(id, first, n).index_updates == c.index_updates,
        c.with(id, first, n).exists_checks == c.exists_checks,
{
    assert(c.with(id, first, n).with(id, second, m).staged =~= c.with(id, second, m).staged);
}

/// Everything that was staged is handed out to be written, once, as it was last
/// staged, and nothing else is.
pub proof fn law_staged_writes_are_handed_out(
    c: ContextModel,
    id: DatumId,
    content: Option<Seq<u8>>,
    n: u16,
    writes: Seq<(DatumId, Option<Seq<u8>>, u16)>,
    i: int,
)
    requires
        lists_staged(c.with(id, content, n).staged, writes),
    ensures
        exists|j: int| 0 <= j < writes.len() && #[trigger] writes[j] == (id, content, n),
        0 <= i < writes.len() && writes[i].0 != id ==> c.staged.contains_pair(
            writes[i].0.rank(),
            (writes[i].1, writes[i].2),
        ),
        0 <= i < writes.len() && writes[i].0 == id ==> writes[i] == (id, content, n),
{
    let staged = c.with(id, content, n).staged;
    assert(staged.contains_key(id.rank()));
    let j = choose|j: int| 0 <= j < writes.len() && (#[trigger] writes[j]).0.rank() == id.rank();
    let zeros = Seq::new(16, |i: int| 0u8);
    law_id_bytes(writes[j].0, id, zeros);
    assert(writes[j] == (id, content, n));
    if 0 <= i < writes.len() {
        law_id_bytes(writes[i].0, id, zeros);
    }
}

// ---- indexes ----

/// An index that is open is not opened again: it has one call more, and neither the
/// cache nor any other index is touched.
pub proof fn law_open_index_stays_open<R: ResidentIndex, K: IndexKind<Resident = R>>(
    kinds: Map<Seq<char>, K>,
    before: Map<u128, R>,
    c: CacheModel,
    target: DatumId,
    kind: Seq<char>,
    call: IndexCall,
    result: Result<Seq<u8>, Seq<char>>,
    after: Map<u128, R>,
    d: CacheModel,
    other: u128,
)
    requires
        before.contains_key(target.rank()),
        used(kinds, before, c, target, kind, call, result, after, d),
        other != target.rank(),
    ensures
        d == c,
        after.contains_key(target.rank()),
        after[target.rank()].calls() == before[target.rank()].calls().push(call),
        after.contains_key(other) == before.contains_key(other),
        before.contains_key(other) ==> after[other] == before[other],
{
    let (r, mid) = choose|r: Result<(), Seq<char>>, mid: Map<u128, R>|
        {
            &&& #[trigger] opened(kinds, before, c, target, kind, r, mid, d)
            &&& match r {
                Ok(()) => crate::index_handler::called(mid, after, target, call),
                Err(e) => after == mid && result == Err::<Seq<u8>, Seq<char>>(e),
            }
        };
    assert(after == before.insert(target.rank(), after[target.rank()]));
}

/// An index that is not open is opened by its kind, from what the cache has for its
/// datum, and then has this one call. An index of a kind that nobody knows is not
/// opened, and nothing is touched.
pub proof fn law_index_is_opened_for_a_call<R: ResidentIndex, K: IndexKind<Resident = R>>(
    kinds: Map<Seq<char>, K>,
    before: Map<u128, R>,
    c: CacheModel,
    target: DatumId,
    kind: Seq<char>,
    payload: Seq<u8>,
    result: Result<UpdateModel, Seq<char>>,
    after: Map<u128, R>,
    d: CacheModel,
    other: u128,
)
    requires
        !before.contains_key(target.rank()),
        updated(kinds, before, c, target, kind, payload, result, after, d),
        other != target.rank(),
    ensures
        after.contains_key(other) == before.contains_key(other),
        before.contains_key(other) ==> after[other] == before[other],
        !kinds.contains_key(kind) ==> result is Err && after == before && d == c,
        result matches Ok(o) ==> kinds.contains_key(kind) && after.contains_key(target.rank())
            && after[target.rank()].calls() == seq![
            IndexCall::Apply { payload, violation: o.violation, write_through: o.write_through },
        ],
        result matches Err(e) ==> after == before && (kinds.contains_key(kind) ==> exists|
            stored: Option<Seq<u8>>,
        |
            #[trigger] c.after_get(target, 1, stored) == d && (c.entries.contains_key(target.rank())
                ==> stored == lookup(c.entries, target)) && kinds[kind].can_open(
                (IndexOpening { target, stored, opened: Err(e) }),
            )),
        c.entries.contains_key(target.rank()) ==> d == c,
{
    let (r, mid) = choose|r: Result<(), Seq<char>>, mid: Map<u128, R>|
        {
            &&& #[trigger] opened(kinds, before, c, target, kind, r, mid, d)
            &&& match (r, result) {
                (Ok(()), Ok(o)) => crate::index_handler::called(
                    mid,
                    after,
                    target,
                    IndexCall::Apply {
                        payload,
                        violation: o.violation,
                        write_through: o.write_through,
                    },
                ),
                (Err(e), Err(message)) => after == mid && message == e,
                _ => false,
            }
        };
    if let Ok(o) = result {
        let call = IndexCall::Apply {
            payload,
            violation: o.violation,
            write_through: o.write_through,
        };
        assert(after == mid.insert(target.rank(), after[target.rank()]));
        assert(mid == before.insert(target.rank(), mid[target.rank()]));
        assert(after[target.rank()].calls() =~= seq![call]);
    }
}

/// An op that returned bytes has succeeded with them, and one that came to grief
/// has failed.
pub proof fn law_op_outcome(name: Seq<char>, bytes: Seq<u8>)
    ensures
        outcome_of(name, Some(bytes)) == Ok::<Seq<u8>, Seq<char>>(bytes),
        outcome_of(name, None) is Err,
{
}

// ---- collections ----

/// Whether a reply is what a tree with some entries, in ascending order, gives for
/// an operation that reads it.
pub open spec fn tree_gives(
    tree: Seq<(Vec<u8>, Vec<u8>)>,
    call: TreeCall,
    reply: TreeReply,
) -> bool {
    match call {
        TreeCall::Everything => reply matches TreeReply::Entries(e) && e@ == tree,
        TreeCall::ScanForwardBounded { limit } => reply matches TreeReply::Entries(e) && e@
            == tree.take(if limit < tree.len() {
            limit as int
        } else {
            tree.len() as int
        }),
        TreeCall::ScanBackwardBounded { limit } => reply matches TreeReply::Entries(e) && e@
            == tree.reverse().take(if limit < tree.len() {
            limit as int
        } else {
            tree.len() as int
        }),
        TreeCall::Len => reply matches TreeReply::Len(n) && n == tree.len(),
        _ => true,
    }
}

/// Clients look at a collection best first: a forward scan gives them the last
/// entries of the tree, last first, and a backward scan the first, first first. A
/// lookup finds the value that the tree has for a key, and nothing where it has
/// none. The count is that of the entries.
pub proof fn law_clients_see_the_best_first(
    tree: Seq<(Vec<u8>, Vec<u8>)>,
    request: CollectionRequest,
    call: TreeCall,
    reply: TreeReply,
    answer: CollectionReply,
    i: int,
)
    requires
        stands_for(request, call),
        tree_gives(tree, call, reply),
        answers(request, reply, answer),
    ensures
        request matches CollectionRequest::ScanForward { limit, .. } ==> (
        answer matches CollectionReply::Entries { entries } && entries@.len() == (if limit
            < tree.len() {
            limit as nat
        } else {
            tree.len()
        }) && (0 <= i < entries@.len() ==> entries@[i] == tree[tree.len() - 1 - i])),
        request matches CollectionRequest::ScanBackward { limit, .. } ==> (
        answer matches CollectionReply::Entries { entries } && entries@.len() == (if limit
            < tree.len() {
            limit as nat
        } else {
            tree.len()
        }) && (0 <= i < entries@.len() ==> entries@[i] == tree[i])),
        request matches CollectionRequest::Get { key, .. } ==> (
        answer matches CollectionReply::Entry { value } && (value is None <==> forall|j: int|
            0 <= j < tree.len() ==> (#[trigger] tree[j]).0@ != key@) && (value matches Some(v)
            ==> exists|j: int|
            0 <= j < tree.len() && (#[trigger] tree[j]).0@ == key@ && tree[j].1@ == v@)),
        request is Count ==> (answer matches CollectionReply::Count { total } && total
            == tree.len()),
{
    if let CollectionRequest::Get { key, .. } = request {
        lemma_first_with(tree, key@);
    }
}

proof fn lemma_first_with(entries: Seq<(Vec<u8>, Vec<u8>)>, key: Seq<u8>)
    ensures
        ({
            let found = crate::collection_store::first_with(entries, key);
            &&& found is None <==> forall|j: int|
                0 <= j < entries.len() ==> (#[trigger] entries[j]).0@ != key
            &&& found matches Some(v) ==> exists|j: int|
                0 <= j < entries.len() && (#[trigger] entries[j]).0@ == key && entries[j].1@ == v
        }),
    decreases entries.len(),
{
    if entries.len() > 0 {
        let rest = entries.skip(1);
        lemma_first_with(rest, key);
        let found = crate::collection_store::first_with(entries, key);
        if entries[0].0@ != key {
            if found is None {
                assert forall|j: int| 0 <= j < entries.len() implies (#[trigger] entries[j]).0@
                    != key by {
                    if j > 0 {
                        assert(rest[j - 1] == entries[j]);
                    }
                }
            } else {
                let j = choose|j: int|
                    0 <= j < rest.len() && (#[trigger] rest[j]).0@ == key && rest[j].1@
                        == found.unwrap();
                assert(entries[j + 1] == rest[j]);
            }
        }
    }
}

/// A change of a collection reaches the tree with the key and the value that the
/// client gave, a question about a key with that key, and a scan from a rank with
/// that rank. What goes wrong is told as it is.
pub proof fn law_collection_requests_reach_the_tree(
    request: CollectionRequest,
    call: TreeCall,
    reply: TreeReply,
    answer: CollectionReply,
)
    requires
        stands_for(request, call),
        answers(request, reply, answer),
    ensures
        request matches CollectionRequest::Insert { key, value, .. } ==> (
        call matches TreeCall::Insert { key: k, value: v } && k@ == key@ && v@ == value@),
        request matches CollectionRequest::Remove { key, .. } ==> (call matches TreeCall::Remove {
            key: k,
        } && k@ == key@),
        request matches CollectionRequest::RankOfKey { key, .. } ==> (
        call matches TreeCall::RankOfKey { key: k } && k@ == key@),
        request matches CollectionRequest::ScanFromRank { rank, limit, .. } ==> (
        call matches TreeCall::ScanFromRank { rank: r, limit: l } && r == rank && l == limit),
        request matches CollectionRequest::Sample { k, .. } ==> (
        call matches TreeCall::SampleByRank { k: n } && n == k),
        reply matches TreeReply::Failed(m) ==> (answer matches CollectionReply::Error { message }
            && message@ == m@),
        reply matches TreeReply::Rank(r) ==> (answer matches CollectionReply::Rank { rank } && rank
            == r),
        reply is Done ==> answer is Ack,
        answer is Error ==> reply is Failed,
{
}

// ---- texts ----

proof fn lemma_digit(a: nat, b: nat)
    requires
        a < 16,
        b < 16,
        digit(a) == digit(b),
    ensures
        a == b,
{
}

/// Bytes can be told from their hexadecimal digits: there are two for each.
pub proof fn law_hex_tells_the_bytes(a: Seq<u8>, b: Seq<u8>)
    ensures
        hex(a).len() == 2 * a.len(),
        hex(a) == hex(b) ==> a == b,
    decreases a.len() + b.len(),
{
    if a.len() > 0 {
        law_hex_tells_the_bytes(a.drop_last(), b);
    }
    if b.len() > 0 {
        law_hex_tells_the_bytes(b.drop_last(), a);
        lemma_hex_len(b);
    }
    lemma_hex_len(a);
    if hex(a) == hex(b) && a.len() > 0 && b.len() > 0 {
        lemma_hex_len(a.drop_last());
        lemma_hex_len(b.drop_last());
        let n = hex(a).len() as int;
        assert(hex(a).take(n - 2) =~= hex(a.drop_last()));
        assert(hex(b).take(n - 2) =~= hex(b.drop_last()));
        law_hex_tells_the_bytes(a.drop_last(), b.drop_last());
        assert(hex(a)[n - 2] == hex(b)[n - 2] && hex(a)[n - 1] == hex(b)[n - 1]);
        let (x, y) = (a.last(), b.last());
        lemma_digit((x / 16) as nat, (y / 16) as nat);
        lemma_digit((x % 16) as nat, (y % 16) as nat);
        assert(x == y);
        assert(a =~= a.drop_last().push(x));
        assert(b =~= b.drop_last().push(y));
    } else if hex(a) == hex(b) {
        assert(a =~= b);
    }
}

proof fn lemma_hex_len(a: Seq<u8>)
    ensures
        hex(a).len() == 2 * a.len(),
    decreases a.len(),
{
    if a.len() > 0 {
        lemma_hex_len(a.drop_last());
    }
}

/// Different collections have different files.
pub proof fn law_collections_have_their_own_files(a: DatumId, b: DatumId)
    requires
        collection_file(a) == collection_file(b),
    ensures
        a == b,
{
    law_id_bytes(a, b, Seq::new(16, |i: int| 0u8));
    law_id_bytes(b, a, Seq::new(16, |i: int| 0u8));
    lemma_hex_len(a.bytes());
    lemma_hex_len(b.bytes());
    let start = "collection_"@.len() as int;
    assert(collection_file(a).subrange(start, start + 32) =~= hex(a.bytes()));
    assert(collection_file(b).subrange(start, start + 32) =~= hex(b.bytes()));
    law_hex_tells_the_bytes(a.bytes(), b.bytes());
}

/// Different ids are written differently.
#[verifier::spinoff_prover]
#[verifier::rlimit(60)]
pub proof fn law_ids_are_written_differently(a: DatumId, b: DatumId)
    requires
        id_text(a) == id_text(b),
    ensures
        a == b,
{
    reveal_strlit("-");
    law_id_bytes(a, b, Seq::new(16, |i: int| 0u8));
    law_id_bytes(b, a, Seq::new(16, |i: int| 0u8));
    lemma_id_parts(a);
    lemma_id_parts(b);
    let (x, y) = (a.bytes(), b.bytes());
    law_hex_tells_the_bytes(x.subrange(0, 4), y.subrange(0, 4));
    law_hex_tells_the_bytes(x.subrange(4, 6), y.subrange(4, 6));
    law_hex_tells_the_bytes(x.subrange(6, 8), y.subrange(6, 8));
    law_hex_tells_the_bytes(x.subrange(8, 10), y.subrange(8, 10));
    law_hex_tells_the_bytes(x.subrange(10, 16), y.subrange(10, 16));
    assert(x =~= x.subrange(0, 4) + x.subrange(4, 6) + x.subrange(6, 8) + x.subrange(8, 10)
        + x.subrange(10, 16));
    assert(y =~= y.subrange(0, 4) + y.subrange(4, 6) + y.subrange(6, 8) + y.subrange(8, 10)
        + y.subrange(10, 16));
}

#[verifier::spinoff_prover]
#[verifier::rlimit(60)]
proof fn lemma_id_parts(id: DatumId)
    requires
        id.bytes().len() == 16,
    ensures
        ({
            let b = id.bytes();
            let t = id_text(id);
            &&& t.len() == 36
            &&& t.subrange(0, 8) == hex(b.subrange(0, 4))
            &&& t.subrange(9, 13) == hex(b.subrange(4, 6))
            &&& t.subrange(14, 18) == hex(b.subrange(6, 8))
            &&& t.subrange(19, 23) == hex(b.subrange(8, 10))
            &&& t.subrange(24, 36) == hex(b.subrange(10, 16))
        }),
{
    reveal_strlit("-");
    let b = id.bytes();
    let t = id_text(id);
    lemma_hex_len(b.subrange(0, 4));
    lemma_hex_len(b.subrange(4, 6));
    lemma_hex_len(b.subrange(6, 8));
    lemma_hex_len(b.subrange(8, 10));
    lemma_hex_len(b.subrange(10, 16));
    assert(t.subrange(0, 8) =~= hex(b.subrange(0, 4)));
    assert(t.subrange(9, 13) =~= hex(b.subrange(4, 6)));
    assert(t.subrange(14, 18) =~= hex(b.subrange(6, 8)));
    assert(t.subrange(19, 23) =~= hex(b.subrange(8, 10)));
    assert(t.subrange(24, 36) =~= hex(b.subrange(10, 16)));
}

/// Different numbers are written differently.
pub proof fn law_numbers_are_written_differently(a: nat, b: nat)
    requires
        decimal(a) == decimal(b),
    ensures
        a == b,
    decreases a,
{
    lemma_decimal_len(a);
    lemma_decimal_len(b);
    let n = decimal(a).len() as int;
    assert(decimal(a)[n - 1] == decimal(b)[n - 1]);
    lemma_digit(a % 10, b % 10);
    if a >= 10 && b >= 10 {
        assert(decimal(a).take(n - 1) =~= decimal(a / 10));
        assert(decimal(b).take(n - 1) =~= decimal(b / 10));
        law_numbers_are_written_differently(a / 10, b / 10);
    } else if a >= 10 {
        lemma_decimal_len(a / 10);
    } else if b >= 10 {
        lemma_decimal_len(b / 10);
    }
}

proof fn lemma_decimal_len(a: nat)
    ensures
        decimal(a).len() > 0,
        decimal(a).last() == digit(a % 10),
    decreases a,
{
    if a >= 10 {
        lemma_decimal_len(a / 10);
    }
}

/// A collection is made only where it is asked for and is not there, with the sizes
/// that were asked for: one that is there, open or in its file, is never made anew.
/// Whatever else is asked of a collection that is not there is refused.
pub proof fn law_collections_are_made_once(
    request: CollectionRequest,
    resident: bool,
    on_disk: bool,
    plan: OpenPlan,
)
    requires
        comes_by(request, resident, on_disk, plan),
    ensures
        resident <==> plan is Resident,
        !resident && on_disk <==> plan is Open,
        plan is Create <==> !resident && !on_disk && request is Create,
        plan is Missing <==> !resident && !on_disk && !(request is Create),
        plan matches OpenPlan::Create { page_size, key_size, value_size } ==> page_size == 4096 && (
        request matches CollectionRequest::Create { key_size: k, value_size: v, .. } && k
            == key_size && v == value_size),
{
}

/// Every request names the collection that it is about.
pub proof fn law_requests_name_their_collection(
    id: DatumId,
    key: Vec<u8>,
    value: Vec<u8>,
    n: u32,
    rank: u64,
)
    ensures
        (CollectionRequest::Create { collection_id: id, key_size: n, value_size: n }).subject() == id,
        (CollectionRequest::Insert { collection_id: id, key, value }).subject() == id,
        (CollectionRequest::Remove { collection_id: id, key }).subject() == id,
        (CollectionRequest::Get { collection_id: id, key }).subject() == id,
        (CollectionRequest::ScanForward { collection_id: id, limit: n }).subject() == id,
        (CollectionRequest::ScanBackward { collection_id: id, limit: n }).subject() == id,
        (CollectionRequest::Sample { collection_id: id, k: n }).subject() == id,
        (CollectionRequest::RankOfKey { collection_id: id, key }).subject() == id,
        (CollectionRequest::ScanFromRank { collection_id: id, rank, limit: n }).subject() == id,
        (CollectionRequest::Count { collection_id: id }).subject() == id,
{
}

} // verus!
