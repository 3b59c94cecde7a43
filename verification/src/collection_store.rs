//! Ordered collections on storage nodes: which operation of a tree a request
//! stands for, and what its result is answered with.
//!
//! A tree is in ascending order, worst first. Clients look at a collection best
//! first: their forward is the tree's backward.

use crate::bytes::copy_of;
use crate::datum::DatumId;
use crate::store_wire::optional_bytes;
use crate::text::{copy_text, hex, id_text, push_hex, push_id};
use vstd::prelude::*;
use vstd::string::*;

verus! {

/// The page size of a collection's file.
pub const COLLECTION_PAGE_SIZE: u32 = 4096;

/// A request for a collection.
#[derive(Debug, PartialEq, Eq)]
pub enum CollectionRequest {
    /// Makes the collection, unless it is there.
    Create { collection_id: DatumId, key_size: u32, value_size: u32 },
    Insert { collection_id: DatumId, key: Vec<u8>, value: Vec<u8> },
    Remove { collection_id: DatumId, key: Vec<u8> },
    Get { collection_id: DatumId, key: Vec<u8> },
    /// The best, best first.
    ScanForward { collection_id: DatumId, limit: u32 },
    /// The worst, worst first.
    ScanBackward { collection_id: DatumId, limit: u32 },
    Sample { collection_id: DatumId, k: u32 },
    /// How many keys are worse.
    RankOfKey { collection_id: DatumId, key: Vec<u8> },
    ScanFromRank { collection_id: DatumId, rank: u64, limit: u32 },
    Count { collection_id: DatumId },
}

/// An operation of a tree.
#[derive(Debug, PartialEq, Eq)]
pub enum TreeCall {
    /// Nothing: it is enough that the tree is open.
    Nothing,
    Insert { key: Vec<u8>, value: Vec<u8> },
    Remove { key: Vec<u8> },
    /// Every entry, in ascending order.
    Everything,
    ScanForwardBounded { limit: u32 },
    ScanBackwardBounded { limit: u32 },
    SampleByRank { k: u32 },
    RankOfKey { key: Vec<u8> },
    ScanFromRank { rank: u64, limit: u32 },
    Len,
}

/// What an operation of a tree gives.
#[derive(Debug, PartialEq, Eq)]
pub enum TreeReply {
    Done,
    Entries(Vec<(Vec<u8>, Vec<u8>)>),
    Rank(Option<u64>),
    Len(u64),
    Failed(String),
}

/// The answer to a request for a collection.
#[derive(Debug, PartialEq, Eq)]
pub enum CollectionReply {
    Ack,
    Entry { value: Option<Vec<u8>> },
    Entries { entries: Vec<(Vec<u8>, Vec<u8>)> },
    Rank { rank: Option<u64> },
    Count { total: u64 },
    Error { message: String },
}

impl CollectionRequest {
    /// The collection that a request is for.
    pub fn collection_id(&self) -> (id: DatumId)
        ensures
            id == self.subject(),
    {
        match self {
            CollectionRequest::Create { collection_id, .. } => *collection_id,
            CollectionRequest::Insert { collection_id, .. } => *collection_id,
            CollectionRequest::Remove { collection_id, .. } => *collection_id,
            CollectionRequest::Get { collection_id, .. } => *collection_id,
            CollectionRequest::ScanForward { collection_id, .. } => *collection_id,
            CollectionRequest::ScanBackward { collection_id, .. } => *collection_id,
            CollectionRequest::Sample { collection_id, .. } => *collection_id,
            CollectionRequest::RankOfKey { collection_id, .. } => *collection_id,
            CollectionRequest::ScanFromRank { collection_id, .. } => *collection_id,
            CollectionRequest::Count { collection_id } => *collection_id,
        }
    }

    pub open spec fn subject(self) -> DatumId {
        match self {
            CollectionRequest::Create { collection_id, .. } => collection_id,
            CollectionRequest::Insert { collection_id, .. } => collection_id,
            CollectionRequest::Remove { collection_id, .. } => collection_id,
            CollectionRequest::Get { collection_id, .. } => collection_id,
            CollectionRequest::ScanForward { collection_id, .. } => collection_id,
            CollectionRequest::ScanBackward { collection_id, .. } => collection_id,
            CollectionRequest::Sample { collection_id, .. } => collection_id,
            CollectionRequest::RankOfKey { collection_id, .. } => collection_id,
            CollectionRequest::ScanFromRank { collection_id, .. } => collection_id,
            CollectionRequest::Count { collection_id } => collection_id,
        }
    }
}

/// The name of a collection's file.
pub open spec fn collection_file(id: DatumId) -> Seq<char> {
    "collection_"@ + hex(id.bytes()) + ".btree"@
}

/// The name of a collection's file.
pub fn collection_file_name(collection_id: DatumId) -> (name: String)
    ensures
        name@ == collection_file(collection_id),
{
    let bytes: [u8; 16] = collection_id.as_bytes();
    let b = vstd::array::array_as_slice(&bytes);
    let mut name = copy_text("collection_");
    push_hex(&mut name, b, 0, 16);
    assert(b@.subrange(0, 16) =~= collection_id.bytes());
    name.append(".btree");
    name
}

/// How the tree of a collection is come by.
#[derive(Debug, PartialEq, Eq)]
pub enum OpenPlan {
    /// It is open.
    Resident,
    /// Its file is opened.
    Open,
    /// Its file is made.
    Create { page_size: u32, key_size: u32, value_size: u32 },
    /// There is no such collection.
    Missing(String),
}

/// Why a collection cannot be used.
pub open spec fn no_collection_text(id: DatumId) -> Seq<char> {
    "collection DatumId("@ + id_text(id) + ") does not exist"@
}

/// Whether the tree for a request is come by as it should be.
pub open spec fn comes_by(
    request: CollectionRequest,
    resident: bool,
    on_disk: bool,
    plan: OpenPlan,
) -> bool {
    match plan {
        OpenPlan::Resident => resident,
        OpenPlan::Open => !resident && on_disk,
        OpenPlan::Create { page_size, key_size, value_size } => !resident && !on_disk && page_size
            == COLLECTION_PAGE_SIZE && (request matches CollectionRequest::Create {
            key_size: k,
            value_size: v,
            ..
        } && k == key_size && v == value_size),
        OpenPlan::Missing(message) => !resident && !on_disk && !(request is Create) && message@
            == no_collection_text(request.subject()),
    }
}

/// Says how the tree for a request is come by. Only a request to make a
/// collection makes one.
pub fn plan_open(request: &CollectionRequest, resident: bool, on_disk: bool) -> (plan: OpenPlan)
    ensures
        comes_by(*request, resident, on_disk, plan),
        (match plan {
            OpenPlan::Resident => resident,
            OpenPlan::Open => !resident && on_disk,
            OpenPlan::Create { page_size, key_size, value_size } => !resident && !on_disk
                && page_size == COLLECTION_PAGE_SIZE && (request matches CollectionRequest::Create {
                key_size: k,
                value_size: v,
                ..
            } && k == key_size && v == value_size),
            OpenPlan::Missing(message) => !resident && !on_disk && !(request is Create) && message@
                == no_collection_text(request.subject()),
        }),
{
    if resident {
        return OpenPlan::Resident;
    }
    if on_disk {
        return OpenPlan::Open;
    }
    match request {
        CollectionRequest::Create { key_size, value_size, .. } => OpenPlan::Create {
            page_size: COLLECTION_PAGE_SIZE,
            key_size: *key_size,
            value_size: *value_size,
        },
        _ => {
            let mut text = copy_text("collection DatumId(");
            push_id(&mut text, request.collection_id());
            text.append(") does not exist");
            OpenPlan::Missing(text)
        },
    }
}

/// Whether an operation is the one that a request stands for.
pub open spec fn stands_for(request: CollectionRequest, call: TreeCall) -> bool {
    match request {
        CollectionRequest::Create { .. } => call is Nothing,
        CollectionRequest::Insert { key, value, .. } => call matches TreeCall::Insert {
            key: k,
            value: v,
        } && k@ == key@ && v@ == value@,
        CollectionRequest::Remove { key, .. } => call matches TreeCall::Remove { key: k } && k@
            == key@,
        CollectionRequest::Get { .. } => call is Everything,
        CollectionRequest::ScanForward { limit, .. } => call == (TreeCall::ScanBackwardBounded {
            limit,
        }),
        CollectionRequest::ScanBackward { limit, .. } => call == (TreeCall::ScanForwardBounded {
            limit,
        }),
        CollectionRequest::Sample { k, .. } => call == (TreeCall::SampleByRank { k }),
        CollectionRequest::RankOfKey { key, .. } => call matches TreeCall::RankOfKey { key: k }
            && k@ == key@,
        CollectionRequest::ScanFromRank { rank, limit, .. } => call == (TreeCall::ScanFromRank {
            rank,
            limit,
        }),
        CollectionRequest::Count { .. } => call is Len,
    }
}

/// The operation of a tree that a request stands for.
pub fn tree_call(request: &CollectionRequest) -> (call: TreeCall)
    ensures
        stands_for(*request, call),
{
    match request {
        CollectionRequest::Create { .. } => TreeCall::Nothing,
        CollectionRequest::Insert { key, value, .. } => TreeCall::Insert {
            key: copy_of(key.as_slice()),
            value: copy_of(value.as_slice()),
        },
        CollectionRequest::Remove { key, .. } => TreeCall::Remove { key: copy_of(key.as_slice()) },
        CollectionRequest::Get { .. } => TreeCall::Everything,
        CollectionRequest::ScanForward { limit, .. } => TreeCall::ScanBackwardBounded {
            limit: *limit,
        },
        CollectionRequest::ScanBackward { limit, .. } => TreeCall::ScanForwardBounded {
            limit: *limit,
        },
        CollectionRequest::Sample { k, .. } => TreeCall::SampleByRank { k: *k },
        CollectionRequest::RankOfKey { key, .. } => TreeCall::RankOfKey {
            key: copy_of(key.as_slice()),
        },
        CollectionRequest::ScanFromRank { rank, limit, .. } => TreeCall::ScanFromRank {
            rank: *rank,
            limit: *limit,
        },
        CollectionRequest::Count { .. } => TreeCall::Len,
    }
}

/// The value of the first entry with a key.
pub open spec fn first_with(entries: Seq<(Vec<u8>, Vec<u8>)>, key: Seq<u8>) -> Option<Seq<u8>>
    decreases entries.len(),
{
    if entries.len() == 0 {
        None
    } else if entries[0].0@ == key {
        Some(entries[0].1@)
    } else {
        first_with(entries.skip(1), key)
    }
}

fn same_bytes(a: &Vec<u8>, b: &Vec<u8>) -> (same: bool)
    ensures
        same == (a@ == b@),
{
    if a.len() != b.len() {
        return false;
    }
    let mut i: usize = 0;
    while i < a.len()
        invariant
            i <= a.len(),
            a.len() == b.len(),
            forall|j: int| 0 <= j < i ==> a@[j] == b@[j],
        decreases a.len() - i,
    {
        if a[i] != b[i] {
            return false;
        }
        i = i + 1;
    }
    assert(a@ =~= b@);
    true
}

fn find(entries: &Vec<(Vec<u8>, Vec<u8>)>, key: &Vec<u8>) -> (value: Option<Vec<u8>>)
    ensures
        optional_bytes(value) == first_with(entries@, key@),
{
    let mut i: usize = 0;
    assert(entries@.skip(0) =~= entries@);
    while i < entries.len()
        invariant
            i <= entries.len(),
            first_with(entries@, key@) == first_with(entries@.skip(i as int), key@),
        decreases entries.len() - i,
    {
        assert(entries@.skip(i as int).skip(1) =~= entries@.skip(i + 1));
        if same_bytes(&entries[i].0, key) {
            return Some(copy_of(entries[i].1.as_slice()));
        }
        i = i + 1;
    }
    None
}

/// Whether an answer is the right one to what an operation gave.
pub open spec fn answers(request: CollectionRequest, reply: TreeReply, answer: CollectionReply) -> bool {
    match reply {
        TreeReply::Failed(message) => answer == (CollectionReply::Error { message }),
        TreeReply::Done => answer is Ack,
        TreeReply::Entries(entries) => match request {
            CollectionRequest::Get { key, .. } => answer matches CollectionReply::Entry { value }
                && optional_bytes(value) == first_with(entries@, key@),
            _ => answer == (CollectionReply::Entries { entries }),
        },
        TreeReply::Rank(rank) => answer == (CollectionReply::Rank { rank }),
        TreeReply::Len(total) => answer == (CollectionReply::Count { total }),
    }
}

/// Answers a request with what the operation gave that it stands for.
pub fn collection_reply(request: &CollectionRequest, reply: TreeReply) -> (answer: CollectionReply)
    ensures
        answers(*request, reply, answer),
{
    match reply {
        TreeReply::Failed(message) => CollectionReply::Error { message },
        TreeReply::Done => CollectionReply::Ack,
        TreeReply::Entries(entries) => match request {
            CollectionRequest::Get { key, .. } => CollectionReply::Entry {
                value: find(&entries, key),
            },
            _ => CollectionReply::Entries { entries },
        },
        TreeReply::Rank(rank) => CollectionReply::Rank { rank },
        TreeReply::Len(total) => CollectionReply::Count { total },
    }
}

} // verus!
