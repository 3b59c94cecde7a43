//! A worker thread: the lock manager of the datums that have their home on it,
//! and the runner of the ops that were assigned to it.
//!
//! An op runs once it holds every datum it names. Until then it may lose datums
//! again to older ops, and asks anew for what it lost. See [`crate::message`]
//! for what goes in and out.

use crate::authority::{NodeId, ThreadId};
use crate::bytes::copy_of;
use crate::collation::{AcquireOutcome, LockModel, NativeLock, ReplyTo, Waiter};
use crate::context::{
    updates_view, write_view, writes_view, IndexUpdateModel, PendingIndexUpdate,
};
use crate::datum::{copy_ids, DatumId};
use crate::index_handler::{update_view, IndexApplyOutcome, UpdateModel};
use crate::maps::{ascending_wide, lemma_sorted_keys_unique, sorted_wide_keys};
use crate::message::{
    actions_view, put_action, result_view, Action, ActionModel, AfterCall, MessageModel,
    WorkerMessage,
};
use crate::request::{Request, RequestModel};
use crate::response::{optional_text, Response, ResponseModel};
use crate::ring::{home, Ring, Slot};
use crate::store_wire::optional_bytes;
use crate::text::{copy_text, decimal, id_text, push_decimal, push_id};
use std::collections::BTreeMap;
use vstd::prelude::*;
use vstd::string::*;

verus! {

broadcast use {vstd::std_specs::btree::group_btree_axioms, vstd::laws_cmp::group_laws_cmp};

/// How often a request for a datum on another node is made again. Each time its
/// home is looked up anew, so that a request follows the ring.
pub const MAX_ACQUIRE_RETRIES: u32 = 3;

// ---- models ----

/// What is left to do of an op that has run and waits for its index updates.
pub struct UpdatesModel {
    pub staged_writes: Seq<(DatumId, Option<Seq<u8>>, u16)>,
    pub op_result: Seq<u8>,
    /// How many answers are outstanding.
    pub pending: nat,
    /// The first refusal.
    pub violation: Option<Seq<char>>,
}

/// The ids other than one.
pub open spec fn without_id(ids: Seq<DatumId>, id: DatumId) -> Seq<DatumId> {
    ids.filter(|x: DatumId| x != id)
}

/// An op of a worker.
pub struct OpModel {
    pub op_name: Seq<char>,
    pub payload: Seq<u8>,
    /// The datums the op names, in the client's order.
    pub datum_ids: Seq<DatumId>,
    pub still_needed: Seq<DatumId>,
    pub acquired: Seq<DatumId>,
    pub reply: u64,
    pub updates: Option<UpdatesModel>,
}

impl OpModel {
    /// Every datum that the op names is held or asked for, and an op that waits
    /// for index updates waits for at least one.
    pub open spec fn wf(self) -> bool {
        &&& forall|i: int|
            0 <= i < self.datum_ids.len() ==> self.still_needed.contains(
                #[trigger] self.datum_ids[i],
            ) || self.acquired.contains(self.datum_ids[i])
        &&& self.updates matches Some(u) ==> u.pending > 0
    }

    /// Whether the op can run: nothing is missing, and it has not run.
    pub open spec fn ready(self) -> bool {
        self.still_needed.len() == 0 && self.updates is None
    }

    /// The op once it was granted a datum.
    pub open spec fn granted(self, id: DatumId) -> OpModel {
        OpModel {
            still_needed: without_id(self.still_needed, id),
            acquired: self.acquired.push(id),
            ..self
        }
    }

    /// The op once it has lost a datum.
    pub open spec fn wounded(self, id: DatumId) -> OpModel {
        OpModel {
            acquired: self.acquired.remove(self.acquired.index_of_first(id).unwrap()),
            still_needed: self.still_needed.push(id),
            ..self
        }
    }
}

/// The mathematical content of a [`Worker`]: its place, and the locks and the
/// ops by the rank of their ids.
pub struct WorkerModel {
    pub node: NodeId,
    pub thread: ThreadId,
    pub locks: Map<u128, LockModel>,
    pub ops: Map<u128, OpModel>,
}

/// A worker after a message, and what it wants done.
pub struct Step {
    pub worker: WorkerModel,
    pub actions: Seq<ActionModel>,
}

/// Whether `keys` are the keys of a map, in ascending order.
pub open spec fn keys_of<V>(m: Map<u128, V>, keys: Seq<u128>) -> bool {
    ascending_wide(keys) && forall|k: u128| #[trigger] keys.contains(k) <==> m.contains_key(k)
}

/// The keys of a map, in ascending order.
pub open spec fn sorted_dom<V>(m: Map<u128, V>) -> Seq<u128> {
    choose|keys: Seq<u128>| keys_of(m, keys)
}

/// The grant of a datum to whoever asked for it.
pub open spec fn grant_action(reply: ReplyTo, op_id: DatumId, datum_id: DatumId) -> ActionModel {
    match reply {
        ReplyTo::Thread(thread) => ActionModel::Send {
            thread,
            message: MessageModel::AcquireGranted { op_id, datum_id },
        },
        ReplyTo::Link { link, correlation_id } => ActionModel::Respond {
            link,
            correlation_id,
            response: ResponseModel::Granted,
        },
    }
}

/// The acknowledgement of a recall.
pub open spec fn recalled_action(reply: ReplyTo, datum_id: DatumId) -> ActionModel {
    match reply {
        ReplyTo::Thread(thread) => ActionModel::Send {
            thread,
            message: MessageModel::Release { datum_id },
        },
        ReplyTo::Link { link, correlation_id } => ActionModel::Respond {
            link,
            correlation_id,
            response: ResponseModel::Released,
        },
    }
}

/// The answer to an index update.
pub open spec fn updated_action(
    reply: ReplyTo,
    op_id: DatumId,
    target: DatumId,
    violation: Option<Seq<char>>,
) -> ActionModel {
    match reply {
        ReplyTo::Thread(thread) => ActionModel::Send {
            thread,
            message: MessageModel::IndexUpdateReplied { op_id, target, violation },
        },
        ReplyTo::Link { link, correlation_id } => ActionModel::Respond {
            link,
            correlation_id,
            response: ResponseModel::IndexUpdateResult { violation },
        },
    }
}

/// The staged writes of an op, one after the other.
pub open spec fn commit_actions(writes: Seq<(DatumId, Option<Seq<u8>>, u16)>) -> Seq<ActionModel> {
    Seq::new(
        writes.len(),
        |i: int| ActionModel::Write { id: writes[i].0, content: writes[i].1, n: writes[i].2 },
    )
}

/// Why an op failed that could not get a datum.
pub open spec fn acquire_failed_text(datum_id: DatumId) -> Seq<char> {
    "failed to acquire datum DatumId("@ + id_text(datum_id) + ") after "@ + decimal(
        MAX_ACQUIRE_RETRIES as nat,
    ) + " retries"@
}

impl WorkerModel {
    /// The ops are well-formed and so are the locks.
    pub open spec fn wf(self) -> bool {
        &&& forall|k: u128| #[trigger] self.locks.contains_key(k) ==> self.locks[k].wf()
        &&& forall|k: u128| #[trigger] self.ops.contains_key(k) ==> self.ops[k].wf()
    }

    /// The lock on a datum.
    pub open spec fn lock(self, id: DatumId) -> LockModel {
        if self.locks.contains_key(id.rank()) {
            self.locks[id.rank()]
        } else {
            LockModel::idle()
        }
    }

    pub open spec fn with_lock(self, id: DatumId, lock: LockModel) -> WorkerModel {
        WorkerModel { locks: self.locks.insert(id.rank(), lock), ..self }
    }

    pub open spec fn with_op(self, op_id: DatumId, op: OpModel) -> WorkerModel {
        WorkerModel { ops: self.ops.insert(op_id.rank(), op), ..self }
    }

    pub open spec fn without_op(self, op_id: DatumId) -> WorkerModel {
        WorkerModel { ops: self.ops.remove(op_id.rank()), ..self }
    }

    pub open spec fn has_op(self, op_id: DatumId) -> bool {
        self.ops.contains_key(op_id.rank())
    }

    pub open spec fn op(self, op_id: DatumId) -> OpModel {
        self.ops[op_id.rank()]
    }

    /// The request of an op for a datum, to the datum's home.
    pub open spec fn acquire_action(
        self,
        ring: Seq<Slot>,
        op_id: DatumId,
        datum_id: DatumId,
        retries_left: u32,
    ) -> ActionModel {
        let (node, thread) = home(ring, datum_id);
        if node == self.node {
            ActionModel::Send {
                thread,
                message: MessageModel::Acquire {
                    op_id,
                    datum_id,
                    requester_node: self.node,
                    requester_thread: self.thread,
                    reply: ReplyTo::Thread(self.thread),
                },
            }
        } else {
            ActionModel::Call {
                node,
                thread,
                request: RequestModel::Acquire {
                    op_id,
                    datum_id,
                    requester_node: self.node,
                    requester_thread: self.thread,
                },
                then: AfterCall::Acquire { op_id, datum_id, retries_left },
            }
        }
    }

    /// The requests of an op for datums, in order.
    pub open spec fn acquire_actions(
        self,
        ring: Seq<Slot>,
        op_id: DatumId,
        ids: Seq<DatumId>,
    ) -> Seq<ActionModel> {
        Seq::new(
            ids.len(),
            |i: int| self.acquire_action(ring, op_id, ids[i], MAX_ACQUIRE_RETRIES),
        )
    }

    /// The return of a datum to its home. The copy here goes first.
    pub open spec fn release_action(self, ring: Seq<Slot>, id: DatumId) -> Seq<ActionModel> {
        let (node, thread) = home(ring, id);
        seq![
            ActionModel::Invalidate { id },
            if node == self.node {
                ActionModel::Send { thread, message: MessageModel::Release { datum_id: id } }
            } else {
                ActionModel::Call {
                    node,
                    thread,
                    request: RequestModel::Release { datum_id: id },
                    then: AfterCall::Release,
                }
            },
        ]
    }

    /// The return of datums to their homes, in order.
    pub open spec fn release_actions(self, ring: Seq<Slot>, ids: Seq<DatumId>) -> Seq<ActionModel>
        decreases ids.len(),
    {
        if ids.len() == 0 {
            seq![]
        } else {
            self.release_actions(ring, ids.drop_last()) + self.release_action(ring, ids.last())
        }
    }

    /// The run of an op that can run.
    pub open spec fn run_actions(self, op_id: DatumId) -> Seq<ActionModel> {
        if self.has_op(op_id) && self.op(op_id).ready() {
            let op = self.op(op_id);
            seq![
                ActionModel::Run {
                    op_id,
                    op_name: op.op_name,
                    datum_ids: op.datum_ids,
                    payload: op.payload,
                },
            ]
        } else {
            seq![]
        }
    }

    /// An index update, to the home of the index.
    pub open spec fn dispatch_action(
        self,
        ring: Seq<Slot>,
        op_id: DatumId,
        u: IndexUpdateModel,
    ) -> ActionModel {
        let (node, thread) = home(ring, u.target);
        if node == self.node {
            ActionModel::Send {
                thread,
                message: MessageModel::IndexUpdate {
                    target: u.target,
                    op_id,
                    index_kind: u.index_kind,
                    payload: u.payload,
                    reply: ReplyTo::Thread(self.thread),
                },
            }
        } else {
            ActionModel::Call {
                node,
                thread,
                request: RequestModel::IndexUpdate {
                    target: u.target,
                    op_id,
                    index_kind: u.index_kind,
                    payload: u.payload,
                },
                then: AfterCall::IndexUpdate { op_id, target: u.target, node_id: node },
            }
        }
    }

    /// The end of an op: the client gets the result, and the datums go home.
    pub open spec fn finished(
        self,
        ring: Seq<Slot>,
        op_id: DatumId,
        result: Result<Seq<u8>, Seq<char>>,
    ) -> Step {
        let op = self.op(op_id);
        Step {
            worker: self.without_op(op_id),
            actions: seq![ActionModel::Answer { reply: op.reply, result }] + self.release_actions(
                ring,
                op.acquired,
            ),
        }
    }

    /// A step with actions before it.
    pub open spec fn after(first: Seq<ActionModel>, step: Step) -> Step {
        Step { actions: first + step.actions, ..step }
    }

    // ---- the messages ----

    /// A new op asks for all its datums, and runs at once where it names none.
    pub open spec fn run_op(
        self,
        ring: Seq<Slot>,
        op_id: DatumId,
        op_name: Seq<char>,
        datum_ids: Seq<DatumId>,
        payload: Seq<u8>,
        reply: u64,
    ) -> Step {
        let op = OpModel {
            op_name,
            payload,
            datum_ids,
            still_needed: datum_ids,
            acquired: seq![],
            reply,
            updates: None,
        };
        let worker = self.with_op(op_id, op);
        Step {
            worker,
            actions: self.acquire_actions(ring, op_id, datum_ids) + worker.run_actions(op_id),
        }
    }

    /// A request for a lock is granted, queued, or has the holder recalled.
    pub open spec fn acquire(self, datum_id: DatumId, w: Waiter) -> Step {
        let lock = self.lock(datum_id);
        Step {
            worker: self.with_lock(datum_id, lock.requested(w)),
            actions: match lock.outcome(w.op_id) {
                AcquireOutcome::GrantedImmediately => seq![
                    grant_action(w.reply, w.op_id, datum_id),
                ],
                AcquireOutcome::RecallNeeded(h) => seq![
                    if h.node_id == self.node {
                        ActionModel::Send {
                            thread: h.thread_id,
                            message: MessageModel::Recall {
                                datum_id,
                                reply: ReplyTo::Thread(self.thread),
                            },
                        }
                    } else {
                        ActionModel::Call {
                            node: h.node_id,
                            thread: h.thread_id,
                            request: RequestModel::Recall { datum_id },
                            then: AfterCall::Recall { datum_id },
                        }
                    },
                ],
                AcquireOutcome::Queued => seq![],
            },
        }
    }

    /// A granted datum goes to its op, which may then be able to run. Where the
    /// op is gone the datum goes back.
    pub open spec fn acquire_granted(
        self,
        ring: Seq<Slot>,
        op_id: DatumId,
        datum_id: DatumId,
    ) -> Step {
        if self.has_op(op_id) {
            let worker = self.with_op(op_id, self.op(op_id).granted(datum_id));
            Step { worker, actions: worker.run_actions(op_id) }
        } else {
            Step { worker: self, actions: self.release_actions(ring, seq![datum_id]) }
        }
    }

    /// A request that failed is made again, as often as is left; then its op
    /// fails.
    pub open spec fn acquire_failed(
        self,
        ring: Seq<Slot>,
        op_id: DatumId,
        datum_id: DatumId,
        retries_left: u32,
    ) -> Step {
        if retries_left > 0 {
            Step {
                worker: self,
                actions: seq![
                    self.acquire_action(ring, op_id, datum_id, (retries_left - 1) as u32),
                ],
            }
        } else if self.has_op(op_id) {
            self.finished(ring, op_id, Err(acquire_failed_text(datum_id)))
        } else {
            Step { worker: self, actions: seq![] }
        }
    }

    /// Whether an op holds a datum.
    pub open spec fn holds(self, k: u128, datum_id: DatumId) -> bool {
        self.ops.contains_key(k) && self.ops[k].acquired.contains(datum_id)
    }

    /// Whether an op is the oldest that holds a datum.
    pub open spec fn oldest_holding(self, k: u128, datum_id: DatumId) -> bool {
        self.holds(k, datum_id) && forall|j: u128| #[trigger] self.holds(j, datum_id) ==> k <= j
    }

    /// Whether an op holds a datum.
    pub open spec fn held(self, datum_id: DatumId) -> bool {
        exists|k: u128| self.oldest_holding(k, datum_id)
    }

    /// A recalled datum is given up at once. The op that held it asks for it
    /// anew.
    pub open spec fn recall(self, ring: Seq<Slot>, datum_id: DatumId, reply: ReplyTo) -> Step {
        let given_up = seq![
            ActionModel::Invalidate { id: datum_id },
            recalled_action(reply, datum_id),
        ];
        if self.held(datum_id) {
            let k = choose|k: u128| self.oldest_holding(k, datum_id);
            Step {
                worker: WorkerModel {
                    ops: self.ops.insert(k, self.ops[k].wounded(datum_id)),
                    ..self
                },
                actions: given_up.push(
                    self.acquire_action(ring, DatumId::of_rank(k), datum_id, MAX_ACQUIRE_RETRIES),
                ),
            }
        } else {
            Step { worker: self, actions: given_up }
        }
    }

    /// A released datum goes to the oldest waiter. The copy that the home may
    /// have is older than what the holder did, and is dropped.
    pub open spec fn release(self, datum_id: DatumId) -> Step {
        let dropped = seq![ActionModel::Invalidate { id: datum_id }];
        if self.locks.contains_key(datum_id.rank()) {
            let lock = self.locks[datum_id.rank()];
            Step {
                worker: self.with_lock(datum_id, lock.released()),
                actions: match lock.next() {
                    None => dropped,
                    Some(w) => dropped.push(grant_action(w.reply, w.op_id, datum_id)),
                },
            }
        } else {
            Step { worker: self, actions: dropped }
        }
    }

    /// What a node's death leads to for one lock.
    pub open spec fn death_action(self, k: u128, node_id: NodeId) -> Seq<ActionModel> {
        let id = DatumId::of_rank(k);
        let lock = self.locks[k];
        let granted = match lock.heir(node_id) {
            None => seq![],
            Some(w) => seq![grant_action(w.reply, w.op_id, id)],
        };
        if lock.held_by(node_id) {
            granted.push(ActionModel::Invalidate { id })
        } else {
            granted
        }
    }

    /// What a node's death leads to for some locks.
    pub open spec fn death_actions(self, keys: Seq<u128>, node_id: NodeId) -> Seq<ActionModel>
        decreases keys.len(),
    {
        if keys.len() == 0 {
            seq![]
        } else {
            self.death_actions(keys.drop_last(), node_id) + self.death_action(keys.last(), node_id)
        }
    }

    /// A node's death frees what it held and drops what it waited for.
    pub open spec fn release_locks_held_by(self, node_id: NodeId) -> Step {
        Step {
            worker: WorkerModel {
                locks: Map::new(
                    |k: u128| self.locks.contains_key(k),
                    |k: u128| self.locks[k].after_death(node_id),
                ),
                ..self
            },
            actions: self.death_actions(sorted_dom(self.locks), node_id),
        }
    }

    /// The outcome of an index update counts against its op. With the last
    /// answer the op ends: it commits where none was a refusal.
    pub open spec fn index_update_replied(
        self,
        ring: Seq<Slot>,
        op_id: DatumId,
        violation: Option<Seq<char>>,
    ) -> Step {
        if self.has_op(op_id) && self.op(op_id).updates is Some {
            let op = self.op(op_id);
            let u = op.updates.unwrap();
            let first = if u.violation is Some {
                u.violation
            } else {
                violation
            };
            if u.pending > 1 {
                let rest = UpdatesModel {
                    pending: (u.pending - 1) as nat,
                    violation: first,
                    ..u
                };
                Step {
                    worker: self.with_op(op_id, OpModel { updates: Some(rest), ..op }),
                    actions: seq![],
                }
            } else {
                match first {
                    Some(message) => self.finished(ring, op_id, Err(message)),
                    None => WorkerModel::after(
                        commit_actions(u.staged_writes),
                        self.finished(ring, op_id, Ok(u.op_result)),
                    ),
                }
            }
        } else {
            Step { worker: self, actions: seq![] }
        }
    }

    /// An op that ran fails, commits, or waits for the index updates it
    /// scheduled.
    pub open spec fn op_ran(
        self,
        ring: Seq<Slot>,
        op_id: DatumId,
        result: Result<Seq<u8>, Seq<char>>,
        staged: Seq<(DatumId, Option<Seq<u8>>, u16)>,
        updates: Seq<IndexUpdateModel>,
    ) -> Step {
        if !self.has_op(op_id) || !self.op(op_id).ready() {
            Step { worker: self, actions: seq![] }
        } else {
            match result {
                Err(message) => self.finished(ring, op_id, Err(message)),
                Ok(op_result) => if updates.len() == 0 {
                    WorkerModel::after(
                        commit_actions(staged),
                        self.finished(ring, op_id, Ok(op_result)),
                    )
                } else {
                    let u = UpdatesModel {
                        staged_writes: staged,
                        op_result,
                        pending: updates.len(),
                        violation: None,
                    };
                    Step {
                        worker: self.with_op(
                            op_id,
                            OpModel { updates: Some(u), ..self.op(op_id) },
                        ),
                        actions: Seq::new(
                            updates.len(),
                            |i: int| self.dispatch_action(ring, op_id, updates[i]),
                        ),
                    }
                },
            }
        }
    }

    /// An update of an index is for the index.
    pub open spec fn index_update(
        self,
        target: DatumId,
        op_id: DatumId,
        index_kind: Seq<char>,
        payload: Seq<u8>,
        reply: ReplyTo,
    ) -> Step {
        Step {
            worker: self,
            actions: seq![
                ActionModel::UseIndex { target, op_id, index_kind, payload, reply },
            ],
        }
    }

    /// Whether the home of a datum has to be known for the end of an op: it is
    /// there and holds one.
    pub open spec fn end_looks_up(self, op_id: DatumId) -> bool {
        self.has_op(op_id) && self.op(op_id).acquired.len() > 0
    }

    /// Whether the home of a datum has to be known once an op ran.
    pub open spec fn ran_looks_up(self, op_id: DatumId, succeeded: bool, updates: nat) -> bool {
        self.has_op(op_id) && self.op(op_id).ready() && if succeeded && updates > 0 {
            true
        } else {
            self.end_looks_up(op_id)
        }
    }

    /// Whether the home of a datum has to be known for a message.
    pub open spec fn looks_up(self, m: MessageModel) -> bool {
        match m {
            MessageModel::RunOp { datum_ids, .. } => datum_ids.len() > 0,
            MessageModel::AcquireGranted { op_id, .. } => !self.has_op(op_id),
            MessageModel::AcquireFailed { op_id, retries_left, .. } => retries_left > 0
                || self.end_looks_up(op_id),
            MessageModel::Recall { datum_id, .. } => self.held(datum_id),
            MessageModel::IndexUpdateReplied { op_id, .. } => self.has_op(op_id) && (self.op(
                op_id,
            ).updates matches Some(u) && u.pending == 1) && self.end_looks_up(op_id),
            _ => false,
        }
    }

    /// What a message leads to.
    pub open spec fn handle(self, ring: Seq<Slot>, m: MessageModel) -> Step {
        match m {
            MessageModel::RunOp { op_id, op_name, datum_ids, payload, reply } => self.run_op(
                ring,
                op_id,
                op_name,
                datum_ids,
                payload,
                reply,
            ),
            MessageModel::Acquire { op_id, datum_id, requester_node, requester_thread, reply } => {
                self.acquire(
                    datum_id,
                    Waiter {
                        op_id,
                        node_id: requester_node,
                        thread_id: requester_thread,
                        reply,
                    },
                )
            },
            MessageModel::AcquireGranted { op_id, datum_id } => self.acquire_granted(
                ring,
                op_id,
                datum_id,
            ),
            MessageModel::AcquireFailed { op_id, datum_id, retries_left } => self.acquire_failed(
                ring,
                op_id,
                datum_id,
                retries_left,
            ),
            MessageModel::Recall { datum_id, reply } => self.recall(ring, datum_id, reply),
            MessageModel::Release { datum_id } => self.release(datum_id),
            MessageModel::ReleaseLocksHeldBy(node_id) => self.release_locks_held_by(node_id),
            MessageModel::IndexUpdate { target, op_id, index_kind, payload, reply } => {
                self.index_update(target, op_id, index_kind, payload, reply)
            },
            MessageModel::IndexUpdateReplied { op_id, target: _, violation } => {
                self.index_update_replied(ring, op_id, violation)
            },
        }
    }
}

// ---- the worker ----

/// What is left to do of an op that has run.
struct IndexUpdateState {
    staged_writes: Vec<(DatumId, Option<Vec<u8>>, u16)>,
    op_result: Vec<u8>,
    pending: usize,
    violation: Option<String>,
}

struct OpRecord {
    op_name: String,
    payload: Vec<u8>,
    datum_ids: Vec<DatumId>,
    still_needed: Vec<DatumId>,
    acquired: Vec<DatumId>,
    reply: u64,
    index_update_state: Option<IndexUpdateState>,
}

impl IndexUpdateState {
    spec fn model(self) -> UpdatesModel {
        UpdatesModel {
            staged_writes: writes_view(self.staged_writes@),
            op_result: self.op_result@,
            pending: self.pending as nat,
            violation: optional_text(self.violation),
        }
    }
}

impl OpRecord {
    spec fn model(self) -> OpModel {
        OpModel {
            op_name: self.op_name@,
            payload: self.payload@,
            datum_ids: self.datum_ids@,
            still_needed: self.still_needed@,
            acquired: self.acquired@,
            reply: self.reply,
            updates: match self.index_update_state {
                None => None,
                Some(u) => Some(u.model()),
            },
        }
    }
}

/// What follows an attempt to update an index.
pub open spec fn updated_actions(
    op_id: DatumId,
    target: DatumId,
    reply: ReplyTo,
    updated: Result<UpdateModel, Seq<char>>,
) -> Seq<ActionModel> {
    match updated {
        Err(message) => seq![updated_action(reply, op_id, target, Some(message))],
        Ok(outcome) => (if outcome.violation is None && outcome.write_through is Some {
            seq![ActionModel::Write { id: target, content: outcome.write_through, n: 1 }]
        } else {
            seq![]
        }) + seq![updated_action(reply, op_id, target, outcome.violation)],
    }
}

/// A worker thread's locks and ops.
pub struct Worker {
    node: NodeId,
    thread: ThreadId,
    locks: BTreeMap<u128, NativeLock>,
    ops: BTreeMap<u128, OpRecord>,
}

spec fn locks_view(m: Map<u128, NativeLock>) -> Map<u128, LockModel> {
    Map::new(|k: u128| m.contains_key(k), |k: u128| m[k]@)
}

spec fn ops_view(m: Map<u128, OpRecord>) -> Map<u128, OpModel> {
    Map::new(|k: u128| m.contains_key(k), |k: u128| m[k].model())
}

impl View for Worker {
    type V = WorkerModel;

    closed spec fn view(&self) -> WorkerModel {
        WorkerModel {
            node: self.node,
            thread: self.thread,
            locks: locks_view(self.locks@),
            ops: ops_view(self.ops@),
        }
    }
}

/// The ids other than one.
fn ids_without(ids: &Vec<DatumId>, id: DatumId) -> (rest: Vec<DatumId>)
    ensures
        rest@ == without_id(ids@, id),
{
    let mut rest: Vec<DatumId> = Vec::new();
    let mut i: usize = 0;
    assert(without_id(ids@.take(0), id) =~= seq![]) by {
        reveal(Seq::filter);
    }
    while i < ids.len()
        invariant
            i <= ids.len(),
            rest@ == without_id(ids@.take(i as int), id),
        decreases ids.len() - i,
    {
        proof {
            assert(ids@.take(i + 1).drop_last() =~= ids@.take(i as int));
            assert(ids@.take(i + 1).last() == ids@[i as int]);
            reveal(Seq::filter);
        }
        if ids[i] != id {
            rest.push(ids[i]);
        }
        i = i + 1;
    }
    assert(ids@.take(i as int) =~= ids@);
    rest
}

/// Where an id first stands in a list.
fn place_of(ids: &Vec<DatumId>, id: DatumId) -> (place: Option<usize>)
    ensures
        place is Some <==> ids@.contains(id),
        place matches Some(i) ==> Some(i as int) == ids@.index_of_first(id) && i < ids@.len(),
{
    proof {
        ids@.index_of_first_ensures(id);
    }
    let mut i: usize = 0;
    while i < ids.len()
        invariant
            i <= ids.len(),
            forall|j: int| 0 <= j < i ==> ids@[j] != id,
            ids@.index_of_first(id) matches Some(p) ==> 0 <= p < ids@.len() && ids@[p] == id
                && forall|j: int| 0 <= j < p ==> ids@[j] != id,
            ids@.index_of_first(id) is None ==> !ids@.contains(id),
        decreases ids.len() - i,
    {
        if ids[i] == id {
            assert(ids@.contains(ids@[i as int]));
            return Some(i);
        }
        i = i + 1;
    }
    None
}

fn put_grant(out: &mut Vec<Action>, reply: ReplyTo, op_id: DatumId, datum_id: DatumId)
    ensures
        actions_view(final(out)@) == actions_view(old(out)@).push(
            grant_action(reply, op_id, datum_id),
        ),
{
    match reply {
        ReplyTo::Thread(thread) => put_action(
            out,
            Action::Send { thread, message: WorkerMessage::AcquireGranted { op_id, datum_id } },
        ),
        ReplyTo::Link { link, correlation_id } => put_action(
            out,
            Action::Respond { link, correlation_id, response: Response::Granted },
        ),
    }
}

fn put_updated(
    out: &mut Vec<Action>,
    reply: ReplyTo,
    op_id: DatumId,
    target: DatumId,
    violation: Option<String>,
)
    ensures
        actions_view(final(out)@) == actions_view(old(out)@).push(
            updated_action(reply, op_id, target, optional_text(violation)),
        ),
{
    match reply {
        ReplyTo::Thread(thread) => put_action(
            out,
            Action::Send {
                thread,
                message: WorkerMessage::IndexUpdateReplied { op_id, target, violation },
            },
        ),
        ReplyTo::Link { link, correlation_id } => put_action(
            out,
            Action::Respond {
                link,
                correlation_id,
                response: Response::IndexUpdateResult { violation },
            },
        ),
    }
}

/// The staged writes of an op.
fn put_commit(out: &mut Vec<Action>, writes: Vec<(DatumId, Option<Vec<u8>>, u16)>)
    ensures
        actions_view(final(out)@) == actions_view(old(out)@) + commit_actions(writes_view(writes@)),
{
    let mut rest = writes;
    let ghost all = writes_view(writes@);
    let mut reversed: Vec<(DatumId, Option<Vec<u8>>, u16)> = Vec::new();
    while rest.len() > 0
        invariant
            rest@.len() + reversed@.len() == all.len(),
            writes_view(rest@) == all.take(rest@.len() as int),
            forall|i: int|
                0 <= i < reversed@.len() ==> write_view(#[trigger] reversed@[i]) == all[all.len()
                    - 1 - i],
        decreases rest@.len(),
    {
        let ghost n = rest@.len();
        let ghost before = rest@;
        if let Some(w) = rest.pop() {
            assert(write_view(w) == writes_view(before)[n - 1]);
            reversed.push(w);
        }
        assert(writes_view(rest@) =~= all.take(n - 1)) by {
            assert forall|i: int| 0 <= i < n - 1 implies writes_view(rest@)[i] == all[i] by {
                assert(writes_view(before)[i] == all.take(n as int)[i]);
            }
        }
    }
    assert(actions_view(out@) + commit_actions(all.take(0)) =~= actions_view(out@));
    let ghost start = actions_view(out@);
    while reversed.len() > 0
        invariant
            reversed@.len() <= all.len(),
            forall|i: int|
                0 <= i < reversed@.len() ==> write_view(#[trigger] reversed@[i]) == all[all.len()
                    - 1 - i],
            actions_view(out@) == start + commit_actions(
                all.take(all.len() - reversed@.len()),
            ),
        decreases reversed@.len(),
    {
        let ghost done = all.len() - reversed@.len();
        let ghost before = reversed@;
        if let Some((id, content, n)) = reversed.pop() {
            assert(write_view(before.last()) == all[done]);
            put_action(out, Action::Write { id, content, n });
        }
        assert(start + commit_actions(all.take(done + 1)) =~= (start + commit_actions(
            all.take(done),
        )).push(ActionModel::Write { id: all[done].0, content: all[done].1, n: all[done].2 }));
    }
    assert(all.take(all.len() as int) =~= all);
}

impl Worker {
    pub fn new(node: NodeId, thread: ThreadId) -> (worker: Self)
        ensures
            worker@ == (WorkerModel {
                node,
                thread,
                locks: Map::empty(),
                ops: Map::empty(),
            }),
            worker@.wf(),
    {
        let worker = Self {
            node,
            thread,
            locks: BTreeMap::new(),
            ops: BTreeMap::new(),
        };
        assert(worker@.locks =~= Map::empty());
        assert(worker@.ops =~= Map::empty());
        worker
    }

    /// Asks the home of a datum for the lock on it.
    fn put_acquire(
        &self,
        out: &mut Vec<Action>,
        ring: &Ring,
        op_id: DatumId,
        datum_id: DatumId,
        retries_left: u32,
    )
        requires
            ring@.len() > 0,
        ensures
            actions_view(final(out)@) == actions_view(old(out)@).push(
                self@.acquire_action(ring@, op_id, datum_id, retries_left),
            ),
    {
        let (node, thread) = ring.native(datum_id);
        if node == self.node {
            put_action(
                out,
                Action::Send {
                    thread,
                    message: WorkerMessage::Acquire {
                        op_id,
                        datum_id,
                        requester_node: self.node,
                        requester_thread: self.thread,
                        reply: ReplyTo::Thread(self.thread),
                    },
                },
            );
        } else {
            put_action(
                out,
                Action::Call {
                    node,
                    thread,
                    request: Request::Acquire {
                        op_id,
                        datum_id,
                        requester_node: self.node,
                        requester_thread: self.thread,
                    },
                    then: AfterCall::Acquire { op_id, datum_id, retries_left },
                },
            );
        }
    }

    /// Gives datums back to their homes.
    fn put_releases(&self, out: &mut Vec<Action>, ring: &Ring, ids: &Vec<DatumId>)
        requires
            ids@.len() > 0 ==> ring@.len() > 0,
        ensures
            actions_view(final(out)@) == actions_view(old(out)@) + self@.release_actions(
                ring@,
                ids@,
            ),
    {
        let mut i: usize = 0;
        assert(actions_view(out@) + self@.release_actions(ring@, ids@.take(0)) =~= actions_view(
            out@,
        ));
        while i < ids.len()
            invariant
                i <= ids.len(),
                ids@.len() > 0 ==> ring@.len() > 0,
                actions_view(out@) == actions_view(old(out)@) + self@.release_actions(
                    ring@,
                    ids@.take(i as int),
                ),
            decreases ids.len() - i,
        {
            let id = ids[i];
            let ghost before = actions_view(out@);
            let (node, thread) = ring.native(id);
            put_action(out, Action::Invalidate { id });
            if node == self.node {
                put_action(
                    out,
                    Action::Send { thread, message: WorkerMessage::Release { datum_id: id } },
                );
            } else {
                put_action(
                    out,
                    Action::Call {
                        node,
                        thread,
                        request: Request::Release { datum_id: id },
                        then: AfterCall::Release,
                    },
                );
            }
            proof {
                assert(ids@.take(i + 1).drop_last() =~= ids@.take(i as int));
                assert(actions_view(out@) =~= before + self@.release_action(ring@, id));
                assert(before + self@.release_action(ring@, id) =~= actions_view(old(out)@) + (
                self@.release_actions(ring@, ids@.take(i as int)) + self@.release_action(
                    ring@,
                    id,
                )));
            }
            i = i + 1;
        }
        assert(ids@.take(i as int) =~= ids@);
    }

    /// Runs an op that can run.
    fn put_run(&self, out: &mut Vec<Action>, op_id: DatumId)
        ensures
            actions_view(final(out)@) == actions_view(old(out)@) + self@.run_actions(op_id),
    {
        if let Some(record) = self.ops.get(&op_id.as_rank()) {
            assert(self@.op(op_id) == record.model());
            if record.still_needed.len() == 0 && record.index_update_state.is_none() {
                put_action(
                    out,
                    Action::Run {
                        op_id,
                        op_name: copy_text(record.op_name.as_str()),
                        datum_ids: copy_ids(&record.datum_ids),
                        payload: copy_of(record.payload.as_slice()),
                    },
                );
            }
        }
        assert(actions_view(out@) =~= actions_view(old(out)@) + self@.run_actions(op_id));
    }

    /// Ends an op whose record was taken out.
    fn put_end(
        &self,
        out: &mut Vec<Action>,
        ring: &Ring,
        record: OpRecord,
        result: Result<Vec<u8>, String>,
    )
        requires
            record.model().acquired.len() > 0 ==> ring@.len() > 0,
        ensures
            actions_view(final(out)@) == actions_view(old(out)@) + (seq![
                ActionModel::Answer { reply: record.reply, result: result_view(result) },
            ] + self@.release_actions(ring@, record.model().acquired)),
    {
        let ghost answer = ActionModel::Answer { reply: record.reply, result: result_view(result) };
        put_action(out, Action::Answer { reply: record.reply, result });
        self.put_releases(out, ring, &record.acquired);
        assert(actions_view(out@) =~= actions_view(old(out)@) + (seq![answer]
            + self@.release_actions(ring@, record.acquired@)));
    }

    /// The effect of a change of the ops on the model.
    proof fn lemma_ops(self, before: Self, k: u128)
        requires
            self.node == before.node,
            self.thread == before.thread,
            self.locks == before.locks,
        ensures
            forall|op: OpRecord|
                self.ops@ == #[trigger] before.ops@.insert(k, op) ==> self@ == (WorkerModel {
                    ops: before@.ops.insert(k, op.model()),
                    ..before@
                }),
            self.ops@ == before.ops@.remove(k) ==> self@ == (WorkerModel {
                ops: before@.ops.remove(k),
                ..before@
            }),
    {
        assert forall|op: OpRecord| self.ops@ == #[trigger] before.ops@.insert(k, op) implies self@
            == (WorkerModel { ops: before@.ops.insert(k, op.model()), ..before@ }) by {
            assert(self@.ops =~= before@.ops.insert(k, op.model()));
        }
        if self.ops@ == before.ops@.remove(k) {
            assert(self@.ops =~= before@.ops.remove(k));
        }
    }

    /// A client's op.
    fn on_run_op(
        &mut self,
        out: &mut Vec<Action>,
        ring: &Ring,
        op_id: DatumId,
        op_name: String,
        datum_ids: Vec<DatumId>,
        payload: Vec<u8>,
        reply: u64,
    )
        requires
            datum_ids@.len() > 0 ==> ring@.len() > 0,
            old(out)@.len() == 0,
        ensures
            (Step { worker: final(self)@, actions: actions_view(final(out)@) }) == old(
                self,
            )@.run_op(ring@, op_id, op_name@, datum_ids@, payload@, reply),
    {
        let needed = copy_ids(&datum_ids);
        let mut i: usize = 0;
        let ghost wanted = self@.acquire_actions(ring@, op_id, datum_ids@);
        assert(actions_view(out@) =~= wanted.take(0));
        while i < datum_ids.len()
            invariant
                i <= datum_ids.len(),
                datum_ids@.len() > 0 ==> ring@.len() > 0,
                *self == *old(self),
                wanted == self@.acquire_actions(ring@, op_id, datum_ids@),
                actions_view(out@) == wanted.take(i as int),
            decreases datum_ids.len() - i,
        {
            self.put_acquire(out, ring, op_id, datum_ids[i], MAX_ACQUIRE_RETRIES);
            assert(wanted.take(i + 1) =~= wanted.take(i as int).push(wanted[i as int]));
            i = i + 1;
        }
        assert(wanted.take(i as int) =~= wanted);
        let record = OpRecord {
            op_name,
            payload,
            datum_ids,
            still_needed: needed,
            acquired: Vec::new(),
            reply,
            index_update_state: None,
        };
        let ghost before = *self;
        self.ops.insert(op_id.as_rank(), record);
        proof {
            self.lemma_ops(before, op_id.rank());
            assert(self.ops@ == before.ops@.insert(op_id.rank(), record));
            assert(record.model().acquired =~= seq![]);
        }
        self.put_run(out, op_id);
    }

    /// A request for the lock on a datum.
    fn on_acquire(&mut self, out: &mut Vec<Action>, datum_id: DatumId, w: Waiter)
        requires
            old(self)@.wf(),
            old(out)@.len() == 0,
        ensures
            (Step { worker: final(self)@, actions: actions_view(final(out)@) }) == old(
                self,
            )@.acquire(datum_id, w),
    {
        let ghost before = *self;
        let mut lock = match self.locks.remove(&datum_id.as_rank()) {
            Some(lock) => lock,
            None => NativeLock::new(),
        };
        assert(lock@ == before@.lock(datum_id));
        assert(lock@.wf()) by {
            if before@.locks.contains_key(datum_id.rank()) {
                assert(before@.locks[datum_id.rank()].wf());
            }
        }
        let outcome = lock.request(w.op_id, w.node_id, w.thread_id, w.reply);
        let ghost changed = lock@;
        self.locks.insert(datum_id.as_rank(), lock);
        assert(self@.locks =~= before@.locks.insert(datum_id.rank(), changed));
        assert(actions_view(out@) =~= seq![]);
        match outcome {
            AcquireOutcome::GrantedImmediately => put_grant(out, w.reply, w.op_id, datum_id),
            AcquireOutcome::RecallNeeded(holder) => {
                if holder.node_id == self.node {
                    put_action(
                        out,
                        Action::Send {
                            thread: holder.thread_id,
                            message: WorkerMessage::Recall {
                                datum_id,
                                reply: ReplyTo::Thread(self.thread),
                            },
                        },
                    );
                } else {
                    put_action(
                        out,
                        Action::Call {
                            node: holder.node_id,
                            thread: holder.thread_id,
                            request: Request::Recall { datum_id },
                            then: AfterCall::Recall { datum_id },
                        },
                    );
                }
            },
            AcquireOutcome::Queued => {},
        }
        assert(actions_view(out@) =~= before@.acquire(datum_id, w).actions);
    }

    /// The grant of a datum to an op.
    fn on_acquire_granted(
        &mut self,
        out: &mut Vec<Action>,
        ring: &Ring,
        op_id: DatumId,
        datum_id: DatumId,
    )
        requires
            !old(self)@.has_op(op_id) ==> ring@.len() > 0,
            old(out)@.len() == 0,
        ensures
            (Step { worker: final(self)@, actions: actions_view(final(out)@) }) == old(
                self,
            )@.acquire_granted(ring@, op_id, datum_id),
    {
        let ghost before = *self;
        assert(actions_view(out@) =~= seq![]);
        match self.ops.remove(&op_id.as_rank()) {
            Some(mut record) => {
                let ghost old_record = record;
                assert(before@.op(op_id) == record.model());
                record.still_needed = ids_without(&record.still_needed, datum_id);
                record.acquired.push(datum_id);
                assert(record.model() == old_record.model().granted(datum_id));
                self.ops.insert(op_id.as_rank(), record);
                proof {
                    self.lemma_ops(before, op_id.rank());
                    assert(self.ops@ =~= before.ops@.insert(op_id.rank(), record));
                }
                self.put_run(out, op_id);
                assert(actions_view(out@) =~= self@.run_actions(op_id));
            },
            None => {
                assert(self.ops@ =~= before.ops@);
                assert(self@ == before@);
                let mut ids: Vec<DatumId> = Vec::new();
                ids.push(datum_id);
                assert(ids@ =~= seq![datum_id]);
                self.put_releases(out, ring, &ids);
                assert(actions_view(out@) =~= before@.release_actions(ring@, seq![datum_id]));
            },
        }
    }

    /// The failure of a request for a datum.
    fn on_acquire_failed(
        &mut self,
        out: &mut Vec<Action>,
        ring: &Ring,
        op_id: DatumId,
        datum_id: DatumId,
        retries_left: u32,
    )
        requires
            retries_left > 0 || old(self)@.end_looks_up(op_id) ==> ring@.len() > 0,
            old(out)@.len() == 0,
        ensures
            (Step { worker: final(self)@, actions: actions_view(final(out)@) }) == old(
                self,
            )@.acquire_failed(ring@, op_id, datum_id, retries_left),
    {
        let ghost before = *self;
        assert(actions_view(out@) =~= seq![]);
        if retries_left > 0 {
            self.put_acquire(out, ring, op_id, datum_id, retries_left - 1);
            assert(actions_view(out@) =~= before@.acquire_failed(
                ring@,
                op_id,
                datum_id,
                retries_left,
            ).actions);
            return ;
        }
        match self.ops.remove(&op_id.as_rank()) {
            Some(record) => {
                assert(before@.op(op_id) == record.model());
                proof {
                    self.lemma_ops(before, op_id.rank());
                }
                let mut text = copy_text("failed to acquire datum DatumId(");
                push_id(&mut text, datum_id);
                text.append(") after ");
                push_decimal(&mut text, MAX_ACQUIRE_RETRIES as u128);
                text.append(" retries");
                assert(text@ =~= acquire_failed_text(datum_id));
                self.put_end(out, ring, record, Err(text));
                proof {
                    lemma_release_same_place(self@, before@, ring@, record.model().acquired);
                }
                assert(actions_view(out@) =~= before@.acquire_failed(
                    ring@,
                    op_id,
                    datum_id,
                    retries_left,
                ).actions);
            },
            None => {
                assert(self.ops@ =~= before.ops@);
            },
        }
    }

    /// The recall of a datum.
    fn on_recall(&mut self, out: &mut Vec<Action>, ring: &Ring, datum_id: DatumId, reply: ReplyTo)
        requires
            old(self)@.held(datum_id) ==> ring@.len() > 0,
            old(out)@.len() == 0,
        ensures
            (Step { worker: final(self)@, actions: actions_view(final(out)@) }) == old(
                self,
            )@.recall(ring@, datum_id, reply),
    {
        let ghost before = *self;
        assert(actions_view(out@) =~= seq![]);
        put_action(out, Action::Invalidate { id: datum_id });
        match reply {
            ReplyTo::Thread(thread) => put_action(
                out,
                Action::Send { thread, message: WorkerMessage::Release { datum_id } },
            ),
            ReplyTo::Link { link, correlation_id } => put_action(
                out,
                Action::Respond { link, correlation_id, response: Response::Released },
            ),
        }
        assert(actions_view(out@) =~= seq![
            ActionModel::Invalidate { id: datum_id },
            recalled_action(reply, datum_id),
        ]);
        let keys = sorted_wide_keys(&self.ops);
        let mut i: usize = 0;
        while i < keys.len()
            invariant
                i <= keys.len(),
                *self == before,
                before == *old(self),
                before@.held(datum_id) ==> ring@.len() > 0,
                ascending_wide(keys@),
                forall|k: u128| keys@.contains(k) <==> before.ops@.contains_key(k),
                forall|j: int| 0 <= j < i ==> !before@.holds(#[trigger] keys@[j], datum_id),
                actions_view(out@) == seq![
                    ActionModel::Invalidate { id: datum_id },
                    recalled_action(reply, datum_id),
                ],
            decreases keys.len() - i,
        {
            let k: u128 = keys[i];
            assert(keys@.contains(keys@[i as int]));
            let place = match self.ops.get(&k) {
                Some(record) => {
                    assert(before@.ops[k] == record.model());
                    place_of(&record.acquired, datum_id)
                },
                None => None,
            };
            if let Some(p) = place {
                assert(before@.oldest_holding(k, datum_id)) by {
                    assert(before@.holds(k, datum_id));
                    assert forall|j: u128| #[trigger] before@.holds(j, datum_id) implies k <= j by {
                        assert(keys@.contains(j));
                        let a = choose|a: int| 0 <= a < keys@.len() && keys@[a] == j;
                        assert(!(a < i)) by {
                            if a < i {
                                assert(!before@.holds(keys@[a], datum_id));
                            }
                        }
                    }
                }
                proof {
                    let c = choose|c: u128| before@.oldest_holding(c, datum_id);
                    assert(before@.holds(c, datum_id));
                    assert(before@.holds(k, datum_id));
                    assert(c == k);
                }
                if let Some(mut record) = self.ops.remove(&k) {
                    let ghost old_record = record;
                    let ghost acquired0 = record.acquired@;
                    record.acquired.remove(p);
                    record.still_needed.push(datum_id);
                    assert(record.model() == old_record.model().wounded(datum_id));
                    self.ops.insert(k, record);
                    proof {
                        self.lemma_ops(before, k);
                        assert(self.ops@ =~= before.ops@.insert(k, record));
                    }
                }
                let ghost given_up = actions_view(out@);
                self.put_acquire(
                    out,
                    ring,
                    DatumId::from_rank(k),
                    datum_id,
                    MAX_ACQUIRE_RETRIES,
                );
                assert(actions_view(out@) =~= before@.recall(ring@, datum_id, reply).actions);
                return ;
            }
            i = i + 1;
        }
        assert(!exists|k: u128| before@.oldest_holding(k, datum_id)) by {
            assert forall|k: u128| !before@.oldest_holding(k, datum_id) by {
                if before@.holds(k, datum_id) {
                    assert(keys@.contains(k));
                    let a = choose|a: int| 0 <= a < keys@.len() && keys@[a] == k;
                    assert(!before@.holds(keys@[a], datum_id));
                }
            }
        }
    }

    /// The release of a datum.
    fn on_release(&mut self, out: &mut Vec<Action>, datum_id: DatumId)
        requires
            old(self)@.wf(),
            old(out)@.len() == 0,
        ensures
            (Step { worker: final(self)@, actions: actions_view(final(out)@) }) == old(
                self,
            )@.release(datum_id),
    {
        let ghost before = *self;
        assert(actions_view(out@) =~= seq![]);
        put_action(out, Action::Invalidate { id: datum_id });
        assert(actions_view(out@) =~= seq![ActionModel::Invalidate { id: datum_id }]);
        match self.locks.remove(&datum_id.as_rank()) {
            Some(mut lock) => {
                assert(before@.locks[datum_id.rank()] == lock@);
                assert(before@.locks.contains_key(datum_id.rank()));
                let granted = lock.release();
                let ghost changed = lock@;
                self.locks.insert(datum_id.as_rank(), lock);
                assert(self@.locks =~= before@.locks.insert(datum_id.rank(), changed));
                if let Some(w) = granted {
                    put_grant(out, w.reply, w.op_id, datum_id);
                }
            },
            None => {
                assert(self.locks@ =~= before.locks@);
            },
        }
        assert(actions_view(out@) =~= before@.release(datum_id).actions);
    }

    /// The death of a node.
    fn on_node_death(&mut self, out: &mut Vec<Action>, node_id: NodeId)
        requires
            old(self)@.wf(),
            old(out)@.len() == 0,
        ensures
            (Step { worker: final(self)@, actions: actions_view(final(out)@) }) == old(
                self,
            )@.release_locks_held_by(node_id),
    {
        let ghost before = *self;
        let keys = sorted_wide_keys(&self.locks);
        proof {
            assert(keys_of(before@.locks, keys@)) by {
                assert forall|k: u128| #[trigger] keys@.contains(k) <==> before@.locks.contains_key(
                    k,
                ) by {}
            }
            let chosen = sorted_dom(before@.locks);
            assert forall|k: u128| chosen.contains(k) <==> keys@.contains(k) by {}
            lemma_sorted_keys_unique(chosen, keys@);
            assert(before@.death_actions(keys@.take(0), node_id) =~= seq![]);
        }
        assert(actions_view(out@) =~= seq![]);
        let mut i: usize = 0;
        while i < keys.len()
            invariant
                i <= keys.len(),
                ascending_wide(keys@),
                before@.wf(),
                self.node == before.node,
                self.thread == before.thread,
                self.ops == before.ops,
                forall|k: u128| keys@.contains(k) <==> before.locks@.contains_key(k),
                forall|k: u128|
                    #[trigger] self.locks@.contains_key(k) <==> before.locks@.contains_key(k),
                forall|j: int|
                    0 <= j < keys.len() ==> self.locks@[#[trigger] keys@[j]]@ == if j < i {
                        before.locks@[keys@[j]]@.after_death(node_id)
                    } else {
                        before.locks@[keys@[j]]@
                    },
                actions_view(out@) == before@.death_actions(keys@.take(i as int), node_id),
            decreases keys.len() - i,
        {
            let k: u128 = keys[i];
            assert(keys@.contains(keys@[i as int]));
            assert(before@.locks[k].wf()) by {
                assert(before@.locks.contains_key(k));
            }
            let ghost emitted = actions_view(out@);
            let ghost locks0 = self.locks@;
            assert(self.locks@.contains_key(k));
            if let Some(mut lock) = self.locks.remove(&k) {
                assert(lock@ == before@.locks[k]);
                let held = match lock.current_holder() {
                    Some(h) => h.node_id == node_id,
                    None => false,
                };
                assert(held == before@.locks[k].held_by(node_id));
                let granted = lock.handle_node_death(node_id);
                self.locks.insert(k, lock);
                assert(self.locks@ =~= locks0.insert(k, lock));
                let id = DatumId::from_rank(k);
                if let Some(w) = granted {
                    put_grant(out, w.reply, w.op_id, id);
                }
                if held {
                    put_action(out, Action::Invalidate { id });
                }
                assert(actions_view(out@) =~= emitted + before@.death_action(k, node_id));
            }
            assert(keys@.take(i + 1).drop_last() =~= keys@.take(i as int));
            assert forall|j: int| 0 <= j < keys.len() && j != i implies #[trigger] keys@[j] != k by {
                if j < i {
                    assert(keys@[j] < keys@[i as int]);
                } else {
                    assert(keys@[i as int] < keys@[j]);
                }
            }
            i = i + 1;
        }
        assert(keys@.take(i as int) =~= keys@);
        assert(self@.locks =~= before@.release_locks_held_by(node_id).worker.locks) by {
            assert forall|k: u128| #[trigger] self@.locks.contains_key(k) implies self@.locks[k]
                == before@.locks[k].after_death(node_id) by {
                assert(self.locks@.contains_key(k));
                assert(keys@.contains(k));
                let j = choose|j: int| 0 <= j < keys@.len() && keys@[j] == k;
                assert(self.locks@[keys@[j]]@ == before.locks@[keys@[j]]@.after_death(node_id));
            }
        }
    }

    /// The answer to an index update.
    fn on_index_update_replied(
        &mut self,
        out: &mut Vec<Action>,
        ring: &Ring,
        op_id: DatumId,
        violation: Option<String>,
    )
        requires
            old(self)@.wf(),
            old(self)@.has_op(op_id) && (old(self)@.op(op_id).updates matches Some(u) && u.pending
                == 1) && old(self)@.end_looks_up(op_id) ==> ring@.len() > 0,
            old(out)@.len() == 0,
        ensures
            (Step { worker: final(self)@, actions: actions_view(final(out)@) }) == old(
                self,
            )@.index_update_replied(ring@, op_id, optional_text(violation)),
    {
        let ghost before = *self;
        let ghost heard = optional_text(violation);
        assert(actions_view(out@) =~= seq![]);
        let mut record = match self.ops.remove(&op_id.as_rank()) {
            None => {
                assert(self.ops@ =~= before.ops@);
                return ;
            },
            Some(record) => record,
        };
        let ghost op = record.model();
        assert(before@.op(op_id) == op);
        assert(before@.has_op(op_id));
        assert(op.wf());
        let mut state = match record.index_update_state {
            None => {
                record.index_update_state = None;
                assert(record.model() == op);
                self.ops.insert(op_id.as_rank(), record);
                proof {
                    self.lemma_ops(before, op_id.rank());
                    assert(self.ops@ =~= before.ops@.insert(op_id.rank(), record));
                    assert(self@.ops =~= before@.ops);
                }
                return ;
            },
            Some(state) => state,
        };
        let ghost u = state.model();
        if state.violation.is_none() {
            state.violation = violation;
        }
        if state.pending > 1 {
            state.pending = state.pending - 1;
            record.index_update_state = Some(state);
            self.ops.insert(op_id.as_rank(), record);
            proof {
                self.lemma_ops(before, op_id.rank());
                assert(self.ops@ =~= before.ops@.insert(op_id.rank(), record));
            }
            return ;
        }
        proof {
            self.lemma_ops(before, op_id.rank());
        }
        record.index_update_state = None;
        let ghost start = actions_view(out@);
        match state.violation {
            Some(message) => {
                self.put_end(out, ring, record, Err(message));
            },
            None => {
                put_commit(out, state.staged_writes);
                self.put_end(out, ring, record, Ok(state.op_result));
            },
        }
        proof {
            lemma_release_same_place(self@, before@, ring@, op.acquired);
        }
        assert(actions_view(out@) =~= before@.index_update_replied(ring@, op_id, heard).actions);
    }

    /// Sends off the index updates of an op.
    fn put_dispatches(
        &self,
        out: &mut Vec<Action>,
        ring: &Ring,
        op_id: DatumId,
        updates: &Vec<PendingIndexUpdate>,
    )
        requires
            ring@.len() > 0,
            old(out)@.len() == 0,
        ensures
            actions_view(final(out)@) == Seq::new(
                updates@.len(),
                |i: int| self@.dispatch_action(ring@, op_id, updates_view(updates@)[i]),
            ),
    {
        let ghost wanted = Seq::new(
            updates@.len(),
            |i: int| self@.dispatch_action(ring@, op_id, updates_view(updates@)[i]),
        );
        assert(actions_view(out@) =~= wanted.take(0));
        let mut i: usize = 0;
        while i < updates.len()
            invariant
                i <= updates.len(),
                ring@.len() > 0,
                wanted == Seq::new(
                    updates@.len(),
                    |i: int| self@.dispatch_action(ring@, op_id, updates_view(updates@)[i]),
                ),
                actions_view(out@) == wanted.take(i as int),
            decreases updates.len() - i,
        {
            let u = &updates[i];
            let (node, thread) = ring.native(u.target);
            let index_kind = copy_text(u.index_kind.as_str());
            let payload = copy_of(u.payload.as_slice());
            if node == self.node {
                put_action(
                    out,
                    Action::Send {
                        thread,
                        message: WorkerMessage::IndexUpdate {
                            target: u.target,
                            op_id,
                            index_kind,
                            payload,
                            reply: ReplyTo::Thread(self.thread),
                        },
                    },
                );
            } else {
                put_action(
                    out,
                    Action::Call {
                        node,
                        thread,
                        request: Request::IndexUpdate {
                            target: u.target,
                            op_id,
                            index_kind,
                            payload,
                        },
                        then: AfterCall::IndexUpdate { op_id, target: u.target, node_id: node },
                    },
                );
            }
            assert(wanted.take(i + 1) =~= wanted.take(i as int).push(wanted[i as int]));
            i = i + 1;
        }
        assert(wanted.take(i as int) =~= wanted);
    }

    /// Takes in what came of running an op: its result, and what it staged and
    /// scheduled. Nothing happens where the worker did not ask for the run.
    pub fn op_ran(
        &mut self,
        ring: &Ring,
        op_id: DatumId,
        result: Result<Vec<u8>, String>,
        staged_writes: Vec<(DatumId, Option<Vec<u8>>, u16)>,
        updates: Vec<PendingIndexUpdate>,
    ) -> (actions: Vec<Action>)
        requires
            old(self)@.ran_looks_up(op_id, result is Ok, updates@.len()) ==> ring@.len() > 0,
        ensures
            (Step { worker: final(self)@, actions: actions_view(actions@) }) == old(self)@.op_ran(
                ring@,
                op_id,
                result_view(result),
                writes_view(staged_writes@),
                updates_view(updates@),
            ),
            old(self)@.wf() ==> final(self)@.wf(),
    {
        let ghost before = *self;
        let ghost expected = before@.op_ran(
            ring@,
            op_id,
            result_view(result),
            writes_view(staged_writes@),
            updates_view(updates@),
        );
        let mut out: Vec<Action> = Vec::new();
        assert(actions_view(out@) =~= seq![]);
        let mut record = match self.ops.remove(&op_id.as_rank()) {
            None => {
                assert(self.ops@ =~= before.ops@);
                return out;
            },
            Some(record) => record,
        };
        let ghost op = record.model();
        assert(before@.op(op_id) == op);
        assert(before@.has_op(op_id));
        if record.still_needed.len() > 0 || record.index_update_state.is_some() {
            self.ops.insert(op_id.as_rank(), record);
            proof {
                self.lemma_ops(before, op_id.rank());
                assert(self.ops@ =~= before.ops@.insert(op_id.rank(), record));
                assert(self@.ops =~= before@.ops);
            }
            return out;
        }
        proof {
            self.lemma_ops(before, op_id.rank());
            lemma_release_same_place(
                WorkerModel { ops: before@.ops.remove(op_id.rank()), ..before@ },
                before@,
                ring@,
                op.acquired,
            );
        }
        match result {
            Err(message) => {
                self.put_end(&mut out, ring, record, Err(message));
                assert(actions_view(out@) =~= expected.actions);
            },
            Ok(op_result) => {
                if updates.len() == 0 {
                    put_commit(&mut out, staged_writes);
                    self.put_end(&mut out, ring, record, Ok(op_result));
                    assert(actions_view(out@) =~= expected.actions);
                } else {
                    self.put_dispatches(&mut out, ring, op_id, &updates);
                    let ghost during = *self;
                    record.index_update_state = Some(
                        IndexUpdateState {
                            staged_writes,
                            op_result,
                            pending: updates.len(),
                            violation: None,
                        },
                    );
                    self.ops.insert(op_id.as_rank(), record);
                    proof {
                        self.lemma_ops(before, op_id.rank());
                        assert(self.ops@ =~= before.ops@.insert(op_id.rank(), record));
                    }
                    assert(actions_view(out@) =~= expected.actions) by {
                        assert forall|i: int| 0 <= i < updates@.len() implies #[trigger] actions_view(
                            out@,
                        )[i] == before@.dispatch_action(ring@, op_id, updates_view(updates@)[i]) by {}
                    }
                }
            },
        }
        out
    }

    /// An update of an index was attempted. Where the index could not be opened,
    /// the update is refused. Else its new content, if it has any and the update
    /// was not refused, is written before the answer goes out.
    pub fn index_updated(
        &self,
        op_id: DatumId,
        target: DatumId,
        reply: ReplyTo,
        updated: Result<IndexApplyOutcome, String>,
    ) -> (actions: Vec<Action>)
        ensures
            actions_view(actions@) == updated_actions(op_id, target, reply, update_view(updated)),
    {
        match updated {
            Err(message) => self.index_refused(op_id, target, reply, message),
            Ok(outcome) => self.index_applied(op_id, target, reply, outcome),
        }
    }

    /// An index could not be opened: the update is refused.
    fn index_refused(
        &self,
        op_id: DatumId,
        target: DatumId,
        reply: ReplyTo,
        message: String,
    ) -> (actions: Vec<Action>)
        ensures
            actions_view(actions@) == seq![
                updated_action(reply, op_id, target, Some(message@)),
            ],
    {
        let mut out: Vec<Action> = Vec::new();
        put_updated(&mut out, reply, op_id, target, Some(message));
        assert(actions_view(out@) =~= seq![updated_action(reply, op_id, target, Some(message@))]);
        out
    }

    /// An update was applied to an index: its new content, if it has any and
    /// the update was not refused, is written before the answer goes out.
    fn index_applied(
        &self,
        op_id: DatumId,
        target: DatumId,
        reply: ReplyTo,
        outcome: IndexApplyOutcome,
    ) -> (actions: Vec<Action>)
        ensures
            actions_view(actions@) == (if outcome.violation is None
                && outcome.write_through is Some {
                seq![
                    ActionModel::Write {
                        id: target,
                        content: optional_bytes(outcome.write_through),
                        n: 1,
                    },
                ]
            } else {
                seq![]
            }) + seq![updated_action(reply, op_id, target, optional_text(outcome.violation))],
    {
        let mut out: Vec<Action> = Vec::new();
        let ghost before = outcome;
        if outcome.violation.is_none() {
            if let Some(bytes) = outcome.write_through {
                put_action(
                    &mut out,
                    Action::Write { id: target, content: Some(bytes), n: 1 },
                );
            }
        }
        put_updated(&mut out, reply, op_id, target, outcome.violation);
        assert(actions_view(out@) =~= (if before.violation is None && before.write_through is Some {
            seq![
                ActionModel::Write {
                    id: target,
                    content: optional_bytes(before.write_through),
                    n: 1,
                },
            ]
        } else {
            seq![]
        }) + seq![updated_action(reply, op_id, target, optional_text(before.violation))]);
        out
    }

    /// Whether an op holds a datum.
    fn is_held(&self, datum_id: DatumId) -> (b: bool)
        ensures
            b == self@.held(datum_id),
    {
        let keys = sorted_wide_keys(&self.ops);
        let mut i: usize = 0;
        while i < keys.len()
            invariant
                i <= keys.len(),
                ascending_wide(keys@),
                forall|k: u128| keys@.contains(k) <==> self.ops@.contains_key(k),
                forall|j: int| 0 <= j < i ==> !self@.holds(#[trigger] keys@[j], datum_id),
            decreases keys.len() - i,
        {
            let k: u128 = keys[i];
            assert(keys@.contains(keys@[i as int]));
            let held = match self.ops.get(&k) {
                Some(record) => {
                    assert(self@.ops[k] == record.model());
                    place_of(&record.acquired, datum_id).is_some()
                },
                None => false,
            };
            if held {
                assert(self@.oldest_holding(k, datum_id)) by {
                    assert(self@.holds(k, datum_id));
                    assert forall|j: u128| #[trigger] self@.holds(j, datum_id) implies k <= j by {
                        assert(keys@.contains(j));
                        let a = choose|a: int| 0 <= a < keys@.len() && keys@[a] == j;
                        if a < i {
                            assert(!self@.holds(keys@[a], datum_id));
                        }
                    }
                }
                return true;
            }
            i = i + 1;
        }
        assert forall|k: u128| !self@.oldest_holding(k, datum_id) by {
            if self@.holds(k, datum_id) {
                assert(keys@.contains(k));
                let a = choose|a: int| 0 <= a < keys@.len() && keys@[a] == k;
                assert(!self@.holds(keys@[a], datum_id));
            }
        }
        false
    }

    fn end_needs_ring(&self, op_id: DatumId) -> (b: bool)
        ensures
            b == self@.end_looks_up(op_id),
    {
        match self.ops.get(&op_id.as_rank()) {
            Some(record) => {
                assert(self@.op(op_id) == record.model());
                record.acquired.len() > 0
            },
            None => false,
        }
    }

    /// Whether the ring must have a slot for a message.
    pub fn needs_ring(&self, message: &WorkerMessage) -> (b: bool)
        ensures
            b == self@.looks_up(message@),
    {
        match message {
            WorkerMessage::RunOp { datum_ids, .. } => datum_ids.len() > 0,
            WorkerMessage::AcquireGranted { op_id, .. } => {
                !self.ops.contains_key(&op_id.as_rank())
            },
            WorkerMessage::AcquireFailed { op_id, retries_left, .. } => *retries_left > 0
                || self.end_needs_ring(*op_id),
            WorkerMessage::Recall { datum_id, .. } => self.is_held(*datum_id),
            WorkerMessage::IndexUpdateReplied { op_id, .. } => {
                self.is_last_reply(*op_id) && self.end_needs_ring(*op_id)
            },
            _ => false,
        }
    }

    /// Whether one update of an index is all that an op waits for.
    fn is_last_reply(&self, op_id: DatumId) -> (b: bool)
        ensures
            b == (self@.has_op(op_id) && (self@.op(op_id).updates matches Some(u) && u.pending
                == 1)),
    {
        match self.ops.get(&op_id.as_rank()) {
            Some(record) => {
                assert(self@.op(op_id) == record.model());
                match &record.index_update_state {
                    Some(u) => u.pending == 1,
                    None => false,
                }
            },
            None => false,
        }
    }

    /// Whether the ring must have a slot once an op ran.
    pub fn needs_ring_once_ran(&self, op_id: DatumId, succeeded: bool, updates: usize) -> (b: bool)
        ensures
            b == self@.ran_looks_up(op_id, succeeded, updates as nat),
    {
        match self.ops.get(&op_id.as_rank()) {
            Some(record) => {
                assert(self@.op(op_id) == record.model());
                record.still_needed.len() == 0 && record.index_update_state.is_none() && (
                succeeded && updates > 0 || record.acquired.len() > 0)
            },
            None => false,
        }
    }

    /// Takes in a message. The ring must have a slot where the home of a datum has
    /// to be known.
    pub fn handle(&mut self, ring: &Ring, message: WorkerMessage) -> (actions: Vec<Action>)
        requires
            old(self)@.wf(),
            old(self)@.looks_up(message@) ==> ring@.len() > 0,
        ensures
            (Step { worker: final(self)@, actions: actions_view(actions@) }) == old(self)@.handle(
                ring@,
                message@,
            ),
            final(self)@.wf(),
    {
        let ghost before = self@;
        let mut out: Vec<Action> = Vec::new();
        proof {
            law_wf_kept(self@, ring@, message@);
        }
        match message {
            WorkerMessage::RunOp { op_id, op_name, datum_ids, payload, reply } => {
                self.on_run_op(&mut out, ring, op_id, op_name, datum_ids, payload, reply);
            },
            WorkerMessage::Acquire { op_id, datum_id, requester_node, requester_thread, reply } => {
                self.on_acquire(
                    &mut out,
                    datum_id,
                    Waiter {
                        op_id,
                        node_id: requester_node,
                        thread_id: requester_thread,
                        reply,
                    },
                );
            },
            WorkerMessage::AcquireGranted { op_id, datum_id } => {
                self.on_acquire_granted(&mut out, ring, op_id, datum_id);
            },
            WorkerMessage::AcquireFailed { op_id, datum_id, retries_left } => {
                self.on_acquire_failed(&mut out, ring, op_id, datum_id, retries_left);
            },
            WorkerMessage::Recall { datum_id, reply } => {
                self.on_recall(&mut out, ring, datum_id, reply);
            },
            WorkerMessage::Release { datum_id } => {
                self.on_release(&mut out, datum_id);
            },
            WorkerMessage::ReleaseLocksHeldBy(node_id) => {
                self.on_node_death(&mut out, node_id);
            },
            WorkerMessage::IndexUpdate { target, op_id, index_kind, payload, reply } => {
                put_action(
                    &mut out,
                    Action::UseIndex { target, op_id, index_kind, payload, reply },
                );
                assert(actions_view(out@) =~= before.index_update(
                    target,
                    op_id,
                    index_kind@,
                    payload@,
                    reply,
                ).actions);
            },
            WorkerMessage::IndexUpdateReplied { op_id, target: _, violation } => {
                self.on_index_update_replied(&mut out, ring, op_id, violation);
            },
        }
        out
    }
}

// ---- lemmas and laws ----

/// Releases depend on the worker's place alone.
proof fn lemma_release_same_place(
    a: WorkerModel,
    b: WorkerModel,
    ring: Seq<Slot>,
    ids: Seq<DatumId>,
)
    requires
        a.node == b.node,
    ensures
        a.release_actions(ring, ids) == b.release_actions(ring, ids),
    decreases ids.len(),
{
    if ids.len() > 0 {
        lemma_release_same_place(a, b, ring, ids.drop_last());
        assert(a.release_action(ring, ids.last()) =~= b.release_action(ring, ids.last()));
    }
}

proof fn lemma_granted_wf(op: OpModel, id: DatumId)
    requires
        op.wf(),
    ensures
        op.granted(id).wf(),
{
    let g = op.granted(id);
    let keep = |x: DatumId| x != id;
    assert forall|i: int| 0 <= i < g.datum_ids.len() implies g.still_needed.contains(
        #[trigger] g.datum_ids[i],
    ) || g.acquired.contains(g.datum_ids[i]) by {
        let d = op.datum_ids[i];
        if d == id {
            assert(g.acquired[op.acquired.len() as int] == id);
        } else if op.still_needed.contains(d) {
            let p = choose|p: int| 0 <= p < op.still_needed.len() && op.still_needed[p] == d;
            op.still_needed.lemma_filter_contains(keep, p);
        } else {
            let p = choose|p: int| 0 <= p < op.acquired.len() && op.acquired[p] == d;
            assert(g.acquired[p] == d);
        }
    }
}

proof fn lemma_wounded_wf(op: OpModel, id: DatumId)
    requires
        op.wf(),
        op.acquired.contains(id),
    ensures
        op.wounded(id).wf(),
{
    let w = op.wounded(id);
    op.acquired.index_of_first_ensures(id);
    let at = op.acquired.index_of_first(id).unwrap();
    assert forall|i: int| 0 <= i < w.datum_ids.len() implies w.still_needed.contains(
        #[trigger] w.datum_ids[i],
    ) || w.acquired.contains(w.datum_ids[i]) by {
        let d = op.datum_ids[i];
        if d == id {
            assert(w.still_needed[op.still_needed.len() as int] == id);
        } else if op.still_needed.contains(d) {
            let p = choose|p: int| 0 <= p < op.still_needed.len() && op.still_needed[p] == d;
            assert(w.still_needed[p] == d);
        } else {
            let p = choose|p: int| 0 <= p < op.acquired.len() && op.acquired[p] == d;
            if p < at {
                assert(w.acquired[p] == d);
            } else {
                assert(w.acquired[p - 1] == d);
            }
        }
    }
}

/// Every message keeps a worker well-formed: no op loses track of a datum that
/// it names, and no lock gets out of order.
pub proof fn law_wf_kept(w: WorkerModel, ring: Seq<Slot>, m: MessageModel)
    requires
        w.wf(),
    ensures
        w.handle(ring, m).worker.wf(),
{
    let s = w.handle(ring, m).worker;
    match m {
        MessageModel::RunOp { op_id, op_name, datum_ids, payload, reply } => {
            assert forall|k: u128| #[trigger] s.ops.contains_key(k) implies s.ops[k].wf() by {
                if k == op_id.rank() {
                    assert forall|i: int| 0 <= i < datum_ids.len() implies datum_ids.contains(
                        #[trigger] datum_ids[i],
                    ) by {}
                }
            }
        },
        MessageModel::Acquire { op_id, datum_id, requester_node, requester_thread, reply } => {
            crate::collation::law_request_keeps_everyone(
                w.lock(datum_id),
                Waiter { op_id, node_id: requester_node, thread_id: requester_thread, reply },
            );
        },
        MessageModel::AcquireGranted { op_id, datum_id } => {
            if w.has_op(op_id) {
                lemma_granted_wf(w.op(op_id), datum_id);
            }
        },
        MessageModel::AcquireFailed { .. } => {},
        MessageModel::Recall { datum_id, reply } => {
            if exists|k: u128| w.oldest_holding(k, datum_id) {
                let k = choose|k: u128| w.oldest_holding(k, datum_id);
                lemma_wounded_wf(w.ops[k], datum_id);
            }
        },
        MessageModel::Release { datum_id } => {
            if w.locks.contains_key(datum_id.rank()) {
                crate::collation::law_release_grants_oldest(w.locks[datum_id.rank()]);
            }
        },
        MessageModel::ReleaseLocksHeldBy(node_id) => {
            assert forall|k: u128| #[trigger] s.locks.contains_key(k) implies s.locks[k].wf() by {
                crate::collation::law_dead_node_forgotten(w.locks[k], node_id);
            }
        },
        MessageModel::IndexUpdate { .. } => {},
        MessageModel::IndexUpdateReplied { .. } => {},
    }
}

/// An op runs only while it holds every datum that it names.
pub proof fn law_runs_only_when_collated(
    w: WorkerModel,
    ring: Seq<Slot>,
    m: MessageModel,
    op_id: DatumId,
    op_name: Seq<char>,
    datum_ids: Seq<DatumId>,
    payload: Seq<u8>,
)
    requires
        w.wf(),
        w.handle(ring, m).actions.contains(
            ActionModel::Run { op_id, op_name, datum_ids, payload },
        ),
    ensures
        ({
            let s = w.handle(ring, m).worker;
            s.has_op(op_id) && s.op(op_id).datum_ids == datum_ids && forall|i: int|
                0 <= i < datum_ids.len() ==> s.op(op_id).acquired.contains(
                    #[trigger] datum_ids[i],
                )
        }),
{
    let step = w.handle(ring, m);
    let s = step.worker;
    let run = ActionModel::Run { op_id, op_name, datum_ids, payload };
    law_wf_kept(w, ring, m);
    let at = choose|i: int| 0 <= i < step.actions.len() && step.actions[i] == run;
    match m {
        MessageModel::RunOp { op_id: o, datum_ids: ids, .. } => {
            let a = w.acquire_actions(ring, o, ids);
            if at < a.len() {
                assert(step.actions[at] == a[at]);
            } else {
                assert(step.actions[at] == s.run_actions(o)[at - a.len()]);
            }
        },
        MessageModel::AcquireGranted { op_id: o, datum_id } => {
            if !w.has_op(o) {
                lemma_releases_do_not_run(w, ring, seq![datum_id], at);
            }
        },
        MessageModel::AcquireFailed { op_id: o, .. } => {
            if w.has_op(o) {
                let ids = w.op(o).acquired;
                if at > 0 && at - 1 < w.release_actions(ring, ids).len() {
                    lemma_releases_do_not_run(w, ring, ids, at - 1);
                }
            }
        },
        MessageModel::ReleaseLocksHeldBy(node_id) => {
            lemma_deaths_do_not_run(w, sorted_dom(w.locks), node_id, at);
        },
        MessageModel::IndexUpdateReplied { op_id: o, .. } => {
            if w.has_op(o) && w.op(o).updates is Some {
                let ids = w.op(o).acquired;
                let c = commit_actions(w.op(o).updates.unwrap().staged_writes);
                let r = w.release_actions(ring, ids);
                if step.actions.len() == 1 + r.len() && at > 0 {
                    if step.actions[at] == r[at - 1] {
                        lemma_releases_do_not_run(w, ring, ids, at - 1);
                    }
                }
                if step.actions.len() == c.len() + 1 + r.len() && at > c.len() {
                    if step.actions[at] == r[at - 1 - c.len()] {
                        lemma_releases_do_not_run(w, ring, ids, at - 1 - c.len());
                    }
                }
            }
        },
        _ => {},
    }
    assert(s.has_op(op_id) && s.op(op_id).ready() && s.op(op_id).datum_ids == datum_ids);
    let op = s.op(op_id);
    assert(op.wf());
    assert forall|i: int| 0 <= i < datum_ids.len() implies op.acquired.contains(
        #[trigger] datum_ids[i],
    ) by {
        assert(op.datum_ids[i] == datum_ids[i]);
    }
}

proof fn lemma_releases_do_not_run(w: WorkerModel, ring: Seq<Slot>, ids: Seq<DatumId>, i: int)
    requires
        0 <= i < w.release_actions(ring, ids).len(),
    ensures
        !(w.release_actions(ring, ids)[i] is Run),
    decreases ids.len(),
{
    if ids.len() > 0 {
        let head = w.release_actions(ring, ids.drop_last());
        if i < head.len() {
            lemma_releases_do_not_run(w, ring, ids.drop_last(), i);
        }
    }
}

proof fn lemma_deaths_do_not_run(w: WorkerModel, keys: Seq<u128>, node_id: NodeId, i: int)
    requires
        0 <= i < w.death_actions(keys, node_id).len(),
    ensures
        !(w.death_actions(keys, node_id)[i] is Run),
    decreases keys.len(),
{
    if keys.len() > 0 {
        let head = w.death_actions(keys.drop_last(), node_id);
        if i < head.len() {
            lemma_deaths_do_not_run(w, keys.drop_last(), node_id, i);
        }
    }
}

/// A datum that was granted to an op that is gone goes straight back to its
/// home, so that none stays held for nobody.
pub proof fn law_orphaned_grant_returns(
    w: WorkerModel,
    ring: Seq<Slot>,
    op_id: DatumId,
    datum_id: DatumId,
)
    requires
        !w.has_op(op_id),
    ensures
        w.acquire_granted(ring, op_id, datum_id).actions == w.release_action(ring, datum_id),
{
    reveal_with_fuel(WorkerModel::release_actions, 2);
    assert(seq![datum_id].drop_last() =~= seq![]);
    assert(w.acquire_granted(ring, op_id, datum_id).actions =~= w.release_action(ring, datum_id));
}

/// After a node's death no lock here is held by it or waited for by it.
pub proof fn law_death_frees_locks(w: WorkerModel, node_id: NodeId, k: u128)
    requires
        w.wf(),
        w.locks.contains_key(k),
    ensures
        ({
            let lock = w.release_locks_held_by(node_id).worker.locks[k];
            !lock.held_by(node_id) && forall|i: int|
                0 <= i < lock.waiters.len() ==> (#[trigger] lock.waiters[i]).node_id != node_id
        }),
{
    crate::collation::law_dead_node_forgotten(w.locks[k], node_id);
}

/// An op of which an index update was refused writes nothing, and with the last
/// answer reports the first refusal.
pub proof fn law_refused_update_writes_nothing(
    w: WorkerModel,
    ring: Seq<Slot>,
    op_id: DatumId,
    violation: Option<Seq<char>>,
)
    requires
        w.has_op(op_id),
        w.op(op_id).updates matches Some(u) && (u.violation is Some || violation is Some),
    ensures
        ({
            let u = w.op(op_id).updates.unwrap();
            let actions = w.index_update_replied(ring, op_id, violation).actions;
            let first = if u.violation is Some {
                u.violation.unwrap()
            } else {
                violation.unwrap()
            };
            &&& forall|i: int| 0 <= i < actions.len() ==> !(#[trigger] actions[i] is Write)
            &&& u.pending == 1 ==> actions.len() > 0 && actions[0] == (ActionModel::Answer {
                reply: w.op(op_id).reply,
                result: Err(first),
            })
        }),
{
    let ids = w.op(op_id).acquired;
    let actions = w.index_update_replied(ring, op_id, violation).actions;
    assert forall|i: int| 0 <= i < actions.len() implies !(#[trigger] actions[i] is Write) by {
        if i > 0 {
            lemma_releases_do_not_write(w, ring, ids, i - 1);
        }
    }
}

/// An op whose index updates were all accepted writes, with the last answer,
/// everything that it staged, and then reports its result.
pub proof fn law_accepted_updates_commit(w: WorkerModel, ring: Seq<Slot>, op_id: DatumId)
    requires
        w.has_op(op_id),
        w.op(op_id).updates matches Some(u) && u.violation is None && u.pending == 1,
    ensures
        ({
            let u = w.op(op_id).updates.unwrap();
            let step = w.index_update_replied(ring, op_id, None);
            let writes = commit_actions(u.staged_writes);
            &&& !step.worker.has_op(op_id)
            &&& step.actions.len() > writes.len()
            &&& step.actions.take(writes.len() as int) == writes
            &&& step.actions[writes.len() as int] == (ActionModel::Answer {
                reply: w.op(op_id).reply,
                result: Ok(u.op_result),
            })
        }),
{
    let writes = commit_actions(w.op(op_id).updates.unwrap().staged_writes);
    let actions = w.index_update_replied(ring, op_id, None).actions;
    assert(actions.take(writes.len() as int) =~= writes);
}

/// An op that ran and changes no index writes everything that it staged before it
/// reports its result, and its data go home only after that.
pub proof fn law_writes_come_before_the_answer(
    w: WorkerModel,
    ring: Seq<Slot>,
    op_id: DatumId,
    op_result: Seq<u8>,
    staged: Seq<(DatumId, Option<Seq<u8>>, u16)>,
)
    requires
        w.has_op(op_id),
        w.op(op_id).ready(),
    ensures
        ({
            let step = w.op_ran(ring, op_id, Ok(op_result), staged, seq![]);
            let writes = commit_actions(staged);
            &&& !step.worker.has_op(op_id)
            &&& step.actions == writes + (seq![
                ActionModel::Answer { reply: w.op(op_id).reply, result: Ok(op_result) },
            ] + w.release_actions(ring, w.op(op_id).acquired))
        }),
{
}

proof fn lemma_releases_do_not_write(w: WorkerModel, ring: Seq<Slot>, ids: Seq<DatumId>, i: int)
    requires
        0 <= i < w.release_actions(ring, ids).len(),
    ensures
        !(w.release_actions(ring, ids)[i] is Write),
    decreases ids.len(),
{
    if ids.len() > 0 {
        let head = w.release_actions(ring, ids.drop_last());
        if i < head.len() {
            lemma_releases_do_not_write(w, ring, ids.drop_last(), i);
        }
    }
}

} // verus!
