//! Workers of one and of several nodes, with the messages between them
//! delivered one at a time.

use std::cell::RefCell;
use std::collections::{BTreeMap, BTreeSet, VecDeque};
use std::rc::Rc;

use seisin::authority::{NodeId, ThreadId};
use seisin::admin_wire::decode_client_request;
use seisin::cache::Cache;
use seisin::client::Journey;
use seisin::collation::ReplyTo;
use seisin::context::OpContext;
use seisin::datum::DatumId;
use seisin::index_handler::{
    IndexApplyOutcome, IndexCalls, IndexKind, IndexKindRegistry, IndexOpening, ResidentIndex,
    Residents,
};
use seisin::message::{Action, AfterCall, WorkerMessage};
use seisin::peer_link::{disconnected, dispatch};
use seisin::registry::{OpHandler, OpRegistry, OpRun};
use seisin::request::{encode_request, Request};
use seisin::response::{decode_response, encode_response, Response};
use seisin::ring::Ring;
use seisin::server::{op_answer, pick_destination_thread, route, Route};
use seisin::store::{Store, StoreCalls};
use seisin::worker::Worker;

/// A store that all threads of all nodes share.
#[derive(Clone)]
struct Shared(Rc<RefCell<BTreeMap<u128, Vec<u8>>>>);

impl Store for Shared {
    fn calls(&self) -> StoreCalls {
        unreachable!()
    }

    fn get_replicated(&mut self, id: DatumId, _n: u16) -> Option<Vec<u8>> {
        self.0.borrow().get(&id.as_rank()).cloned()
    }

    fn put_replicated(&mut self, id: DatumId, content: Vec<u8>, _n: u16) {
        self.0.borrow_mut().insert(id.as_rank(), content);
    }

    fn put_with_previous_replicated(
        &mut self,
        id: DatumId,
        content: Vec<u8>,
        _previous: Option<&[u8]>,
        n: u16,
    ) {
        self.put_replicated(id, content, n);
    }

    fn delete_replicated(&mut self, id: DatumId, _n: u16) {
        self.0.borrow_mut().remove(&id.as_rank());
    }
}

#[derive(Clone, Copy)]
enum TestOp {
    PutFirst,
    PutSilently,
    GetFirst,
    MoveContent,
    TouchBoth,
    TouchWithIndex(DatumId, &'static str),
    AppendToAll,
}

impl<S: Store> OpHandler<S> for TestOp {
    fn can_run(&self, _run: OpRun) -> bool {
        unreachable!()
    }

    fn run(
        &self,
        ctx: &mut OpContext<'_, S>,
        ids: &Vec<DatumId>,
        payload: &Vec<u8>,
    ) -> Option<Vec<u8>> {
        match *self {
            TestOp::PutFirst => {
                ctx.put(ids[0], payload.clone());
                Some(payload.clone())
            }
            TestOp::PutSilently => {
                ctx.put(ids[0], payload.clone());
                Some(vec![])
            }
            TestOp::GetFirst => Some(ctx.get(ids[0]).unwrap_or_default()),
            TestOp::MoveContent => {
                let content = ctx.get(ids[0]).unwrap_or_default();
                ctx.delete(ids[0]);
                ctx.put(ids[1], content.clone());
                Some(content)
            }
            TestOp::TouchBoth => {
                ctx.put(ids[0], b"touched".to_vec());
                ctx.put(ids[1], b"touched".to_vec());
                Some(vec![])
            }
            TestOp::TouchWithIndex(target, kind) => {
                ctx.put(ids[0], b"touched".to_vec());
                ctx.schedule_index_update(target, kind.to_string(), vec![1]);
                Some(vec![])
            }
            TestOp::AppendToAll => {
                for id in ids {
                    let mut content = ctx.get(*id).unwrap_or_default();
                    content.extend_from_slice(payload);
                    ctx.put(*id, content);
                }
                Some(vec![])
            }
        }
    }
}

/// Applies always succeed, or are always refused.
struct FixedOutcomeKind {
    violation: Option<String>,
}

struct FixedOutcomeResident {
    violation: Option<String>,
    applied: usize,
}

impl ResidentIndex for FixedOutcomeResident {
    fn calls(&self) -> IndexCalls {
        unreachable!()
    }

    fn apply(&mut self, payload: &[u8]) -> IndexApplyOutcome {
        self.applied += 1;
        IndexApplyOutcome {
            violation: self.violation.clone(),
            write_through: Some(payload.to_vec()),
        }
    }

    fn query(&mut self, query: &[u8]) -> Result<Vec<u8>, String> {
        if query == b"applied" {
            return Ok(vec![self.applied as u8]);
        }
        Ok(query.iter().map(u8::to_ascii_uppercase).collect())
    }

    fn execute(&mut self, payload: &[u8]) -> Result<Vec<u8>, String> {
        Ok(payload.iter().rev().copied().collect())
    }
}

impl IndexKind for FixedOutcomeKind {
    type Resident = FixedOutcomeResident;

    fn can_open(&self, _opening: IndexOpening<FixedOutcomeResident>) -> bool {
        unreachable!()
    }

    fn open(
        &self,
        _target: DatumId,
        _stored: Option<Vec<u8>>,
    ) -> Result<FixedOutcomeResident, String> {
        Ok(FixedOutcomeResident {
            violation: self.violation.clone(),
            applied: 0,
        })
    }
}

struct Thread {
    worker: Worker,
    cache: Cache<Shared>,
    residents: Residents<FixedOutcomeResident>,
    inbox: VecDeque<WorkerMessage>,
}

/// Nodes whose messages are delivered in an order of the test's choice.
struct Cluster {
    ring: Ring,
    threads: BTreeMap<(u64, u32), Thread>,
    ops: OpRegistry<TestOp>,
    kinds: IndexKindRegistry<FixedOutcomeKind>,
    store: Shared,
    /// Calls without an answer: the caller, whom it called, and what follows.
    calls: BTreeMap<u64, ((u64, u32), u64, AfterCall)>,
    next_call: u64,
    next_ticket: u64,
    answers: BTreeMap<u64, Result<Vec<u8>, String>>,
    down: BTreeSet<u64>,
    dice: u64,
}

impl Cluster {
    fn new(members: &[(NodeId, u32)]) -> Cluster {
        let store = Shared(Rc::new(RefCell::new(BTreeMap::new())));
        let mut threads = BTreeMap::new();
        for (node, count) in members {
            for thread in 0..*count {
                threads.insert(
                    (node.0, thread),
                    Thread {
                        worker: Worker::new(*node, ThreadId(thread)),
                        cache: Cache::new(store.clone()),
                        residents: Residents::new(),
                        inbox: VecDeque::new(),
                    },
                );
            }
        }
        let mut ops = OpRegistry::new();
        ops.register("put_first", TestOp::PutFirst);
        ops.register("get_first", TestOp::GetFirst);
        ops.register("put1", TestOp::PutSilently);
        ops.register("get1", TestOp::GetFirst);
        ops.register("move_content", TestOp::MoveContent);
        ops.register("touch_both", TestOp::TouchBoth);
        ops.register("append", TestOp::AppendToAll);
        let mut kinds = IndexKindRegistry::new();
        kinds.register("echo", FixedOutcomeKind { violation: None });
        kinds.register(
            "always_reject",
            FixedOutcomeKind {
                violation: Some("rejected".to_string()),
            },
        );
        Cluster {
            ring: Ring::from_members(members),
            threads,
            ops,
            kinds,
            store,
            calls: BTreeMap::new(),
            next_call: 0,
            next_ticket: 0,
            answers: BTreeMap::new(),
            down: BTreeSet::new(),
            dice: 1,
        }
    }

    fn submit(
        &mut self,
        node: u64,
        thread: u32,
        op_id: DatumId,
        name: &str,
        datum_ids: Vec<DatumId>,
        payload: &[u8],
    ) -> u64 {
        let reply = self.next_ticket;
        self.next_ticket += 1;
        self.send(
            (node, thread),
            WorkerMessage::RunOp {
                op_id,
                op_name: name.to_string(),
                datum_ids,
                payload: payload.to_vec(),
                reply,
            },
        );
        reply
    }

    fn send(&mut self, to: (u64, u32), message: WorkerMessage) {
        if let Some(thread) = self.threads.get_mut(&to) {
            thread.inbox.push_back(message);
        }
    }

    /// Delivers one message. Which thread gets one is left to the dice.
    fn step(&mut self) -> bool {
        let waiting: Vec<(u64, u32)> = self
            .threads
            .iter()
            .filter(|(at, t)| !t.inbox.is_empty() && !self.down.contains(&at.0))
            .map(|(at, _)| *at)
            .collect();
        if waiting.is_empty() {
            return false;
        }
        self.dice = self.dice.wrapping_mul(6364136223846793005).wrapping_add(1442695040888963407);
        let at = waiting[(self.dice >> 33) as usize % waiting.len()];
        let thread = self.threads.get_mut(&at).unwrap();
        let message = thread.inbox.pop_front().unwrap();
        let actions = thread.worker.handle(&self.ring, message);
        self.perform(at, actions);
        true
    }

    fn settle(&mut self) {
        let mut steps = 0;
        while self.step() {
            steps += 1;
            assert!(steps < 200_000, "the cluster does not come to rest");
        }
    }

    fn perform(&mut self, at: (u64, u32), actions: Vec<Action>) {
        for action in actions {
            let thread = self.threads.get_mut(&at).unwrap();
            match action {
                Action::Invalidate { id } => thread.cache.invalidate(id),
                Action::Write { id, content, n } => match content {
                    Some(bytes) => thread.cache.put_replicated(id, bytes, n),
                    None => thread.cache.delete_replicated(id, n),
                },
                Action::Send { thread, message } => self.send((at.0, thread.0), message),
                Action::Call {
                    node,
                    thread,
                    request,
                    then,
                } => {
                    if self.down.contains(&node.0) || !self.threads.contains_key(&(node.0, thread.0))
                    {
                        if let Some(message) = then.message(None) {
                            self.send(at, message);
                        }
                        continue;
                    }
                    let number = self.next_call;
                    self.next_call += 1;
                    self.calls.insert(number, (at, node.0, then));
                    let d = dispatch(request, 0, number);
                    if let Some(message) = d.message {
                        self.send((node.0, thread.0), message);
                    }
                    if let Some(response) = d.answer {
                        self.respond(number, response);
                    }
                }
                Action::Respond {
                    correlation_id,
                    response,
                    ..
                } => self.respond(correlation_id, response),
                Action::Answer { reply, result } => {
                    assert!(self.answers.insert(reply, result).is_none());
                }
                Action::Run {
                    op_id,
                    op_name,
                    datum_ids,
                    payload,
                } => {
                    let mut ctx = OpContext::new(&mut thread.cache);
                    let result = self.ops.invoke(&op_name, &mut ctx, &datum_ids, &payload);
                    let writes = ctx.take_staged_writes();
                    let updates = ctx.take_pending_index_updates();
                    let next = thread
                        .worker
                        .op_ran(&self.ring, op_id, result, writes, updates);
                    self.perform(at, next);
                }
                Action::UseIndex {
                    target,
                    op_id,
                    index_kind,
                    payload,
                    reply,
                } => {
                    let updated = thread.residents.update(
                        &self.kinds,
                        &mut thread.cache,
                        target,
                        &index_kind,
                        &payload,
                    );
                    let next = thread.worker.index_updated(op_id, target, reply, updated);
                    self.perform(at, next);
                }
            }
        }
    }

    fn respond(&mut self, number: u64, response: Response) {
        if let Some((caller, _, then)) = self.calls.remove(&number) {
            if let Some(message) = then.message(Some(response)) {
                self.send(caller, message);
            }
        }
    }

    /// A node stops: it takes nothing more in, and calls of it are given up.
    fn kill(&mut self, node: u64) {
        self.down.insert(node);
        let lost: Vec<u64> = self
            .calls
            .iter()
            .filter(|(_, (_, callee, _))| *callee == node)
            .map(|(number, _)| *number)
            .collect();
        for number in lost {
            self.respond(number, disconnected());
        }
    }

    /// The other nodes learn that a node is dead.
    fn bury(&mut self, node: u64) {
        self.ring.apply_leave(NodeId(node));
        let others: Vec<(u64, u32)> = self.threads.keys().copied().filter(|t| t.0 != node).collect();
        for at in others {
            self.send(at, WorkerMessage::ReleaseLocksHeldBy(NodeId(node)));
        }
    }

    fn run(
        &mut self,
        node: u64,
        thread: u32,
        name: &str,
        datum_ids: Vec<DatumId>,
        payload: &[u8],
    ) -> Result<Vec<u8>, String> {
        let ticket = self.submit(node, thread, DatumId::new(), name, datum_ids, payload);
        self.settle();
        self.answers.remove(&ticket).expect("the op was not answered")
    }

    /// Has a node that is up answer a client's request, as bytes.
    fn serve(&mut self, node: u64, bytes: &[u8]) -> Vec<u8> {
        let book: BTreeMap<u64, String> = self
            .threads
            .keys()
            .map(|(n, _)| (*n, format!("node-{n}")))
            .collect();
        let request = decode_client_request(bytes).unwrap();
        let response = match route(NodeId(node), &self.ring, &book, None, request) {
            Route::Reply(response) => response,
            Route::RunOp {
                thread,
                op_id,
                op_name,
                datum_ids,
                payload,
            } => {
                let ticket =
                    self.submit(node, thread.0, op_id, &op_name, datum_ids, &payload);
                self.settle();
                let result = self.answers.remove(&ticket).expect("the op was not answered");
                op_answer(result)
            }
            other => panic!("unexpected route {other:?}"),
        };
        encode_response(&response)
    }

    /// A client's op, wherever it is sent on to. An error where a node on the way
    /// is down.
    fn client_op(
        &mut self,
        entry: u64,
        name: &str,
        datum_ids: Vec<DatumId>,
        payload: &[u8],
    ) -> Result<Response, String> {
        let request = encode_request(&Request::Op {
            op_id: DatumId::new(),
            op_name: name.to_string(),
            datum_ids,
            payload: payload.to_vec(),
        });
        let mut journey = Journey::new(&format!("node-{entry}"));
        loop {
            let address = journey.next()?;
            let node: u64 = address.strip_prefix("node-").unwrap().parse().unwrap();
            if self.down.contains(&node) {
                return Err("connection refused".to_string());
            }
            let response = decode_response(&self.serve(node, &request)).unwrap();
            if let Some(end) = journey.answered(response) {
                return Ok(end);
            }
        }
    }

    fn stored(&self, id: DatumId) -> Option<Vec<u8>> {
        self.store.0.borrow().get(&id.as_rank()).cloned()
    }
}

/// Two ids with different homes.
fn two_homes(ring: &Ring) -> (DatumId, DatumId) {
    loop {
        let a = DatumId::new();
        let b = DatumId::new();
        if ring.native(a) != ring.native(b) {
            return (a, b);
        }
    }
}

/// An id with its home on a node.
fn id_on(ring: &Ring, node: NodeId) -> DatumId {
    loop {
        let id = DatumId::new();
        if ring.native(id).0 == node {
            return id;
        }
    }
}

#[test]
fn a_single_datum_op_on_its_own_native_thread_runs_immediately() {
    let mut cluster = Cluster::new(&[(NodeId(1), 1)]);
    let id = DatumId::new();
    assert_eq!(
        cluster.run(1, 0, "put_first", vec![id], b"hello"),
        Ok(b"hello".to_vec())
    );
    assert_eq!(
        cluster.run(1, 0, "get_first", vec![id], b""),
        Ok(b"hello".to_vec())
    );
}

#[test]
fn an_op_collates_a_datum_natively_owned_by_a_different_local_thread() {
    let mut cluster = Cluster::new(&[(NodeId(1), 4)]);
    let (from, to) = two_homes(&cluster.ring);
    let home = cluster.ring.native(from).1;
    cluster
        .run(1, home.0, "put_first", vec![from], b"payload")
        .unwrap();
    assert_eq!(
        cluster.run(1, 0, "move_content", vec![from, to], b""),
        Ok(b"payload".to_vec())
    );
    assert_eq!(cluster.stored(from), None);
    assert_eq!(cluster.stored(to), Some(b"payload".to_vec()));
}

#[test]
fn an_older_op_recalls_a_datum_from_a_younger_ops_in_flight_collation() {
    for dice in 0..50 {
        let mut cluster = Cluster::new(&[(NodeId(1), 4)]);
        cluster.dice = dice;
        let (a, b) = two_homes(&cluster.ring);
        let op1 = DatumId::new();
        let op2 = DatumId::new();
        let first = cluster.submit(1, 0, op1, "touch_both", vec![a, b], b"");
        let second = cluster.submit(1, 1, op2, "touch_both", vec![b, a], b"");
        cluster.settle();
        assert_eq!(cluster.answers.get(&first), Some(&Ok(vec![])));
        assert_eq!(cluster.answers.get(&second), Some(&Ok(vec![])));
    }
}

#[test]
fn an_op_with_no_index_updates_commits_immediately_as_before() {
    let mut cluster = Cluster::new(&[(NodeId(1), 1)]);
    let id = DatumId::new();
    assert_eq!(
        cluster.run(1, 0, "touch_both", vec![id, id], b""),
        Ok(vec![])
    );
    assert_eq!(cluster.stored(id), Some(b"touched".to_vec()));
}

#[test]
fn an_op_that_schedules_an_index_update_waits_for_it_before_committing() {
    let mut cluster = Cluster::new(&[(NodeId(1), 1)]);
    let index = DatumId::new();
    cluster
        .ops
        .register("touch_with_index", TestOp::TouchWithIndex(index, "echo"));
    let id = DatumId::new();
    let ticket = cluster.submit(1, 0, DatumId::new(), "touch_with_index", vec![id], b"");
    while !cluster.answers.contains_key(&ticket) {
        assert_eq!(cluster.stored(id), None);
        assert!(cluster.step());
    }
    assert_eq!(cluster.answers.get(&ticket), Some(&Ok(vec![])));
    assert_eq!(cluster.stored(id), Some(b"touched".to_vec()));
    assert_eq!(cluster.stored(index), Some(vec![1]));
}

#[test]
fn run_index_query_answers_from_the_resident_index() {
    let mut cluster = Cluster::new(&[(NodeId(1), 1)]);
    let thread = cluster.threads.get_mut(&(1, 0)).unwrap();
    let result = thread.residents.query(
        &cluster.kinds,
        &mut thread.cache,
        DatumId::new(),
        "echo",
        b"abc",
    );
    assert_eq!(result, Ok(b"ABC".to_vec()));
}

#[test]
fn run_index_query_on_an_unregistered_kind_is_an_error() {
    let mut cluster = Cluster::new(&[(NodeId(1), 1)]);
    let thread = cluster.threads.get_mut(&(1, 0)).unwrap();
    let target = DatumId::new();
    assert_eq!(
        thread
            .residents
            .query(&cluster.kinds, &mut thread.cache, target, "nope", b""),
        Err("no index kind registered for \"nope\"".to_string())
    );
    assert!(!thread.residents.is_open(target));
}

#[test]
fn run_index_execute_reaches_the_resident_index_and_returns_its_result() {
    let mut cluster = Cluster::new(&[(NodeId(1), 1)]);
    let thread = cluster.threads.get_mut(&(1, 0)).unwrap();
    let result = thread.residents.execute(
        &cluster.kinds,
        &mut thread.cache,
        DatumId::new(),
        "echo",
        b"abc",
    );
    assert_eq!(result, Ok(b"cba".to_vec()));
}

#[test]
fn run_index_execute_on_an_unregistered_kind_is_an_error() {
    let mut cluster = Cluster::new(&[(NodeId(1), 1)]);
    let thread = cluster.threads.get_mut(&(1, 0)).unwrap();
    assert!(thread
        .residents
        .execute(
            &cluster.kinds,
            &mut thread.cache,
            DatumId::new(),
            "nope",
            b""
        )
        .is_err());
}

#[test]
fn execute_then_query_hit_the_same_resident_instance() {
    let mut cluster = Cluster::new(&[(NodeId(1), 1)]);
    let thread = cluster.threads.get_mut(&(1, 0)).unwrap();
    let target = DatumId::new();
    assert!(thread
        .residents
        .execute(&cluster.kinds, &mut thread.cache, target, "echo", b"x")
        .is_ok());
    // Open as it is, its kind does not matter any more.
    let result = thread
        .residents
        .query(&cluster.kinds, &mut thread.cache, target, "nope", b"q");
    assert_eq!(result, Ok(b"Q".to_vec()));
}

#[test]
fn an_index_updated_then_queried_on_the_same_thread_uses_one_resident_instance() {
    let mut cluster = Cluster::new(&[(NodeId(1), 1)]);
    let index = DatumId::new();
    cluster
        .ops
        .register("touch_with_index", TestOp::TouchWithIndex(index, "echo"));
    for _ in 0..2 {
        cluster
            .run(1, 0, "touch_with_index", vec![DatumId::new()], b"")
            .unwrap();
    }
    let thread = cluster.threads.get_mut(&(1, 0)).unwrap();
    assert!(thread.residents.is_open(index));
    let query = |thread: &mut Thread, q: &[u8]| {
        thread
            .residents
            .query(&cluster.kinds, &mut thread.cache, index, "echo", q)
    };
    assert_eq!(query(thread, b"q"), Ok(b"Q".to_vec()));
    assert_eq!(query(thread, b"applied"), Ok(vec![2]));
}

#[test]
fn a_violation_from_a_scheduled_index_update_fails_the_whole_op_with_no_write() {
    let mut cluster = Cluster::new(&[(NodeId(1), 1)]);
    let index = DatumId::new();
    cluster.ops.register(
        "touch_with_rejected_index",
        TestOp::TouchWithIndex(index, "always_reject"),
    );
    let id = DatumId::new();
    assert_eq!(
        cluster.run(1, 0, "touch_with_rejected_index", vec![id], b""),
        Err("rejected".to_string())
    );
    assert_eq!(cluster.stored(id), None);
    assert_eq!(cluster.stored(index), None);
}

#[test]
fn an_update_of_an_index_of_an_unknown_kind_fails_the_op() {
    let mut cluster = Cluster::new(&[(NodeId(1), 1)]);
    let index = DatumId::new();
    cluster
        .ops
        .register("touch_with_nothing", TestOp::TouchWithIndex(index, "ni\"l"));
    assert_eq!(
        cluster.run(1, 0, "touch_with_nothing", vec![DatumId::new()], b""),
        Err("no index kind registered for \"ni\\\"l\"".to_string())
    );
}

#[test]
fn run_op_executes_a_registered_op_and_returns_its_result() {
    let mut cluster = Cluster::new(&[(NodeId(1), 2)]);
    let id = DatumId::new();
    let thread = pick_destination_thread(&cluster.ring, &vec![id]);
    assert_eq!(
        cluster.run(1, thread.0, "put_first", vec![id], b"hi"),
        Ok(b"hi".to_vec())
    );
}

#[test]
fn run_op_on_unknown_name_returns_an_error() {
    let mut cluster = Cluster::new(&[(NodeId(1), 1)]);
    assert!(cluster.run(1, 0, "nope", vec![], b"").is_err());
}

#[test]
fn writes_from_one_op_are_visible_to_a_later_op_regardless_of_thread() {
    let mut cluster = Cluster::new(&[(NodeId(1), 2)]);
    let id = DatumId::new();
    for writer in 0..2 {
        for reader in 0..2 {
            let content = [writer as u8, reader as u8];
            cluster
                .run(1, writer, "put_first", vec![id], &content)
                .unwrap();
            assert_eq!(
                cluster.run(1, reader, "get_first", vec![id], b""),
                Ok(content.to_vec())
            );
        }
    }
}

#[test]
fn release_locks_held_by_does_not_disturb_unrelated_locks_or_break_the_pool() {
    let mut cluster = Cluster::new(&[(NodeId(1), 1)]);
    let id = DatumId::new();
    cluster.run(1, 0, "touch_both", vec![id, id], b"").unwrap();
    cluster.send((1, 0), WorkerMessage::ReleaseLocksHeldBy(NodeId(99)));
    cluster.settle();
    assert_eq!(
        cluster.run(1, 0, "touch_both", vec![id, id], b""),
        Ok(vec![])
    );
}

#[test]
fn an_op_collates_datums_natively_owned_by_different_nodes() {
    let mut cluster = Cluster::new(&[(NodeId(1), 2), (NodeId(2), 2)]);
    let near = id_on(&cluster.ring, NodeId(1));
    let far = id_on(&cluster.ring, NodeId(2));
    cluster
        .run(2, 0, "put_first", vec![far], b"over there")
        .unwrap();
    assert_eq!(
        cluster.run(1, 0, "move_content", vec![far, near], b""),
        Ok(b"over there".to_vec())
    );
    assert_eq!(cluster.stored(near), Some(b"over there".to_vec()));
    assert_eq!(cluster.stored(far), None);
}

#[test]
fn an_op_collates_datums_natively_owned_by_different_local_threads() {
    let mut cluster = Cluster::new(&[(NodeId(1), 4)]);
    let (a, b) = two_homes(&cluster.ring);
    assert_eq!(
        cluster.run(1, 3, "touch_both", vec![a, b], b""),
        Ok(vec![])
    );
    assert_eq!(cluster.stored(a), Some(b"touched".to_vec()));
    assert_eq!(cluster.stored(b), Some(b"touched".to_vec()));
}

#[test]
fn an_unknown_op_name_returns_an_op_error() {
    let mut cluster = Cluster::new(&[(NodeId(1), 2)]);
    assert_eq!(
        cluster.run(1, 0, "nonexistent", vec![DatumId::new()], b""),
        Err("unknown op: nonexistent".to_string())
    );
}

#[test]
fn two_ops_needing_the_same_two_datums_in_opposite_order_both_complete() {
    for dice in 0..100 {
        let mut cluster = Cluster::new(&[(NodeId(1), 2)]);
        cluster.dice = dice;
        let (a, b) = two_homes(&cluster.ring);
        let mut tickets = Vec::new();
        for turn in 0..10 {
            let ids = if turn % 2 == 0 { vec![a, b] } else { vec![b, a] };
            let op_id = DatumId::new();
            tickets.push(cluster.submit(1, turn % 2, op_id, "append", ids, b"."));
        }
        cluster.settle();
        for ticket in tickets {
            assert_eq!(cluster.answers.get(&ticket), Some(&Ok(vec![])));
        }
        assert_eq!(cluster.stored(a), Some(vec![b'.'; 10]));
        assert_eq!(cluster.stored(b), Some(vec![b'.'; 10]));
    }
}

#[test]
fn two_ops_needing_cross_node_datums_in_opposite_order_both_complete() {
    for dice in 0..100 {
        let mut cluster = Cluster::new(&[(NodeId(1), 1), (NodeId(2), 1)]);
        cluster.dice = dice;
        let a = id_on(&cluster.ring, NodeId(1));
        let b = id_on(&cluster.ring, NodeId(2));
        let op1 = DatumId::new();
        let op2 = DatumId::new();
        let first = cluster.submit(1, 0, op1, "append", vec![a, b], b"1");
        let second = cluster.submit(2, 0, op2, "append", vec![b, a], b"2");
        cluster.settle();
        assert_eq!(cluster.answers.get(&first), Some(&Ok(vec![])));
        assert_eq!(cluster.answers.get(&second), Some(&Ok(vec![])));
        // One after the other, never interleaved.
        let content = cluster.stored(a).unwrap();
        assert_eq!(cluster.stored(b), Some(content.clone()));
        assert!(content == b"12" || content == b"21");
    }
}

#[test]
fn cross_node_ops_complete_under_contention() {
    let mut cluster = Cluster::new(&[(NodeId(1), 2), (NodeId(2), 2), (NodeId(3), 1)]);
    let ids: Vec<DatumId> = (0..4).map(|_| DatumId::new()).collect();
    let mut tickets = Vec::new();
    for turn in 0..60usize {
        let node = 1 + (turn % 3) as u64;
        let thread = if node == 3 { 0 } else { (turn % 2) as u32 };
        let some = vec![
            ids[turn % 4],
            ids[(turn + 1 + turn / 7) % 4],
        ];
        let some = if some[0] == some[1] { vec![some[0]] } else { some };
        let op_id = DatumId::new();
        tickets.push((cluster.submit(node, thread, op_id, "append", some.clone(), b"."), some));
        if turn % 5 == 0 {
            cluster.step();
        }
    }
    cluster.settle();
    let mut expected: BTreeMap<u128, usize> = BTreeMap::new();
    for (ticket, ids) in tickets {
        assert_eq!(cluster.answers.get(&ticket), Some(&Ok(vec![])));
        for id in ids {
            *expected.entry(id.as_rank()).or_default() += 1;
        }
    }
    for (rank, count) in expected {
        assert_eq!(
            cluster.stored(DatumId::from_rank(rank)).unwrap().len(),
            count
        );
    }
}

#[test]
fn an_op_needing_an_unreachable_cross_node_datum_fails_instead_of_hanging() {
    let mut cluster = Cluster::new(&[(NodeId(1), 1), (NodeId(2), 1)]);
    let far = id_on(&cluster.ring, NodeId(2));
    cluster.kill(2);
    let error = cluster.run(1, 0, "put_first", vec![far], b"x").unwrap_err();
    assert!(error.contains("failed to acquire datum"), "{error}");
    assert!(error.contains("after 3 retries"), "{error}");
}

#[test]
fn a_local_datum_stays_available_after_a_different_op_fails_on_the_remote_one() {
    let mut cluster = Cluster::new(&[(NodeId(1), 1), (NodeId(2), 1)]);
    let near = id_on(&cluster.ring, NodeId(1));
    let far = id_on(&cluster.ring, NodeId(2));
    cluster.kill(2);
    assert!(cluster
        .run(1, 0, "touch_both", vec![near, far], b"")
        .is_err());
    assert_eq!(
        cluster.run(1, 0, "put_first", vec![near], b"still here"),
        Ok(b"still here".to_vec())
    );
}

#[test]
fn a_recall_against_a_peer_that_dies_mid_flight_still_releases_via_the_reactive_backstop() {
    let mut cluster = Cluster::new(&[(NodeId(1), 1), (NodeId(2), 1)]);
    let near = id_on(&cluster.ring, NodeId(1));
    let far = id_on(&cluster.ring, NodeId(2));
    let older = DatumId::new();
    let younger = DatumId::new();
    // The other node's op gets hold of the datum here, and waits for its own.
    let lost = cluster.submit(2, 0, younger, "touch_both", vec![near, far], b"");
    let ticket = cluster.submit(1, 0, older, "put_first", vec![near], b"mine");
    let mut steps = 0;
    while cluster.calls.is_empty() && steps < 1000 {
        cluster.step();
        steps += 1;
    }
    cluster.kill(2);
    cluster.bury(2);
    cluster.settle();
    assert_eq!(cluster.answers.get(&ticket), Some(&Ok(b"mine".to_vec())));
    assert!(!cluster.answers.contains_key(&lost));
}

#[test]
fn a_lock_held_by_a_node_that_goes_silent_is_released_once_gossip_confirms_it_dead() {
    let mut cluster = Cluster::new(&[(NodeId(1), 1), (NodeId(2), 1)]);
    let near = id_on(&cluster.ring, NodeId(1));
    let held = DatumId::new();
    // A thread of the other node has the lock, and never gives it back.
    cluster.send(
        (1, 0),
        WorkerMessage::Acquire {
            op_id: held,
            datum_id: near,
            requester_node: NodeId(2),
            requester_thread: ThreadId(0),
            reply: seisin::collation::ReplyTo::Link {
                link: 0,
                correlation_id: 999,
            },
        },
    );
    cluster.down.insert(2);
    let ticket = cluster.submit(1, 0, DatumId::new(), "put_first", vec![near], b"at last");
    cluster.settle();
    assert!(!cluster.answers.contains_key(&ticket));
    cluster.bury(2);
    cluster.settle();
    assert_eq!(cluster.answers.get(&ticket), Some(&Ok(b"at last".to_vec())));
}

#[test]
fn an_index_on_another_node_is_updated_before_the_op_commits() {
    let mut cluster = Cluster::new(&[(NodeId(1), 1), (NodeId(2), 1)]);
    let near = id_on(&cluster.ring, NodeId(1));
    let index = id_on(&cluster.ring, NodeId(2));
    cluster
        .ops
        .register("indexed", TestOp::TouchWithIndex(index, "echo"));
    assert_eq!(cluster.run(1, 0, "indexed", vec![near], b""), Ok(vec![]));
    assert_eq!(cluster.stored(index), Some(vec![1]));
    assert!(cluster.threads[&(2, 0)].residents.is_open(index));
    assert!(!cluster.threads[&(1, 0)].residents.is_open(index));

    cluster.kill(2);
    assert_eq!(
        cluster.run(1, 0, "indexed", vec![near], b""),
        Err("no peer-link connection to node NodeId(2)".to_string())
    );
}

fn result_of(payload: &[u8]) -> Result<Response, String> {
    Ok(Response::OpResult {
        payload: payload.to_vec(),
    })
}

#[test]
fn a_client_op_is_served_across_two_compute_nodes() {
    let mut cluster = Cluster::new(&[(NodeId(1), 2), (NodeId(2), 2)]);
    for i in 0..20u32 {
        let id = DatumId::new();
        let value = format!("v{i}").into_bytes();
        assert_eq!(
            cluster.client_op(1, "put1", vec![id], &value),
            result_of(b"")
        );
        assert_eq!(
            cluster.client_op(2, "get1", vec![id], b""),
            result_of(&value)
        );
    }
}

#[test]
fn put_and_get_route_correctly_across_two_nodes_regardless_of_entry_point() {
    let mut cluster = Cluster::new(&[(NodeId(1), 2), (NodeId(2), 2)]);
    for _ in 0..20 {
        let id = DatumId::new();
        let content = format!("value-for-{id:?}").into_bytes();
        assert_eq!(
            cluster.client_op(1, "put1", vec![id], &content),
            result_of(b"")
        );
        assert_eq!(
            cluster.client_op(2, "get1", vec![id], b""),
            result_of(&content)
        );
    }
}

#[test]
fn a_killed_compute_node_is_reclaimed_and_ops_keep_succeeding() {
    let mut cluster = Cluster::new(&[(NodeId(1), 2), (NodeId(2), 2)]);
    let early: Vec<DatumId> = (0..10).map(|_| DatumId::new()).collect();
    for (i, id) in early.iter().enumerate() {
        let value = format!("v{i}").into_bytes();
        assert_eq!(
            cluster.client_op(1, "put1", vec![*id], &value),
            result_of(b"")
        );
    }
    cluster.kill(2);
    let far = id_on(&cluster.ring, NodeId(2));
    assert!(cluster.client_op(1, "put1", vec![far], b"v").is_err());

    cluster.bury(2);
    cluster.settle();
    for (i, id) in early.iter().enumerate() {
        let value = format!("v{i}").into_bytes();
        assert_eq!(
            cluster.client_op(1, "get1", vec![*id], b""),
            result_of(&value)
        );
    }
    for i in 0..20u32 {
        let id = DatumId::new();
        let value = format!("k{i}").into_bytes();
        assert_eq!(
            cluster.client_op(1, "put1", vec![id], &value),
            result_of(b"")
        );
        assert_eq!(
            cluster.client_op(1, "get1", vec![id], b""),
            result_of(&value)
        );
    }
}

#[test]
fn a_worker_needs_the_ring_only_where_it_looks_a_home_up() {
    let ring = Ring::from_members(&[(NodeId(1), 1)]);
    let empty = Ring::from_members(&[]);
    let mut worker = Worker::new(NodeId(1), ThreadId(0));
    let (op_id, datum_id) = (DatumId::new(), DatumId::new());
    let run = |datum_ids: Vec<DatumId>| WorkerMessage::RunOp {
        op_id,
        op_name: "x".to_string(),
        datum_ids,
        payload: vec![],
        reply: 1,
    };
    let recall = || WorkerMessage::Recall {
        datum_id,
        reply: ReplyTo::Thread(ThreadId(0)),
    };
    assert!(!worker.needs_ring(&run(vec![])));
    assert!(worker.needs_ring(&run(vec![datum_id])));
    assert!(!worker.needs_ring(&recall()));
    assert!(!worker.needs_ring_once_ran(op_id, true, 1));
    worker.handle(&empty, recall());
    worker.handle(&empty, WorkerMessage::Release { datum_id });

    worker.handle(&ring, run(vec![datum_id]));
    let granted = WorkerMessage::AcquireGranted { op_id, datum_id };
    assert!(!worker.needs_ring(&granted));
    worker.handle(&empty, granted);
    assert!(worker.needs_ring(&recall()));
    assert!(worker.needs_ring_once_ran(op_id, true, 0));
    assert!(worker.needs_ring(&WorkerMessage::AcquireFailed {
        op_id,
        datum_id,
        retries_left: 0,
    }));
    let unknown = WorkerMessage::AcquireGranted {
        op_id: DatumId::new(),
        datum_id,
    };
    assert!(worker.needs_ring(&unknown));
}
