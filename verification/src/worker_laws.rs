//! What holds of a worker over several messages, and of the actions that a
//! message leads to.

use crate::authority::NodeId;
use crate::collation::{Holder, ReplyTo, Waiter};
use crate::context::IndexUpdateModel;
use crate::datum::DatumId;
use crate::index_handler::UpdateModel;
use crate::message::{ActionModel, AfterCall, MessageModel};
use crate::request::RequestModel;
use crate::response::ResponseModel;
use crate::ring::{home, Slot};
use crate::worker::{
    acquire_failed_text, commit_actions, keys_of, sorted_dom, updated_actions, without_id, OpModel,
    Step, UpdatesModel, WorkerModel,
};
use vstd::prelude::*;

verus! {

// ---- index updates ----

/// A worker after the answers to an op's index updates, one after the other,
/// with everything that they led to.
pub open spec fn after_answers(
    w: WorkerModel,
    ring: Seq<Slot>,
    op_id: DatumId,
    answers: Seq<(DatumId, Option<Seq<char>>)>,
) -> Step
    decreases answers.len(),
{
    if answers.len() == 0 {
        Step { worker: w, actions: seq![] }
    } else {
        let before = after_answers(w, ring, op_id, answers.drop_last());
        let (target, violation) = answers.last();
        let step = before.worker.handle(
            ring,
            MessageModel::IndexUpdateReplied { op_id, target, violation },
        );
        Step { worker: step.worker, actions: before.actions + step.actions }
    }
}

/// An op that ran and changes indexes waits for as many answers as it changes
/// indexes, and until the last nothing is written and nobody is told anything.
/// Where any of the answers is a refusal, whichever it is, nothing is ever
/// written and the client gets the first refusal. Where none is, everything that
/// the op staged is written in order, and then the client gets the result.
pub proof fn law_one_refusal_refuses_the_op(
    w: WorkerModel,
    ring: Seq<Slot>,
    op_id: DatumId,
    op_result: Seq<u8>,
    staged: Seq<(DatumId, Option<Seq<u8>>, u16)>,
    updates: Seq<IndexUpdateModel>,
    answers: Seq<(DatumId, Option<Seq<char>>)>,
    i: int,
)
    requires
        w.has_op(op_id),
        w.op(op_id).still_needed.len() == 0,
        w.op(op_id).updates is None,
        updates.len() > 0,
        answers.len() == updates.len(),
    ensures
        ({
            let ran = w.op_ran(ring, op_id, Ok(op_result), staged, updates);
            let done = after_answers(ran.worker, ring, op_id, answers);
            let reply = w.op(op_id).reply;
            &&& ran.worker.has_op(op_id)
            &&& forall|j: int|
                0 <= j < ran.actions.len() ==> !(#[trigger] ran.actions[j] is Write)
                    && !(ran.actions[j] is Answer)
            &&& forall|j: int|
                0 <= j < answers.len() ==> (#[trigger] after_answers(
                    ran.worker,
                    ring,
                    op_id,
                    answers.take(j),
                )).worker.has_op(op_id) && after_answers(
                    ran.worker,
                    ring,
                    op_id,
                    answers.take(j),
                ).actions.len() == 0
            &&& !done.worker.has_op(op_id)
            &&& 0 <= i < answers.len() && answers[i].1 is Some && (forall|j: int|
                0 <= j < i ==> (#[trigger] answers[j]).1 is None) ==> done.actions.len() > 0
                && done.actions[0] == (ActionModel::Answer {
                reply,
                result: Err(answers[i].1.unwrap()),
            }) && forall|j: int|
                0 < j < done.actions.len() ==> !(#[trigger] done.actions[j] is Write)
                    && !(done.actions[j] is Answer)
            &&& (forall|j: int| 0 <= j < answers.len() ==> (#[trigger] answers[j]).1 is None)
                ==> done.actions.len() > staged.len() && (forall|j: int|
                0 <= j < staged.len() ==> #[trigger] done.actions[j] == (ActionModel::Write {
                    id: staged[j].0,
                    content: staged[j].1,
                    n: staged[j].2,
                })) && done.actions[staged.len() as int] == (ActionModel::Answer {
                reply,
                result: Ok(op_result),
            }) && forall|j: int|
                staged.len() < j < done.actions.len() ==> !(#[trigger] done.actions[j] is Write)
                    && !(done.actions[j] is Answer)
        }),
{
    let ran = w.op_ran(ring, op_id, Ok(op_result), staged, updates);
    let op = w.op(op_id);
    let n = answers.len() as int;
    assert forall|j: int| 0 <= j < answers.len() implies (#[trigger] after_answers(
        ran.worker,
        ring,
        op_id,
        answers.take(j),
    )).worker.has_op(op_id) && after_answers(
        ran.worker,
        ring,
        op_id,
        answers.take(j),
    ).actions.len() == 0 by {
        lemma_waits(ran.worker, ring, op_id, answers.take(j));
    }
    let head = answers.drop_last();
    lemma_waits(ran.worker, ring, op_id, head);
    let before = after_answers(ran.worker, ring, op_id, head).worker;
    let done = after_answers(ran.worker, ring, op_id, answers);
    lemma_releases(before, ring, op.acquired);
    let r = before.release_actions(ring, op.acquired);
    let all = answers[n - 1].1;
    if 0 <= i < n && answers[i].1 is Some && (forall|j: int|
        0 <= j < i ==> (#[trigger] answers[j]).1 is None) {
        if i < n - 1 {
            assert(head[i] == answers[i]);
            assert forall|j: int| 0 <= j < i implies (#[trigger] head[j]).1 is None by {
                assert(head[j] == answers[j]);
            }
            lemma_first_refusal(head, i);
        } else {
            assert forall|j: int| 0 <= j < head.len() implies (#[trigger] head[j]).1 is None by {
                assert(head[j] == answers[j]);
            }
            lemma_no_refusal(head);
        }
        assert(done.actions =~= seq![
            ActionModel::Answer { reply: op.reply, result: Err(answers[i].1.unwrap()) },
        ] + r);
        assert forall|j: int| 0 < j < done.actions.len() implies !(#[trigger] done.actions[j] is Write)
            && !(done.actions[j] is Answer) by {
            assert(done.actions[j] == r[j - 1]);
        }
    }
    if forall|j: int| 0 <= j < answers.len() ==> (#[trigger] answers[j]).1 is None {
        assert forall|j: int| 0 <= j < head.len() implies (#[trigger] head[j]).1 is None by {
            assert(head[j] == answers[j]);
        }
        lemma_no_refusal(head);
        assert(answers[n - 1].1 is None);
        let c = commit_actions(staged);
        assert(done.actions =~= c + (seq![
            ActionModel::Answer { reply: op.reply, result: Ok(op_result) },
        ] + r));
        assert forall|j: int| staged.len() < j < done.actions.len() implies !(
        #[trigger] done.actions[j] is Write) && !(done.actions[j] is Answer) by {
            assert(done.actions[j] == r[j - 1 - staged.len()]);
        }
    }
}

/// The first refusal among answers.
spec fn first_refusal(answers: Seq<(DatumId, Option<Seq<char>>)>) -> Option<Seq<char>>
    decreases answers.len(),
{
    if answers.len() == 0 {
        None
    } else if first_refusal(answers.drop_last()) is Some {
        first_refusal(answers.drop_last())
    } else {
        answers.last().1
    }
}

proof fn lemma_no_refusal(answers: Seq<(DatumId, Option<Seq<char>>)>)
    requires
        forall|j: int| 0 <= j < answers.len() ==> (#[trigger] answers[j]).1 is None,
    ensures
        first_refusal(answers) is None,
    decreases answers.len(),
{
    if answers.len() > 0 {
        let head = answers.drop_last();
        assert forall|j: int| 0 <= j < head.len() implies (#[trigger] head[j]).1 is None by {
            assert(head[j] == answers[j]);
        }
        lemma_no_refusal(head);
        assert(answers[answers.len() - 1].1 is None);
    }
}

proof fn lemma_first_refusal(answers: Seq<(DatumId, Option<Seq<char>>)>, i: int)
    requires
        0 <= i < answers.len(),
        answers[i].1 is Some,
        forall|j: int| 0 <= j < i ==> (#[trigger] answers[j]).1 is None,
    ensures
        first_refusal(answers) == answers[i].1,
    decreases answers.len(),
{
    let head = answers.drop_last();
    assert forall|j: int| 0 <= j < i implies (#[trigger] head[j]).1 is None by {
        assert(head[j] == answers[j]);
    }
    if i < head.len() {
        assert(head[i] == answers[i]);
        lemma_first_refusal(head, i);
    } else {
        lemma_no_refusal(head);
    }
}

/// Until the last answer an op only counts the answers and keeps the first
/// refusal.
proof fn lemma_waits(
    w: WorkerModel,
    ring: Seq<Slot>,
    op_id: DatumId,
    answers: Seq<(DatumId, Option<Seq<char>>)>,
)
    requires
        w.has_op(op_id),
        w.op(op_id).updates matches Some(u) && u.pending > answers.len() && u.violation is None,
    ensures
        ({
            let s = after_answers(w, ring, op_id, answers);
            let u = w.op(op_id).updates.unwrap();
            &&& s.actions.len() == 0
            &&& s.worker == w.with_op(
                op_id,
                OpModel {
                    updates: Some(
                        UpdatesModel {
                            pending: (u.pending - answers.len()) as nat,
                            violation: first_refusal(answers),
                            ..u
                        },
                    ),
                    ..w.op(op_id)
                },
            )
        }),
    decreases answers.len(),
{
    if answers.len() > 0 {
        lemma_waits(w, ring, op_id, answers.drop_last());
        let s = after_answers(w, ring, op_id, answers);
        let u = w.op(op_id).updates.unwrap();
        let want = w.with_op(
            op_id,
            OpModel {
                updates: Some(
                    UpdatesModel {
                        pending: (u.pending - answers.len()) as nat,
                        violation: first_refusal(answers),
                        ..u
                    },
                ),
                ..w.op(op_id)
            },
        );
        assert(s.worker.ops =~= want.ops);
    } else {
        assert(w.ops =~= w.ops.insert(op_id.rank(), w.op(op_id)));
    }
}

/// What an op has staged, and a refusal that it has taken in, stay with it
/// through every message, as long as it waits.
pub proof fn law_refusal_is_kept(w: WorkerModel, ring: Seq<Slot>, m: MessageModel, op_id: DatumId)
    requires
        w.has_op(op_id),
        w.op(op_id).updates is Some,
        !(m matches MessageModel::RunOp { op_id: o, .. } && o.rank() == op_id.rank()),
        w.handle(ring, m).worker.has_op(op_id),
    ensures
        ({
            let u = w.op(op_id).updates.unwrap();
            let later = w.handle(ring, m).worker.op(op_id);
            &&& later.reply == w.op(op_id).reply
            &&& later.updates matches Some(v) && v.staged_writes == u.staged_writes && v.op_result
                == u.op_result && (u.violation is Some ==> v.violation == u.violation) && (if m
                matches MessageModel::IndexUpdateReplied { op_id: o, violation, .. } && o.rank()
                == op_id.rank() {
                v.pending == u.pending - 1 && (u.violation is None ==> v.violation
                    == m->IndexUpdateReplied_violation)
            } else {
                v.pending == u.pending && v.violation == u.violation
            })
        }),
{
}

// ---- the end of an op ----

/// The actions that return datums: for each the copy here goes first, and then
/// its home is told.
proof fn lemma_releases(w: WorkerModel, ring: Seq<Slot>, ids: Seq<DatumId>)
    ensures
        ({
            let r = w.release_actions(ring, ids);
            &&& r.len() == 2 * ids.len()
            &&& forall|i: int|
                #![trigger ids[i]]
                0 <= i < ids.len() ==> r[2 * i] == (ActionModel::Invalidate { id: ids[i] }) && r[2 * i
                    + 1] == (if home(ring, ids[i]).0 == w.node {
                    ActionModel::Send {
                        thread: home(ring, ids[i]).1,
                        message: MessageModel::Release { datum_id: ids[i] },
                    }
                } else {
                    ActionModel::Call {
                        node: home(ring, ids[i]).0,
                        thread: home(ring, ids[i]).1,
                        request: RequestModel::Release { datum_id: ids[i] },
                        then: AfterCall::Release,
                    }
                })
            &&& forall|j: int|
                0 <= j < r.len() ==> !(#[trigger] r[j] is Write) && !(r[j] is Answer) && !(
                r[j] is Run)
        }),
    decreases ids.len(),
{
    if ids.len() > 0 {
        let head = ids.drop_last();
        lemma_releases(w, ring, head);
        let r = w.release_actions(ring, ids);
        let h = w.release_actions(ring, head);
        assert(r =~= h + w.release_action(ring, ids.last()));
        assert forall|i: int|
            #![trigger ids[i]]
            0 <= i < ids.len() implies r[2 * i] == (ActionModel::Invalidate { id: ids[i] }) && r[2 * i
            + 1] == (if home(ring, ids[i]).0 == w.node {
            ActionModel::Send {
                thread: home(ring, ids[i]).1,
                message: MessageModel::Release { datum_id: ids[i] },
            }
        } else {
            ActionModel::Call {
                node: home(ring, ids[i]).0,
                thread: home(ring, ids[i]).1,
                request: RequestModel::Release { datum_id: ids[i] },
                then: AfterCall::Release,
            }
        }) by {
            if i < head.len() {
                assert(head[i] == ids[i]);
                assert(r[2 * i] == h[2 * i]);
                assert(r[2 * i + 1] == h[2 * i + 1]);
            }
        }
        assert forall|j: int| 0 <= j < r.len() implies !(#[trigger] r[j] is Write) && !(
        r[j] is Answer) && !(r[j] is Run) by {
            if j < h.len() {
                assert(r[j] == h[j]);
            }
        }
    }
}

/// When an op ends, by a message or by its run, its client is answered exactly
/// once, and after that every datum that the op held is dropped here and given
/// back to its home, so that none stays held for nobody.
pub proof fn law_ended_op_gives_everything_back(
    w: WorkerModel,
    ring: Seq<Slot>,
    m: MessageModel,
    op_id: DatumId,
    result: Result<Seq<u8>, Seq<char>>,
    staged: Seq<(DatumId, Option<Seq<u8>>, u16)>,
    updates: Seq<IndexUpdateModel>,
    step: Step,
)
    requires
        w.has_op(op_id),
        step == w.handle(ring, m) || step == w.op_ran(ring, op_id, result, staged, updates),
        !step.worker.has_op(op_id),
    ensures
        exists|a: int|
            0 <= a < step.actions.len() && (#[trigger] step.actions[a] matches ActionModel::Answer {
                reply,
                ..
            } && reply == w.op(op_id).reply) && (forall|j: int|
                0 <= j < step.actions.len() && j != a ==> !(#[trigger] step.actions[j] is Answer))
                && (forall|j: int|
                a < j < step.actions.len() ==> !(#[trigger] step.actions[j] is Write)) && (forall|
                i: int,
            |
                0 <= i < w.op(op_id).acquired.len() ==> given_back(
                    w.node,
                    ring,
                    #[trigger] w.op(op_id).acquired[i],
                    step.actions.skip(a + 1),
                )),
        forall|k: u128| k != op_id.rank() && w.ops.contains_key(k) ==>
            #[trigger] step.worker.ops.contains_key(k) && step.worker.ops[k] == w.ops[k],
        step.worker.locks == w.locks,
{
    let op = w.op(op_id);
    let ids = op.acquired;
    let r = w.release_actions(ring, ids);
    lemma_releases(w, ring, ids);
    let n = step.actions.len() as int;
    let a = n - 1 - r.len();
    assert(step.actions[a] is Answer);
    assert forall|j: int| a < j < n implies step.actions[j] == #[trigger] r[j - a - 1] by {}
    assert forall|j: int| 0 <= j < n && j != a implies !(#[trigger] step.actions[j] is Answer) by {
        if j > a {
            assert(step.actions[j] == r[j - a - 1]);
        }
    }
    assert forall|j: int| a < j < n implies !(#[trigger] step.actions[j] is Write) by {
        assert(step.actions[j] == r[j - a - 1]);
    }
    assert(step.actions.skip(a + 1) =~= r);
    assert forall|i: int| 0 <= i < ids.len() implies given_back(
        w.node,
        ring,
        #[trigger] w.op(op_id).acquired[i],
        step.actions.skip(a + 1),
    ) by {
        assert(w.op(op_id).acquired[i] == ids[i]);
        let j = 2 * i;
        assert(r[j] == (ActionModel::Invalidate { id: ids[i] }));
    }
}

/// Whether actions drop the copy of a datum and then tell its home that it is
/// released.
pub open spec fn given_back(
    node: NodeId,
    ring: Seq<Slot>,
    id: DatumId,
    actions: Seq<ActionModel>,
) -> bool {
    exists|j: int|
        0 <= j && j + 1 < actions.len() && #[trigger] actions[j] == (ActionModel::Invalidate { id })
            && actions[j + 1] == (if home(ring, id).0 == node {
            ActionModel::Send {
                thread: home(ring, id).1,
                message: MessageModel::Release { datum_id: id },
            }
        } else {
            ActionModel::Call {
                node: home(ring, id).0,
                thread: home(ring, id).1,
                request: RequestModel::Release { datum_id: id },
                then: AfterCall::Release,
            }
        })
}

/// Until an op ends nothing is written and no client is answered: a message that
/// leaves every op in place leads to neither.
pub proof fn law_nothing_happens_before_the_end(
    w: WorkerModel,
    ring: Seq<Slot>,
    m: MessageModel,
    i: int,
)
    requires
        forall|k: u128| #[trigger]
            w.ops.contains_key(k) ==> w.handle(ring, m).worker.ops.contains_key(k),
        w.wf(),
        0 <= i < w.handle(ring, m).actions.len(),
    ensures
        !(w.handle(ring, m).actions[i] is Write),
        !(w.handle(ring, m).actions[i] is Answer),
{
    match m {
        MessageModel::AcquireGranted { op_id, datum_id } => {
            lemma_releases(w, ring, seq![datum_id]);
        },
        MessageModel::AcquireFailed { op_id, .. } => {
            if w.has_op(op_id) {
                assert(w.ops.contains_key(op_id.rank()));
            }
        },
        MessageModel::IndexUpdateReplied { op_id, .. } => {
            if w.has_op(op_id) {
                assert(w.ops.contains_key(op_id.rank()));
            }
        },
        MessageModel::ReleaseLocksHeldBy(node_id) => {
            lemma_deaths_only_grant(w, sorted_dom(w.locks), node_id, i);
        },
        _ => {},
    }
}

proof fn lemma_deaths_only_grant(w: WorkerModel, keys: Seq<u128>, node_id: NodeId, i: int)
    requires
        0 <= i < w.death_actions(keys, node_id).len(),
    ensures
        !(w.death_actions(keys, node_id)[i] is Write),
        !(w.death_actions(keys, node_id)[i] is Answer),
    decreases keys.len(),
{
    if keys.len() > 0 {
        let head = w.death_actions(keys.drop_last(), node_id);
        if i < head.len() {
            lemma_deaths_only_grant(w, keys.drop_last(), node_id, i);
        }
    }
}

/// An op whose run failed writes nothing, and its client is told why.
pub proof fn law_failed_run_writes_nothing(
    w: WorkerModel,
    ring: Seq<Slot>,
    op_id: DatumId,
    message: Seq<char>,
    staged: Seq<(DatumId, Option<Seq<u8>>, u16)>,
    updates: Seq<IndexUpdateModel>,
)
    requires
        w.has_op(op_id),
        w.op(op_id).still_needed.len() == 0,
        w.op(op_id).updates is None,
    ensures
        ({
            let step = w.op_ran(ring, op_id, Err(message), staged, updates);
            &&& !step.worker.has_op(op_id)
            &&& step.actions.len() > 0
            &&& step.actions[0] == (ActionModel::Answer {
                reply: w.op(op_id).reply,
                result: Err(message),
            })
            &&& forall|j: int|
                0 < j < step.actions.len() ==> !(#[trigger] step.actions[j] is Write)
                    && !(step.actions[j] is Call && step.actions[j]->request is IndexUpdate)
        }),
{
    let step = w.op_ran(ring, op_id, Err(message), staged, updates);
    let ids = w.op(op_id).acquired;
    let r = w.release_actions(ring, ids);
    lemma_releases(w, ring, ids);
    assert forall|j: int| 0 < j < step.actions.len() implies !(#[trigger] step.actions[j] is Write)
        && !(step.actions[j] is Call && step.actions[j]->request is IndexUpdate) by {
        assert(step.actions[j] == r[j - 1]);
        let i = (j - 1) / 2;
        assert(r[2 * i] == (ActionModel::Invalidate { id: ids[i] }));
    }
}

/// A run that was not asked for, because the op is gone, still lacks a datum or
/// has run already, changes nothing.
pub proof fn law_stray_run_is_ignored(
    w: WorkerModel,
    ring: Seq<Slot>,
    op_id: DatumId,
    result: Result<Seq<u8>, Seq<char>>,
    staged: Seq<(DatumId, Option<Seq<u8>>, u16)>,
    updates: Seq<IndexUpdateModel>,
)
    requires
        w.has_op(op_id) ==> w.op(op_id).still_needed.len() > 0 || w.op(op_id).updates is Some,
    ensures
        w.op_ran(ring, op_id, result, staged, updates).worker == w,
        w.op_ran(ring, op_id, result, staged, updates).actions.len() == 0,
{
}

/// Every index update that an op scheduled goes to the home of its index, with
/// the kind and the payload that the op gave it.
pub proof fn law_index_updates_go_out(
    w: WorkerModel,
    ring: Seq<Slot>,
    op_id: DatumId,
    op_result: Seq<u8>,
    staged: Seq<(DatumId, Option<Seq<u8>>, u16)>,
    updates: Seq<IndexUpdateModel>,
    i: int,
)
    requires
        w.has_op(op_id),
        w.op(op_id).still_needed.len() == 0,
        w.op(op_id).updates is None,
        0 <= i < updates.len(),
    ensures
        ({
            let step = w.op_ran(ring, op_id, Ok(op_result), staged, updates);
            let u = updates[i];
            let (node, thread) = home(ring, u.target);
            &&& step.actions.len() == updates.len()
            &&& node == w.node ==> step.actions[i] == (ActionModel::Send {
                thread,
                message: MessageModel::IndexUpdate {
                    target: u.target,
                    op_id,
                    index_kind: u.index_kind,
                    payload: u.payload,
                    reply: ReplyTo::Thread(w.thread),
                },
            })
            &&& node != w.node ==> step.actions[i] == (ActionModel::Call {
                node,
                thread,
                request: RequestModel::IndexUpdate {
                    target: u.target,
                    op_id,
                    index_kind: u.index_kind,
                    payload: u.payload,
                },
                then: AfterCall::IndexUpdate { op_id, target: u.target, node_id: node },
            })
        }),
{
}

/// The thread that keeps an index hands each update on as it came. It answers
/// where the update came from, once: with why the index could not be opened or
/// refused the update, and then nothing is written, or else with no refusal, and
/// then what the index is to keep is written first.
pub proof fn law_index_update_is_answered(
    w: WorkerModel,
    ring: Seq<Slot>,
    target: DatumId,
    op_id: DatumId,
    index_kind: Seq<char>,
    payload: Seq<u8>,
    reply: ReplyTo,
    updated: Result<UpdateModel, Seq<char>>,
)
    ensures
        w.handle(
            ring,
            MessageModel::IndexUpdate { target, op_id, index_kind, payload, reply },
        ).worker == w,
        w.handle(
            ring,
            MessageModel::IndexUpdate { target, op_id, index_kind, payload, reply },
        ).actions == seq![ActionModel::UseIndex { target, op_id, index_kind, payload, reply }],
        ({
            let actions = updated_actions(op_id, target, reply, updated);
            let refusal = match updated {
                Err(message) => Some(message),
                Ok(outcome) => outcome.violation,
            };
            let kept = match updated {
                Err(_) => None,
                Ok(outcome) => outcome.write_through,
            };
            let last = actions.last();
            &&& actions.len() == (if refusal is None && kept is Some {
                2int
            } else {
                1int
            })
            &&& refusal is None && kept is Some ==> actions[0] == (ActionModel::Write {
                id: target,
                content: kept,
                n: 1,
            })
            &&& reply matches ReplyTo::Thread(thread) ==> last == (ActionModel::Send {
                thread,
                message: MessageModel::IndexUpdateReplied { op_id, target, violation: refusal },
            })
            &&& reply matches ReplyTo::Link { link, correlation_id } ==> last == (
            ActionModel::Respond {
                link,
                correlation_id,
                response: ResponseModel::IndexUpdateResult { violation: refusal },
            })
        }),
{
}

// ---- collation ----

/// Whether an action asks the home of a datum for it, on behalf of an op.
pub open spec fn asks_for(
    w: WorkerModel,
    ring: Seq<Slot>,
    op_id: DatumId,
    datum_id: DatumId,
    retries_left: u32,
    action: ActionModel,
) -> bool {
    let (node, thread) = home(ring, datum_id);
    if node == w.node {
        action == (ActionModel::Send {
            thread,
            message: MessageModel::Acquire {
                op_id,
                datum_id,
                requester_node: w.node,
                requester_thread: w.thread,
                reply: ReplyTo::Thread(w.thread),
            },
        })
    } else {
        action == (ActionModel::Call {
            node,
            thread,
            request: RequestModel::Acquire {
                op_id,
                datum_id,
                requester_node: w.node,
                requester_thread: w.thread,
            },
            then: AfterCall::Acquire { op_id, datum_id, retries_left },
        })
    }
}

/// Whether an action tells a requester that its op has been granted a datum.
pub open spec fn tells_grant(
    reply: ReplyTo,
    op_id: DatumId,
    datum_id: DatumId,
    action: ActionModel,
) -> bool {
    match reply {
        ReplyTo::Thread(thread) => action == (ActionModel::Send {
            thread,
            message: MessageModel::AcquireGranted { op_id, datum_id },
        }),
        ReplyTo::Link { link, correlation_id } => action == (ActionModel::Respond {
            link,
            correlation_id,
            response: ResponseModel::Granted,
        }),
    }
}

/// A new op asks the home of every datum that it names, once for each, and holds
/// none yet. It runs at once only where it names none.
pub proof fn law_new_op_asks_for_every_datum(
    w: WorkerModel,
    ring: Seq<Slot>,
    op_id: DatumId,
    op_name: Seq<char>,
    datum_ids: Seq<DatumId>,
    payload: Seq<u8>,
    reply: u64,
    i: int,
)
    ensures
        ({
            let step = w.handle(
                ring,
                MessageModel::RunOp { op_id, op_name, datum_ids, payload, reply },
            );
            let op = step.worker.op(op_id);
            &&& step.worker.has_op(op_id)
            &&& op.reply == reply
            &&& op.datum_ids == datum_ids
            &&& op.still_needed == datum_ids
            &&& op.acquired.len() == 0
            &&& op.updates is None
            &&& 0 <= i < datum_ids.len() ==> step.actions.len() == datum_ids.len() && asks_for(
                w,
                ring,
                op_id,
                datum_ids[i],
                3,
                step.actions[i],
            )
            &&& datum_ids.len() == 0 ==> step.actions == seq![
                ActionModel::Run { op_id, op_name, datum_ids, payload },
            ]
        }),
{
    let step = w.handle(ring, MessageModel::RunOp { op_id, op_name, datum_ids, payload, reply });
    if datum_ids.len() == 0 {
        assert(step.actions =~= seq![ActionModel::Run { op_id, op_name, datum_ids, payload }]);
    } else {
        assert(step.actions =~= w.acquire_actions(ring, op_id, datum_ids));
    }
}

/// A grant takes one datum from what an op still needs, and adds it to what it
/// holds. The grant of the last one has the op run, with the name, the datums and
/// the payload that it came with; any other leads to nothing.
pub proof fn law_last_grant_runs_the_op(
    w: WorkerModel,
    ring: Seq<Slot>,
    op_id: DatumId,
    datum_id: DatumId,
    x: DatumId,
)
    requires
        w.has_op(op_id),
    ensures
        ({
            let step = w.handle(ring, MessageModel::AcquireGranted { op_id, datum_id });
            let before = w.op(op_id);
            let after = step.worker.op(op_id);
            &&& step.worker.has_op(op_id)
            &&& after.acquired == before.acquired.push(datum_id)
            &&& after.still_needed.contains(x) <==> before.still_needed.contains(x) && x != datum_id
            &&& after.datum_ids == before.datum_ids && after.payload == before.payload
                && after.op_name == before.op_name && after.reply == before.reply && after.updates
                == before.updates
            &&& before.updates is None && (forall|i: int|
                0 <= i < before.still_needed.len() ==> #[trigger] before.still_needed[i]
                    == datum_id) ==> step.actions == seq![
                ActionModel::Run {
                    op_id,
                    op_name: before.op_name,
                    datum_ids: before.datum_ids,
                    payload: before.payload,
                },
            ]
            &&& before.updates is Some || (before.still_needed.contains(x) && x != datum_id)
                ==> step.actions.len() == 0
            &&& step.worker.locks == w.locks
            &&& step.worker.ops.remove(op_id.rank()) == w.ops.remove(op_id.rank())
        }),
{
    let step = w.handle(ring, MessageModel::AcquireGranted { op_id, datum_id });
    let before = w.op(op_id);
    let after = step.worker.op(op_id);
    lemma_without_id(before.still_needed, datum_id, x);
    if forall|i: int|
        0 <= i < before.still_needed.len() ==> #[trigger] before.still_needed[i] == datum_id {
        if after.still_needed.len() > 0 {
            let y = after.still_needed[0];
            assert(after.still_needed.contains(y));
            lemma_without_id(before.still_needed, datum_id, y);
        }
    }
    assert(step.worker.ops.remove(op_id.rank()) =~= w.ops.remove(op_id.rank()));
}

proof fn lemma_without_id(ids: Seq<DatumId>, id: DatumId, other: DatumId)
    ensures
        without_id(ids, id).contains(other) <==> ids.contains(other) && other != id,
    decreases ids.len(),
{
    reveal(Seq::filter);
    if ids.len() > 0 {
        let head = ids.drop_last();
        let last = ids.last();
        lemma_without_id(head, id, other);
        assert(ids =~= head.push(last));
        assert(without_id(ids, id) == if last != id {
            without_id(head, id).push(last)
        } else {
            without_id(head, id)
        });
        lemma_push_contains(head, last, other);
        lemma_push_contains(without_id(head, id), last, other);
    }
}

proof fn lemma_push_contains(ids: Seq<DatumId>, last: DatumId, other: DatumId)
    ensures
        ids.push(last).contains(other) <==> ids.contains(other) || last == other,
{
    let all = ids.push(last);
    if ids.contains(other) {
        let i = choose|i: int| 0 <= i < ids.len() && ids[i] == other;
        assert(all[i] == other);
    }
    assert(all[ids.len() as int] == last);
    if all.contains(other) && last != other {
        let i = choose|i: int| 0 <= i < all.len() && all[i] == other;
        assert(ids[i] == other);
    }
}

/// A request that failed is made again while any try is left, with one try less,
/// and changes nothing. Without a try left the op ends with an error that names
/// the datum. A request on behalf of an op that is gone leads to nothing then.
pub proof fn law_failed_request_is_made_again(
    w: WorkerModel,
    ring: Seq<Slot>,
    op_id: DatumId,
    datum_id: DatumId,
    retries_left: u32,
)
    ensures
        ({
            let step = w.handle(
                ring,
                MessageModel::AcquireFailed { op_id, datum_id, retries_left },
            );
            &&& retries_left > 0 ==> step.worker == w && step.actions.len() == 1 && asks_for(
                w,
                ring,
                op_id,
                datum_id,
                (retries_left - 1) as u32,
                step.actions[0],
            )
            &&& retries_left == 0 && w.has_op(op_id) ==> !step.worker.has_op(op_id)
                && step.actions.len() > 0 && step.actions[0] == (ActionModel::Answer {
                reply: w.op(op_id).reply,
                result: Err(acquire_failed_text(datum_id)),
            })
            &&& retries_left == 0 && !w.has_op(op_id) ==> step.worker == w && step.actions.len()
                == 0
        }),
{
}

/// A datum that is recalled is given up whatever happens: the copy here goes, and
/// whoever recalled it is told. Where ops hold it, the oldest of them loses it,
/// needs it again and asks for it anew; it loses nothing else, and no other op
/// loses anything.
pub proof fn law_recall_wounds_the_holder(
    w: WorkerModel,
    ring: Seq<Slot>,
    datum_id: DatumId,
    reply: ReplyTo,
    op_id: DatumId,
)
    requires
        w.has_op(op_id),
        w.op(op_id).acquired.contains(datum_id),
        forall|k: u128| #[trigger]
            w.ops.contains_key(k) && w.ops[k].acquired.contains(datum_id) ==> op_id.rank() <= k,
    ensures
        ({
            let step = w.handle(ring, MessageModel::Recall { datum_id, reply });
            let before = w.op(op_id);
            let after = step.worker.op(op_id);
            &&& step.worker.has_op(op_id)
            &&& after.acquired.to_multiset() == before.acquired.to_multiset().remove(datum_id)
            &&& after.still_needed == before.still_needed.push(datum_id)
            &&& after.datum_ids == before.datum_ids && after.payload == before.payload
                && after.op_name == before.op_name && after.reply == before.reply && after.updates
                == before.updates
            &&& step.worker.ops.remove(op_id.rank()) == w.ops.remove(op_id.rank())
            &&& step.worker.locks == w.locks
            &&& step.actions.len() == 3
            &&& step.actions[0] == (ActionModel::Invalidate { id: datum_id })
            &&& tells_recalled(reply, datum_id, step.actions[1])
            &&& asks_for(w, ring, op_id, datum_id, 3, step.actions[2])
        }),
{
    let step = w.handle(ring, MessageModel::Recall { datum_id, reply });
    let before = w.op(op_id);
    crate::datum::law_id_bytes(op_id, op_id, Seq::new(16, |i: int| 0u8));
    assert(w.holds(op_id.rank(), datum_id));
    assert forall|j: u128| #[trigger] w.holds(j, datum_id) implies op_id.rank() <= j by {
        assert(w.ops.contains_key(j));
    }
    assert(w.oldest_holding(op_id.rank(), datum_id));
    let k = choose|k: u128| w.oldest_holding(k, datum_id);
    assert(w.holds(k, datum_id));
    assert(k == op_id.rank());
    before.acquired.index_of_first_ensures(datum_id);
    let at = before.acquired.index_of_first(datum_id).unwrap();
    vstd::seq_lib::to_multiset_remove(before.acquired, at);
    assert(step.worker.ops.remove(op_id.rank()) =~= w.ops.remove(op_id.rank()));
}

/// Whether an action tells whoever recalled a datum that it has been given up.
pub open spec fn tells_recalled(reply: ReplyTo, datum_id: DatumId, action: ActionModel) -> bool {
    match reply {
        ReplyTo::Thread(thread) => action == (ActionModel::Send {
            thread,
            message: MessageModel::Release { datum_id },
        }),
        ReplyTo::Link { link, correlation_id } => action == (ActionModel::Respond {
            link,
            correlation_id,
            response: ResponseModel::Released,
        }),
    }
}

/// A recall of a datum that no op holds changes no op, and is acknowledged all the
/// same.
pub proof fn law_recall_is_always_acknowledged(
    w: WorkerModel,
    ring: Seq<Slot>,
    datum_id: DatumId,
    reply: ReplyTo,
)
    requires
        forall|k: u128| #[trigger]
            w.ops.contains_key(k) ==> !w.ops[k].acquired.contains(datum_id),
    ensures
        ({
            let step = w.handle(ring, MessageModel::Recall { datum_id, reply });
            &&& step.worker == w
            &&& step.actions.len() == 2
            &&& step.actions[0] == (ActionModel::Invalidate { id: datum_id })
            &&& tells_recalled(reply, datum_id, step.actions[1])
        }),
{
    if w.held(datum_id) {
        let k = choose|k: u128| w.oldest_holding(k, datum_id);
        assert(w.holds(k, datum_id));
        assert(w.ops.contains_key(k));
    }
}

/// A datum that nobody holds is granted to whoever asks, and the requester is
/// told. One that is held stays with its holder, who is asked to give it up
/// exactly where the requester's op is older; the requester then waits.
pub proof fn law_request_is_granted_or_waits(
    w: WorkerModel,
    ring: Seq<Slot>,
    datum_id: DatumId,
    asks: Waiter,
)
    requires
        w.wf(),
    ensures
        ({
            let step = w.handle(
                ring,
                MessageModel::Acquire {
                    op_id: asks.op_id,
                    datum_id,
                    requester_node: asks.node_id,
                    requester_thread: asks.thread_id,
                    reply: asks.reply,
                },
            );
            let known = w.locks.contains_key(datum_id.rank());
            let before = w.locks[datum_id.rank()];
            let after = step.worker.locks[datum_id.rank()];
            &&& step.worker.locks.contains_key(datum_id.rank())
            &&& step.worker.ops == w.ops
            &&& step.worker.locks.remove(datum_id.rank()) == w.locks.remove(datum_id.rank())
            &&& !known || before.holder is None ==> step.actions.len() == 1 && tells_grant(
                asks.reply,
                asks.op_id,
                datum_id,
                step.actions[0],
            ) && after.waiters.len() == 0 && after.holder == Some(
                Holder { node_id: asks.node_id, thread_id: asks.thread_id, op_id: asks.op_id },
            )
            &&& known ==> (before.holder matches Some(h) ==> {
                &&& after.holder == Some(h)
                &&& after.waiters.to_multiset() == before.waiters.to_multiset().insert(asks)
                &&& h.op_id.rank() <= asks.op_id.rank() ==> step.actions.len() == 0
                &&& asks.op_id.rank() < h.op_id.rank() ==> step.actions == seq![
                    if h.node_id == w.node {
                        ActionModel::Send {
                            thread: h.thread_id,
                            message: MessageModel::Recall {
                                datum_id,
                                reply: ReplyTo::Thread(w.thread),
                            },
                        }
                    } else {
                        ActionModel::Call {
                            node: h.node_id,
                            thread: h.thread_id,
                            request: RequestModel::Recall { datum_id },
                            then: AfterCall::Recall { datum_id },
                        }
                    },
                ]
            })
        }),
{
    let lock = w.lock(datum_id);
    crate::collation::law_request_keeps_everyone(lock, asks);
    assert(w.with_lock(datum_id, lock.requested(asks)).locks.remove(datum_id.rank())
        =~= w.locks.remove(datum_id.rank()));
}

/// A datum that is released goes to the oldest that waits for it, who is told; the
/// others go on waiting. Where nobody waits it is free. The copy at its home goes
/// in any case, before anybody is told.
pub proof fn law_release_passes_the_datum_on(
    w: WorkerModel,
    ring: Seq<Slot>,
    datum_id: DatumId,
    i: int,
)
    requires
        w.wf(),
        w.locks.contains_key(datum_id.rank()),
    ensures
        ({
            let step = w.handle(ring, MessageModel::Release { datum_id });
            let before = w.locks[datum_id.rank()];
            let after = step.worker.locks[datum_id.rank()];
            let first = before.waiters[0];
            &&& step.worker.locks.contains_key(datum_id.rank())
            &&& step.worker.ops == w.ops
            &&& step.worker.locks.remove(datum_id.rank()) == w.locks.remove(datum_id.rank())
            &&& step.actions.len() > 0 && step.actions[0] == (ActionModel::Invalidate {
                id: datum_id,
            })
            &&& before.waiters.len() == 0 ==> after.holder is None && after.waiters.len() == 0
                && step.actions.len() == 1
            &&& before.waiters.len() > 0 ==> step.actions.len() == 2 && tells_grant(
                first.reply,
                first.op_id,
                datum_id,
                step.actions[1],
            ) && after.holder == Some(
                Holder { node_id: first.node_id, thread_id: first.thread_id, op_id: first.op_id },
            ) && after.waiters == before.waiters.skip(1) && (0 <= i < before.waiters.len()
                ==> first.op_id.rank() <= before.waiters[i].op_id.rank())
        }),
{
    let lock = w.locks[datum_id.rank()];
    assert(w.with_lock(datum_id, lock.released()).locks.remove(datum_id.rank())
        =~= w.locks.remove(datum_id.rank()));
}

/// After a node's death every lock here that it held goes to the oldest waiter of
/// another node, who is told, and the copy of the datum goes; a lock that it did
/// not hold stays with its holder. No lock loses a waiter of another node, and no
/// op is touched.
pub proof fn law_death_passes_locks_on(
    w: WorkerModel,
    ring: Seq<Slot>,
    node_id: NodeId,
    keys: Seq<u128>,
    k: u128,
    x: Waiter,
)
    requires
        w.wf(),
        keys_of(w.locks, keys),
        w.locks.contains_key(k),
    ensures
        ({
            let step = w.handle(ring, MessageModel::ReleaseLocksHeldBy(node_id));
            let before = w.locks[k];
            let after = step.worker.locks[k];
            let held = before.holder matches Some(h) && h.node_id == node_id;
            &&& step.worker.ops == w.ops
            &&& step.worker.locks.dom() == w.locks.dom()
            &&& !held ==> after.holder == before.holder && (x.node_id != node_id
                ==> after.waiters.to_multiset().count(x) == before.waiters.to_multiset().count(x))
            &&& held && before.waiters.contains(x) && x.node_id != node_id ==> (
            after.holder matches Some(h) && h.op_id.rank() <= x.op_id.rank() && h.node_id
                != node_id && exists|g: Waiter, j: int|
                #![trigger tells_grant(g.reply, g.op_id, DatumId::of_rank(k), step.actions[j])]
                before.waiters.contains(g) && g.granted() == h && 0 <= j < step.actions.len()
                    && tells_grant(g.reply, g.op_id, DatumId::of_rank(k), step.actions[j])
                    && after.waiters.to_multiset().count(x) + (if g == x {
                    1nat
                } else {
                    0nat
                }) == before.waiters.to_multiset().count(x))
            &&& held ==> step.actions.contains(
                ActionModel::Invalidate { id: DatumId::of_rank(k) },
            )
        }),
{
    let step = w.handle(ring, MessageModel::ReleaseLocksHeldBy(node_id));
    let all = sorted_dom(w.locks);
    assert(keys_of(w.locks, all));
    assert(all.contains(k));
    let at = choose|i: int| 0 <= i < all.len() && all[i] == k;
    let lock = w.locks[k];
    let after = lock.after_death(node_id);
    assert(step.worker.locks.dom() =~= w.locks.dom());
    crate::collation::law_death_keeps_the_living(lock, node_id, x);
    crate::collation::law_dead_node_forgotten(lock, node_id);
    let own = w.death_action(k, node_id);
    if lock.held_by(node_id) {
        let first = lemma_death_place(w, all, node_id, at);
        assert(own.last() == (ActionModel::Invalidate { id: DatumId::of_rank(k) }));
        assert(step.actions[first + own.len() - 1] == own.last());
        if lock.waiters.contains(x) && x.node_id != node_id {
            let i = choose|i: int| 0 <= i < lock.waiters.len() && lock.waiters[i] == x;
            assert(lock.heir(node_id) is Some);
            let g = lock.heir(node_id).unwrap();
            crate::collation::law_death_keeps_the_living(lock, node_id, g);
            lemma_in_multiset(lock.waiters, g);
            assert(step.actions[first] == own[0]);
            assert(tells_grant(g.reply, g.op_id, DatumId::of_rank(k), step.actions[first]));
            lemma_in_multiset(lock.waiters, x);
            if g != x {
                lemma_in_multiset(after.waiters, x);
                let j = choose|j: int| 0 <= j < after.waiters.len() && after.waiters[j] == x;
                assert(g.op_id.rank() <= after.waiters[j].op_id.rank());
            }
        }
    }
}

proof fn lemma_in_multiset(waiters: Seq<Waiter>, x: Waiter)
    ensures
        waiters.to_multiset().count(x) > 0 <==> waiters.contains(x),
{
    broadcast use vstd::seq_lib::group_to_multiset_ensures;

}

/// Where the actions for one lock stand among those for all.
proof fn lemma_death_place(w: WorkerModel, keys: Seq<u128>, node_id: NodeId, at: int) -> (first: int)
    requires
        0 <= at < keys.len(),
    ensures
        ({
            let own = w.death_action(keys[at], node_id);
            let all = w.death_actions(keys, node_id);
            &&& 0 <= first && first + own.len() <= all.len()
            &&& forall|j: int| 0 <= j < own.len() ==> all[first + j] == #[trigger] own[j]
        }),
    decreases keys.len(),
{
    let head = keys.drop_last();
    let before = w.death_actions(head, node_id);
    let all = w.death_actions(keys, node_id);
    let own = w.death_action(keys[at], node_id);
    if at == keys.len() - 1 {
        before.len() as int
    } else {
        let first = lemma_death_place(w, head, node_id, at);
        assert forall|j: int| 0 <= j < own.len() implies all[first + j] == #[trigger] own[j] by {
            assert(before[first + j] == own[j]);
        }
        first
    }
}

/// A message changes at most the op that it names; a recall changes one op at
/// most.
pub proof fn law_other_ops_are_left_alone(
    w: WorkerModel,
    ring: Seq<Slot>,
    m: MessageModel,
    k: u128,
)
    requires
        !(m is Recall),
        !(m matches MessageModel::RunOp { op_id, .. } && op_id.rank() == k),
        !(m matches MessageModel::AcquireGranted { op_id, .. } && op_id.rank() == k),
        !(m matches MessageModel::AcquireFailed { op_id, .. } && op_id.rank() == k),
        !(m matches MessageModel::IndexUpdateReplied { op_id, .. } && op_id.rank() == k),
    ensures
        w.handle(ring, m).worker.ops.contains_key(k) == w.ops.contains_key(k),
        w.ops.contains_key(k) ==> w.handle(ring, m).worker.ops[k] == w.ops[k],
        w.handle(ring, m).worker.node == w.node,
        w.handle(ring, m).worker.thread == w.thread,
{
}

// ---- answers of other nodes ----

/// What the answer to a call leads to. A datum counts as granted only where its
/// home says so: whatever else it says, and where it cannot be reached, the request
/// has failed, with the tries that are left. A datum that was recalled counts as
/// released whatever the answer is. An index update counts as accepted only where
/// the index says so.
pub proof fn law_only_a_grant_grants(
    op_id: DatumId,
    datum_id: DatumId,
    retries_left: u32,
    target: DatumId,
    node_id: NodeId,
    answer: Option<ResponseModel>,
)
    ensures
        ({
            let asked = AfterCall::Acquire { op_id, datum_id, retries_left };
            let recalled = AfterCall::Recall { datum_id };
            let update = AfterCall::IndexUpdate { op_id, target, node_id };
            &&& answer == Some(ResponseModel::Granted) ==> asked.leads_to(answer) == Some(
                MessageModel::AcquireGranted { op_id, datum_id },
            )
            &&& answer != Some(ResponseModel::Granted) ==> asked.leads_to(answer) == Some(
                MessageModel::AcquireFailed { op_id, datum_id, retries_left },
            )
            &&& recalled.leads_to(answer) == Some(MessageModel::Release { datum_id })
            &&& update.leads_to(answer) matches Some(
                MessageModel::IndexUpdateReplied { op_id: o, target: t, violation },
            ) && o == op_id && t == target && (violation is None <==> answer == Some(
                ResponseModel::IndexUpdateResult { violation: None },
            )) && (answer matches Some(ResponseModel::IndexUpdateResult { violation: v })
                ==> violation == v)
            &&& AfterCall::Release.leads_to(answer) is None
        }),
{
}

/// A request for a datum that its home cannot grant fails its op after four tries
/// in all: the first, and three more.
pub proof fn law_four_tries(
    w: WorkerModel,
    ring: Seq<Slot>,
    op_id: DatumId,
    datum_id: DatumId,
    failures: nat,
)
    requires
        w.has_op(op_id),
        failures <= 4,
    ensures
        ({
            let after = after_failures(w, ring, op_id, datum_id, 3, failures);
            &&& failures < 4 ==> after == w
            &&& failures == 4 ==> !after.has_op(op_id)
        }),
{
    reveal_with_fuel(after_failures, 5);
}

/// A worker after its request for a datum has failed some times in a row, each time
/// with one try less.
pub open spec fn after_failures(
    w: WorkerModel,
    ring: Seq<Slot>,
    op_id: DatumId,
    datum_id: DatumId,
    retries_left: u32,
    failures: nat,
) -> WorkerModel
    decreases failures,
{
    if failures == 0 {
        w
    } else {
        after_failures(
            w.handle(ring, MessageModel::AcquireFailed { op_id, datum_id, retries_left }).worker,
            ring,
            op_id,
            datum_id,
            if retries_left > 0 {
                (retries_left - 1) as u32
            } else {
                0
            },
            (failures - 1) as nat,
        )
    }
}

// ---- when the ring is needed ----

/// A message for which the ring is said not to be needed leads to the same whatever
/// the ring is.
pub proof fn law_ring_is_not_needed(
    w: WorkerModel,
    m: MessageModel,
    a: Seq<Slot>,
    b: Seq<Slot>,
)
    requires
        w.wf(),
        !w.looks_up(m),
    ensures
        w.handle(a, m).worker == w.handle(b, m).worker,
        w.handle(a, m).actions == w.handle(b, m).actions,
{
    match m {
        MessageModel::RunOp { op_id, datum_ids, .. } => {
            assert(w.acquire_actions(a, op_id, datum_ids) =~= w.acquire_actions(
                b,
                op_id,
                datum_ids,
            ));
        },
        MessageModel::AcquireFailed { op_id, .. } => {
            if w.has_op(op_id) {
                lemma_nothing_to_release(w, a, b, w.op(op_id).acquired);
            }
        },
        MessageModel::IndexUpdateReplied { op_id, .. } => {
            if w.has_op(op_id) && w.op(op_id).acquired.len() == 0 {
                lemma_nothing_to_release(w, a, b, w.op(op_id).acquired);
            }
        },
        _ => {},
    }
}

proof fn lemma_nothing_to_release(
    w: WorkerModel,
    a: Seq<Slot>,
    b: Seq<Slot>,
    ids: Seq<DatumId>,
)
    requires
        ids.len() == 0,
    ensures
        w.release_actions(a, ids) == w.release_actions(b, ids),
{
}

/// What came of a run for which the ring is said not to be needed leads to the same
/// whatever the ring is.
pub proof fn law_ring_is_not_needed_after_a_run(
    w: WorkerModel,
    op_id: DatumId,
    result: Result<Seq<u8>, Seq<char>>,
    staged: Seq<(DatumId, Option<Seq<u8>>, u16)>,
    updates: Seq<IndexUpdateModel>,
    a: Seq<Slot>,
    b: Seq<Slot>,
)
    requires
        !w.ran_looks_up(op_id, result is Ok, updates.len()),
    ensures
        w.op_ran(a, op_id, result, staged, updates).worker == w.op_ran(
            b,
            op_id,
            result,
            staged,
            updates,
        ).worker,
        w.op_ran(a, op_id, result, staged, updates).actions == w.op_ran(
            b,
            op_id,
            result,
            staged,
            updates,
        ).actions,
{
    if w.has_op(op_id) && w.op(op_id).acquired.len() == 0 {
        lemma_nothing_to_release(w, a, b, w.op(op_id).acquired);
    }
}

proof fn lemma_only_home(slot: Slot, id: DatumId)
    ensures
        home(seq![slot], id) == slot,
{
}

proof fn lemma_releases_differ(w: WorkerModel, a: Slot, b: Slot, ids: Seq<DatumId>)
    requires
        a.0 != b.0,
        ids.len() > 0,
    ensures
        ({
            let (x, y) = (w.release_actions(seq![a], ids), w.release_actions(seq![b], ids));
            x.len() == y.len() && x.len() > 0 && x.last() != y.last()
        }),
{
    let last = ids[ids.len() - 1];
    lemma_only_home(a, last);
    lemma_only_home(b, last);
    lemma_releases(w, seq![a], ids);
    lemma_releases(w, seq![b], ids);
}

/// A message for which the ring is said to be needed does not lead to the same in all
/// rings: what it leads to differs between any two rings of a single thread each, on
/// different nodes.
pub proof fn law_ring_is_needed(w: WorkerModel, m: MessageModel, a: Slot, b: Slot)
    requires
        w.wf(),
        w.looks_up(m),
        a.0 != b.0,
    ensures
        w.handle(seq![a], m).actions != w.handle(seq![b], m).actions,
{
    let (x, y) = (w.handle(seq![a], m).actions, w.handle(seq![b], m).actions);
    match m {
        MessageModel::RunOp { op_id, datum_ids, .. } => {
            lemma_only_home(a, datum_ids[0]);
            lemma_only_home(b, datum_ids[0]);
            assert(x[0] == w.acquire_actions(seq![a], op_id, datum_ids)[0]);
            assert(y[0] == w.acquire_actions(seq![b], op_id, datum_ids)[0]);
            assert(x[0] != y[0]);
        },
        MessageModel::AcquireGranted { datum_id, .. } => {
            lemma_releases_differ(w, a, b, seq![datum_id]);
        },
        MessageModel::AcquireFailed { op_id, datum_id, retries_left } => {
            lemma_only_home(a, datum_id);
            lemma_only_home(b, datum_id);
            if retries_left > 0 {
                assert(x[0] != y[0]);
            } else {
                lemma_releases_differ(w, a, b, w.op(op_id).acquired);
                assert(x.last() != y.last());
            }
        },
        MessageModel::Recall { datum_id, .. } => {
            lemma_only_home(a, datum_id);
            lemma_only_home(b, datum_id);
            assert(x[2] != y[2]);
        },
        MessageModel::IndexUpdateReplied { op_id, .. } => {
            lemma_releases_differ(w, a, b, w.op(op_id).acquired);
            assert(x.last() != y.last());
        },
        _ => {},
    }
}

// ---- strays ----

/// What comes too late changes nothing. An answer to an index update of an op that is
/// gone, or waits for none, is ignored. A datum that is granted to an op that is gone
/// goes straight back to its home. The release of a datum that nobody has asked for
/// only drops the copy.
pub proof fn law_strays_change_nothing(
    w: WorkerModel,
    ring: Seq<Slot>,
    op_id: DatumId,
    datum_id: DatumId,
    target: DatumId,
    violation: Option<Seq<char>>,
)
    ensures
        !w.has_op(op_id) || w.op(op_id).updates is None ==> {
            let step = w.handle(
                ring,
                MessageModel::IndexUpdateReplied { op_id, target, violation },
            );
            step.worker == w && step.actions.len() == 0
        },
        !w.has_op(op_id) ==> {
            let step = w.handle(ring, MessageModel::AcquireGranted { op_id, datum_id });
            step.worker == w && step.actions.len() == 2 && given_back(
                w.node,
                ring,
                datum_id,
                step.actions,
            )
        },
        !w.locks.contains_key(datum_id.rank()) ==> {
            let step = w.handle(ring, MessageModel::Release { datum_id });
            step.worker == w && step.actions == seq![ActionModel::Invalidate { id: datum_id }]
        },
{
    if !w.has_op(op_id) {
        let ids = seq![datum_id];
        let step = w.handle(ring, MessageModel::AcquireGranted { op_id, datum_id });
        lemma_releases(w, ring, ids);
        assert(ids[0] == datum_id);
        assert(step.actions[0] == (ActionModel::Invalidate { id: datum_id }));
    }
}

} // verus!
