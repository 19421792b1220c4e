//! The coordinator over whole histories: the sequences of requests, commits
//! and timeouts that a job goes through, and what holds after any of them.

use vstd::prelude::*;
use crate::coordinator::{is_map_task, is_reduce_task, record_mapper, CoordinatorStatus, CoordinatorView};
use crate::laws::lemma_record_mapper_ids;
use crate::task::{TaskContextView, TaskId, TaskType, TaskView, WorkerId};

verus! {

broadcast use vstd::seq_lib::group_seq_properties;

/// One event in a job's history.
pub enum CoordinatorOp {
    /// Worker `w` asks for work.
    Assign(WorkerId),
    /// Worker `w` commits task `tid`, reporting reduce indices for a map task.
    Commit(WorkerId, TaskId, Option<Seq<u32>>),
    /// The timeout of task `tid` fires.
    TimeOut(TaskId),
}

/// An accepted map commit: the (task, worker) pair and the reduce indices
/// it reported.
pub type MapCommit = ((TaskId, WorkerId), Seq<u32>);

/// The reduce indices a commit reports (none when it reports nothing).
pub open spec fn reported(idxs: Option<Seq<u32>>) -> Seq<u32> {
    match idxs {
        Some(s) => s,
        None => Seq::empty(),
    }
}

/// The coordinator after event `op`.
pub open spec fn step(c: CoordinatorView, op: CoordinatorOp) -> CoordinatorView {
    match op {
        CoordinatorOp::Assign(w) => c.assign(w).0,
        CoordinatorOp::Commit(w, tid, idxs) => c.commit(w, tid, idxs).0,
        CoordinatorOp::TimeOut(tid) => c.time_out(tid),
    }
}

/// Whether event `op` is an accepted commit of a map task.
pub open spec fn is_map_commit(c: CoordinatorView, op: CoordinatorOp) -> bool {
    match op {
        CoordinatorOp::Commit(w, tid, _) =>
            c.commit_accepted(w, tid) && c.working_tasks[tid].task_type == TaskType::Mapping,
        _ => false,
    }
}

/// The log of accepted map commits after event `op`.
pub open spec fn log_step(c: CoordinatorView, op: CoordinatorOp, log: Seq<MapCommit>) -> Seq<MapCommit> {
    match op {
        CoordinatorOp::Commit(w, tid, idxs) =>
            if is_map_commit(c, op) { log.push(((tid, w), reported(idxs))) } else { log },
        _ => log,
    }
}

/// The coordinator and the log of accepted map commits after the events
/// `ops`, from `c` with log `log`.
pub open spec fn run(c: CoordinatorView, log: Seq<MapCommit>, ops: Seq<CoordinatorOp>) -> (CoordinatorView, Seq<MapCommit>)
    decreases ops.len(),
{
    if ops.len() == 0 {
        (c, log)
    } else {
        let (d, l) = run(c, log, ops.drop_last());
        (step(d, ops.last()), log_step(d, ops.last(), l))
    }
}

/// The ids of the tasks of a queue, in order.
pub open spec fn ids_of(q: Seq<TaskView>) -> Seq<TaskId> {
    q.map_values(|t: TaskView| t.task_id)
}

/// The task ids of committed reduce outputs, in commit order.
pub open spec fn committed_ids(c: CoordinatorView) -> Seq<TaskId> {
    c.committed_reduce.map_values(|e: (TaskId, WorkerId)| e.0)
}

/// The task ids of accepted map commits, in commit order.
pub open spec fn log_ids(log: Seq<MapCommit>) -> Seq<TaskId> {
    log.map_values(|m: MapCommit| m.0.0)
}

/// No id in both sequences.
pub open spec fn disjoint(a: Seq<TaskId>, b: Seq<TaskId>) -> bool {
    forall|x: TaskId| a.contains(x) ==> !b.contains(x)
}

/// Every task id appears once: among the queued map tasks, the queued
/// reduce tasks, the running tasks, the committed reduce tasks and the
/// committed map tasks.
pub open spec fn ids_distinct(c: CoordinatorView, log: Seq<MapCommit>) -> bool {
    let m = ids_of(c.map_tasks);
    let r = ids_of(c.reduce_tasks);
    let d = committed_ids(c);
    let l = log_ids(log);
    &&& m.no_duplicates() && r.no_duplicates() && d.no_duplicates() && l.no_duplicates()
    &&& disjoint(m, r) && disjoint(m, d) && disjoint(m, l) && disjoint(r, d) && disjoint(r, l) && disjoint(d, l)
    &&& forall|k: TaskId| #[trigger] c.working_tasks.contains_key(k) ==>
        !m.contains(k) && !r.contains(k) && !d.contains(k) && !l.contains(k)
}

/// The task ids a coordinator starts with are distinct.
pub open spec fn draws_distinct(c: CoordinatorView) -> bool {
    &&& ids_of(c.map_tasks).no_duplicates()
    &&& ids_of(c.reduce_tasks).no_duplicates()
    &&& disjoint(ids_of(c.map_tasks), ids_of(c.reduce_tasks))
}

/// Distinct ids across the map and reduce tasks, as a new coordinator
/// has them, are the distinct draws the history laws start from.
pub proof fn lemma_new_ids_distinct(c: CoordinatorView)
    requires
        forall|i: int, j: int| 0 <= i < j < c.map_tasks.len() + c.reduce_tasks.len() ==>
            (c.map_tasks + c.reduce_tasks)[i].task_id != (c.map_tasks + c.reduce_tasks)[j].task_id,
    ensures
        draws_distinct(c),
{
    let all = c.map_tasks + c.reduce_tasks;
    let m = ids_of(c.map_tasks);
    let r = ids_of(c.reduce_tasks);
    let nm = c.map_tasks.len() as int;
    assert forall|i: int, j: int| 0 <= i < m.len() && 0 <= j < m.len() && i != j implies m[i] != m[j] by {
        assert(all[i] == c.map_tasks[i] && all[j] == c.map_tasks[j]);
    }
    assert forall|i: int, j: int| 0 <= i < r.len() && 0 <= j < r.len() && i != j implies r[i] != r[j] by {
        assert(all[nm + i] == c.reduce_tasks[i] && all[nm + j] == c.reduce_tasks[j]);
    }
    assert forall|x: TaskId| m.contains(x) implies !r.contains(x) by {
        let i = choose|i: int| 0 <= i < m.len() && m[i] == x;
        if r.contains(x) {
            let j = choose|j: int| 0 <= j < r.len() && r[j] == x;
            assert(all[i] == c.map_tasks[i] && all[nm + j] == c.reduce_tasks[j]);
        }
    }
}

/// How many reduce tasks there are, by phase: all `n` queued in the map
/// phase; queued, running or committed in the reduce phase; all committed
/// once the job is done.
pub open spec fn reduce_count(c: CoordinatorView, n: u32) -> bool {
    &&& c.status == CoordinatorStatus::Mapping ==>
        c.reduce_tasks.len() == n && c.committed_reduce.len() == 0
    &&& c.status == CoordinatorStatus::Reducing ==>
        c.reduce_tasks.len() + c.working_tasks.dom().len() + c.committed_reduce.len() == n
    &&& c.status == CoordinatorStatus::Done ==> c.committed_reduce.len() == n
}

/// How many map tasks there are, among `m`: queued, running or committed
/// in the map phase; all committed after it.
pub open spec fn map_count(c: CoordinatorView, m: nat, log: Seq<MapCommit>) -> bool {
    &&& c.status == CoordinatorStatus::Mapping ==>
        c.map_tasks.len() + c.working_tasks.dom().len() + log.len() == m
    &&& c.status != CoordinatorStatus::Mapping ==> log.len() == m
}

/// Whether reduce index `x` is `r`.
pub open spec fn is_index(r: u32) -> spec_fn(u32) -> bool {
    |x: u32| x == r
}

/// The map output `e`, once for each reported index.
pub open spec fn entry_for(e: (TaskId, WorkerId)) -> spec_fn(u32) -> (TaskId, WorkerId) {
    |x: u32| e
}

/// The map outputs that commit `m` gives to reduce index `r`: its (task,
/// worker) pair once for each time it reported `r`.
pub open spec fn hits(m: MapCommit, r: u32) -> Seq<(TaskId, WorkerId)> {
    m.1.filter(is_index(r)).map_values(entry_for(m.0))
}

/// The map outputs that the accepted map commits `log` give to reduce index
/// `r`, in commit order.
pub open spec fn mapper_entries(log: Seq<MapCommit>, r: u32) -> Seq<(TaskId, WorkerId)>
    decreases log.len(),
{
    if log.len() == 0 {
        Seq::empty()
    } else {
        mapper_entries(log.drop_last(), r) + hits(log.last(), r)
    }
}

/// Each reduce task, queued or running, lists the map outputs that the
/// accepted map commits gave to its index.
pub open spec fn mappers_recorded(c: CoordinatorView, log: Seq<MapCommit>) -> bool {
    &&& forall|i: int| 0 <= i < c.reduce_tasks.len() ==>
        (#[trigger] c.reduce_tasks[i]).task_context->mapper_ids
            == mapper_entries(log, c.reduce_tasks[i].task_context->reduce_idx)
    &&& forall|k: TaskId| #[trigger] c.working_tasks.contains_key(k) && is_reduce_task(c.working_tasks[k]) ==>
        c.working_tasks[k].task_context->mapper_ids
            == mapper_entries(log, c.working_tasks[k].task_context->reduce_idx)
}

/// What holds of a job with `m` map tasks and `n` reduce tasks after any
/// history, given the log of its accepted map commits.
pub open spec fn job_inv(c: CoordinatorView, m: nat, n: u32, log: Seq<MapCommit>) -> bool {
    &&& c.wf()
    &&& map_count(c, m, log)
    &&& c.working_tasks.dom().finite()
    &&& ids_distinct(c, log)
    &&& reduce_count(c, n)
    &&& mappers_recorded(c, log)
}

/// The reduce queue after a map commit of `e` with indices `idxs`: when the
/// queue position of each reduce task is its index, each task lists `e`
/// once more for each time `idxs` names it.
proof fn lemma_record_mapper_entries(r: Seq<TaskView>, idxs: Seq<u32>, e: (TaskId, WorkerId))
    requires
        forall|i: int| 0 <= i < r.len() ==> is_reduce_task(#[trigger] r[i]) && r[i].task_context->reduce_idx == i,
    ensures
        record_mapper(r, idxs, e).len() == r.len(),
        forall|i: int| 0 <= i < r.len() ==> {
            &&& is_reduce_task(#[trigger] record_mapper(r, idxs, e)[i])
            &&& record_mapper(r, idxs, e)[i] == r[i].with_context(TaskContextView::ReduceTask {
                wasm_bytes: r[i].task_context->ReduceTask_wasm_bytes,
                reduce_idx: r[i].task_context->reduce_idx,
                mapper_ids: r[i].task_context->mapper_ids + idxs.filter(is_index(i as u32)).map_values(entry_for(e)),
            })
        },
    decreases idxs.len(),
{
    if idxs.len() == 0 {
        assert forall|i: int| 0 <= i < r.len() implies {
            &&& is_reduce_task(#[trigger] record_mapper(r, idxs, e)[i])
            &&& record_mapper(r, idxs, e)[i] == r[i].with_context(TaskContextView::ReduceTask {
                wasm_bytes: r[i].task_context->ReduceTask_wasm_bytes,
                reduce_idx: r[i].task_context->reduce_idx,
                mapper_ids: r[i].task_context->mapper_ids + idxs.filter(is_index(i as u32)).map_values(entry_for(e)),
            })
        } by {
            reveal(Seq::filter);
            assert(idxs.filter(is_index(i as u32)).map_values(entry_for(e)) =~= Seq::<(TaskId, WorkerId)>::empty());
            assert(r[i].task_context->mapper_ids + Seq::<(TaskId, WorkerId)>::empty() =~= r[i].task_context->mapper_ids);
        }
    } else {
        let init = idxs.drop_last();
        let x = idxs.last();
        lemma_record_mapper_entries(r, init, e);
        let r0 = record_mapper(r, init, e);
        assert(init.push(x) =~= idxs);
        assert forall|i: int| 0 <= i < r.len() implies {
            &&& is_reduce_task(#[trigger] record_mapper(r, idxs, e)[i])
            &&& record_mapper(r, idxs, e)[i] == r[i].with_context(TaskContextView::ReduceTask {
                wasm_bytes: r[i].task_context->ReduceTask_wasm_bytes,
                reduce_idx: r[i].task_context->reduce_idx,
                mapper_ids: r[i].task_context->mapper_ids + idxs.filter(is_index(i as u32)).map_values(entry_for(e)),
            })
        } by {
            init.lemma_filter_push(x, is_index(i as u32));
            let f0 = init.filter(is_index(i as u32));
            assert(r0[i] == r[i].with_context(TaskContextView::ReduceTask {
                wasm_bytes: r[i].task_context->ReduceTask_wasm_bytes,
                reduce_idx: r[i].task_context->reduce_idx,
                mapper_ids: r[i].task_context->mapper_ids + f0.map_values(entry_for(e)),
            }));
            if x as int == i {
                assert(is_index(i as u32)(x));
                assert(f0.push(x).map_values(entry_for(e)) =~= f0.map_values(entry_for(e)).push(e));
                assert(r[i].task_context->mapper_ids + f0.map_values(entry_for(e)).push(e)
                    =~= (r[i].task_context->mapper_ids + f0.map_values(entry_for(e))).push(e));
            } else {
                assert(!is_index(i as u32)(x));
            }
        }
    }
}

proof fn lemma_ids_drop_first(q: Seq<TaskView>)
    requires
        q.len() > 0,
        ids_of(q).no_duplicates(),
    ensures
        ids_of(q.drop_first()) == ids_of(q).drop_first(),
        ids_of(q.drop_first()).no_duplicates(),
        !ids_of(q.drop_first()).contains(q[0].task_id),
        forall|x: TaskId| ids_of(q.drop_first()).contains(x) ==> ids_of(q).contains(x),
{
    assert(ids_of(q.drop_first()) =~= ids_of(q).drop_first());
    let a = ids_of(q);
    let b = a.drop_first();
    assert forall|i: int, j: int| 0 <= i < b.len() && 0 <= j < b.len() && i != j implies b[i] != b[j] by {
        assert(b[i] == a[i + 1] && b[j] == a[j + 1]);
    }
    if b.contains(q[0].task_id) {
        let i = choose|i: int| 0 <= i < b.len() && b[i] == q[0].task_id;
        assert(a[i + 1] == a[0]);
    }
    assert forall|x: TaskId| b.contains(x) implies a.contains(x) by {
        let i = choose|i: int| 0 <= i < b.len() && b[i] == x;
        assert(a[i + 1] == x);
    }
}

proof fn lemma_ids_push(q: Seq<TaskView>, t: TaskView)
    requires
        ids_of(q).no_duplicates(),
        !ids_of(q).contains(t.task_id),
    ensures
        ids_of(q.push(t)) == ids_of(q).push(t.task_id),
        ids_of(q.push(t)).no_duplicates(),
        forall|x: TaskId| ids_of(q.push(t)).contains(x) <==> (ids_of(q).contains(x) || x == t.task_id),
{
    assert(ids_of(q.push(t)) =~= ids_of(q).push(t.task_id));
    let a = ids_of(q);
    let b = a.push(t.task_id);
    assert forall|i: int, j: int| 0 <= i < b.len() && 0 <= j < b.len() && i != j implies b[i] != b[j] by {
        if i < a.len() && j < a.len() {
            assert(b[i] == a[i] && b[j] == a[j]);
        } else if i < a.len() {
            assert(b[i] == a[i]);
        } else if j < a.len() {
            assert(b[j] == a[j]);
        }
    }
    assert forall|x: TaskId| b.contains(x) <==> (a.contains(x) || x == t.task_id) by {
        if b.contains(x) {
            let i = choose|i: int| 0 <= i < b.len() && b[i] == x;
            if i < a.len() {
                assert(a[i] == x);
            }
        }
        if a.contains(x) {
            let i = choose|i: int| 0 <= i < a.len() && a[i] == x;
            assert(b[i] == x);
        }
        if x == t.task_id {
            assert(b[a.len() as int] == x);
        }
    }
}

/// A request for work keeps the job's invariant.
pub proof fn lemma_assign_job_inv(c: CoordinatorView, m: nat, n: u32, log: Seq<MapCommit>, w: WorkerId)
    requires
        job_inv(c, m, n, log),
    ensures
        job_inv(c.assign(w).0, m, n, log),
{
    let s = c.next_status();
    let d = c.assign(w).0;
    crate::laws::lemma_assign_keeps_wf(c, w);
    let idle = c.working_tasks.dom() =~= Set::<TaskId>::empty();
    if idle {
        assert(c.working_tasks.dom().len() == 0);
    }
    if s == CoordinatorStatus::Mapping && c.map_tasks.len() > 0 {
        let t = c.map_tasks[0].with_worker(Some(w));
        lemma_ids_drop_first(c.map_tasks);
        assert(ids_of(c.map_tasks)[0] == t.task_id);
        assert(d.working_tasks.dom() =~= c.working_tasks.dom().insert(t.task_id));
        assert forall|k: TaskId| #[trigger] d.working_tasks.contains_key(k) implies
            !ids_of(d.map_tasks).contains(k) && !ids_of(d.reduce_tasks).contains(k)
            && !committed_ids(d).contains(k) && !log_ids(log).contains(k) by {
            if k != t.task_id {
                assert(c.working_tasks.contains_key(k));
            } else {
                assert(ids_of(c.map_tasks).contains(k));
            }
        }
        assert(ids_distinct(d, log));
        assert(mappers_recorded(d, log)) by {
            assert forall|k: TaskId| #[trigger] d.working_tasks.contains_key(k) && is_reduce_task(d.working_tasks[k]) implies
                d.working_tasks[k].task_context->mapper_ids
                    == mapper_entries(log, d.working_tasks[k].task_context->reduce_idx) by {
                if k == t.task_id {
                    assert(is_map_task(c.map_tasks[0]));
                } else {
                    assert(c.working_tasks.contains_key(k));
                }
            }
        }
    } else if s == CoordinatorStatus::Reducing && c.reduce_tasks.len() > 0 {
        let t = c.reduce_tasks[0].with_worker(Some(w));
        lemma_ids_drop_first(c.reduce_tasks);
        assert(ids_of(c.reduce_tasks)[0] == t.task_id);
        assert(c.map_tasks.len() == 0);
        assert(!c.working_tasks.contains_key(t.task_id));
        assert(d.working_tasks.dom() =~= c.working_tasks.dom().insert(t.task_id));
        assert forall|k: TaskId| #[trigger] d.working_tasks.contains_key(k) implies
            !ids_of(d.map_tasks).contains(k) && !ids_of(d.reduce_tasks).contains(k)
            && !committed_ids(d).contains(k) && !log_ids(log).contains(k) by {
            if k != t.task_id {
                assert(c.working_tasks.contains_key(k));
            } else {
                assert(ids_of(c.reduce_tasks).contains(k));
            }
        }
        assert(ids_distinct(d, log));
        assert(mappers_recorded(d, log)) by {
            assert forall|i: int| 0 <= i < d.reduce_tasks.len() implies
                (#[trigger] d.reduce_tasks[i]).task_context->mapper_ids
                    == mapper_entries(log, d.reduce_tasks[i].task_context->reduce_idx) by {
                assert(d.reduce_tasks[i] == c.reduce_tasks[i + 1]);
            }
            assert forall|k: TaskId| #[trigger] d.working_tasks.contains_key(k) && is_reduce_task(d.working_tasks[k]) implies
                d.working_tasks[k].task_context->mapper_ids
                    == mapper_entries(log, d.working_tasks[k].task_context->reduce_idx) by {
                if k == t.task_id {
                    assert(c.reduce_tasks[0].task_context == t.task_context);
                } else {
                    assert(c.working_tasks.contains_key(k));
                }
            }
        }
    } else {
        assert(ids_distinct(d, log));
    }
}

pub(crate) proof fn lemma_push_fresh(a: Seq<TaskId>, x: TaskId)
    requires
        a.no_duplicates(),
        !a.contains(x),
    ensures
        a.push(x).no_duplicates(),
        forall|y: TaskId| a.push(x).contains(y) <==> (a.contains(y) || y == x),
{
    let b = a.push(x);
    assert forall|i: int, j: int| 0 <= i < b.len() && 0 <= j < b.len() && i != j implies b[i] != b[j] by {
        if i < a.len() && j < a.len() {
            assert(b[i] == a[i] && b[j] == a[j]);
        } else if i < a.len() {
            assert(b[i] == a[i]);
        } else if j < a.len() {
            assert(b[j] == a[j]);
        }
    }
    assert forall|y: TaskId| b.contains(y) <==> (a.contains(y) || y == x) by {
        if b.contains(y) {
            let i = choose|i: int| 0 <= i < b.len() && b[i] == y;
            if i < a.len() {
                assert(a[i] == y);
            }
        }
        if a.contains(y) {
            let i = choose|i: int| 0 <= i < a.len() && a[i] == y;
            assert(b[i] == y);
        }
        if y == x {
            assert(b[a.len() as int] == y);
        }
    }
}

/// Taking a task back after a timeout keeps the job's invariant.
pub proof fn lemma_time_out_job_inv(c: CoordinatorView, m: nat, n: u32, log: Seq<MapCommit>, tid: TaskId)
    requires
        job_inv(c, m, n, log),
    ensures
        job_inv(c.time_out(tid), m, n, log),
{
    crate::laws::lemma_time_out_keeps_wf(c, tid);
    let e = c.time_out(tid);
    if c.working_tasks.contains_key(tid) {
        let t = c.working_tasks[tid].with_worker(None);
        assert(t.task_id == tid);
        assert(e.working_tasks.dom() =~= c.working_tasks.dom().remove(tid));
        if t.task_type == TaskType::Mapping {
            lemma_ids_push(c.map_tasks, t);
            assert(c.status == CoordinatorStatus::Mapping);
        } else {
            lemma_ids_push(c.reduce_tasks, t);
            assert(c.status == CoordinatorStatus::Reducing);
            assert(is_reduce_task(c.working_tasks[tid]));
        }
        assert forall|k: TaskId| #[trigger] e.working_tasks.contains_key(k) implies
            !ids_of(e.map_tasks).contains(k) && !ids_of(e.reduce_tasks).contains(k)
            && !committed_ids(e).contains(k) && !log_ids(log).contains(k) by {
            assert(c.working_tasks.contains_key(k));
        }
        assert(ids_distinct(e, log));
        assert(mappers_recorded(e, log)) by {
            assert forall|i: int| 0 <= i < e.reduce_tasks.len() implies
                (#[trigger] e.reduce_tasks[i]).task_context->mapper_ids
                    == mapper_entries(log, e.reduce_tasks[i].task_context->reduce_idx) by {
                if i < c.reduce_tasks.len() {
                    assert(e.reduce_tasks[i] == c.reduce_tasks[i]);
                }
            }
            assert forall|k: TaskId| #[trigger] e.working_tasks.contains_key(k) && is_reduce_task(e.working_tasks[k]) implies
                e.working_tasks[k].task_context->mapper_ids
                    == mapper_entries(log, e.working_tasks[k].task_context->reduce_idx) by {
                assert(c.working_tasks.contains_key(k));
            }
        }
    }
}

/// A commit keeps the job's invariant, with the commit added to the log
/// when it is an accepted map commit.
pub proof fn lemma_commit_job_inv(c: CoordinatorView, m: nat, n: u32, log: Seq<MapCommit>, w: WorkerId, tid: TaskId, idxs: Option<Seq<u32>>)
    requires
        job_inv(c, m, n, log),
    ensures
        job_inv(c.commit(w, tid, idxs).0, m, n, log_step(c, CoordinatorOp::Commit(w, tid, idxs), log)),
{
    let f = c.commit(w, tid, idxs).0;
    let log2 = log_step(c, CoordinatorOp::Commit(w, tid, idxs), log);
    if c.commit_accepted(w, tid) {
        let t = c.working_tasks[tid];
        assert(t.task_id == tid);
        assert(f.working_tasks.dom() =~= c.working_tasks.dom().remove(tid));
        if t.task_type == TaskType::Mapping {
            assert(c.status == CoordinatorStatus::Mapping);
            let rep = reported(idxs);
            assert(log2 == log.push(((tid, w), rep)));
            lemma_record_mapper_entries(c.reduce_tasks, rep, (tid, w));
            lemma_record_mapper_ids(c.reduce_tasks, rep, (tid, w));
            assert(ids_of(f.reduce_tasks) =~= ids_of(c.reduce_tasks));
            assert(log_ids(log2) =~= log_ids(log).push(tid));
            lemma_push_fresh(log_ids(log), tid);
            assert(f.wf()) by {
                assert forall|i: int| 0 <= i < f.reduce_tasks.len() implies
                    is_reduce_task(#[trigger] f.reduce_tasks[i]) && crate::coordinator::is_queued(f.reduce_tasks[i])
                    && f.reduce_tasks[i].task_context->reduce_idx == i by {
                    assert(c.reduce_tasks[i].task_context->reduce_idx == i);
                }
            }
            assert forall|k: TaskId| #[trigger] f.working_tasks.contains_key(k) implies
                !ids_of(f.map_tasks).contains(k) && !ids_of(f.reduce_tasks).contains(k)
                && !committed_ids(f).contains(k) && !log_ids(log2).contains(k) by {
                assert(c.working_tasks.contains_key(k));
            }
            assert(ids_distinct(f, log2));
            assert(mappers_recorded(f, log2)) by {
                assert(log2.drop_last() =~= log);
                assert forall|i: int| 0 <= i < f.reduce_tasks.len() implies
                    (#[trigger] f.reduce_tasks[i]).task_context->mapper_ids
                        == mapper_entries(log2, f.reduce_tasks[i].task_context->reduce_idx) by {
                    let ri = c.reduce_tasks[i];
                    assert(ri.task_context->reduce_idx == i);
                    assert(ri.task_context->reduce_idx == i as u32);
                    assert(mapper_entries(log2, i as u32) == mapper_entries(log, i as u32) + hits(((tid, w), rep), i as u32));
                }
                assert forall|k: TaskId| #[trigger] f.working_tasks.contains_key(k) && is_reduce_task(f.working_tasks[k]) implies
                    false by {
                    assert(c.working_tasks.contains_key(k));
                }
            }
        } else {
            assert(c.status == CoordinatorStatus::Reducing);
            assert(log2 == log);
            assert(committed_ids(f) =~= committed_ids(c).push(tid));
            lemma_push_fresh(committed_ids(c), tid);
            assert forall|k: TaskId| #[trigger] f.working_tasks.contains_key(k) implies
                !ids_of(f.map_tasks).contains(k) && !ids_of(f.reduce_tasks).contains(k)
                && !committed_ids(f).contains(k) && !log_ids(log2).contains(k) by {
                assert(c.working_tasks.contains_key(k));
            }
            assert(ids_distinct(f, log2));
            assert(mappers_recorded(f, log2)) by {
                assert forall|k: TaskId| #[trigger] f.working_tasks.contains_key(k) && is_reduce_task(f.working_tasks[k]) implies
                    f.working_tasks[k].task_context->mapper_ids
                        == mapper_entries(log, f.working_tasks[k].task_context->reduce_idx) by {
                    assert(c.working_tasks.contains_key(k));
                }
            }
        }
    }
}

/// Any event keeps the job's invariant, with the log updated.
pub proof fn lemma_step_job_inv(c: CoordinatorView, m: nat, n: u32, log: Seq<MapCommit>, op: CoordinatorOp)
    requires
        job_inv(c, m, n, log),
    ensures
        job_inv(step(c, op), m, n, log_step(c, op, log)),
{
    match op {
        CoordinatorOp::Assign(w) => lemma_assign_job_inv(c, m, n, log, w),
        CoordinatorOp::Commit(w, tid, idxs) => lemma_commit_job_inv(c, m, n, log, w, tid, idxs),
        CoordinatorOp::TimeOut(tid) => lemma_time_out_job_inv(c, m, n, log, tid),
    }
}

/// A job starts with its invariant, when its task ids are distinct.
pub proof fn lemma_initial_job_inv(c: CoordinatorView, file_paths: Seq<Seq<char>>, n: u32)
    requires
        c.wf(),
        c.is_initial(file_paths, n),
        draws_distinct(c),
    ensures
        job_inv(c, file_paths.len(), n, Seq::empty()),
{
    let e = Seq::<MapCommit>::empty();
    assert(committed_ids(c) =~= Seq::<TaskId>::empty());
    assert(log_ids(e) =~= Seq::<TaskId>::empty());
    assert(c.working_tasks.dom() =~= Set::<TaskId>::empty());
    assert forall|i: int| 0 <= i < c.reduce_tasks.len() implies
        (#[trigger] c.reduce_tasks[i]).task_context->mapper_ids
            == mapper_entries(e, c.reduce_tasks[i].task_context->reduce_idx) by {
        assert(c.reduce_tasks[i].task_context->mapper_ids == Seq::<(TaskId, WorkerId)>::empty());
    }
}

/// What holds after any history: from a new coordinator whose task ids
/// are distinct, whatever requests, commits and timeouts happen, in any
/// order, the job's invariant holds with the log of accepted map commits
/// (see [`job_inv`]): every task id appears once among the queued, running
/// and committed tasks; each reduce task, queued or running, lists exactly
/// the map outputs that accepted map commits gave to its index, in commit
/// order; and the map and reduce tasks are all accounted for.
pub proof fn lemma_job_history(c0: CoordinatorView, file_paths: Seq<Seq<char>>, n: u32, ops: Seq<CoordinatorOp>)
    requires
        c0.wf(),
        c0.is_initial(file_paths, n),
        draws_distinct(c0),
    ensures
        job_inv(run(c0, Seq::empty(), ops).0, file_paths.len(), n, run(c0, Seq::empty(), ops).1),
    decreases ops.len(),
{
    if ops.len() == 0 {
        lemma_initial_job_inv(c0, file_paths, n);
    } else {
        lemma_job_history(c0, file_paths, n, ops.drop_last());
        let (d, l) = run(c0, Seq::empty(), ops.drop_last());
        lemma_step_job_inv(d, file_paths.len(), n, l, ops.last());
    }
}

/// Once the job is done, each of its `m` map tasks and each of its `n`
/// reduce tasks has been committed exactly once: the accepted map commits
/// are `m` and the committed reduce outputs `n`, each with distinct task ids.
pub proof fn lemma_done_commits_every_reduce_once(c: CoordinatorView, m: nat, n: u32, log: Seq<MapCommit>)
    requires
        job_inv(c, m, n, log),
        c.status == CoordinatorStatus::Done,
    ensures
        log.len() == m,
        log_ids(log).no_duplicates(),
        c.committed_reduce.len() == n,
        committed_ids(c).no_duplicates(),
{
}

proof fn lemma_mapper_entries_from_log(log: Seq<MapCommit>, r: u32, e: (TaskId, WorkerId))
    requires
        mapper_entries(log, r).contains(e),
    ensures
        log_ids(log).contains(e.0),
        exists|j: int| 0 <= j < log.len() && (#[trigger] log[j]).0 == e,
    decreases log.len(),
{
    let init = log.drop_last();
    let m = log.last();
    if mapper_entries(init, r).contains(e) {
        lemma_mapper_entries_from_log(init, r, e);
        let j = choose|j: int| 0 <= j < init.len() && (#[trigger] init[j]).0 == e;
        assert(log[j] == init[j]);
        assert(log_ids(log)[j] == e.0);
    } else {
        let h = hits(m, r);
        assert(mapper_entries(log, r) == mapper_entries(init, r) + h);
        let i = choose|i: int| 0 <= i < mapper_entries(log, r).len() && mapper_entries(log, r)[i] == e;
        assert(i >= mapper_entries(init, r).len());
        assert(h[i - mapper_entries(init, r).len()] == m.0);
        assert(log[log.len() - 1] == m);
        assert(log_ids(log)[log.len() - 1] == e.0);
    }
}

/// Each reduce task lists each map output at most once, when no map commit
/// reported an index twice and no map task was committed twice (which the
/// job's invariant gives: the logged task ids are distinct).
pub proof fn lemma_mapper_entries_once(log: Seq<MapCommit>, r: u32)
    requires
        log_ids(log).no_duplicates(),
        forall|j: int| 0 <= j < log.len() ==> (#[trigger] log[j]).1.no_duplicates(),
    ensures
        mapper_entries(log, r).no_duplicates(),
    decreases log.len(),
{
    if log.len() > 0 {
        let init = log.drop_last();
        let m = log.last();
        assert forall|a: int, b: int| 0 <= a < log_ids(init).len() && 0 <= b < log_ids(init).len() && a != b
            implies log_ids(init)[a] != log_ids(init)[b] by {
            assert(log_ids(init)[a] == log_ids(log)[a] && log_ids(init)[b] == log_ids(log)[b]);
        }
        assert forall|j: int| 0 <= j < init.len() implies (#[trigger] init[j]).1.no_duplicates() by {
            assert(init[j] == log[j]);
        }
        lemma_mapper_entries_once(init, r);
        let prev = mapper_entries(init, r);
        let h = hits(m, r);
        let f = m.1.filter(is_index(r));
        assert(f.len() <= 1) by {
            if f.len() > 1 {
                m.1.lemma_filter_pred(is_index(r), 0);
                m.1.lemma_filter_pred(is_index(r), 1);
                assert(f[0] == r && f[1] == r);
                // Two positions of the filter come from two positions of `m.1`.
                lemma_filter_two_positions(m.1, r);
            }
        }
        if h.len() == 1 {
            assert(h[0] == m.0);
            if prev.contains(m.0) {
                lemma_mapper_entries_from_log(init, r, m.0);
                let j = choose|j: int| 0 <= j < init.len() && (#[trigger] init[j]).0 == m.0;
                assert(log_ids(log)[j] == m.0.0);
                assert(log_ids(log)[log.len() - 1] == m.0.0);
            }
        }
        let all = prev + h;
        assert forall|a: int, b: int| 0 <= a < all.len() && 0 <= b < all.len() && a != b implies all[a] != all[b] by {
            if a < prev.len() && b < prev.len() {
            } else if a < prev.len() {
                assert(all[b] == m.0);
                assert(prev.contains(all[a]));
            } else if b < prev.len() {
                assert(all[a] == m.0);
                assert(prev.contains(all[b]));
            }
        }
        assert(mapper_entries(log, r) == all);
    }
}

/// In a sequence without repeats, an index occurs at most once.
proof fn lemma_filter_two_positions(s: Seq<u32>, r: u32)
    requires
        s.no_duplicates(),
    ensures
        s.filter(is_index(r)).len() <= 1,
    decreases s.len(),
{
    reveal(Seq::filter);
    if s.len() > 0 {
        let init = s.drop_last();
        assert forall|a: int, b: int| 0 <= a < init.len() && 0 <= b < init.len() && a != b implies init[a] != init[b] by {
            assert(init[a] == s[a] && init[b] == s[b]);
        }
        lemma_filter_two_positions(init, r);
        if s.last() == r && init.filter(is_index(r)).len() == 1 {
            init.lemma_filter_pred(is_index(r), 0);
            let x = init.filter(is_index(r))[0];
            assert(init.filter(is_index(r)).contains(x));
            init.lemma_filter_contains_rev(is_index(r), x);
            let j = choose|j: int| 0 <= j < init.len() && init[j] == x;
            assert(s[j] == s[s.len() - 1]);
        }
    }
}

/// Whether event `op` ends the run of task `tid` held by worker `w`: its
/// timeout, or a commit of it by `w`.
pub open spec fn ends_task(op: CoordinatorOp, tid: TaskId, w: WorkerId) -> bool {
    match op {
        CoordinatorOp::TimeOut(t) => t == tid,
        CoordinatorOp::Commit(w2, t, _) => t == tid && w2 == w,
        _ => false,
    }
}

proof fn lemma_running_task_kept_step(c: CoordinatorView, m: nat, n: u32, log: Seq<MapCommit>, op: CoordinatorOp, tid: TaskId)
    requires
        job_inv(c, m, n, log),
        c.working_tasks.contains_key(tid),
        !ends_task(op, tid, c.working_tasks[tid].worker_id->0),
    ensures
        step(c, op).working_tasks.contains_key(tid),
        step(c, op).working_tasks[tid] == c.working_tasks[tid],
{
    match op {
        CoordinatorOp::Assign(w) => {
            let s = c.next_status();
            if s == CoordinatorStatus::Mapping && c.map_tasks.len() > 0 {
                assert(ids_of(c.map_tasks)[0] == c.map_tasks[0].task_id);
                assert(c.map_tasks[0].task_id != tid);
            } else if s == CoordinatorStatus::Reducing && c.reduce_tasks.len() > 0 {
                assert(ids_of(c.reduce_tasks)[0] == c.reduce_tasks[0].task_id);
                assert(c.reduce_tasks[0].task_id != tid);
            }
        },
        CoordinatorOp::Commit(w, t, idxs) => {},
        CoordinatorOp::TimeOut(t) => {},
    }
}

/// A task handed out stays running, for the same worker and unchanged,
/// through any events that neither time it out nor are its commit by that
/// worker: other workers' commits of it are refused, and handing out other
/// work never takes it over.
pub proof fn lemma_running_task_kept(c: CoordinatorView, m: nat, n: u32, log: Seq<MapCommit>, ops: Seq<CoordinatorOp>, tid: TaskId)
    requires
        job_inv(c, m, n, log),
        c.working_tasks.contains_key(tid),
        forall|i: int| 0 <= i < ops.len() ==> !ends_task(#[trigger] ops[i], tid, c.working_tasks[tid].worker_id->0),
    ensures
        job_inv(run(c, log, ops).0, m, n, run(c, log, ops).1),
        run(c, log, ops).0.working_tasks.contains_key(tid),
        run(c, log, ops).0.working_tasks[tid] == c.working_tasks[tid],
    decreases ops.len(),
{
    if ops.len() > 0 {
        let init = ops.drop_last();
        assert forall|i: int| 0 <= i < init.len() implies !ends_task(#[trigger] init[i], tid, c.working_tasks[tid].worker_id->0) by {
            assert(init[i] == ops[i]);
        }
        lemma_running_task_kept(c, m, n, log, init, tid);
        let (d, l) = run(c, log, init);
        assert(ops.last() == ops[ops.len() - 1]);
        lemma_running_task_kept_step(d, m, n, l, ops.last(), tid);
        lemma_step_job_inv(d, m, n, l, ops.last());
    }
}

/// The timeout of a task still running, whenever it fires: the task stops
/// running, goes to the end of its queue with no worker and its context
/// unchanged, and no worker can commit it until it is handed out again.
pub proof fn lemma_time_out_requeues(c: CoordinatorView, m: nat, n: u32, log: Seq<MapCommit>, tid: TaskId, w: WorkerId, idxs: Option<Seq<u32>>)
    requires
        job_inv(c, m, n, log),
        c.working_tasks.contains_key(tid),
    ensures
        ({
            let t = c.working_tasks[tid];
            let e = c.time_out(tid);
            &&& job_inv(e, m, n, log)
            &&& !e.working_tasks.contains_key(tid)
            &&& t.task_type == TaskType::Mapping ==> e.map_tasks.last() == t.with_worker(None)
            &&& t.task_type == TaskType::Reducing ==> e.reduce_tasks.last() == t.with_worker(None)
            &&& e.commit(w, tid, idxs) == (e, false)
        }),
{
    lemma_time_out_job_inv(c, m, n, log, tid);
    assert(c.time_out(tid).working_tasks.dom() =~= c.working_tasks.dom().remove(tid));
}

/// A reduce task is handed out only once every map task is committed:
/// before the request, no map task was queued or running.
pub proof fn lemma_reduce_handed_out_after_maps(c: CoordinatorView, w: WorkerId)
    requires
        c.wf(),
        c.assign(w).1 is Ready,
        is_reduce_task(c.assign(w).1->Ready_0),
    ensures
        c.map_tasks.len() == 0,
        forall|k: TaskId| #[trigger] c.working_tasks.contains_key(k) ==> !is_map_task(c.working_tasks[k]),
{
    let s = c.next_status();
    if s == CoordinatorStatus::Mapping && c.map_tasks.len() > 0 {
        assert(is_map_task(c.map_tasks[0]));
    }
    if c.status == CoordinatorStatus::Mapping {
        assert(c.working_tasks.dom() =~= Set::<TaskId>::empty());
        assert forall|k: TaskId| #[trigger] c.working_tasks.contains_key(k) implies !is_map_task(c.working_tasks[k]) by {
            assert(c.working_tasks.dom().contains(k));
        }
    }
}

} // verus!
