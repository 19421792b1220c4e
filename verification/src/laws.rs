//! Properties of the coordinator and of the data path that hold across
//! operations and states.

use vstd::prelude::*;
use crate::coordinator::{add_mapper, is_map_task, is_queued, is_reduce_task, record_mapper, status_rank, CoordinatorStatus, CoordinatorView};
use crate::task::TaskView;
use crate::records::{encode_records, record_is_plain, lemma_records_round_trip, RecordView};
use crate::shuffle::{bucket, decode_all, group_by_key, group_keys, has_key, key_of, lemma_group_step, reducer_of, values_of};
use crate::task::{TaskId, TaskResultView, TaskType, WorkerId};

verus! {

/// Phases only move forward: no request, commit or timeout takes the
/// coordinator back to an earlier phase, and only a request for work moves it.
pub proof fn lemma_phases_move_forward(c: CoordinatorView, w: WorkerId, tid: TaskId, idxs: Option<Seq<u32>>)
    requires
        c.wf(),
    ensures
        status_rank(c.assign(w).0.status) >= status_rank(c.status),
        c.commit(w, tid, idxs).0.status == c.status,
        c.time_out(tid).status == c.status,
{
}

/// The reduce phase starts only once every map task is committed: outside
/// the map phase no map task is queued or running.
pub proof fn lemma_reduce_after_all_maps(c: CoordinatorView)
    requires
        c.wf(),
        c.status != CoordinatorStatus::Mapping,
    ensures
        c.map_tasks.len() == 0,
        forall|k: TaskId| #[trigger] c.working_tasks.contains_key(k) ==> !is_map_task(c.working_tasks[k]),
{
}

/// A worker is told that the job is complete only when no task is queued or
/// running, and from then on every request is answered the same way and
/// nothing changes the coordinator.
pub proof fn lemma_completed_is_final(c: CoordinatorView, w: WorkerId, w2: WorkerId, tid: TaskId, idxs: Option<Seq<u32>>)
    requires
        c.wf(),
        c.assign(w).1 == TaskResultView::Completed,
    ensures
        c.assign(w).0.map_tasks.len() == 0,
        c.assign(w).0.reduce_tasks.len() == 0,
        c.assign(w).0.working_tasks.dom() =~= Set::<TaskId>::empty(),
        c.assign(w).0.assign(w2) == (c.assign(w).0, TaskResultView::Completed),
        c.assign(w).0.commit(w2, tid, idxs) == (c.assign(w).0, false),
        c.assign(w).0.time_out(tid) == c.assign(w).0,
{
    let d = c.assign(w).0;
    assert(d.status == CoordinatorStatus::Done);
    assert(!d.working_tasks.contains_key(tid));
    assert(d.next_status() == CoordinatorStatus::Done);
    assert((CoordinatorView { status: d.next_status(), ..d }) == d);
}

/// A task handed out runs for the worker it was handed to: only that worker
/// can commit it, and another worker's commit is refused and changes nothing.
pub proof fn lemma_only_assignee_commits(c: CoordinatorView, w: WorkerId, other: WorkerId, idxs: Option<Seq<u32>>)
    requires
        c.wf(),
        c.assign(w).1 is Ready,
        other != w,
    ensures
        ({
            let (d, r) = c.assign(w);
            let t = r->Ready_0;
            &&& t.worker_id == Some(w)
            &&& d.commit_accepted(w, t.task_id)
            &&& d.commit(other, t.task_id, idxs) == (d, false)
        }),
{
}

/// A task that timed out goes back to its queue without a worker, and the
/// worker that held it can no longer commit it.
pub proof fn lemma_timed_out_task_requeued(c: CoordinatorView, w: WorkerId, idxs: Option<Seq<u32>>)
    requires
        c.wf(),
        c.assign(w).1 is Ready,
    ensures
        ({
            let (d, r) = c.assign(w);
            let t = r->Ready_0;
            let e = d.time_out(t.task_id);
            &&& e.wf()
            &&& !e.working_tasks.contains_key(t.task_id)
            &&& e.commit(w, t.task_id, idxs) == (e, false)
            &&& (is_map_task(t) ==> e.map_tasks.last() == t.with_worker(None))
            &&& (is_reduce_task(t) ==> e.reduce_tasks.last() == t.with_worker(None))
        }),
{
    let (d, r) = c.assign(w);
    let t = r->Ready_0;
    let e = d.time_out(t.task_id);
    assert(d.working_tasks.contains_key(t.task_id));
    assert(e.working_tasks =~= d.working_tasks.remove(t.task_id));
    assert(d.wf()) by {
        lemma_assign_keeps_wf(c, w);
    }
    lemma_time_out_keeps_wf(d, t.task_id);
}

/// A request for work hands out the task at the head of a queue, map tasks
/// before reduce tasks, to the asking worker, and records it as running;
/// it answers Pending only while some task is still running (or as the map
/// phase ends with no reduce task to hand out), leaving the queues and
/// running tasks alone; and it answers Completed only once the
/// job is done. While a map task is queued, the request never waits.
pub proof fn lemma_assign_hands_out_queue_head(c: CoordinatorView, w: WorkerId)
    requires
        c.wf(),
    ensures
        ({
            let (d, r) = c.assign(w);
            &&& r matches TaskResultView::Ready(t) ==> {
                &&& t.worker_id == Some(w)
                &&& d.working_tasks == c.working_tasks.insert(t.task_id, t)
                &&& ({
                    ||| (c.map_tasks.len() > 0 && t == c.map_tasks[0].with_worker(Some(w)) && is_map_task(t)
                        && d.map_tasks == c.map_tasks.drop_first() && d.reduce_tasks == c.reduce_tasks)
                    ||| (c.map_tasks.len() == 0 && c.reduce_tasks.len() > 0 && is_reduce_task(t)
                        && t == c.reduce_tasks[0].with_worker(Some(w))
                        && d.reduce_tasks == c.reduce_tasks.drop_first() && d.map_tasks == c.map_tasks)
                })
            }
            &&& r is Pending ==> {
                &&& d.map_tasks == c.map_tasks && d.reduce_tasks == c.reduce_tasks
                &&& d.working_tasks == c.working_tasks
                &&& (!(c.working_tasks.dom() =~= Set::<TaskId>::empty()) || d.status != c.status)
            }
            &&& r is Completed ==> d.status == CoordinatorStatus::Done
            &&& c.status == CoordinatorStatus::Mapping && c.map_tasks.len() > 0 ==> r is Ready
            &&& d.committed_reduce == c.committed_reduce
        }),
{
    let s = c.next_status();
    if s == CoordinatorStatus::Reducing && c.reduce_tasks.len() > 0 {
        assert(c.map_tasks.len() == 0);
        assert(is_reduce_task(c.reduce_tasks[0]));
    }
    if s == CoordinatorStatus::Mapping && c.map_tasks.len() > 0 {
        assert(is_map_task(c.map_tasks[0]));
    }
}

/// Handing out work keeps the coordinator's invariant.
pub proof fn lemma_assign_keeps_wf(c: CoordinatorView, w: WorkerId)
    requires
        c.wf(),
    ensures
        c.assign(w).0.wf(),
{
    let s = c.next_status();
    let d = c.assign(w).0;
    if s == CoordinatorStatus::Mapping && c.map_tasks.len() > 0 {
        assert forall|i: int| 0 <= i < d.map_tasks.len() implies
            is_map_task(#[trigger] d.map_tasks[i]) && is_queued(d.map_tasks[i]) by {
            assert(d.map_tasks[i] == c.map_tasks[i + 1]);
        }
    } else if s == CoordinatorStatus::Reducing && c.reduce_tasks.len() > 0 {
        assert forall|i: int| 0 <= i < d.reduce_tasks.len() implies
            is_reduce_task(#[trigger] d.reduce_tasks[i]) && is_queued(d.reduce_tasks[i]) by {
            assert(d.reduce_tasks[i] == c.reduce_tasks[i + 1]);
        }
    }
}

/// Taking back a task after a timeout keeps the coordinator's invariant.
pub proof fn lemma_time_out_keeps_wf(c: CoordinatorView, tid: TaskId)
    requires
        c.wf(),
    ensures
        c.time_out(tid).wf(),
{
    let e = c.time_out(tid);
    if c.working_tasks.contains_key(tid) {
        assert(e.working_tasks =~= c.working_tasks.remove(tid));
        if c.status == CoordinatorStatus::Done {
            assert(c.working_tasks.dom().contains(tid));
        }
    }
}

/// The ids of the tasks in a queue.
pub open spec fn queued_ids(q: Seq<TaskView>) -> Set<TaskId> {
    Set::new(|id: TaskId| exists|i: int| 0 <= i < q.len() && #[trigger] q[i].task_id == id)
}

/// The ids of the tasks that are queued or running.
pub open spec fn task_ids(c: CoordinatorView) -> Set<TaskId> {
    queued_ids(c.map_tasks) + queued_ids(c.reduce_tasks) + c.working_tasks.dom()
}

pub(crate) proof fn lemma_record_mapper_ids(r: Seq<TaskView>, idxs: Seq<u32>, e: (TaskId, WorkerId))
    ensures
        record_mapper(r, idxs, e).len() == r.len(),
        forall|i: int| 0 <= i < r.len() ==> #[trigger] record_mapper(r, idxs, e)[i].task_id == r[i].task_id,
    decreases idxs.len(),
{
    if idxs.len() > 0 {
        lemma_record_mapper_ids(r, idxs.drop_last(), e);
        let r0 = record_mapper(r, idxs.drop_last(), e);
        let k = idxs.last() as int;
        if k < r0.len() {
            assert(add_mapper(r0[k], e).task_id == r0[k].task_id);
        }
    }
}

proof fn lemma_queued_ids_drop_first(q: Seq<TaskView>)
    requires
        q.len() > 0,
    ensures
        queued_ids(q) == queued_ids(q.drop_first()).insert(q[0].task_id),
{
    assert forall|id: TaskId| queued_ids(q).contains(id) implies
        #[trigger] queued_ids(q.drop_first()).insert(q[0].task_id).contains(id) by {
        let i = choose|i: int| 0 <= i < q.len() && #[trigger] q[i].task_id == id;
        if i > 0 {
            assert(q.drop_first()[i - 1].task_id == id);
        }
    }
    assert forall|id: TaskId| #[trigger] queued_ids(q.drop_first()).insert(q[0].task_id).contains(id) implies
        queued_ids(q).contains(id) by {
        if id != q[0].task_id {
            let i = choose|i: int| 0 <= i < q.drop_first().len() && #[trigger] q.drop_first()[i].task_id == id;
            assert(q[i + 1].task_id == id);
        }
    }
    assert(queued_ids(q) =~= queued_ids(q.drop_first()).insert(q[0].task_id));
}

proof fn lemma_queued_ids_push(q: Seq<TaskView>, t: TaskView)
    ensures
        queued_ids(q.push(t)) == queued_ids(q).insert(t.task_id),
{
    assert forall|id: TaskId| queued_ids(q.push(t)).contains(id) implies
        #[trigger] queued_ids(q).insert(t.task_id).contains(id) by {
        let i = choose|i: int| 0 <= i < q.push(t).len() && #[trigger] q.push(t)[i].task_id == id;
        if i < q.len() {
            assert(q[i].task_id == id);
        }
    }
    assert forall|id: TaskId| #[trigger] queued_ids(q).insert(t.task_id).contains(id) implies
        queued_ids(q.push(t)).contains(id) by {
        if id == t.task_id {
            assert(q.push(t)[q.len() as int].task_id == id);
        } else {
            let i = choose|i: int| 0 <= i < q.len() && #[trigger] q[i].task_id == id;
            assert(q.push(t)[i].task_id == id);
        }
    }
    assert(queued_ids(q.push(t)) =~= queued_ids(q).insert(t.task_id));
}

proof fn lemma_queued_ids_same(q1: Seq<TaskView>, q2: Seq<TaskView>)
    requires
        q1.len() == q2.len(),
        forall|i: int| 0 <= i < q1.len() ==> #[trigger] q1[i].task_id == q2[i].task_id,
    ensures
        queued_ids(q1) == queued_ids(q2),
{
    assert forall|id: TaskId| queued_ids(q1).contains(id) implies #[trigger] queued_ids(q2).contains(id) by {
        let i = choose|i: int| 0 <= i < q1.len() && #[trigger] q1[i].task_id == id;
        assert(q2[i].task_id == id);
    }
    assert forall|id: TaskId| queued_ids(q2).contains(id) implies #[trigger] queued_ids(q1).contains(id) by {
        let i = choose|i: int| 0 <= i < q2.len() && #[trigger] q2[i].task_id == id;
        assert(q1[i].task_id == id);
    }
    assert(queued_ids(q1) =~= queued_ids(q2));
}

/// No task is lost or made up: handing out work and taking a task back
/// after a timeout keep the set of tasks that are queued or running, and an
/// accepted commit removes the committed task and nothing else.
pub proof fn lemma_tasks_kept(c: CoordinatorView, w: WorkerId, tid: TaskId, idxs: Option<Seq<u32>>)
    requires
        c.wf(),
    ensures
        task_ids(c.assign(w).0) == task_ids(c),
        task_ids(c.time_out(tid)) == task_ids(c),
        c.commit(w, tid, idxs).1 ==> task_ids(c.commit(w, tid, idxs).0).insert(tid) == task_ids(c),
        !c.commit(w, tid, idxs).1 ==> c.commit(w, tid, idxs).0 == c,
{
    let s = c.next_status();
    let d = c.assign(w).0;
    if s == CoordinatorStatus::Mapping && c.map_tasks.len() > 0 {
        lemma_queued_ids_drop_first(c.map_tasks);
        assert(d.working_tasks.dom() =~= c.working_tasks.dom().insert(c.map_tasks[0].task_id));
        assert(task_ids(d) =~= task_ids(c));
    } else if s == CoordinatorStatus::Reducing && c.reduce_tasks.len() > 0 {
        lemma_queued_ids_drop_first(c.reduce_tasks);
        assert(d.working_tasks.dom() =~= c.working_tasks.dom().insert(c.reduce_tasks[0].task_id));
        assert(task_ids(d) =~= task_ids(c));
    }
    let e = c.time_out(tid);
    if c.working_tasks.contains_key(tid) {
        let t = c.working_tasks[tid].with_worker(None);
        assert(t.task_id == tid);
        assert(e.working_tasks.dom() =~= c.working_tasks.dom().remove(tid));
        if t.task_type == TaskType::Mapping {
            lemma_queued_ids_push(c.map_tasks, t);
        } else {
            lemma_queued_ids_push(c.reduce_tasks, t);
        }
        assert(task_ids(e) =~= task_ids(c));
    }
    let f = c.commit(w, tid, idxs).0;
    if c.commit_accepted(w, tid) {
        let reported = match idxs { Some(v) => v, None => Seq::<u32>::empty() };
        lemma_record_mapper_ids(c.reduce_tasks, reported, (tid, w));
        lemma_queued_ids_same(record_mapper(c.reduce_tasks, reported, (tid, w)), c.reduce_tasks);
        assert(f.working_tasks.dom() =~= c.working_tasks.dom().remove(tid));
        assert(task_ids(f).insert(tid) =~= task_ids(c));
    }
}

/// Records with the same key go to the same reduce task.
pub proof fn lemma_same_key_same_reducer(r1: RecordView, r2: RecordView, n: u32)
    requires
        r1.0 == r2.0,
    ensures
        reducer_of(r1.0, n) == reducer_of(r2.0, n),
{
}

/// Grouping gives each key once.
pub proof fn lemma_group_keys_distinct(rs: Seq<RecordView>)
    ensures
        group_keys(rs).no_duplicates(),
    decreases rs.len(),
{
    if rs.len() == 0 {
        let e = Seq::<Seq<char>>::empty();
        assert(rs.map_values(crate::shuffle::key_of()) =~= e);
        assert(e.remove_duplicates(e) == e);
    } else {
        let init = rs.drop_last();
        lemma_group_keys_distinct(init);
        lemma_group_step(init, rs.last());
        assert(init.push(rs.last()) =~= rs);
    }
}

/// Every group holds at least one value, so a reduce function is never
/// called without values.
pub proof fn lemma_groups_not_empty(rs: Seq<RecordView>)
    ensures
        forall|i: int| 0 <= i < group_by_key(rs).len() ==> (#[trigger] group_by_key(rs)[i]).1.len() > 0,
{
    let keys = group_keys(rs);
    let raw = rs.map_values(key_of());
    raw.lemma_remove_duplicates_properties(Seq::empty());
    assert(raw + Seq::<Seq<char>>::empty() =~= raw);
    assert forall|i: int| 0 <= i < group_by_key(rs).len() implies (#[trigger] group_by_key(rs)[i]).1.len() > 0 by {
        let k = keys[i];
        assert(keys.contains(k));
        assert(raw.contains(k));
        let j = choose|j: int| 0 <= j < raw.len() && raw[j] == k;
        assert(rs[j].0 == k);
        rs.lemma_filter_contains(has_key(k), j);
        assert(rs.filter(has_key(k)).len() > 0);
        assert(values_of(rs, k).len() == rs.filter(has_key(k)).len());
    }
}

/// A reduce task reads back what the map tasks wrote for it: when map task
/// `k` wrote the text of its records `outs[k]` that go to reduce task `i`,
/// the reduce task's input records are those records, map task after map
/// task, provided every record is plain (see [`record_is_plain`]).
pub proof fn lemma_reduce_reads_map_outputs(outs: Seq<Seq<RecordView>>, n: u32, i: int)
    requires
        forall|k: int, j: int| 0 <= k < outs.len() && 0 <= j < outs[k].len() ==>
            record_is_plain(#[trigger] outs[k][j]),
    ensures
        decode_all(outs.map_values(|rs: Seq<RecordView>| encode_records(bucket(rs, n, i))))
            == outs.map_values(|rs: Seq<RecordView>| bucket(rs, n, i)).flatten_alt(),
    decreases outs.len(),
{
    let enc = outs.map_values(|rs: Seq<RecordView>| encode_records(bucket(rs, n, i)));
    let bs = outs.map_values(|rs: Seq<RecordView>| bucket(rs, n, i));
    if outs.len() > 0 {
        let init = outs.drop_last();
        assert forall|k: int, j: int| 0 <= k < init.len() && 0 <= j < init[k].len() implies
            record_is_plain(#[trigger] init[k][j]) by {
            assert(init[k] == outs[k]);
        }
        lemma_reduce_reads_map_outputs(init, n, i);
        assert(enc.drop_last() =~= init.map_values(|rs: Seq<RecordView>| encode_records(bucket(rs, n, i))));
        assert(bs.drop_last() =~= init.map_values(|rs: Seq<RecordView>| bucket(rs, n, i)));
        let last = outs.last();
        let b = bucket(last, n, i);
        assert forall|j: int| 0 <= j < b.len() implies record_is_plain(#[trigger] b[j]) by {
            let pred = |r: RecordView| reducer_of(r.0, n) == i;
            assert(b.contains(b[j]));
            last.lemma_filter_contains_rev(pred, b[j]);
            let x = choose|x: int| 0 <= x < last.len() && last[x] == b[j];
            assert(outs[outs.len() - 1][x] == last[x]);
        }
        lemma_records_round_trip(b);
        assert(enc.last() == encode_records(b));
        assert(bs.last() == b);
    } else {
        assert(enc.len() == 0);
        assert(bs.len() == 0);
    }
}

} // verus!
