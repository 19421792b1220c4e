//! The coordinator: the queues of map and reduce tasks, the tasks that
//! workers are running, and the rules by which tasks are handed out,
//! committed and taken back after a timeout.

use vstd::prelude::*;
use std::collections::{HashMap, VecDeque};
use crate::task::{Task, TaskContext, TaskContextView, TaskId, TaskResult, TaskResultView, TaskType, TaskView, WorkerId};
use crate::ids::{fresh_id, uuid_v4_bits, uuid_version_mask};
use crate::history::lemma_push_fresh;

verus! {

broadcast use vstd::std_specs::hash::group_hash_axioms;

/// The phase the coordinator is in.
#[derive(Clone, Copy, Debug, PartialEq, Eq, Structural)]
pub enum CoordinatorStatus {
    Mapping,
    Reducing,
    Done,
}

/// The coordinator's state.
pub struct Coordinator {
    map_tasks: VecDeque<Task>,
    reduce_tasks: VecDeque<Task>,
    working_tasks: HashMap<TaskId, Task>,
    committed_reduce: Vec<(TaskId, WorkerId)>,
    status: CoordinatorStatus,
}

/// Mathematical model of a [`Coordinator`].
pub struct CoordinatorView {
    pub map_tasks: Seq<TaskView>,
    pub reduce_tasks: Seq<TaskView>,
    pub working_tasks: Map<TaskId, TaskView>,
    pub committed_reduce: Seq<(TaskId, WorkerId)>,
    pub status: CoordinatorStatus,
}

impl View for Coordinator {
    type V = CoordinatorView;

    closed spec fn view(&self) -> CoordinatorView {
        CoordinatorView {
            map_tasks: self.map_tasks@.map_values(|t: Task| t@),
            reduce_tasks: self.reduce_tasks@.map_values(|t: Task| t@),
            working_tasks: self.working_tasks@.map_values(|t: Task| t@),
            committed_reduce: self.committed_reduce@,
            status: self.status,
        }
    }
}

/// A map task: its type and its context agree.
pub open spec fn is_map_task(t: TaskView) -> bool {
    t.task_type == TaskType::Mapping && t.task_context is MapTask
}

/// A reduce task: its type and its context agree.
pub open spec fn is_reduce_task(t: TaskView) -> bool {
    t.task_type == TaskType::Reducing && t.task_context is ReduceTask
}

/// A task as it waits in a queue: no worker, no wasm binary attached.
pub open spec fn is_queued(t: TaskView) -> bool {
    t.worker_id is None && t.task_context.wasm() is None
}

/// The numeric rank of a phase; phases only move forward.
pub open spec fn status_rank(s: CoordinatorStatus) -> int {
    match s {
        CoordinatorStatus::Mapping => 0,
        CoordinatorStatus::Reducing => 1,
        CoordinatorStatus::Done => 2,
    }
}

impl CoordinatorView {
    /// The coordinator's invariant.
    pub open spec fn wf(self) -> bool {
        &&& forall|i: int| 0 <= i < self.map_tasks.len() ==>
            is_map_task(#[trigger] self.map_tasks[i]) && is_queued(self.map_tasks[i])
        &&& forall|i: int| 0 <= i < self.reduce_tasks.len() ==>
            is_reduce_task(#[trigger] self.reduce_tasks[i]) && is_queued(self.reduce_tasks[i])
        &&& forall|k: TaskId| #[trigger] self.working_tasks.contains_key(k) ==> {
            &&& self.working_tasks[k].task_id == k
            &&& self.working_tasks[k].worker_id is Some
            &&& self.working_tasks[k].task_context.wasm() is None
        }
        &&& self.status == CoordinatorStatus::Mapping ==> {
            &&& forall|k: TaskId| #[trigger] self.working_tasks.contains_key(k) ==>
                is_map_task(self.working_tasks[k])
            &&& forall|i: int| 0 <= i < self.reduce_tasks.len() ==>
                (#[trigger] self.reduce_tasks[i]).task_context->reduce_idx == i
        }
        &&& self.status == CoordinatorStatus::Reducing ==> {
            &&& self.map_tasks.len() == 0
            &&& forall|k: TaskId| #[trigger] self.working_tasks.contains_key(k) ==>
                is_reduce_task(self.working_tasks[k])
        }
        &&& self.status == CoordinatorStatus::Done ==> {
            &&& self.map_tasks.len() == 0
            &&& self.reduce_tasks.len() == 0
            &&& self.working_tasks.dom() =~= Set::<TaskId>::empty()
        }
    }

    /// A coordinator as a job starts: in the map phase, one queued map task
    /// per input file of `file_paths` and `num_reduces` queued reduce tasks
    /// (the `i`-th with index `i` and no map output yet), each with a random
    /// id (a version 4 UUID); nothing running and nothing committed.
    pub open spec fn is_initial(self, file_paths: Seq<Seq<char>>, num_reduces: u32) -> bool {
        &&& self.status == CoordinatorStatus::Mapping
        &&& self.map_tasks.len() == file_paths.len()
        &&& forall|i: int| 0 <= i < file_paths.len() ==> {
            &&& (#[trigger] self.map_tasks[i]).task_type == TaskType::Mapping
            &&& self.map_tasks[i].worker_id is None
            &&& self.map_tasks[i].task_id & uuid_version_mask() == uuid_v4_bits()
            &&& self.map_tasks[i].task_context == (TaskContextView::MapTask {
                wasm_bytes: None,
                input_filepath: file_paths[i],
                num_reduce: num_reduces,
            })
        }
        &&& self.reduce_tasks.len() == num_reduces
        &&& forall|i: int| 0 <= i < num_reduces ==> {
            &&& (#[trigger] self.reduce_tasks[i]).task_type == TaskType::Reducing
            &&& self.reduce_tasks[i].worker_id is None
            &&& self.reduce_tasks[i].task_id & uuid_version_mask() == uuid_v4_bits()
            &&& self.reduce_tasks[i].task_context == (TaskContextView::ReduceTask {
                wasm_bytes: None,
                reduce_idx: i as u32,
                mapper_ids: Seq::empty(),
            })
        }
        &&& self.working_tasks == Map::<TaskId, TaskView>::empty()
        &&& self.committed_reduce == Seq::<(TaskId, WorkerId)>::empty()
    }

    /// The phase after the check that opens each request for work: the map
    /// phase ends when no map task is queued or running, the reduce phase
    /// when no reduce task is queued or running.
    pub open spec fn next_status(self) -> CoordinatorStatus {
        let idle = self.working_tasks.dom() =~= Set::<TaskId>::empty();
        if self.status == CoordinatorStatus::Mapping && self.map_tasks.len() == 0 && idle {
            CoordinatorStatus::Reducing
        } else if self.status == CoordinatorStatus::Reducing && self.reduce_tasks.len() == 0 && idle {
            CoordinatorStatus::Done
        } else {
            self.status
        }
    }

    /// What a request for work by worker `w` does: the new state and the answer.
    pub open spec fn assign(self, w: WorkerId) -> (CoordinatorView, TaskResultView) {
        let s = self.next_status();
        if s == CoordinatorStatus::Mapping && self.map_tasks.len() > 0 {
            let t = self.map_tasks[0].with_worker(Some(w));
            (CoordinatorView {
                map_tasks: self.map_tasks.drop_first(),
                working_tasks: self.working_tasks.insert(t.task_id, t),
                status: s,
                ..self
            }, TaskResultView::Ready(t))
        } else if s == CoordinatorStatus::Reducing && self.reduce_tasks.len() > 0 {
            let t = self.reduce_tasks[0].with_worker(Some(w));
            (CoordinatorView {
                reduce_tasks: self.reduce_tasks.drop_first(),
                working_tasks: self.working_tasks.insert(t.task_id, t),
                status: s,
                ..self
            }, TaskResultView::Ready(t))
        } else {
            (CoordinatorView { status: s, ..self },
             if s == CoordinatorStatus::Done { TaskResultView::Completed } else { TaskResultView::Pending })
        }
    }

    /// Whether worker `w` may commit task `tid`: the task is running and was
    /// handed to `w`.
    pub open spec fn commit_accepted(self, w: WorkerId, tid: TaskId) -> bool {
        self.working_tasks.contains_key(tid) && self.working_tasks[tid].worker_id == Some(w)
    }

    /// What a commit of task `tid` by worker `w` does, with the reduce
    /// indices that a map task reports; the answer says whether it was accepted.
    pub open spec fn commit(self, w: WorkerId, tid: TaskId, idxs: Option<Seq<u32>>) -> (CoordinatorView, bool) {
        if self.commit_accepted(w, tid) {
            let c = if self.working_tasks[tid].task_type == TaskType::Mapping {
                let reported = match idxs { Some(s) => s, None => Seq::<u32>::empty() };
                CoordinatorView { reduce_tasks: record_mapper(self.reduce_tasks, reported, (tid, w)), ..self }
            } else {
                CoordinatorView { committed_reduce: self.committed_reduce.push((tid, w)), ..self }
            };
            (CoordinatorView { working_tasks: c.working_tasks.remove(tid), ..c }, true)
        } else {
            (self, false)
        }
    }

    /// What the timeout of task `tid` does: a task still running goes back,
    /// without a worker, to the end of its queue.
    pub open spec fn time_out(self, tid: TaskId) -> CoordinatorView {
        if self.working_tasks.contains_key(tid) {
            let t = self.working_tasks[tid].with_worker(None);
            let working_tasks = self.working_tasks.remove(tid);
            if t.task_type == TaskType::Mapping {
                CoordinatorView { map_tasks: self.map_tasks.push(t), working_tasks, ..self }
            } else {
                CoordinatorView { reduce_tasks: self.reduce_tasks.push(t), working_tasks, ..self }
            }
        } else {
            self
        }
    }
}

/// A reduce task that also reads the output of the map task `e`.
pub open spec fn add_mapper(t: TaskView, e: (TaskId, WorkerId)) -> TaskView {
    match t.task_context {
        TaskContextView::ReduceTask { wasm_bytes, reduce_idx, mapper_ids } =>
            t.with_context(TaskContextView::ReduceTask { wasm_bytes, reduce_idx, mapper_ids: mapper_ids.push(e) }),
        _ => t,
    }
}

/// The reduce queue after map output `e` is recorded, in turn, at each
/// queue position in `idxs`; positions past the end are skipped.
pub open spec fn record_mapper(r: Seq<TaskView>, idxs: Seq<u32>, e: (TaskId, WorkerId)) -> Seq<TaskView>
    decreases idxs.len(),
{
    if idxs.len() == 0 {
        r
    } else {
        let r0 = record_mapper(r, idxs.drop_last(), e);
        let i = idxs.last() as int;
        if i < r0.len() {
            r0.update(i, add_mapper(r0[i], e))
        } else {
            r0
        }
    }
}

impl Coordinator {
    /// A coordinator with one map task per input file and `num_reduces`
    /// reduce tasks, in the map phase. Each task gets a fresh random id (a
    /// version 4 UUID).
    pub fn new(file_paths: Vec<String>, num_reduces: u32) -> (c: Self)
        ensures
            c@.wf(),
            c@.is_initial(file_paths@.map_values(|p: String| p@), num_reduces),
            forall|i: int, j: int| 0 <= i < j < c@.map_tasks.len() + c@.reduce_tasks.len() ==>
                (c@.map_tasks + c@.reduce_tasks)[i].task_id != (c@.map_tasks + c@.reduce_tasks)[j].task_id,
    {
        let mut used: Vec<u128> = Vec::new();
        let mut map_tasks: VecDeque<Task> = VecDeque::new();
        for i in 0..file_paths.len()
            invariant
                map_tasks@.len() == i,
                used@.len() == i,
                used@.no_duplicates(),
                forall|k: int| 0 <= k < i ==> used@[k] == (#[trigger] map_tasks@[k])@.task_id,
                forall|j: int| 0 <= j < i ==> {
                    &&& (#[trigger] map_tasks@[j])@.task_type == TaskType::Mapping
                    &&& map_tasks@[j]@.worker_id is None
                    &&& map_tasks@[j]@.task_id & uuid_version_mask() == uuid_v4_bits()
                    &&& map_tasks@[j]@.task_context == (TaskContextView::MapTask {
                        wasm_bytes: None,
                        input_filepath: file_paths@[j]@,
                        num_reduce: num_reduces,
                    })
                },
        {
            let task_id = fresh_id(&used);
            proof { lemma_push_fresh(used@, task_id); }
            used.push(task_id);
            let task = Task::new(
                task_id,
                TaskType::Mapping,
                TaskContext::new_map(file_paths[i].clone(), num_reduces),
            );
            map_tasks.push_back(task);
        }
        let mut reduce_tasks: VecDeque<Task> = VecDeque::new();
        let ghost nm = map_tasks@.len();
        for i in 0..num_reduces
            invariant
                reduce_tasks@.len() == i,
                nm == map_tasks@.len(),
                used@.len() == nm + i,
                used@.no_duplicates(),
                forall|k: int| 0 <= k < nm ==> used@[k] == (#[trigger] map_tasks@[k])@.task_id,
                forall|k: int| 0 <= k < i ==> used@[nm + k] == (#[trigger] reduce_tasks@[k])@.task_id,
                forall|j: int| 0 <= j < i ==> {
                    &&& (#[trigger] reduce_tasks@[j])@.task_type == TaskType::Reducing
                    &&& reduce_tasks@[j]@.worker_id is None
                    &&& reduce_tasks@[j]@.task_id & uuid_version_mask() == uuid_v4_bits()
                    &&& reduce_tasks@[j]@.task_context == (TaskContextView::ReduceTask {
                        wasm_bytes: None,
                        reduce_idx: j as u32,
                        mapper_ids: Seq::empty(),
                    })
                },
        {
            let task_id = fresh_id(&used);
            proof { lemma_push_fresh(used@, task_id); }
            used.push(task_id);
            let task = Task::new(task_id, TaskType::Reducing, TaskContext::new_reduce(i, Vec::new()));
            reduce_tasks.push_back(task);
        }
        let c = Coordinator {
            map_tasks,
            reduce_tasks,
            working_tasks: HashMap::new(),
            committed_reduce: Vec::new(),
            status: CoordinatorStatus::Mapping,
        };
        assert(c@.working_tasks =~= Map::<TaskId, TaskView>::empty());
        proof {
            let fp = file_paths@.map_values(|p: String| p@);
            assert forall|i: int| 0 <= i < file_paths@.len() implies #[trigger] fp[i] == file_paths@[i]@ by {}
            let all = c@.map_tasks + c@.reduce_tasks;
            assert forall|k: int| 0 <= k < all.len() implies #[trigger] all[k].task_id == used@[k] by {
                if k < nm {
                    assert(all[k] == c@.map_tasks[k]);
                    assert(c@.map_tasks[k] == map_tasks@[k]@);
                } else {
                    assert(all[k] == c@.reduce_tasks[k - nm]);
                    assert(c@.reduce_tasks[k - nm] == reduce_tasks@[k - nm]@);
                    assert(used@[nm + (k - nm)] == reduce_tasks@[k - nm]@.task_id);
                }
            }
        }
        c
    }

    /// A coordinator with no task at all, past every phase.
    pub(crate) fn finished() -> (c: Self)
        ensures
            c@.wf(),
    {
        let c = Coordinator {
            map_tasks: VecDeque::new(),
            reduce_tasks: VecDeque::new(),
            working_tasks: HashMap::new(),
            committed_reduce: Vec::new(),
            status: CoordinatorStatus::Done,
        };
        assert(c@.working_tasks.dom() =~= Set::<TaskId>::empty());
        c
    }

    /// The number of queued map tasks.
    pub fn num_map_tasks(&self) -> (n: usize)
        ensures
            n == self@.map_tasks.len(),
    {
        self.map_tasks.len()
    }

    /// Whether every phase is over.
    pub fn is_done(&self) -> (r: bool)
        ensures
            r == (self@.status == CoordinatorStatus::Done),
    {
        self.status == CoordinatorStatus::Done
    }

    /// The phase the coordinator is in.
    pub fn status(&self) -> (s: CoordinatorStatus)
        ensures
            s == self@.status,
    {
        self.status
    }

    /// The committed reduce outputs, as (task, worker) pairs in commit order.
    pub fn committed_reduce(&self) -> (r: Vec<(TaskId, WorkerId)>)
        ensures
            r@ == self@.committed_reduce,
    {
        let mut r: Vec<(TaskId, WorkerId)> = Vec::with_capacity(self.committed_reduce.len());
        for i in 0..self.committed_reduce.len()
            invariant
                r@ == self@.committed_reduce.take(i as int),
                self@.committed_reduce == self.committed_reduce@,
        {
            let (a, b) = self.committed_reduce[i];
            r.push((a, b));
        }
        assert(self@.committed_reduce.take(self@.committed_reduce.len() as int) == self@.committed_reduce);
        r
    }

    /// Moves the phase forward when the current phase has no task left,
    /// queued or running.
    fn advance_status(&mut self)
        requires
            old(self)@.wf(),
        ensures
            final(self)@ == (CoordinatorView { status: old(self)@.next_status(), ..old(self)@ }),
            final(self)@.wf(),
    {
        let idle = self.working_tasks.is_empty();
        proof {
            assert(idle == (self@.working_tasks.dom() =~= Set::<TaskId>::empty()));
        }
        if self.status == CoordinatorStatus::Mapping && self.map_tasks.len() == 0 && idle {
            self.status = CoordinatorStatus::Reducing;
        } else if self.status == CoordinatorStatus::Reducing && self.reduce_tasks.len() == 0 && idle {
            self.status = CoordinatorStatus::Done;
        }
    }

    /// Hands the first queued task of the current phase to worker
    /// `worker_id`, after moving the phase forward if it is over. Without
    /// such a task the answer is `Completed` once every phase is over, and
    /// `Pending` before. The task handed out carries no wasm binary.
    pub fn assign_task(&mut self, worker_id: WorkerId) -> (r: TaskResult)
        requires
            old(self)@.wf(),
        ensures
            final(self)@.wf(),
            (final(self)@, r@) == old(self)@.assign(worker_id),
    {
        self.advance_status();
        let ghost mid = self@;
        if self.status == CoordinatorStatus::Mapping && self.map_tasks.len() > 0 {
            let popped = self.map_tasks.pop_front();
            let mut task = popped.unwrap();
            task.worker_id = Some(worker_id);
            let copy = task.clone();
            self.working_tasks.insert(task.task_id, copy);
            proof {
                let t = mid.map_tasks[0].with_worker(Some(worker_id));
                assert(task@ == t);
                assert(self@.map_tasks =~= mid.map_tasks.drop_first());
                assert(self@.working_tasks =~= mid.working_tasks.insert(t.task_id, t));
            }
            TaskResult::Ready(task)
        } else if self.status == CoordinatorStatus::Reducing && self.reduce_tasks.len() > 0 {
            let popped = self.reduce_tasks.pop_front();
            let mut task = popped.unwrap();
            task.worker_id = Some(worker_id);
            let copy = task.clone();
            self.working_tasks.insert(task.task_id, copy);
            proof {
                let t = mid.reduce_tasks[0].with_worker(Some(worker_id));
                assert(task@ == t);
                assert(self@.reduce_tasks =~= mid.reduce_tasks.drop_first());
                assert(self@.working_tasks =~= mid.working_tasks.insert(t.task_id, t));
            }
            TaskResult::Ready(task)
        } else if self.status == CoordinatorStatus::Done {
            TaskResult::Completed
        } else {
            TaskResult::Pending
        }
    }

    /// Records that the map task `e` has output for the reduce task at queue
    /// position `idx`, if there is one.
    fn record_mapper_at(&mut self, idx: u32, e: (TaskId, WorkerId))
        requires
            old(self)@.wf(),
        ensures
            final(self)@ == (CoordinatorView {
                reduce_tasks: if (idx as int) < old(self)@.reduce_tasks.len() {
                    old(self)@.reduce_tasks.update(idx as int, add_mapper(old(self)@.reduce_tasks[idx as int], e))
                } else {
                    old(self)@.reduce_tasks
                },
                ..old(self)@
            }),
    {
        let i = idx as usize;
        if i < self.reduce_tasks.len() {
            let ghost before = self@;
            let removed = self.reduce_tasks.remove(i);
            let mut rt = removed.unwrap();
            let ghost old_rt = rt@;
            rt.task_context = match rt.task_context {
                TaskContext::ReduceTask { wasm_bytes, reduce_idx, mut mapper_ids } => {
                    mapper_ids.push(e);
                    TaskContext::ReduceTask { wasm_bytes, reduce_idx, mapper_ids }
                },
                other => other,
            };
            assert(rt@ == add_mapper(old_rt, e));
            self.reduce_tasks.insert(i, rt);
            assert(self@.reduce_tasks =~= before.reduce_tasks.update(i as int, add_mapper(old_rt, e)));
        }
    }

    /// Commits task `task_id` for worker `worker_id`. The commit is accepted
    /// only if the task is running and was handed to that worker; then the
    /// task stops running, and a map task's output is recorded in each
    /// reduce task whose queue position it reports, a reduce task's output
    /// in the list of committed reduce outputs. A refused commit changes
    /// nothing.
    pub fn commit_task(&mut self, worker_id: WorkerId, task_id: TaskId, reduce_idxs: Option<Vec<u32>>) -> (accepted: bool)
        requires
            old(self)@.wf(),
        ensures
            final(self)@.wf(),
            (final(self)@, accepted) == old(self)@.commit(
                worker_id,
                task_id,
                match reduce_idxs { Some(v) => Some(v@), None => None },
            ),
    {
        let (found, is_map) = match self.working_tasks.get(&task_id) {
            Some(t) => {
                let mine = match t.worker_id {
                    Some(w) => w == worker_id,
                    None => false,
                };
                (mine, t.is_map())
            },
            None => (false, false),
        };
        if !found {
            return false;
        }
        let ghost c0 = self@;
        if is_map {
            let idxs: Vec<u32> = match reduce_idxs {
                Some(v) => v,
                None => Vec::new(),
            };
            let e = (task_id, worker_id);
            for j in 0..idxs.len()
                invariant
                    c0.wf(),
                    c0.working_tasks.contains_key(task_id),
                    self@ == (CoordinatorView {
                        reduce_tasks: record_mapper(c0.reduce_tasks, idxs@.take(j as int), e),
                        ..c0
                    }),
                    self@.wf(),
            {
                let ghost before = self@;
                self.record_mapper_at(idxs[j], e);
                proof {
                    assert(idxs@.take(j + 1).drop_last() =~= idxs@.take(j as int));
                    let r = self@.reduce_tasks;
                    assert forall|i: int| 0 <= i < r.len() implies
                        is_reduce_task(#[trigger] r[i]) && is_queued(r[i])
                        && (self@.status == CoordinatorStatus::Mapping ==> r[i].task_context->reduce_idx == i) by {
                        assert(before.reduce_tasks[i] == r[i] || r[i] == add_mapper(before.reduce_tasks[i], e));
                    }
                }
            }
            assert(idxs@.take(idxs@.len() as int) =~= idxs@);
        } else {
            self.committed_reduce.push((task_id, worker_id));
        }
        let ghost c1 = self@;
        let _ = self.working_tasks.remove(&task_id);
        assert(self@.working_tasks =~= c1.working_tasks.remove(task_id));
        true
    }

    /// Takes back task `task_id` when the worker running it has not
    /// committed it in time: the task loses its worker and goes to the end
    /// of its queue. A task that is no longer running is left alone.
    pub fn track_task(&mut self, task_id: TaskId)
        requires
            old(self)@.wf(),
        ensures
            final(self)@.wf(),
            final(self)@ == old(self)@.time_out(task_id),
    {
        let ghost c0 = self@;
        let removed = self.working_tasks.remove(&task_id);
        match removed {
            Some(mut task) => {
                assert(c0.working_tasks.contains_key(task_id));
                assert(task@ == c0.working_tasks[task_id]);
                task.worker_id = None;
                if task.is_map() {
                    self.map_tasks.push_back(task);
                } else {
                    self.reduce_tasks.push_back(task);
                }
                proof {
                    let t = c0.working_tasks[task_id].with_worker(None);
                    assert(self@.working_tasks =~= c0.working_tasks.remove(task_id));
                    if t.task_type == TaskType::Mapping {
                        assert(self@.map_tasks =~= c0.map_tasks.push(t));
                    } else {
                        assert(self@.reduce_tasks =~= c0.reduce_tasks.push(t));
                    }
                }
            },
            None => {
                assert(self@.working_tasks =~= c0.working_tasks);
            },
        }
    }
}

} // verus!
