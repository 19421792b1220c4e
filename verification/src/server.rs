//! The coordinator as a service: it answers workers' requests for work and
//! their commits, and attaches the map or reduce wasm binary to each task
//! it hands out.

use vstd::prelude::*;
use crate::coordinator::{Coordinator, CoordinatorView};
use crate::history::{step, CoordinatorOp};
use crate::task::{copy_bytes, Task, TaskContext, TaskId, TaskResult, TaskResultView, WorkerId};

verus! {

/// The requests a worker sends to the coordinator.
pub trait CoordinatorRPC {
    /// Asks for a task for worker `worker_id`.
    fn apply_task(&mut self, worker_id: WorkerId) -> TaskResult;

    /// Reports that worker `worker_id` finished task `task_id`; a map task
    /// also reports the reduce indices it produced output for. The answer
    /// says whether the commit was accepted.
    fn commit_task(&mut self, worker_id: WorkerId, task_id: TaskId, reduce_idxs: Option<Vec<u32>>) -> bool;
}

/// The coordinator together with what the service hands out with each task.
pub struct CoordinatorServer {
    coordinator: Coordinator,
    map_wasm: Vec<u8>,
    reduce_wasm: Vec<u8>,
    num_reduces: u32,
    num_maps: u32,
    timeout: u64,
}

/// Mathematical model of a [`CoordinatorServer`].
pub struct CoordinatorServerView {
    pub coordinator: CoordinatorView,
    pub map_wasm: Seq<u8>,
    pub reduce_wasm: Seq<u8>,
    pub num_reduces: u32,
    pub num_maps: u32,
    pub timeout: u64,
}

impl View for CoordinatorServer {
    type V = CoordinatorServerView;

    closed spec fn view(&self) -> CoordinatorServerView {
        CoordinatorServerView {
            coordinator: self.coordinator@,
            map_wasm: self.map_wasm@,
            reduce_wasm: self.reduce_wasm@,
            num_reduces: self.num_reduces,
            num_maps: self.num_maps,
            timeout: self.timeout,
        }
    }
}

/// The answer to a worker once the wasm binary of the task's kind is attached.
pub open spec fn with_binary(r: TaskResultView, map_wasm: Seq<u8>, reduce_wasm: Seq<u8>) -> TaskResultView {
    match r {
        TaskResultView::Ready(t) => {
            let w = if t.task_context is MapTask { map_wasm } else { reduce_wasm };
            TaskResultView::Ready(t.with_context(t.task_context.with_wasm(Some(w))))
        },
        other => other,
    }
}

/// The service after event `op`: only the coordinator changes.
pub open spec fn server_step(s: CoordinatorServerView, op: CoordinatorOp) -> CoordinatorServerView {
    CoordinatorServerView { coordinator: step(s.coordinator, op), ..s }
}

/// The service after the events `ops`.
pub open spec fn server_run(s: CoordinatorServerView, ops: Seq<CoordinatorOp>) -> CoordinatorServerView
    decreases ops.len(),
{
    if ops.len() == 0 {
        s
    } else {
        server_step(server_run(s, ops.drop_last()), ops.last())
    }
}

/// What `get_info` reports, the binaries and the timeout never change,
/// whatever requests, commits and timeouts the service goes through.
pub proof fn lemma_server_config_constant(s: CoordinatorServerView, ops: Seq<CoordinatorOp>)
    ensures
        (server_run(s, ops).num_maps, server_run(s, ops).num_reduces) == (s.num_maps, s.num_reduces),
        server_run(s, ops).map_wasm == s.map_wasm,
        server_run(s, ops).reduce_wasm == s.reduce_wasm,
        server_run(s, ops).timeout == s.timeout,
    decreases ops.len(),
{
    if ops.len() > 0 {
        lemma_server_config_constant(s, ops.drop_last());
    }
}

/// Every task handed out carries the binary of its kind: a map task the map
/// binary, a reduce task the reduce binary, whatever else it holds; the
/// rest of the task is as the coordinator handed it out, and Pending and
/// Completed answers pass through unchanged.
pub proof fn lemma_handed_out_tasks_carry_their_binary(r: TaskResultView, map_wasm: Seq<u8>, reduce_wasm: Seq<u8>)
    ensures
        match (with_binary(r, map_wasm, reduce_wasm), r) {
            (TaskResultView::Ready(t), TaskResultView::Ready(a)) => {
                &&& t.task_id == a.task_id && t.task_type == a.task_type && t.worker_id == a.worker_id
                &&& (t.task_context is MapTask) == (a.task_context is MapTask)
                &&& t.task_context.wasm() == Some(if a.task_context is MapTask { map_wasm } else { reduce_wasm })
                &&& t.task_context.with_wasm(None) == a.task_context.with_wasm(None)
            },
            (TaskResultView::Pending, TaskResultView::Pending) => true,
            (TaskResultView::Completed, TaskResultView::Completed) => true,
            _ => false,
        },
{
}

impl CoordinatorServer {
    #[verifier::type_invariant]
    closed spec fn inv(self) -> bool {
        self.coordinator@.wf()
    }

    /// The service around `coordinator`; it records how many map tasks the
    /// coordinator starts with (as a `u32`).
    pub fn new(coordinator: Coordinator, num_reduces: u32, map_wasm: Vec<u8>, reduce_wasm: Vec<u8>, timeout: u64) -> (s: Self)
        requires
            coordinator@.wf(),
        ensures
            s@ == (CoordinatorServerView {
                coordinator: coordinator@,
                map_wasm: map_wasm@,
                reduce_wasm: reduce_wasm@,
                num_reduces,
                num_maps: coordinator@.map_tasks.len() as u32,
                timeout,
            }),
    {
        let num_maps = coordinator.num_map_tasks() as u32;
        CoordinatorServer { coordinator, map_wasm, reduce_wasm, num_reduces, num_maps, timeout }
    }

    /// The number of map tasks and the number of reduce tasks.
    pub fn get_info(&self) -> (r: (u32, u32))
        ensures
            r == (self@.num_maps, self@.num_reduces),
    {
        (self.num_maps, self.num_reduces)
    }

    /// Seconds a worker has to commit a task before it is taken back.
    pub fn timeout(&self) -> (r: u64)
        ensures
            r == self@.timeout,
    {
        self.timeout
    }

    /// The coordinator behind the service.
    pub fn coordinator(&self) -> (c: &Coordinator)
        ensures
            c@ == self@.coordinator,
            c@.wf(),
    {
        proof { use_type_invariant(self); }
        &self.coordinator
    }

    /// Takes back task `task_id` if it is still running (see
    /// [`Coordinator::track_task`]).
    pub fn track_task(&mut self, task_id: TaskId)
        ensures
            final(self)@ == (CoordinatorServerView { coordinator: old(self)@.coordinator.time_out(task_id), ..old(self)@ }),
            final(self)@ == server_step(old(self)@, CoordinatorOp::TimeOut(task_id)),
    {
        proof { use_type_invariant(&*self); }
        let mut c = Coordinator::finished();
        std::mem::swap(&mut c, &mut self.coordinator);
        c.track_task(task_id);
        std::mem::swap(&mut c, &mut self.coordinator);
    }
}

/// The task with wasm binary `w` attached to its context.
fn attach_binary(task: Task, w: &Vec<u8>) -> (r: Task)
    ensures
        r@ == task@.with_context(task@.task_context.with_wasm(Some(w@))),
{
    let Task { task_id, task_type, worker_id, task_context } = task;
    let task_context = match task_context {
        TaskContext::MapTask { wasm_bytes: _, input_filepath, num_reduce } =>
            TaskContext::MapTask { wasm_bytes: Some(copy_bytes(w)), input_filepath, num_reduce },
        TaskContext::ReduceTask { wasm_bytes: _, reduce_idx, mapper_ids } =>
            TaskContext::ReduceTask { wasm_bytes: Some(copy_bytes(w)), reduce_idx, mapper_ids },
    };
    Task { task_id, task_type, worker_id, task_context }
}

impl CoordinatorRPC for CoordinatorServer {
    /// Hands out a task as [`Coordinator::assign_task`] does, with the map
    /// binary attached to a map task and the reduce binary to a reduce task.
    fn apply_task(&mut self, worker_id: WorkerId) -> (r: TaskResult)
        ensures
            final(self)@ == (CoordinatorServerView { coordinator: old(self)@.coordinator.assign(worker_id).0, ..old(self)@ }),
            final(self)@ == server_step(old(self)@, CoordinatorOp::Assign(worker_id)),
            r@ == with_binary(old(self)@.coordinator.assign(worker_id).1, old(self)@.map_wasm, old(self)@.reduce_wasm),
            match (r@, old(self)@.coordinator.assign(worker_id).1) {
                (TaskResultView::Ready(t), TaskResultView::Ready(a)) => {
                    &&& t.task_id == a.task_id && t.task_type == a.task_type && t.worker_id == a.worker_id
                    &&& t.task_context == a.task_context.with_wasm(Some(
                        if a.task_context is MapTask { old(self)@.map_wasm } else { old(self)@.reduce_wasm }))
                    &&& t.task_context.wasm() == Some(
                        if t.task_context is MapTask { old(self)@.map_wasm } else { old(self)@.reduce_wasm })
                },
                (TaskResultView::Pending, TaskResultView::Pending) => true,
                (TaskResultView::Completed, TaskResultView::Completed) => true,
                _ => false,
            },
    {
        proof { use_type_invariant(&*self); }
        let mut c = Coordinator::finished();
        std::mem::swap(&mut c, &mut self.coordinator);
        let r = c.assign_task(worker_id);
        std::mem::swap(&mut c, &mut self.coordinator);
        match r {
            TaskResult::Ready(task) => {
                let is_map_ctx = match &task.task_context {
                    TaskContext::MapTask { .. } => true,
                    TaskContext::ReduceTask { .. } => false,
                };
                if is_map_ctx {
                    TaskResult::Ready(attach_binary(task, &self.map_wasm))
                } else {
                    TaskResult::Ready(attach_binary(task, &self.reduce_wasm))
                }
            },
            other => other,
        }
    }

    /// Commits as [`Coordinator::commit_task`] does.
    fn commit_task(&mut self, worker_id: WorkerId, task_id: TaskId, reduce_idxs: Option<Vec<u32>>) -> (accepted: bool)
        ensures
            (final(self)@.coordinator, accepted) == old(self)@.coordinator.commit(
                worker_id,
                task_id,
                match reduce_idxs { Some(v) => Some(v@), None => None },
            ),
            final(self)@ == (CoordinatorServerView { coordinator: final(self)@.coordinator, ..old(self)@ }),
            final(self)@ == server_step(old(self)@, CoordinatorOp::Commit(
                worker_id,
                task_id,
                match reduce_idxs { Some(v) => Some(v@), None => None },
            )),
    {
        proof { use_type_invariant(&*self); }
        let mut c = Coordinator::finished();
        std::mem::swap(&mut c, &mut self.coordinator);
        let accepted = c.commit_task(worker_id, task_id, reduce_idxs);
        std::mem::swap(&mut c, &mut self.coordinator);
        accepted
    }
}

} // verus!
