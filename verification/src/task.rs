//! Tasks exchanged between the coordinator and the workers.

use vstd::prelude::*;

verus! {

/// Identifier of a task.
pub type TaskId = u128;

/// Identifier of a worker.
pub type WorkerId = u128;

/// Whether a task is a map task (`Mapping`) or a reduce task (`Reducing`).
#[derive(Clone, Copy, Debug, PartialEq, Eq, Structural)]
pub enum TaskType {
    Mapping,
    Reducing,
}

/// What a worker needs to run a task.
#[derive(Debug)]
pub enum TaskContext {
    MapTask { wasm_bytes: Option<Vec<u8>>, input_filepath: String, num_reduce: u32 },
    ReduceTask { wasm_bytes: Option<Vec<u8>>, reduce_idx: u32, mapper_ids: Vec<(TaskId, WorkerId)> },
}

/// A unit of work.
#[derive(Debug)]
pub struct Task {
    pub task_id: TaskId,
    pub task_type: TaskType,
    pub worker_id: Option<WorkerId>,
    pub task_context: TaskContext,
}

/// The coordinator's answer to a worker that asks for work.
#[derive(Debug)]
pub enum TaskResult {
    Ready(Task),
    Pending,
    Completed,
}

/// Mathematical model of a [`TaskResult`].
pub enum TaskResultView {
    Ready(TaskView),
    Pending,
    Completed,
}

impl View for TaskResult {
    type V = TaskResultView;

    open spec fn view(&self) -> TaskResultView {
        match self {
            TaskResult::Ready(t) => TaskResultView::Ready(t@),
            TaskResult::Pending => TaskResultView::Pending,
            TaskResult::Completed => TaskResultView::Completed,
        }
    }
}

/// Mathematical model of a [`TaskContext`].
pub enum TaskContextView {
    MapTask { wasm_bytes: Option<Seq<u8>>, input_filepath: Seq<char>, num_reduce: u32 },
    ReduceTask { wasm_bytes: Option<Seq<u8>>, reduce_idx: u32, mapper_ids: Seq<(TaskId, WorkerId)> },
}

/// Mathematical model of a [`Task`].
pub struct TaskView {
    pub task_id: TaskId,
    pub task_type: TaskType,
    pub worker_id: Option<WorkerId>,
    pub task_context: TaskContextView,
}

pub open spec fn opt_bytes_view(b: Option<Vec<u8>>) -> Option<Seq<u8>> {
    match b {
        Some(v) => Some(v@),
        None => None,
    }
}

impl View for TaskContext {
    type V = TaskContextView;

    open spec fn view(&self) -> TaskContextView {
        match self {
            TaskContext::MapTask { wasm_bytes, input_filepath, num_reduce } => TaskContextView::MapTask {
                wasm_bytes: opt_bytes_view(*wasm_bytes),
                input_filepath: input_filepath@,
                num_reduce: *num_reduce,
            },
            TaskContext::ReduceTask { wasm_bytes, reduce_idx, mapper_ids } => TaskContextView::ReduceTask {
                wasm_bytes: opt_bytes_view(*wasm_bytes),
                reduce_idx: *reduce_idx,
                mapper_ids: mapper_ids@,
            },
        }
    }
}

impl View for Task {
    type V = TaskView;

    open spec fn view(&self) -> TaskView {
        TaskView {
            task_id: self.task_id,
            task_type: self.task_type,
            worker_id: self.worker_id,
            task_context: self.task_context@,
        }
    }
}

impl TaskContextView {
    /// The wasm binary carried by the context, if any.
    pub open spec fn wasm(self) -> Option<Seq<u8>> {
        match self {
            TaskContextView::MapTask { wasm_bytes, .. } => wasm_bytes,
            TaskContextView::ReduceTask { wasm_bytes, .. } => wasm_bytes,
        }
    }

    /// The same context carrying `w` as its wasm binary.
    pub open spec fn with_wasm(self, w: Option<Seq<u8>>) -> TaskContextView {
        match self {
            TaskContextView::MapTask { input_filepath, num_reduce, .. } =>
                TaskContextView::MapTask { wasm_bytes: w, input_filepath, num_reduce },
            TaskContextView::ReduceTask { reduce_idx, mapper_ids, .. } =>
                TaskContextView::ReduceTask { wasm_bytes: w, reduce_idx, mapper_ids },
        }
    }
}

impl TaskView {
    /// The same task, assigned to `w` (or to nobody).
    pub open spec fn with_worker(self, w: Option<WorkerId>) -> TaskView {
        TaskView { worker_id: w, ..self }
    }

    /// The same task with another context.
    pub open spec fn with_context(self, c: TaskContextView) -> TaskView {
        TaskView { task_context: c, ..self }
    }
}

/// Copies a byte vector element by element.
pub(crate) fn copy_bytes(v: &Vec<u8>) -> (r: Vec<u8>)
    ensures
        r@ == v@,
{
    let mut r: Vec<u8> = Vec::with_capacity(v.len());
    for i in 0..v.len()
        invariant
            r@ == v@.take(i as int),
    {
        r.push(v[i]);
    }
    assert(v@.take(v@.len() as int) == v@);
    r
}

fn copy_opt_bytes(v: &Option<Vec<u8>>) -> (r: Option<Vec<u8>>)
    ensures
        opt_bytes_view(r) == opt_bytes_view(*v),
{
    match v {
        Some(b) => Some(copy_bytes(b)),
        None => None,
    }
}

/// Copies a list of (task, worker) pairs.
fn copy_ids(v: &Vec<(TaskId, WorkerId)>) -> (r: Vec<(TaskId, WorkerId)>)
    ensures
        r@ == v@,
{
    let mut r: Vec<(TaskId, WorkerId)> = Vec::with_capacity(v.len());
    for i in 0..v.len()
        invariant
            r@ == v@.take(i as int),
    {
        let (a, b) = v[i];
        r.push((a, b));
    }
    assert(v@.take(v@.len() as int) == v@);
    r
}

impl Clone for TaskContext {
    fn clone(&self) -> (r: Self)
        ensures
            r@ == self@,
    {
        match self {
            TaskContext::MapTask { wasm_bytes, input_filepath, num_reduce } => TaskContext::MapTask {
                wasm_bytes: copy_opt_bytes(wasm_bytes),
                input_filepath: input_filepath.clone(),
                num_reduce: *num_reduce,
            },
            TaskContext::ReduceTask { wasm_bytes, reduce_idx, mapper_ids } => TaskContext::ReduceTask {
                wasm_bytes: copy_opt_bytes(wasm_bytes),
                reduce_idx: *reduce_idx,
                mapper_ids: copy_ids(mapper_ids),
            },
        }
    }
}

impl Clone for Task {
    fn clone(&self) -> (r: Self)
        ensures
            r@ == self@,
    {
        Task {
            task_id: self.task_id,
            task_type: self.task_type,
            worker_id: self.worker_id,
            task_context: self.task_context.clone(),
        }
    }
}

impl Clone for TaskResult {
    fn clone(&self) -> (r: Self)
        ensures
            r@ == self@,
    {
        match self {
            TaskResult::Ready(t) => TaskResult::Ready(t.clone()),
            TaskResult::Pending => TaskResult::Pending,
            TaskResult::Completed => TaskResult::Completed,
        }
    }
}

impl Task {
    /// A new task, not yet given to any worker.
    pub fn new(task_id: TaskId, task_type: TaskType, task_context: TaskContext) -> (r: Self)
        ensures
            r@ == (TaskView { task_id, task_type, worker_id: None, task_context: task_context@ }),
    {
        Task { task_id, task_type, worker_id: None, task_context }
    }

    /// Whether the task is a map task.
    pub fn is_map(&self) -> (r: bool)
        ensures
            r == (self.task_type == TaskType::Mapping),
    {
        match self.task_type {
            TaskType::Mapping => true,
            TaskType::Reducing => false,
        }
    }

    /// Whether the task is a reduce task.
    pub fn is_reduce(&self) -> (r: bool)
        ensures
            r == (self.task_type == TaskType::Reducing),
    {
        match self.task_type {
            TaskType::Mapping => false,
            TaskType::Reducing => true,
        }
    }
}

impl TaskContext {
    /// The context of a map task over one input file; the wasm binary is
    /// attached when the task is handed out.
    pub fn new_map(input_filepath: String, num_reduce: u32) -> (r: Self)
        ensures
            r@ == (TaskContextView::MapTask { wasm_bytes: None, input_filepath: input_filepath@, num_reduce }),
    {
        TaskContext::MapTask { wasm_bytes: None, input_filepath, num_reduce }
    }

    /// The context of the reduce task with index `reduce_idx`, fed by the
    /// map tasks listed in `mapper_ids`.
    pub fn new_reduce(reduce_idx: u32, mapper_ids: Vec<(TaskId, WorkerId)>) -> (r: Self)
        ensures
            r@ == (TaskContextView::ReduceTask { wasm_bytes: None, reduce_idx, mapper_ids: mapper_ids@ }),
    {
        TaskContext::ReduceTask { wasm_bytes: None, reduce_idx, mapper_ids }
    }
}

} // verus!
