//! What a worker decides: how to run the task it is given, which files its
//! map output goes to, and where its reduce output goes.

use vstd::prelude::*;
use crate::ids::{random_id, uuid_v4_bits, uuid_version_mask};
use crate::paths::{intermediate_name, intermediate_path, reduce_output_name, reduce_output_path};
use crate::records::{encode_records, format_records, records_view};
use crate::shuffle::{bucket, partition_records, reducers_used};
use crate::task::{Task, TaskContext, TaskContextView, TaskId, TaskResult, TaskType, WorkerId};

verus! {

/// A worker, known to the coordinator by its id.
pub struct Worker {
    worker_id: WorkerId,
}

/// Why a worker cannot run a task.
#[derive(Debug, PartialEq, Eq, Structural)]
pub enum WorkerError {
    /// The task's type and its context disagree.
    WrongTask,
}

/// How a worker runs a task.
#[derive(Debug)]
pub enum TaskPlan {
    /// Run the map binary `wasm` over the file `input_filepath` and split its
    /// output among `num_reduce` reduce tasks.
    MapWork { task_id: TaskId, wasm: Vec<u8>, input_filepath: String, num_reduce: u32 },
    /// Run the reduce binary `wasm` over the map outputs in `input_paths`.
    ReduceWork { task_id: TaskId, wasm: Vec<u8>, reduce_idx: u32, input_paths: Vec<String> },
}

/// What a worker does after asking for work.
#[derive(Debug)]
pub enum WorkerStep {
    /// Run the task.
    Run(Task),
    /// No task is free yet: wait, then ask again.
    Wait,
    /// The job is complete: stop.
    Stop,
}

/// The files a map task writes, as (path, text) pairs, and the reduce tasks
/// it has output for.
#[derive(Debug)]
pub struct MapOutputs {
    pub files: Vec<(String, String)>,
    pub used: Vec<u32>,
}

/// The bytes of an optional binary, empty when there is none.
pub open spec fn bytes_or_empty(b: Option<Seq<u8>>) -> Seq<u8> {
    match b {
        Some(v) => v,
        None => Seq::empty(),
    }
}

/// The map outputs that a reduce task over `ids` with index `reduce_idx` reads.
pub open spec fn reduce_input_names(reduce_idx: u32, ids: Seq<(TaskId, WorkerId)>) -> Seq<Seq<char>> {
    ids.map_values(|e: (TaskId, WorkerId)| intermediate_name(reduce_idx, e.0, e.1))
}

/// The characters of a list of strings.
pub open spec fn names_view(v: Seq<String>) -> Seq<Seq<char>> {
    v.map_values(|s: String| s@)
}

/// A reduce task reads one file per map output it lists, in order: the
/// file that map task wrote for the reduce task's index.
pub proof fn lemma_reduce_reads_each_listed_output(reduce_idx: u32, ids: Seq<(TaskId, WorkerId)>)
    ensures
        reduce_input_names(reduce_idx, ids).len() == ids.len(),
        forall|k: int| 0 <= k < ids.len() ==>
            #[trigger] reduce_input_names(reduce_idx, ids)[k] == intermediate_name(reduce_idx, ids[k].0, ids[k].1),
{
}

impl Worker {
    /// A worker with a fresh random id (a version 4 UUID).
    pub fn new() -> (w: Self)
        ensures
            w.id() & uuid_version_mask() == uuid_v4_bits(),
    {
        Worker { worker_id: random_id() }
    }

    /// The worker with id `worker_id`.
    pub fn with_id(worker_id: WorkerId) -> (w: Self)
        ensures
            w.id() == worker_id,
    {
        Worker { worker_id }
    }

    /// The worker's id.
    pub closed spec fn id(&self) -> WorkerId {
        self.worker_id
    }

    /// The worker's id.
    pub fn worker_id(&self) -> (id: WorkerId)
        ensures
            id == self.id(),
    {
        self.worker_id
    }

    /// What to do with the coordinator's answer: run a task handed out, wait
    /// while the job is pending, stop once it is complete.
    pub fn next_step(answer: TaskResult) -> (s: WorkerStep)
        ensures
            match answer {
                TaskResult::Ready(t) => s matches WorkerStep::Run(u) && u@ == t@,
                TaskResult::Pending => s is Wait,
                TaskResult::Completed => s is Stop,
            },
    {
        match answer {
            TaskResult::Ready(t) => WorkerStep::Run(t),
            TaskResult::Pending => WorkerStep::Wait,
            TaskResult::Completed => WorkerStep::Stop,
        }
    }

    /// How to run `task`: a map task needs a map context, a reduce task a
    /// reduce context, else the task is refused. A missing binary counts as
    /// an empty one. A reduce task reads, for each map task it lists, the
    /// file that map task wrote for its index.
    pub fn plan(&self, task: Task) -> (r: Result<TaskPlan, WorkerError>)
        ensures
            match r {
                Ok(TaskPlan::MapWork { task_id, wasm, input_filepath, num_reduce }) => {
                    &&& task@.task_type == TaskType::Mapping
                    &&& task@.task_context matches TaskContextView::MapTask { wasm_bytes, input_filepath: p, num_reduce: n }
                        && wasm@ == bytes_or_empty(wasm_bytes) && input_filepath@ == p && num_reduce == n
                    &&& task_id == task@.task_id
                },
                Ok(TaskPlan::ReduceWork { task_id, wasm, reduce_idx, input_paths }) => {
                    &&& task@.task_type == TaskType::Reducing
                    &&& task@.task_context matches TaskContextView::ReduceTask { wasm_bytes, reduce_idx: i, mapper_ids }
                        && wasm@ == bytes_or_empty(wasm_bytes) && reduce_idx == i
                        && names_view(input_paths@) == reduce_input_names(i, mapper_ids)
                        && input_paths@.len() == mapper_ids.len()
                        && forall|k: int| 0 <= k < mapper_ids.len() ==>
                            (#[trigger] input_paths@[k])@ == intermediate_name(i, mapper_ids[k].0, mapper_ids[k].1)
                    &&& task_id == task@.task_id
                },
                Err(e) => {
                    &&& e == WorkerError::WrongTask
                    &&& (task@.task_type == TaskType::Mapping) == (task@.task_context is ReduceTask)
                },
            },
    {
        let is_map = task.is_map();
        let task_id = task.task_id;
        match task.task_context {
            TaskContext::MapTask { wasm_bytes, input_filepath, num_reduce } => {
                if !is_map {
                    return Err(WorkerError::WrongTask);
                }
                let wasm = match wasm_bytes {
                    Some(w) => w,
                    None => Vec::new(),
                };
                Ok(TaskPlan::MapWork { task_id, wasm, input_filepath, num_reduce })
            },
            TaskContext::ReduceTask { wasm_bytes, reduce_idx, mapper_ids } => {
                if is_map {
                    return Err(WorkerError::WrongTask);
                }
                let wasm = match wasm_bytes {
                    Some(w) => w,
                    None => Vec::new(),
                };
                let mut input_paths: Vec<String> = Vec::new();
                for i in 0..mapper_ids.len()
                    invariant
                        names_view(input_paths@) == reduce_input_names(reduce_idx, mapper_ids@.take(i as int)),
                {
                    let (t, w) = mapper_ids[i];
                    let ghost before = input_paths@;
                    let path = intermediate_path(reduce_idx, t, w);
                    input_paths.push(path);
                    proof {
                        assert(mapper_ids@.take(i + 1) =~= mapper_ids@.take(i as int).push((t, w)));
                        assert(names_view(input_paths@) =~= names_view(before).push(path@));
                        assert(reduce_input_names(reduce_idx, mapper_ids@.take(i + 1)) =~=
                            reduce_input_names(reduce_idx, mapper_ids@.take(i as int)).push(intermediate_name(reduce_idx, t, w)));
                        assert(names_view(input_paths@) =~= reduce_input_names(reduce_idx, mapper_ids@.take(i + 1)));
                    }
                }
                assert(mapper_ids@.take(mapper_ids@.len() as int) =~= mapper_ids@);
                proof {
                    lemma_reduce_reads_each_listed_output(reduce_idx, mapper_ids@);
                    assert(names_view(input_paths@).len() == input_paths@.len());
                    assert forall|k: int| 0 <= k < mapper_ids@.len() implies
                        (#[trigger] input_paths@[k])@ == intermediate_name(reduce_idx, mapper_ids@[k].0, mapper_ids@[k].1) by {
                        assert(names_view(input_paths@)[k] == input_paths@[k]@);
                    }
                }
                Ok(TaskPlan::ReduceWork { task_id, wasm, reduce_idx, input_paths })
            },
        }
    }

    /// The files that map task `task_id` writes from its output `result`.
    /// There is one file per reduce task index below `num_reduce`; it holds
    /// the text of the records whose key hashes to that index, and its path
    /// combines the index, the task id and the worker id. Also returned: the
    /// reduce task indices that get at least one record.
    pub fn map_outputs(&self, task_id: TaskId, num_reduce: u32, result: &Vec<(String, String)>) -> (out: MapOutputs)
        requires
            num_reduce > 0 || result@.len() == 0,
        ensures
            out.files@.len() == num_reduce,
            forall|i: int| 0 <= i < num_reduce ==> {
                &&& (#[trigger] out.files@[i]).0@ == intermediate_name(i as u32, task_id, self.id())
                &&& out.files@[i].1@ == encode_records(bucket(records_view(result@), num_reduce, i))
            },
            out.used@ == reducers_used(records_view(result@), num_reduce),
    {
        let (contents, used) = partition_records(result, num_reduce);
        let mut files: Vec<(String, String)> = Vec::new();
        for i in 0..contents.len()
            invariant
                contents@.len() == num_reduce,
                files@.len() == i,
                forall|k: int| 0 <= k < i ==> {
                    &&& (#[trigger] files@[k]).0@ == intermediate_name(k as u32, task_id, self.id())
                    &&& files@[k].1@ == contents@[k]@
                },
        {
            let path = intermediate_path(i as u32, task_id, self.worker_id);
            files.push((path, contents[i].clone()));
        }
        MapOutputs { files, used }
    }

    /// The output files to delete after a commit: none when the commit was
    /// accepted, all the files written for the task when it was refused.
    pub fn outputs_to_discard(accepted: bool, written: Vec<String>) -> (r: Vec<String>)
        ensures
            accepted ==> r@.len() == 0,
            !accepted ==> r@ == written@,
    {
        if accepted {
            Vec::new()
        } else {
            written
        }
    }

    /// The file that reduce task `task_id` writes: its name and the text of
    /// the reduced records `results`.
    pub fn reduce_output(&self, task_id: TaskId, results: &Vec<(String, String)>) -> (out: (String, String))
        ensures
            out.0@ == reduce_output_name(task_id, self.id()),
            out.1@ == encode_records(records_view(results@)),
    {
        (reduce_output_path(task_id, self.worker_id), format_records(results))
    }
}

} // verus!
