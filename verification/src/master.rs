//! The master: it sets up the coordinator service and, once every task is
//! done, names the reduce outputs to gather into one result file.

use vstd::prelude::*;
use crate::coordinator::{Coordinator, CoordinatorStatus, CoordinatorView};
use crate::paths::{decimal, push_decimal, reduce_output_name, reduce_output_path};
use crate::server::CoordinatorServer;
use crate::text::string_of;
use crate::task::{TaskId, WorkerId};
use crate::history::{committed_ids, job_inv, lemma_done_commits_every_reduce_once, MapCommit};
use crate::paths::lemma_reduce_output_names_distinct;

verus! {

/// The configuration of a map-reduce job.
pub struct Master {
    file_paths: Vec<String>,
    num_reduces: u32,
    map_wasm: Vec<u8>,
    reduce_wasm: Vec<u8>,
    timeout: u64,
}

/// Mathematical model of a [`Master`].
pub struct MasterView {
    pub file_paths: Seq<Seq<char>>,
    pub num_reduces: u32,
    pub map_wasm: Seq<u8>,
    pub reduce_wasm: Seq<u8>,
    pub timeout: u64,
}

impl View for Master {
    type V = MasterView;

    closed spec fn view(&self) -> MasterView {
        MasterView {
            file_paths: self.file_paths@.map_values(|s: String| s@),
            num_reduces: self.num_reduces,
            map_wasm: self.map_wasm@,
            reduce_wasm: self.reduce_wasm@,
            timeout: self.timeout,
        }
    }
}

/// The name of the file that gathers the reduce outputs of a job that
/// ended at `secs` seconds after the Unix epoch:
/// `./out/map_reduce_result_{secs}`.
pub open spec fn result_name(secs: u64) -> Seq<char> {
    seq!['.', '/', 'o', 'u', 't', '/', 'm', 'a', 'p', '_', 'r', 'e', 'd', 'u', 'c', 'e', '_',
        'r', 'e', 's', 'u', 'l', 't', '_'] + decimal(secs as nat)
}

/// The reduce outputs committed in `c`, in commit order.
pub open spec fn committed_names(c: CoordinatorView) -> Seq<Seq<char>> {
    c.committed_reduce.map_values(|e: (TaskId, WorkerId)| reduce_output_name(e.0, e.1))
}

/// The master gathers one file per committed reduce output, in commit
/// order: the file that reduce task wrote.
pub proof fn lemma_gathers_every_committed_output(c: CoordinatorView)
    ensures
        committed_names(c).len() == c.committed_reduce.len(),
        forall|k: int| 0 <= k < c.committed_reduce.len() ==>
            #[trigger] committed_names(c)[k] == reduce_output_name(c.committed_reduce[k].0, c.committed_reduce[k].1),
{
}

/// Once a job with `n` reduce tasks is done, the master gathers exactly `n`
/// files, one per reduce task, each named by a different task id.
pub proof fn lemma_gathers_every_reduce_task(c: CoordinatorView, m: nat, n: u32, log: Seq<MapCommit>)
    requires
        job_inv(c, m, n, log),
        c.status == CoordinatorStatus::Done,
    ensures
        committed_names(c).len() == n,
        forall|a: int, b: int| 0 <= a < b < committed_names(c).len() ==>
            committed_names(c)[a] != committed_names(c)[b],
{
    lemma_done_commits_every_reduce_once(c, m, n, log);
    lemma_gathers_every_committed_output(c);
    assert forall|a: int, b: int| 0 <= a < b < committed_names(c).len() implies
        committed_names(c)[a] != committed_names(c)[b] by {
        let (ta, wa) = c.committed_reduce[a];
        let (tb, wb) = c.committed_reduce[b];
        assert(committed_ids(c)[a] == ta && committed_ids(c)[b] == tb);
        if reduce_output_name(ta, wa) == reduce_output_name(tb, wb) {
            lemma_reduce_output_names_distinct(ta, wa, tb, wb);
        }
    }
}

impl Master {
    /// A job over the input files `file_paths` with `num_reduces` reduce
    /// tasks, the two wasm binaries, and `timeout` seconds per task.
    pub fn new(file_paths: Vec<String>, num_reduces: u32, map_wasm: Vec<u8>, reduce_wasm: Vec<u8>, timeout: u64) -> (m: Self)
        ensures
            m@ == (MasterView {
                file_paths: file_paths@.map_values(|s: String| s@),
                num_reduces,
                map_wasm: map_wasm@,
                reduce_wasm: reduce_wasm@,
                timeout,
            }),
    {
        Master { file_paths, num_reduces, map_wasm, reduce_wasm, timeout }
    }

    /// The coordinator service of the job: a new coordinator (see
    /// [`Coordinator::new`]) for the job's files and reduce tasks, with the
    /// job's binaries and timeout.
    pub fn start(&self) -> (s: CoordinatorServer)
        ensures
            s@.coordinator.wf(),
            s@.coordinator.is_initial(self@.file_paths, self@.num_reduces),
            forall|i: int, j: int| 0 <= i < j < s@.coordinator.map_tasks.len() + s@.coordinator.reduce_tasks.len() ==>
                (s@.coordinator.map_tasks + s@.coordinator.reduce_tasks)[i].task_id
                    != (s@.coordinator.map_tasks + s@.coordinator.reduce_tasks)[j].task_id,
            s@.map_wasm == self@.map_wasm,
            s@.reduce_wasm == self@.reduce_wasm,
            s@.num_reduces == self@.num_reduces,
            s@.num_maps == self@.file_paths.len() as u32,
            s@.timeout == self@.timeout,
    {
        let mut files: Vec<String> = Vec::new();
        for i in 0..self.file_paths.len()
            invariant
                files@.map_values(|s: String| s@) == self@.file_paths.take(i as int),
                self@.file_paths == self.file_paths@.map_values(|s: String| s@),
        {
            let ghost before = files@;
            let f = self.file_paths[i].clone();
            assert(f@ == self@.file_paths[i as int]);
            files.push(f);
            assert(files@.map_values(|s: String| s@) =~= before.map_values(|s: String| s@).push(f@));
            assert(self@.file_paths.take(i + 1) =~= self@.file_paths.take(i as int).push(self@.file_paths[i as int]));
        }
        assert(self@.file_paths.take(self@.file_paths.len() as int) =~= self@.file_paths);
        let coordinator = Coordinator::new(files, self.num_reduces);
        CoordinatorServer::new(
            coordinator,
            self.num_reduces,
            crate::task::copy_bytes(&self.map_wasm),
            crate::task::copy_bytes(&self.reduce_wasm),
            self.timeout,
        )
    }

    /// What the master gathers once the job is over: `None` while it is not,
    /// then the reduce outputs committed, in commit order.
    pub fn finished_outputs(c: &Coordinator) -> (r: Option<Vec<String>>)
        requires
            c@.wf(),
        ensures
            match r {
                None => c@.status != CoordinatorStatus::Done,
                Some(v) => c@.status == CoordinatorStatus::Done
                    && v@.map_values(|s: String| s@) == committed_names(c@)
                    && v@.len() == c@.committed_reduce.len()
                    && forall|k: int| 0 <= k < v@.len() ==>
                        (#[trigger] v@[k])@ == reduce_output_name(c@.committed_reduce[k].0, c@.committed_reduce[k].1),
            },
    {
        if !c.is_done() {
            return None;
        }
        let committed = c.committed_reduce();
        let mut out: Vec<String> = Vec::new();
        for i in 0..committed.len()
            invariant
                committed@ == c@.committed_reduce,
                out@.map_values(|s: String| s@) == committed_names(c@).take(i as int),
        {
            let (t, w) = committed[i];
            let ghost before = out@;
            let p = reduce_output_path(t, w);
            out.push(p);
            assert(out@.map_values(|s: String| s@) =~= before.map_values(|s: String| s@).push(p@));
            assert(committed_names(c@).take(i + 1) =~= committed_names(c@).take(i as int).push(reduce_output_name(t, w)));
        }
        assert(committed_names(c@).take(committed@.len() as int) =~= committed_names(c@));
        proof {
            lemma_gathers_every_committed_output(c@);
            assert forall|k: int| 0 <= k < out@.len() implies
                (#[trigger] out@[k])@ == reduce_output_name(c@.committed_reduce[k].0, c@.committed_reduce[k].1) by {
                assert(out@.map_values(|s: String| s@)[k] == out@[k]@);
            }
        }
        Some(out)
    }

    /// The name of the result file of a job that ended at `secs` (see
    /// [`result_name`]).
    pub fn result_path(secs: u64) -> (p: String)
        ensures
            p@ == result_name(secs),
    {
        let mut out: Vec<char> = Vec::new();
        out.push('.'); out.push('/'); out.push('o'); out.push('u'); out.push('t'); out.push('/');
        out.push('m'); out.push('a'); out.push('p'); out.push('_');
        out.push('r'); out.push('e'); out.push('d'); out.push('u'); out.push('c'); out.push('e'); out.push('_');
        out.push('r'); out.push('e'); out.push('s'); out.push('u'); out.push('l'); out.push('t'); out.push('_');
        push_decimal(&mut out, secs as u128);
        assert(out@ =~= result_name(secs));
        string_of(&out)
    }
}

} // verus!
