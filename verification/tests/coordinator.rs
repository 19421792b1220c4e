use mapreduce_wasm::coordinator::{Coordinator, CoordinatorStatus};
use mapreduce_wasm::server::{CoordinatorRPC, CoordinatorServer};
use mapreduce_wasm::task::{Task, TaskContext, TaskResult, TaskType};

fn ready(r: TaskResult) -> Task {
    match r {
        TaskResult::Ready(t) => t,
        other => panic!("expected a task, got {:?}", other),
    }
}

fn files(n: usize) -> Vec<String> {
    (0..n).map(|i| format!("./data/f{}.txt", i)).collect()
}

#[test]
fn new_coordinator_starts_in_map_phase() {
    let c = Coordinator::new(files(3), 2);
    assert_eq!(c.status(), CoordinatorStatus::Mapping);
    assert_eq!(c.num_map_tasks(), 3);
    assert!(!c.is_done());
    assert!(c.committed_reduce().is_empty());
}

#[test]
fn map_tasks_are_handed_out_in_order_to_the_asking_worker() {
    let mut c = Coordinator::new(files(2), 1);
    let t0 = ready(c.assign_task(11));
    let t1 = ready(c.assign_task(12));
    assert_eq!(t0.task_type, TaskType::Mapping);
    assert_eq!(t0.worker_id, Some(11));
    assert_eq!(t1.worker_id, Some(12));
    match (&t0.task_context, &t1.task_context) {
        (
            TaskContext::MapTask { input_filepath: p0, num_reduce: n0, wasm_bytes: w0 },
            TaskContext::MapTask { input_filepath: p1, .. },
        ) => {
            assert_eq!(p0, "./data/f0.txt");
            assert_eq!(p1, "./data/f1.txt");
            assert_eq!(*n0, 1);
            assert!(w0.is_none());
        }
        _ => panic!("expected map contexts"),
    }
    // Both map tasks are running: nothing to hand out yet.
    assert!(matches!(c.assign_task(13), TaskResult::Pending));
    assert_eq!(c.status(), CoordinatorStatus::Mapping);
}

#[test]
fn commit_by_another_worker_is_refused() {
    let mut c = Coordinator::new(files(1), 1);
    let t = ready(c.assign_task(1));
    assert!(!c.commit_task(2, t.task_id, Some(vec![0])));
    assert!(!c.commit_task(1, t.task_id.wrapping_add(1), Some(vec![0])));
    // Still running: no reduce task yet.
    assert!(matches!(c.assign_task(3), TaskResult::Pending));
    assert!(c.commit_task(1, t.task_id, Some(vec![0])));
    // A second commit of the same task is refused.
    assert!(!c.commit_task(1, t.task_id, Some(vec![0])));
}

#[test]
fn full_job_runs_through_every_phase() {
    let mut c = Coordinator::new(files(2), 2);
    let m0 = ready(c.assign_task(1));
    let m1 = ready(c.assign_task(2));
    assert!(c.commit_task(1, m0.task_id, Some(vec![1])));
    assert!(c.commit_task(2, m1.task_id, Some(vec![0, 1, 7])));
    // The map phase is over: the next request moves to the reduce phase.
    let r0 = ready(c.assign_task(3));
    assert_eq!(c.status(), CoordinatorStatus::Reducing);
    assert_eq!(r0.task_type, TaskType::Reducing);
    match &r0.task_context {
        TaskContext::ReduceTask { reduce_idx, mapper_ids, .. } => {
            assert_eq!(*reduce_idx, 0);
            assert_eq!(mapper_ids, &vec![(m1.task_id, 2)]);
        }
        _ => panic!("expected a reduce context"),
    }
    let r1 = ready(c.assign_task(4));
    match &r1.task_context {
        TaskContext::ReduceTask { reduce_idx, mapper_ids, .. } => {
            assert_eq!(*reduce_idx, 1);
            assert_eq!(mapper_ids, &vec![(m0.task_id, 1), (m1.task_id, 2)]);
        }
        _ => panic!("expected a reduce context"),
    }
    assert!(matches!(c.assign_task(5), TaskResult::Pending));
    assert!(c.commit_task(4, r1.task_id, None));
    assert!(c.commit_task(3, r0.task_id, None));
    assert_eq!(c.committed_reduce(), vec![(r1.task_id, 4), (r0.task_id, 3)]);
    assert!(matches!(c.assign_task(5), TaskResult::Completed));
    assert!(c.is_done());
    // Done is final.
    assert!(matches!(c.assign_task(6), TaskResult::Completed));
    assert!(!c.commit_task(3, r0.task_id, None));
}

#[test]
fn empty_job_completes_after_two_requests() {
    let mut c = Coordinator::new(Vec::new(), 0);
    assert!(matches!(c.assign_task(1), TaskResult::Pending));
    assert_eq!(c.status(), CoordinatorStatus::Reducing);
    assert!(matches!(c.assign_task(1), TaskResult::Completed));
    assert_eq!(c.status(), CoordinatorStatus::Done);
}

#[test]
fn timed_out_task_goes_back_and_late_commit_is_refused() {
    let mut c = Coordinator::new(files(2), 1);
    let t0 = ready(c.assign_task(1));
    c.track_task(t0.task_id);
    // The next free task is the second file, then the timed out one.
    let t1 = ready(c.assign_task(2));
    assert_ne!(t1.task_id, t0.task_id);
    let again = ready(c.assign_task(3));
    assert_eq!(again.task_id, t0.task_id);
    assert_eq!(again.worker_id, Some(3));
    assert!(!c.commit_task(1, t0.task_id, Some(vec![0])));
    assert!(c.commit_task(3, t0.task_id, Some(vec![0])));
    // Timing out a finished task changes nothing.
    c.track_task(t0.task_id);
    assert!(matches!(c.assign_task(4), TaskResult::Pending));
}

#[test]
fn server_attaches_the_binary_of_the_task_kind() {
    let c = Coordinator::new(files(1), 1);
    let mut s = CoordinatorServer::new(c, 1, vec![1, 2, 3], vec![9], 60);
    assert_eq!(s.get_info(), (1, 1));
    assert_eq!(s.timeout(), 60);
    let m = ready(s.apply_task(5));
    match &m.task_context {
        TaskContext::MapTask { wasm_bytes, .. } => assert_eq!(wasm_bytes, &Some(vec![1, 2, 3])),
        _ => panic!("expected a map context"),
    }
    assert!(s.commit_task(5, m.task_id, Some(vec![0])));
    let r = ready(s.apply_task(6));
    match &r.task_context {
        TaskContext::ReduceTask { wasm_bytes, mapper_ids, .. } => {
            assert_eq!(wasm_bytes, &Some(vec![9]));
            assert_eq!(mapper_ids, &vec![(m.task_id, 5)]);
        }
        _ => panic!("expected a reduce context"),
    }
    s.track_task(r.task_id);
    let again = ready(s.apply_task(7));
    assert_eq!(again.task_id, r.task_id);
    assert!(s.commit_task(7, r.task_id, None));
    assert!(matches!(s.apply_task(8), TaskResult::Completed));
    assert!(s.coordinator().is_done());
}

#[test]
fn running_task_survives_other_events() {
    let mut c = Coordinator::new(files(3), 2);
    let t0 = ready(c.assign_task(1));
    let t1 = ready(c.assign_task(2));
    // Other workers' commits of t0 are refused; other tasks come and go.
    assert!(!c.commit_task(2, t0.task_id, Some(vec![0])));
    c.track_task(t1.task_id);
    let t2 = ready(c.assign_task(3));
    assert_ne!(t2.task_id, t0.task_id);
    // t0 is still running for worker 1.
    assert!(c.commit_task(1, t0.task_id, Some(vec![0, 1])));
}

#[test]
fn every_reduce_task_is_committed_once() {
    let mut c = Coordinator::new(files(1), 3);
    let m = ready(c.assign_task(1));
    assert!(c.commit_task(1, m.task_id, Some(vec![2])));
    let mut ids = Vec::new();
    loop {
        match c.assign_task(9) {
            TaskResult::Ready(t) => {
                ids.push(t.task_id);
                assert!(c.commit_task(9, t.task_id, None));
            }
            TaskResult::Pending => panic!("nothing should be running"),
            TaskResult::Completed => break,
        }
    }
    let committed = c.committed_reduce();
    assert_eq!(committed.len(), 3);
    assert_eq!(committed.iter().map(|(t, _)| *t).collect::<Vec<_>>(), ids);
    let mut dedup = ids.clone();
    dedup.sort();
    dedup.dedup();
    assert_eq!(dedup.len(), 3);
}
