use mapreduce_wasm::task::{Task, TaskContext, TaskResult, TaskType};

#[test]
fn new_task_has_no_worker() {
    let t = Task::new(42, TaskType::Mapping, TaskContext::new_map("in.txt".to_string(), 3));
    assert_eq!(t.task_id, 42);
    assert_eq!(t.worker_id, None);
    assert!(t.is_map());
    assert!(!t.is_reduce());
    match t.task_context {
        TaskContext::MapTask { wasm_bytes, input_filepath, num_reduce } => {
            assert!(wasm_bytes.is_none());
            assert_eq!(input_filepath, "in.txt");
            assert_eq!(num_reduce, 3);
        }
        _ => panic!("expected a map context"),
    }
}

#[test]
fn reduce_task_context() {
    let t = Task::new(7, TaskType::Reducing, TaskContext::new_reduce(2, vec![(1, 2), (3, 4)]));
    assert!(t.is_reduce());
    assert!(!t.is_map());
    match t.task_context {
        TaskContext::ReduceTask { wasm_bytes, reduce_idx, mapper_ids } => {
            assert!(wasm_bytes.is_none());
            assert_eq!(reduce_idx, 2);
            assert_eq!(mapper_ids, vec![(1, 2), (3, 4)]);
        }
        _ => panic!("expected a reduce context"),
    }
}

#[test]
fn clone_keeps_every_field() {
    let mut t = Task::new(9, TaskType::Reducing, TaskContext::new_reduce(1, vec![(5, 6)]));
    t.worker_id = Some(3);
    if let TaskContext::ReduceTask { wasm_bytes, .. } = &mut t.task_context {
        *wasm_bytes = Some(vec![0, 1, 2]);
    }
    let c = t.clone();
    assert_eq!(c.task_id, 9);
    assert_eq!(c.worker_id, Some(3));
    assert_eq!(c.task_type, TaskType::Reducing);
    match c.task_context {
        TaskContext::ReduceTask { wasm_bytes, reduce_idx, mapper_ids } => {
            assert_eq!(wasm_bytes, Some(vec![0, 1, 2]));
            assert_eq!(reduce_idx, 1);
            assert_eq!(mapper_ids, vec![(5, 6)]);
        }
        _ => panic!("expected a reduce context"),
    }
}

#[test]
fn task_result_clone_keeps_the_task() {

    let r = TaskResult::Ready(Task::new(5, TaskType::Mapping, TaskContext::new_map("m".to_string(), 2)));
    match r.clone() {
        TaskResult::Ready(t) => {
            assert_eq!(t.task_id, 5);
            assert!(t.is_map());
        }
        other => panic!("unexpected {:?}", other),
    }
    assert!(matches!(TaskResult::Pending.clone(), TaskResult::Pending));
    assert!(matches!(TaskResult::Completed.clone(), TaskResult::Completed));
}
