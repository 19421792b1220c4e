use mapreduce_wasm::records::parse_records;
use mapreduce_wasm::shuffle::shuffle;
use mapreduce_wasm::task::{Task, TaskContext, TaskResult, TaskType};
use mapreduce_wasm::worker::{TaskPlan, Worker, WorkerError, WorkerStep};
use std::collections::hash_map::DefaultHasher;
use std::hash::{Hash, Hasher};

fn std_hash(s: &String) -> u64 {
    let mut h = DefaultHasher::new();
    s.hash(&mut h);
    h.finish()
}

#[test]
fn new_workers_get_version_4_ids() {
    let a = Worker::new();
    let b = Worker::new();
    assert_ne!(a.worker_id(), b.worker_id());
    assert_eq!(a.worker_id() & 0xF000_C000_0000_0000_0000, 0x4000_8000_0000_0000_0000);
}

#[test]
fn plan_of_a_map_task() {
    let w = Worker::with_id(5);
    let mut t = Task::new(1, TaskType::Mapping, TaskContext::new_map("f.txt".to_string(), 4));
    if let TaskContext::MapTask { wasm_bytes, .. } = &mut t.task_context {
        *wasm_bytes = Some(vec![7, 7]);
    }
    match w.plan(t) {
        Ok(TaskPlan::MapWork { task_id, wasm, input_filepath, num_reduce }) => {
            assert_eq!(task_id, 1);
            assert_eq!(wasm, vec![7, 7]);
            assert_eq!(input_filepath, "f.txt");
            assert_eq!(num_reduce, 4);
        }
        other => panic!("unexpected plan {:?}", other),
    }
}

#[test]
fn plan_of_a_reduce_task_reads_each_map_output() {
    let w = Worker::with_id(5);
    let t = Task::new(2, TaskType::Reducing, TaskContext::new_reduce(3, vec![(10, 20), (11, 21)]));
    match w.plan(t) {
        Ok(TaskPlan::ReduceWork { task_id, wasm, reduce_idx, input_paths }) => {
            assert_eq!(task_id, 2);
            assert!(wasm.is_empty());
            assert_eq!(reduce_idx, 3);
            assert_eq!(input_paths, vec!["./out/mr-3-10-20".to_string(), "./out/mr-3-11-21".to_string()]);
        }
        other => panic!("unexpected plan {:?}", other),
    }
}

#[test]
fn mismatched_task_is_refused() {
    let w = Worker::with_id(1);
    let t = Task::new(1, TaskType::Mapping, TaskContext::new_reduce(0, Vec::new()));
    assert!(matches!(w.plan(t), Err(WorkerError::WrongTask)));
    let t = Task::new(1, TaskType::Reducing, TaskContext::new_map("x".to_string(), 1));
    assert!(matches!(w.plan(t), Err(WorkerError::WrongTask)));
}

#[test]
fn map_outputs_name_and_fill_every_reduce_file() {
    let w = Worker::with_id(8);
    let result = vec![("k1".to_string(), "v1".to_string()), ("k2".to_string(), "v2".to_string())];
    let out = w.map_outputs(77, 2, &result);
    assert_eq!(out.files.len(), 2);
    assert_eq!(out.files[0].0, "./out/mr-0-77-8");
    assert_eq!(out.files[1].0, "./out/mr-1-77-8");
    let mut expected = vec![String::new(), String::new()];
    let mut used: Vec<u32> = Vec::new();
    for (k, v) in &result {
        let i = (std_hash(k) % 2) as u32;
        expected[i as usize].push_str(&format!("{} {}\n", k, v));
        if !used.contains(&i) {
            used.push(i);
        }
    }
    assert_eq!(out.files[0].1, expected[0]);
    assert_eq!(out.files[1].1, expected[1]);
    assert_eq!(out.used, used);
}

#[test]
fn reduce_output_names_the_task_file() {
    let w = Worker::with_id(3);
    let (path, text) = w.reduce_output(9, &vec![("a".to_string(), "1".to_string())]);
    assert_eq!(path, "./out/mr-9-3");
    assert_eq!(text, "a 1\n");
}

#[test]
fn next_step_follows_the_answer() {
    let t = Task::new(4, TaskType::Mapping, TaskContext::new_map("p".to_string(), 1));
    match Worker::next_step(TaskResult::Ready(t)) {
        WorkerStep::Run(u) => assert_eq!(u.task_id, 4),
        other => panic!("unexpected step {:?}", other),
    }
    assert!(matches!(Worker::next_step(TaskResult::Pending), WorkerStep::Wait));
    assert!(matches!(Worker::next_step(TaskResult::Completed), WorkerStep::Stop));
}

#[test]
fn reduce_reads_what_maps_wrote() {
    let m1 = Worker::with_id(1);
    let m2 = Worker::with_id(2);
    let out1 = m1.map_outputs(10, 3, &vec![("x".to_string(), "1".to_string()), ("y".to_string(), "2".to_string())]);
    let out2 = m2.map_outputs(20, 3, &vec![("x".to_string(), "3".to_string()), ("z".to_string(), "4".to_string())]);
    let mut all_keys: Vec<String> = Vec::new();
    for i in 0..3usize {
        let texts = vec![out1.files[i].1.clone(), out2.files[i].1.clone()];
        let mut expected: Vec<(String, String)> = parse_records(&texts[0]);
        expected.extend(parse_records(&texts[1]));
        let groups = shuffle(&texts);
        let flat: usize = groups.iter().map(|(_, vs)| vs.len()).sum();
        assert_eq!(flat, expected.len());
        for (k, vs) in &groups {
            let want: Vec<String> = expected.iter().filter(|(kk, _)| kk == k).map(|(_, v)| v.clone()).collect();
            assert_eq!(vs, &want);
            all_keys.push(k.clone());
        }
    }
    all_keys.sort();
    assert_eq!(all_keys, vec!["x".to_string(), "y".to_string(), "z".to_string()]);
}

#[test]
fn refused_commit_discards_the_outputs() {
    let files = vec!["./out/mr-0-1-2".to_string(), "./out/mr-1-1-2".to_string()];
    assert!(Worker::outputs_to_discard(true, files.clone()).is_empty());
    assert_eq!(Worker::outputs_to_discard(false, files.clone()), files);
}
