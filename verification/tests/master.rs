use mapreduce_wasm::master::Master;
use mapreduce_wasm::server::CoordinatorRPC;
use mapreduce_wasm::task::TaskResult;

#[test]
fn master_starts_a_server_for_its_job() {
    let m = Master::new(vec!["a".to_string(), "b".to_string()], 3, vec![1], vec![2], 30);
    let s = m.start();
    assert_eq!(s.get_info(), (2, 3));
    assert_eq!(s.timeout(), 30);
    assert_eq!(s.coordinator().num_map_tasks(), 2);
}

#[test]
fn finished_outputs_only_once_done() {
    let m = Master::new(vec!["a".to_string()], 1, vec![1], vec![2], 30);
    let mut s = m.start();
    assert_eq!(Master::finished_outputs(s.coordinator()), None);
    let t = match s.apply_task(1) {
        TaskResult::Ready(t) => t,
        other => panic!("{:?}", other),
    };
    assert!(s.commit_task(1, t.task_id, Some(vec![0])));
    let r = match s.apply_task(2) {
        TaskResult::Ready(t) => t,
        other => panic!("{:?}", other),
    };
    assert_eq!(Master::finished_outputs(s.coordinator()), None);
    assert!(s.commit_task(2, r.task_id, None));
    assert!(matches!(s.apply_task(3), TaskResult::Completed));
    assert_eq!(
        Master::finished_outputs(s.coordinator()),
        Some(vec![format!("./out/mr-{}-2", r.task_id)])
    );
}
