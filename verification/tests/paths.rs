use mapreduce_wasm::master::Master;
use mapreduce_wasm::paths::{intermediate_path, reduce_output_path};

#[test]
fn intermediate_file_names() {
    assert_eq!(intermediate_path(3, 12, 45), "./out/mr-3-12-45");
    assert_eq!(intermediate_path(0, 0, 0), "./out/mr-0-0-0");
    assert_eq!(
        intermediate_path(u32::MAX, u128::MAX, 10),
        format!("./out/mr-{}-{}-10", u32::MAX, u128::MAX)
    );
}

#[test]
fn reduce_output_file_names() {
    assert_eq!(reduce_output_path(120, 7), "./out/mr-120-7");
    let t: u128 = 0x4000_8000_0000_0000_0000_1234_5678_9abc;
    assert_eq!(reduce_output_path(t, 99), format!("./out/mr-{}-{}", t, 99));
}

#[test]
fn result_file_name() {
    assert_eq!(Master::result_path(1725029869), "./out/map_reduce_result_1725029869");
    assert_eq!(Master::result_path(0), "./out/map_reduce_result_0");
}

#[test]
fn output_names_never_collide() {
    let mut names = std::collections::HashSet::new();
    for r in [0u32, 1, 12] {
        for t in [1u128, 2, 21] {
            for w in [1u128, 12, 2] {
                assert!(names.insert(intermediate_path(r, t, w)));
            }
        }
    }
    for t in [1u128, 2, 21, 12] {
        for w in [1u128, 12, 2, 21] {
            assert!(names.insert(reduce_output_path(t, w)));
        }
    }
}
