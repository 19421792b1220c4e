use mapreduce_wasm::hashing::ihash;
use mapreduce_wasm::records::parse_records;
use mapreduce_wasm::shuffle::{group_records, partition_records, shuffle};
use std::collections::hash_map::DefaultHasher;
use std::hash::{Hash, Hasher};

fn pairs(v: &[(&str, &str)]) -> Vec<(String, String)> {
    v.iter().map(|(k, v)| (k.to_string(), v.to_string())).collect()
}

fn std_hash(s: &String) -> u64 {
    let mut h = DefaultHasher::new();
    s.hash(&mut h);
    h.finish()
}

#[test]
fn ihash_is_the_hash_of_the_string() {
    for k in ["", "a", "word", "héllo", "a b c"] {
        assert_eq!(ihash(k), std_hash(&k.to_string()));
    }
    assert_ne!(ihash("a"), ihash("b"));
}

#[test]
fn partition_sends_each_record_to_its_hash_bucket() {
    let rs = pairs(&[("a", "1"), ("b", "2"), ("a", "3"), ("c", "4"), ("d", "5")]);
    let n = 3u32;
    let (contents, used) = partition_records(&rs, n);
    assert_eq!(contents.len(), 3);
    let mut expected = vec![String::new(), String::new(), String::new()];
    let mut expected_used: Vec<u32> = Vec::new();
    for (k, v) in &rs {
        let i = (std_hash(k) % n as u64) as u32;
        expected[i as usize].push_str(&format!("{} {}\n", k, v));
        if !expected_used.contains(&i) {
            expected_used.push(i);
        }
    }
    assert_eq!(contents, expected);
    assert_eq!(used, expected_used);
    // Everything read back from the buckets is everything written.
    let mut back: Vec<(String, String)> = contents.iter().flat_map(|c| parse_records(c)).collect();
    back.sort();
    let mut all = rs.clone();
    all.sort();
    assert_eq!(back, all);
}

#[test]
fn partition_with_one_reducer_keeps_everything() {
    let rs = pairs(&[("x", "1"), ("y", "2")]);
    let (contents, used) = partition_records(&rs, 1);
    assert_eq!(contents, vec!["x 1\ny 2\n".to_string()]);
    assert_eq!(used, vec![0]);
}

#[test]
fn partition_of_nothing() {
    let (contents, used) = partition_records(&Vec::new(), 0);
    assert!(contents.is_empty());
    assert!(used.is_empty());
    let (contents, used) = partition_records(&Vec::new(), 2);
    assert_eq!(contents, vec![String::new(), String::new()]);
    assert!(used.is_empty());
}

#[test]
fn group_keeps_first_appearance_order_and_value_order() {
    let rs = pairs(&[("b", "1"), ("a", "2"), ("b", "3"), ("c", "4"), ("a", "5")]);
    let g = group_records(&rs);
    assert_eq!(
        g,
        vec![
            ("b".to_string(), vec!["1".to_string(), "3".to_string()]),
            ("a".to_string(), vec!["2".to_string(), "5".to_string()]),
            ("c".to_string(), vec!["4".to_string()]),
        ]
    );
    assert!(group_records(&Vec::new()).is_empty());
}

#[test]
fn shuffle_reads_every_text_in_order() {
    let texts = vec!["w 1\nv 1\n".to_string(), "w 2\nbad\n".to_string(), "v 3".to_string()];
    let g = shuffle(&texts);
    assert_eq!(
        g,
        vec![
            ("w".to_string(), vec!["1".to_string(), "2".to_string()]),
            ("v".to_string(), vec!["1".to_string(), "3".to_string()]),
        ]
    );
}
