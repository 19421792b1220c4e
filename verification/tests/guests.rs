use mapreduce_wasm::map_wc::{self, Guest as _};
use mapreduce_wasm::reduce_wc::{self, Guest as _};

#[test]
fn word_count_map_emits_its_input() {
    let r = <map_wc::Component as map_wc::Guest>::map("file".to_string(), "some text".to_string());
    assert_eq!(r, vec![("file".to_string(), "some text".to_string())]);
}

#[test]
fn word_count_reduce_keeps_the_first_value() {
    let r = <reduce_wc::Component as reduce_wc::Guest>::reduce(
        "k".to_string(),
        vec!["first".to_string(), "second".to_string()],
    );
    assert_eq!(r, ("k".to_string(), "first".to_string()));
}
