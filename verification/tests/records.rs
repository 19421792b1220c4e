use mapreduce_wasm::records::{format_records, parse_records};

fn pairs(v: &[(&str, &str)]) -> Vec<(String, String)> {
    v.iter().map(|(k, v)| (k.to_string(), v.to_string())).collect()
}

#[test]
fn format_writes_one_line_per_record() {
    let s = format_records(&pairs(&[("a", "1"), ("b", "two words")]));
    assert_eq!(s, "a 1\nb two words\n");
    assert_eq!(format_records(&Vec::new()), "");
}

#[test]
fn parse_splits_at_the_first_space() {
    assert_eq!(parse_records("a 1\nb two words\n"), pairs(&[("a", "1"), ("b", "two words")]));
    assert_eq!(parse_records("k  v"), pairs(&[("k", " v")]));
    assert_eq!(parse_records("k "), pairs(&[("k", "")]));
}

#[test]
fn parse_skips_lines_without_space() {
    assert_eq!(parse_records("nospace\na b\n\n"), pairs(&[("a", "b")]));
    assert_eq!(parse_records(""), Vec::<(String, String)>::new());
    assert_eq!(parse_records("\n\n"), Vec::<(String, String)>::new());
}

#[test]
fn parse_follows_str_lines() {
    // A carriage return is dropped only before a line feed.
    assert_eq!(parse_records("a b\r\nc d\r"), pairs(&[("a", "b"), ("c", "d\r")]));
    let text = "x 1\r\ny 2\n z\nlast one";
    let expected: Vec<(String, String)> = text
        .lines()
        .filter_map(|l| l.split_once(' '))
        .map(|(k, v)| (k.to_string(), v.to_string()))
        .collect();
    assert_eq!(parse_records(text), expected);
}

#[test]
fn records_round_trip() {
    let rs = pairs(&[("word", "1"), ("other", "many words here"), ("e", "")]);
    assert_eq!(parse_records(&format_records(&rs)), rs);
}

#[test]
fn unicode_records_round_trip() {
    let rs = pairs(&[("héllo", "wörld ✓"), ("日本", "語")]);
    assert_eq!(parse_records(&format_records(&rs)), rs);
}
