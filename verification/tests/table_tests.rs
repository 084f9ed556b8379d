use vanity::table::load_prefixes;

fn lines(v: &[&str]) -> Vec<Vec<u8>> {
    let mut out: Vec<Vec<u8>> = Vec::new();
    for s in v {
        out.push(s.as_bytes().to_vec());
    }
    out
}

#[test]
fn loads_distinct_words() {
    let input = lines(&["dead", "beef", "dead", "", "cafe", ""]);
    let table = load_prefixes(&input).unwrap();
    assert_eq!(table.len(), 3);
    assert!(table.contains(&b"dead".to_vec()));
    assert!(table.contains(&b"beef".to_vec()));
    assert!(table.contains(&b"cafe".to_vec()));
    assert!(!table.contains(&b"aaaa".to_vec()));
}

#[test]
fn empty_input_gives_empty_table() {
    let input = lines(&[]);
    let table = load_prefixes(&input).unwrap();
    assert_eq!(table.len(), 0);
}

#[test]
fn blank_lines_alone_give_empty_table() {
    let input = lines(&["", ""]);
    let table = load_prefixes(&input).unwrap();
    assert_eq!(table.len(), 0);
}

#[test]
fn rejects_long_line() {
    let input = lines(&["dead", "toolong", "beef"]);
    let e = load_prefixes(&input).unwrap_err();
    assert_eq!(e.line_index, 1);
    assert_eq!(e.line_len, 7);
}

#[test]
fn rejects_short_line() {
    let input = lines(&["abc"]);
    let e = load_prefixes(&input).unwrap_err();
    assert_eq!(e.line_index, 0);
    assert_eq!(e.line_len, 3);
}
