use pam_match::parse::{
    find_column, parse_query_line, parse_query_lines, parse_reference_line, parse_reference_lines,
    parse_weight, split_fields, REFERENCE_LENGTH,
};

#[test]
fn split_fields_at_tabs() {
    assert_eq!(split_fields("a\tbc\t\td"), vec!["a", "bc", "", "d"]);
    assert_eq!(split_fields(""), vec![""]);
    assert_eq!(split_fields("abc"), vec!["abc"]);
    assert_eq!(split_fields("\t"), vec!["", ""]);
}

#[test]
fn parse_weight_values() {
    assert_eq!(parse_weight("12"), 12);
    assert_eq!(parse_weight("+7"), 7);
    assert_eq!(parse_weight("4294967295"), 4294967295);
    assert_eq!(parse_weight("4294967296"), 0);
    assert_eq!(parse_weight("-1"), 0);
    assert_eq!(parse_weight("x1"), 0);
    assert_eq!(parse_weight(""), 0);
}

#[test]
fn reference_line_with_count() {
    assert_eq!(REFERENCE_LENGTH, 20);
    let e = parse_reference_line("ACGTACGTACGTACGTACGT\tNGG\t42").unwrap();
    assert_eq!(e.sequence, "ACGTACGTACGTACGTACGT");
    assert_eq!(e.weight, 42);
}

#[test]
fn reference_line_with_bad_count_has_weight_zero() {
    let e = parse_reference_line("ACGTACGTACGTACGTACGT\tNGG\tmany\textra").unwrap();
    assert_eq!(e.weight, 0);
}

#[test]
fn reference_line_rejected() {
    assert!(parse_reference_line("ACGTACGTACGTACGTACG\tNGG\t4").is_none());
    assert!(parse_reference_line("ACGTACGTACGTACGTACGT\tNGG").is_none());
    assert!(parse_reference_line("").is_none());
}

#[test]
fn reference_lines_keep_order() {
    let lines = vec![
        "AAAAAAAAAAAAAAAAAAAA\tx\t1".to_string(),
        "short\tx\t2".to_string(),
        "CCCCCCCCCCCCCCCCCCCC\tx\t3".to_string(),
    ];
    let entries = parse_reference_lines(&lines);
    assert_eq!(entries.len(), 2);
    assert_eq!(entries[0].sequence, "AAAAAAAAAAAAAAAAAAAA");
    assert_eq!(entries[0].weight, 1);
    assert_eq!(entries[1].sequence, "CCCCCCCCCCCCCCCCCCCC");
    assert_eq!(entries[1].weight, 3);
}

#[test]
fn find_column_first_match() {
    assert_eq!(find_column("chr\tUpstream20bp\tpos\tUpstream20bp", "Upstream20bp"), Some(1));
    assert_eq!(find_column("chr\tpos", "Upstream20bp"), None);
}

#[test]
fn query_line_takes_column() {
    let q = parse_query_line("chr1\tACGT\t7", 1).unwrap();
    assert_eq!(q.source_line, "chr1\tACGT\t7");
    assert_eq!(q.sequence, "ACGT");
    assert!(parse_query_line("chr1\tACGT", 2).is_none());
}

#[test]
fn query_lines_after_header() {
    let lines = vec![
        "chr\tUpstream20bp".to_string(),
        "c1\tAAAA".to_string(),
        "c2".to_string(),
        "c3\tCCCC\tmore".to_string(),
    ];
    let records = parse_query_lines(&lines, "Upstream20bp").unwrap();
    assert_eq!(records.len(), 2);
    assert_eq!(records[0].source_line, "c1\tAAAA");
    assert_eq!(records[0].sequence, "AAAA");
    assert_eq!(records[1].source_line, "c3\tCCCC\tmore");
    assert_eq!(records[1].sequence, "CCCC");
}

#[test]
fn query_lines_without_column() {
    let lines = vec!["chr\tpos".to_string(), "c1\tAAAA".to_string()];
    assert!(parse_query_lines(&lines, "Upstream20bp").is_none());
}

#[test]
fn query_lines_of_empty_file() {
    let none: Vec<String> = Vec::new();
    let records = parse_query_lines(&none, "Upstream20bp").unwrap();
    assert!(records.is_empty());
}

#[test]
fn reference_length_counts_bytes() {
    // Ten two-byte characters: twenty bytes.
    let e = parse_reference_line("\u{e9}\u{e9}\u{e9}\u{e9}\u{e9}\u{e9}\u{e9}\u{e9}\u{e9}\u{e9}\tx\t5").unwrap();
    assert_eq!(e.sequence.len(), 20);
    assert_eq!(e.weight, 5);
    // Twenty characters, twenty-one bytes.
    assert!(parse_reference_line("AAAAAAAAAAAAAAAAAAA\u{e9}\tx\t5").is_none());
}

#[test]
fn reference_lines_without_a_kept_line() {
    let lines = vec!["seq\tpam\tcount".to_string(), "".to_string()];
    assert!(parse_reference_lines(&lines).is_empty());
    let none: Vec<String> = Vec::new();
    assert!(parse_reference_lines(&none).is_empty());
}
