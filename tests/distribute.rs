use pam_match::distribute::{count_matches, partition_ranges, slice_length};
use pam_match::records::{QueryRecord, ReferenceEntry, ResultRow, Totals};

fn library() -> Vec<ReferenceEntry> {
    vec![
        ReferenceEntry::new("AAAAAAAAAAAAAAAAAAAA".to_string(), 5),
        ReferenceEntry::new("TTTTTTTTTTTTTTTTTTTT".to_string(), 3),
        ReferenceEntry::new("AAAAAAAAAAAAAAAAAAAC".to_string(), 10),
    ]
}

fn queries(n: usize) -> Vec<QueryRecord> {
    let seqs = [
        "AAAAAAAAAAAAAAAAAAAA",
        "GTTTTTTTTTTTTTTTTTTT",
        "CCCCCCCCCCCCCCCCCCCC",
        "AAAAAAAAAAAAAAAAAAAC",
    ];
    (0..n)
        .map(|i| QueryRecord::new(format!("line{}", i), seqs[i % seqs.len()].to_string()))
        .collect()
}

fn summary(rows: &[ResultRow]) -> Vec<(String, Option<Totals>)> {
    rows.iter().map(|r| (r.source_line.clone(), r.totals.ok())).collect()
}

#[test]
fn slice_length_rounds_up() {
    assert_eq!(slice_length(10, 3), 4);
    assert_eq!(slice_length(9, 3), 3);
    assert_eq!(slice_length(0, 4), 0);
    assert_eq!(slice_length(5, 1), 5);
}

#[test]
fn partition_ranges_cover_in_order() {
    assert_eq!(partition_ranges(10, 3), vec![(0, 4), (4, 8), (8, 10)]);
    assert_eq!(partition_ranges(9, 3), vec![(0, 3), (3, 6), (6, 9)]);
    assert_eq!(partition_ranges(3, 40), vec![(0, 1), (1, 2), (2, 3)]);
    assert_eq!(partition_ranges(7, 1), vec![(0, 7)]);
    assert!(partition_ranges(0, 5).is_empty());
}

#[test]
fn one_row_per_query_for_any_worker_count() {
    let lib = library();
    for n in [0usize, 1, 7, 40, 41] {
        let qs = queries(n);
        for workers in [1usize, 2, 3, 8, 40, 100] {
            assert_eq!(count_matches(&qs, &lib, workers).len(), n);
        }
    }
}

#[test]
fn totals_do_not_depend_on_worker_count() {
    let lib = library();
    let qs = queries(23);
    let single = summary(&count_matches(&qs, &lib, 1));
    for workers in [2usize, 3, 5, 23, 64] {
        assert_eq!(summary(&count_matches(&qs, &lib, workers)), single);
    }
}

#[test]
fn aggregate_totals_for_known_queries() {
    let lib = library();
    let rows = count_matches(&queries(4), &lib, 2);
    let got = summary(&rows);
    let t = |e: u64, o: u64| Some(Totals { exact_match_weight: e, one_mismatch_weight: o });
    assert_eq!(got[0], ("line0".to_string(), t(8, 10)));
    assert_eq!(got[1], ("line1".to_string(), t(10, 8)));
    assert_eq!(got[2], ("line2".to_string(), t(0, 0)));
    assert_eq!(got[3], ("line3".to_string(), t(10, 8)));
}

#[test]
fn empty_library_gives_zero_rows_totals() {
    let lib: Vec<ReferenceEntry> = Vec::new();
    let rows = count_matches(&queries(5), &lib, 3);
    for row in &rows {
        assert_eq!(row.totals, Ok(Totals { exact_match_weight: 0, one_mismatch_weight: 0 }));
    }
}
