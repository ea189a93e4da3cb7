use pam_match::sequence::{hamming_distance, reverse_complement};

#[test]
fn hamming_of_equal_sequences_is_zero() {
    assert_eq!(hamming_distance("ACGTACGTACGTACGTACGT", "ACGTACGTACGTACGTACGT"), 0);
    assert_eq!(hamming_distance("", ""), 0);
}

#[test]
fn hamming_counts_differing_positions() {
    assert_eq!(hamming_distance("AAAA", "AAAT"), 1);
    assert_eq!(hamming_distance("ACGT", "TGCA"), 4);
    assert_eq!(hamming_distance("AAAAAAAAAAAAAAAAAAAA", "TTTTTTTTTTTTTTTTTTTT"), 20);
}

#[test]
fn hamming_is_symmetric_on_examples() {
    assert_eq!(hamming_distance("ACGTTA", "ACCTGA"), hamming_distance("ACCTGA", "ACGTTA"));
    assert_eq!(hamming_distance("ACCTGA", "ACGTTA"), 2);
}

#[test]
fn hamming_uses_common_prefix_only() {
    assert_eq!(hamming_distance("AAAA", "AA"), 0);
    assert_eq!(hamming_distance("AC", "ATGGG"), 1);
    assert_eq!(hamming_distance("", "ACGT"), 0);
}

#[test]
fn reverse_complement_of_bases() {
    assert_eq!(reverse_complement("AACG"), "CGTT");
    assert_eq!(reverse_complement("AAAAAAAAAAAAAAAAAAAA"), "TTTTTTTTTTTTTTTTTTTT");
    assert_eq!(reverse_complement(""), "");
}

#[test]
fn reverse_complement_keeps_other_characters() {
    assert_eq!(reverse_complement("ANc"), "cNT");
}

#[test]
fn reverse_complement_twice_is_identity() {
    let s = "ACGTTGCAAGGCTTAACCGA";
    assert_eq!(reverse_complement(&reverse_complement(s)), s);
}
