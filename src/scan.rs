//! Scanning queries against the whole reference library, on both strands.
use vstd::prelude::*;

use crate::records::{QueryRecord, ReferenceEntry, ResultRow, Totals, WeightOverflow};
use crate::sequence::{hamming, hamming_distance, rev_comp, reverse_complement};

verus! {

/// Sum of the weights of the first `n` entries of `library` whose sequence
/// is at distance `d` from `query`.
pub open spec fn weight_below(query: Seq<char>, library: Seq<ReferenceEntry>, d: nat, n: nat) -> nat
    decreases n,
{
    if n == 0 {
        0
    } else {
        weight_below(query, library, d, (n - 1) as nat) + if hamming(
            query,
            library[n - 1].sequence@,
        ) == d {
            library[n - 1].weight as nat
        } else {
            0nat
        }
    }
}

/// Sum of the weights of all entries at distance `d` from `query`, on the
/// strand given.
pub open spec fn strand_weight(query: Seq<char>, library: Seq<ReferenceEntry>, d: nat) -> nat {
    weight_below(query, library, d, library.len())
}

/// The weight at distance `d` from the query, counted on the forward strand
/// and again on the reverse complement.
pub open spec fn total_weight(query: Seq<char>, library: Seq<ReferenceEntry>, d: nat) -> nat {
    strand_weight(query, library, d) + strand_weight(rev_comp(query), library, d)
}

/// The totals of a query, or an overflow where one of them exceeds `u64`.
pub open spec fn expected_totals(query: Seq<char>, library: Seq<ReferenceEntry>) -> Result<
    Totals,
    WeightOverflow,
> {
    let exact = total_weight(query, library, 0);
    let one = total_weight(query, library, 1);
    if exact <= u64::MAX && one <= u64::MAX {
        Ok(Totals { exact_match_weight: exact as u64, one_mismatch_weight: one as u64 })
    } else {
        Err(WeightOverflow)
    }
}

/// The row that a query yields.
pub open spec fn expected_row(query: QueryRecord, library: Seq<ReferenceEntry>) -> (
    Seq<char>,
    Result<Totals, WeightOverflow>,
) {
    (query.source_line@, expected_totals(query.sequence@, library))
}

/// The rows of a run of queries, one per query and in the same order.
pub open spec fn expected_rows(queries: Seq<QueryRecord>, library: Seq<ReferenceEntry>) -> Seq<
    (Seq<char>, Result<Totals, WeightOverflow>),
> {
    Seq::new(queries.len(), |i: int| expected_row(queries[i], library))
}

/// What a sequence of rows holds, row by row.
pub open spec fn rows_view(rows: Seq<ResultRow>) -> Seq<(Seq<char>, Result<Totals, WeightOverflow>)> {
    rows.map_values(|r: ResultRow| r@)
}

proof fn lemma_weight_below_monotone(
    query: Seq<char>,
    library: Seq<ReferenceEntry>,
    d: nat,
    m: nat,
    n: nat,
)
    requires
        m <= n,
    ensures
        weight_below(query, library, d, m) <= weight_below(query, library, d, n),
    decreases n - m,
{
    if m < n {
        lemma_weight_below_monotone(query, library, d, m, (n - 1) as nat);
    }
}

/// Adds to `start` the weights of the entries at distance zero and one from
/// `query`, or gives `None` where a sum would exceed `u64`.
pub fn add_strand(query: &str, library: &[ReferenceEntry], start: Totals) -> (r: Option<Totals>)
    ensures
        match r {
            Some(t) => {
                &&& start.exact_match_weight + strand_weight(query@, library@, 0) <= u64::MAX
                &&& start.one_mismatch_weight + strand_weight(query@, library@, 1) <= u64::MAX
                &&& t.exact_match_weight == start.exact_match_weight + strand_weight(
                    query@,
                    library@,
                    0,
                )
                &&& t.one_mismatch_weight == start.one_mismatch_weight + strand_weight(
                    query@,
                    library@,
                    1,
                )
            },
            None => start.exact_match_weight + strand_weight(query@, library@, 0) > u64::MAX
                || start.one_mismatch_weight + strand_weight(query@, library@, 1) > u64::MAX,
        },
{
    let mut exact: u64 = start.exact_match_weight;
    let mut one: u64 = start.one_mismatch_weight;
    let mut j: usize = 0;
    while j < library.len()
        invariant
            j <= library@.len(),
            exact == start.exact_match_weight + weight_below(query@, library@, 0, j as nat),
            one == start.one_mismatch_weight + weight_below(query@, library@, 1, j as nat),
        decreases library@.len() - j,
    {
        let entry = &library[j];
        let d = hamming_distance(query, entry.sequence.as_str());
        if d == 0 {
            match exact.checked_add(entry.weight as u64) {
                Some(v) => {
                    exact = v;
                },
                None => {
                    proof {
                        lemma_weight_below_monotone(
                            query@,
                            library@,
                            0,
                            (j + 1) as nat,
                            library@.len(),
                        );
                    }
                    return None;
                },
            }
        } else if d == 1 {
            match one.checked_add(entry.weight as u64) {
                Some(v) => {
                    one = v;
                },
                None => {
                    proof {
                        lemma_weight_below_monotone(
                            query@,
                            library@,
                            1,
                            (j + 1) as nat,
                            library@.len(),
                        );
                    }
                    return None;
                },
            }
        }
        j = j + 1;
    }
    Some(Totals { exact_match_weight: exact, one_mismatch_weight: one })
}

/// The totals of one query sequence against the library: every entry at
/// distance zero adds its weight to the exact total and every entry at
/// distance one to the one-mismatch total, first for the sequence itself and
/// then for its reverse complement, so that an entry matching both strands
/// counts twice. A sum that would exceed `u64` gives `WeightOverflow`.
pub fn query_totals(sequence: &str, library: &[ReferenceEntry]) -> (r: Result<
    Totals,
    WeightOverflow,
>)
    ensures
        r == expected_totals(sequence@, library@),
{
    let zero = Totals { exact_match_weight: 0, one_mismatch_weight: 0 };
    match add_strand(sequence, library, zero) {
        None => Err(WeightOverflow),
        Some(forward) => {
            let rc = reverse_complement(sequence);
            match add_strand(rc.as_str(), library, forward) {
                None => Err(WeightOverflow),
                Some(both) => Ok(both),
            }
        },
    }
}

/// The row of one query: its source record and its totals.
pub fn scan_query(query: &QueryRecord, library: &[ReferenceEntry]) -> (r: ResultRow)
    ensures
        r@ == expected_row(*query, library@),
{
    let totals = query_totals(query.sequence.as_str(), library);
    ResultRow { source_line: query.source_line.clone(), totals }
}

/// The rows of a slice of queries, one per query and in the same order.
pub fn scan_partition(queries: &[QueryRecord], library: &[ReferenceEntry]) -> (r: Vec<ResultRow>)
    ensures
        rows_view(r@) == expected_rows(queries@, library@),
{
    let mut rows: Vec<ResultRow> = Vec::new();
    let mut i: usize = 0;
    while i < queries.len()
        invariant
            i <= queries@.len(),
            rows_view(rows@) == expected_rows(queries@.take(i as int), library@),
        decreases queries@.len() - i,
    {
        let row = scan_query(&queries[i], library);
        let ghost before = rows@;
        rows.push(row);
        assert(rows_view(rows@) =~= rows_view(before).push(row@));
        i = i + 1;
        assert(rows_view(rows@) =~= expected_rows(queries@.take(i as int), library@));
    }
    assert(queries@.take(i as int) =~= queries@);
    rows
}

} // verus!
