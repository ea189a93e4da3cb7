//! Splitting the queries into contiguous slices, one per worker, and putting
//! the rows of the slices back together.
use vstd::prelude::*;

use crate::records::{QueryRecord, ReferenceEntry, ResultRow, Totals, WeightOverflow};
use crate::scan::{expected_row, expected_rows, rows_view, scan_partition};

verus! {

/// Length of every slice but the last, for `n` queries and `workers`
/// workers: `n / workers` rounded up, so that at most `workers` slices cover
/// the queries.
pub open spec fn slice_len(n: nat, workers: nat) -> nat {
    if n % workers == 0 {
        n / workers
    } else {
        n / workers + 1
    }
}

/// Bounds of slice `k`: from `k * len` up to `(k + 1) * len`, or `n` for the
/// last one.
pub open spec fn slice_bounds(n: nat, len: nat, k: nat) -> (nat, nat) {
    let start = k * len;
    let end = (k + 1) * len;
    (start, if end <= n {
        end
    } else {
        n
    })
}

/// The rows of `queries` when each consecutive slice of `len` queries is
/// scanned on its own and the rows of the slices are put one after another.
pub open spec fn rows_by_slices(queries: Seq<QueryRecord>, library: Seq<ReferenceEntry>, len: nat) -> Seq<
    (Seq<char>, Result<Totals, WeightOverflow>),
>
    decreases queries.len(),
{
    if len == 0 || queries.len() <= len {
        expected_rows(queries, library)
    } else {
        expected_rows(queries.take(len as int), library) + rows_by_slices(
            queries.skip(len as int),
            library,
            len,
        )
    }
}

/// The rows that the engine gives for `queries` with `workers` workers.
pub open spec fn aggregate_rows(
    queries: Seq<QueryRecord>,
    library: Seq<ReferenceEntry>,
    workers: nat,
) -> Seq<(Seq<char>, Result<Totals, WeightOverflow>)> {
    rows_by_slices(queries, library, slice_len(queries.len(), workers))
}

proof fn lemma_rows_by_slices(queries: Seq<QueryRecord>, library: Seq<ReferenceEntry>, len: nat)
    ensures
        rows_by_slices(queries, library, len) == expected_rows(queries, library),
    decreases queries.len(),
{
    if !(len == 0 || queries.len() <= len) {
        lemma_rows_by_slices(queries.skip(len as int), library, len);
        assert(expected_rows(queries.take(len as int), library) + expected_rows(
            queries.skip(len as int),
            library,
        ) =~= expected_rows(queries, library));
    }
}

/// Completeness: whatever the number of workers, the engine gives exactly
/// one row per query, the row of query `i` standing at place `i`.
pub proof fn lemma_aggregate_complete(
    queries: Seq<QueryRecord>,
    library: Seq<ReferenceEntry>,
    workers: nat,
)
    requires
        workers >= 1,
    ensures
        aggregate_rows(queries, library, workers).len() == queries.len(),
        forall|i: int|
            0 <= i < queries.len() ==> #[trigger] aggregate_rows(queries, library, workers)[i]
                == expected_row(queries[i], library),
{
    lemma_rows_by_slices(queries, library, slice_len(queries.len(), workers));
}

/// Determinism: the rows, and so the multiset of their totals, are the same
/// for any two numbers of workers.
pub proof fn lemma_aggregate_independent_of_workers(
    queries: Seq<QueryRecord>,
    library: Seq<ReferenceEntry>,
    workers_a: nat,
    workers_b: nat,
)
    requires
        workers_a >= 1,
        workers_b >= 1,
    ensures
        aggregate_rows(queries, library, workers_a) == aggregate_rows(queries, library, workers_b),
        aggregate_rows(queries, library, workers_a).map_values(
            |r: (Seq<char>, Result<Totals, WeightOverflow>)| r.1,
        ).to_multiset() == aggregate_rows(queries, library, workers_b).map_values(
            |r: (Seq<char>, Result<Totals, WeightOverflow>)| r.1,
        ).to_multiset(),
{
    lemma_rows_by_slices(queries, library, slice_len(queries.len(), workers_a));
    lemma_rows_by_slices(queries, library, slice_len(queries.len(), workers_b));
}

/// The length of every slice but the last: `n / workers`, rounded up.
pub fn slice_length(n: usize, workers: usize) -> (r: usize)
    requires
        workers >= 1,
    ensures
        r == slice_len(n as nat, workers as nat),
{
    if n % workers == 0 {
        n / workers
    } else {
        proof {
            assert(n / workers <= n) by (nonlinear_arith)
                requires
                    workers >= 1,
            ;
            assert(workers != 1);
            assert(n > 0) by (nonlinear_arith)
                requires
                    n % workers != 0,
                    workers >= 1,
            ;
            assert(n / workers < n) by (nonlinear_arith)
                requires
                    workers >= 2,
                    n > 0,
            ;
        }
        n / workers + 1
    }
}

/// Splits `n` queries into contiguous, non-empty slices of
/// `slice_length(n, workers)` queries, the last one possibly shorter: slice
/// `k` is the range from its first index up to, not including, its end.
/// There are at most `workers` of them, and together they cover `0..n` in
/// order.
pub fn partition_ranges(n: usize, workers: usize) -> (r: Vec<(usize, usize)>)
    requires
        workers >= 1,
    ensures
        r@.len() <= workers,
        n == 0 <==> r@.len() == 0,
        r@.len() > 0 ==> r@[0].0 == 0 && r@.last().1 == n,
        forall|k: int|
            0 <= k < r@.len() ==> (#[trigger] r@[k]).0 < r@[k].1 && (r@[k].0 as nat, r@[k].1 as nat)
                == slice_bounds(n as nat, slice_len(n as nat, workers as nat), k as nat),
        forall|k: int| 0 < k < r@.len() ==> (#[trigger] r@[k]).0 == r@[k - 1].1,
        forall|k: int| 0 <= k < r@.len() ==> (#[trigger] r@[k]).1 <= n,
{
    let len = slice_length(n, workers);
    let ghost w = workers as nat;
    proof {
        let q = n as nat / w;
        assert(n as nat == w * q + n as nat % w) by (nonlinear_arith)
            requires
                w >= 1,
                q == n as nat / w,
        ;
        if n as nat % w == 0 {
            assert(len == q);
        } else {
            assert(len == q + 1);
            assert(w * len == w * q + w) by (nonlinear_arith)
                requires
                    len == q + 1,
            ;
        }
        assert(w * len >= n);
        if n > 0 && len == 0 {
            assert(w * len == 0) by (nonlinear_arith)
                requires
                    len == 0,
            ;
        }
    }
    let mut ranges: Vec<(usize, usize)> = Vec::new();
    let mut start: usize = 0;
    while start < n
        invariant
            w == workers as nat,
            len == slice_len(n as nat, w),
            w * len >= n,
            start <= n,
            n > 0 ==> len >= 1,
            ranges@.len() == 0 ==> start == 0,
            ranges@.len() > 0 ==> start == ranges@.last().1,
            start < n ==> start == ranges@.len() * len,
            ranges@.len() > 0 ==> (ranges@.len() - 1) * len < n,
            forall|k: int|
                0 <= k < ranges@.len() ==> (#[trigger] ranges@[k]).0 < ranges@[k].1 && (
                ranges@[k].0 as nat,
                ranges@[k].1 as nat,
                ) == slice_bounds(n as nat, len as nat, k as nat),
            forall|k: int| 0 < k < ranges@.len() ==> (#[trigger] ranges@[k]).0 == ranges@[k - 1].1,
            ranges@.len() > 0 ==> ranges@[0].0 == 0,
            forall|k: int| 0 <= k < ranges@.len() ==> (#[trigger] ranges@[k]).1 <= n,
        decreases n - start,
    {
        let end: usize = if n - start <= len {
            n
        } else {
            start + len
        };
        proof {
            let k = ranges@.len();
            assert((k + 1) * len == k * len + len) by (nonlinear_arith);
        }
        ranges.push((start, end));
        start = end;
    }
    proof {
        let c = ranges@.len();
        if c > 0 {
            assert(c <= w) by (nonlinear_arith)
                requires
                    (c - 1) * len < n,
                    w * len >= n,
                    len >= 1,
            ;
        }
    }
    ranges
}

/// The rows of all queries against the library, computed slice by slice as
/// `partition_ranges(queries.len(), workers)` splits them, the rows of each
/// slice appended after those of the slices before it.
pub fn count_matches(queries: &[QueryRecord], library: &[ReferenceEntry], workers: usize) -> (r: Vec<
    ResultRow,
>)
    requires
        workers >= 1,
    ensures
        rows_view(r@) == expected_rows(queries@, library@),
        rows_view(r@) == aggregate_rows(queries@, library@, workers as nat),
        r@.len() == queries@.len(),
{
    let n = queries.len();
    let ranges = partition_ranges(n, workers);
    let mut rows: Vec<ResultRow> = Vec::new();
    let mut k: usize = 0;
    while k < ranges.len()
        invariant
            n == queries@.len(),
            k <= ranges@.len(),
            k == 0 ==> rows@.len() == 0,
            n == 0 <==> ranges@.len() == 0,
            ranges@.len() > 0 ==> ranges@[0].0 == 0 && ranges@.last().1 == n,
            forall|j: int| 0 <= j < ranges@.len() ==> (#[trigger] ranges@[j]).0 < ranges@[j].1,
            forall|j: int| 0 < j < ranges@.len() ==> (#[trigger] ranges@[j]).0 == ranges@[j - 1].1,
            forall|j: int| 0 <= j < ranges@.len() ==> (#[trigger] ranges@[j]).1 <= n,
            k < ranges@.len() ==> rows_view(rows@) == expected_rows(
                queries@.take(ranges@[k as int].0 as int),
                library@,
            ),
            k == ranges@.len() && k > 0 ==> rows_view(rows@) == expected_rows(
                queries@.take(ranges@[k - 1].1 as int),
                library@,
            ),
        decreases ranges@.len() - k,
    {
        let (start, end) = ranges[k];
        let mut part = scan_partition(vstd::slice::slice_subrange(queries, start, end), library);
        let ghost before = rows@;
        rows.append(&mut part);
        proof {
            assert(rows_view(rows@) =~= rows_view(before) + expected_rows(
                queries@.subrange(start as int, end as int),
                library@,
            ));
            assert(queries@.take(start as int) + queries@.subrange(start as int, end as int)
                =~= queries@.take(end as int));
            assert(rows_view(rows@) =~= expected_rows(queries@.take(end as int), library@));
        }
        k = k + 1;
    }
    proof {
        if n > 0 {
            assert(queries@.take(n as int) =~= queries@);
        } else {
            assert(rows_view(rows@) =~= expected_rows(queries@, library@));
        }
        lemma_rows_by_slices(queries@, library@, slice_len(n as nat, workers as nat));
    }
    rows
}

} // verus!
