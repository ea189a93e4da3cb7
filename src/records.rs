//! The records that the engine reads and the rows that it produces.
use vstd::prelude::*;

verus! {

/// One entry of the reference library: a sequence and the weight that a
/// match against it contributes.
pub struct ReferenceEntry {
    pub sequence: String,
    pub weight: u32,
}

/// One query: the record it came from, carried through untouched, and the
/// sequence to look up.
pub struct QueryRecord {
    pub source_line: String,
    pub sequence: String,
}

/// The summed weights of the entries at distance zero and at distance one.
#[derive(PartialEq, Eq, Structural, Clone, Copy, Debug)]
pub struct Totals {
    pub exact_match_weight: u64,
    pub one_mismatch_weight: u64,
}

/// A sum of weights went past `u64::MAX`.
#[derive(PartialEq, Eq, Structural, Clone, Copy, Debug)]
pub struct WeightOverflow;

/// The outcome for one query: its source record and its totals, or the
/// overflow that kept them from being computed.
pub struct ResultRow {
    pub source_line: String,
    pub totals: Result<Totals, WeightOverflow>,
}

impl View for ResultRow {
    type V = (Seq<char>, Result<Totals, WeightOverflow>);

    open spec fn view(&self) -> (Seq<char>, Result<Totals, WeightOverflow>) {
        (self.source_line@, self.totals)
    }
}

impl ReferenceEntry {
    pub fn new(sequence: String, weight: u32) -> (r: Self)
        ensures
            r.sequence@ == sequence@,
            r.weight == weight,
    {
        ReferenceEntry { sequence, weight }
    }
}

impl QueryRecord {
    pub fn new(source_line: String, sequence: String) -> (r: Self)
        ensures
            r.source_line@ == source_line@,
            r.sequence@ == sequence@,
    {
        QueryRecord { source_line, sequence }
    }
}

} // verus!
