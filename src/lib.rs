//! Counting, for DNA query sequences, the weight of reference entries that
//! match exactly or with one mismatch, on both strands.
pub mod distribute;
pub mod parse;
pub mod records;
pub mod scan;
pub mod sequence;
