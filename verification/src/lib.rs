//! Coverage-weighted methylation aggregation over genomic intervals.
//!
//! The library builds a per-chromosome table of methylation intervals from
//! whitespace-delimited text records, validates the global sort order of the
//! input, and answers overlap queries: for a target region it finds every
//! methylation interval overlapping it and reduces them to a count, a total
//! coverage, and a coverage-weighted methylation fraction.

use vstd::prelude::*;

pub mod aggregate;
pub mod batch;
pub mod builder;
pub mod laws;
pub mod model;
pub mod nums;
pub mod split;
pub mod table;
pub mod targets;

verus! {

/// A gzip stream starts with the two magic bytes `0x1f 0x8b` followed by the
/// deflate method byte `0x08`; a shorter header is never gzip.
pub fn is_gzip_magic(header: &[u8]) -> (r: bool)
    ensures
        r == (header@.len() >= 3 && header@[0] == 0x1f && header@[1] == 0x8b && header@[2]
            == 0x08),
{
    header.len() >= 3 && header[0] == 0x1f && header[1] == 0x8b && header[2] == 0x08
}

} // verus!
