//! Errors of the genotype decoder.

use vstd::prelude::*;

verus! {

/// What can be wrong with a genotype file or with a request to decode it.
///
/// None of these is retried: each shows a corrupt file, or a file and a
/// request that do not belong together.
#[derive(Debug, Clone, Copy, PartialEq, Eq)]
pub enum BedError {
    /// The header's magic bytes are wrong or the file's length does not fit
    /// the two counts.
    IllFormed,
    /// The header's orientation byte is neither 0 nor 1.
    BadMode,
    /// An index to an individual is outside the range of the individual
    /// axis; the value is the index as it was given.
    IidIndexTooBig(isize),
    /// An index to a marker is outside the range of the marker axis; the
    /// value is the index as it was given.
    SidIndexTooBig(isize),
    /// The lengths of the individual and marker index lists (first two
    /// values) do not match the rows and columns of the output block (last
    /// two values).
    IndexMismatch(usize, usize, usize, usize),
    /// The two counts (individuals, markers as laid out on disk) describe a
    /// file longer than an offset can address.
    IndexesTooBigForFiles(usize, usize),
    /// A vector of flags has the second length where the first was
    /// expected.
    BoolArrayVectorWrongLength(usize, usize),
}

} // verus!
