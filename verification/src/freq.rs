//! Allele counts of a packed column, from which a marker's frequency is
//! derived.
//!
//! The frequency of a column is `(1 - ones / nonmissing) * 2`: the mean
//! number of copies of the counted allele among the observed calls. It is
//! undefined for a column without an observed call. The counts are kept as
//! integers; the quotient is left to the caller.

use crate::bit_op::{
    byte_calls, byte_ones, code_is_call, lane_code, lemma_lane_code_bound, lemma_mask_counts,
    nonmissing_mask_u8, popcount, spec_nonmissing_mask, spec_two_bits_to_value,
};
use vstd::prelude::*;

verus! {

/// The number of observed calls in a column of packed bytes, the padding
/// calls of the last byte included.
pub open spec fn column_calls(col: Seq<u8>) -> nat
    decreases col.len(),
{
    if col.len() == 0 {
        0
    } else {
        column_calls(col.drop_last()) + byte_calls(col.last())
    }
}

/// The number of set bits among the observed calls of a column.
pub open spec fn column_ones(col: Seq<u8>) -> nat
    decreases col.len(),
{
    if col.len() == 0 {
        0
    } else {
        column_ones(col.drop_last()) + byte_ones(col.last())
    }
}

/// The number of set bits of the masks of the bytes of a column.
pub open spec fn column_mask_bits(col: Seq<u8>) -> nat
    decreases col.len(),
{
    if col.len() == 0 {
        0
    } else {
        column_mask_bits(col.drop_last()) + popcount(spec_nonmissing_mask(col.last()))
    }
}

/// The number of set bits of the bytes of a column under their masks.
pub open spec fn column_masked_bits(col: Seq<u8>) -> nat
    decreases col.len(),
{
    if col.len() == 0 {
        0
    } else {
        column_masked_bits(col.drop_last()) + popcount(col.last() & spec_nonmissing_mask(col.last()))
    }
}

/// For every column, counting by byte masks agrees with unpacking each call
/// and counting: the mask bits are twice the observed calls, and the bits
/// under the masks are the set bits of the observed calls. This holds of a
/// column without any observed call too, where both counts are zero.
pub proof fn lemma_column_mask_counts(col: Seq<u8>)
    ensures
        column_mask_bits(col) == 2 * column_calls(col),
        column_masked_bits(col) == column_ones(col),
        column_ones(col) <= 2 * column_calls(col),
        column_calls(col) <= 4 * col.len(),
    decreases col.len(),
{
    if col.len() > 0 {
        lemma_column_mask_counts(col.drop_last());
        lemma_mask_counts(col.last());
        lemma_byte_counts_bound(col.last());
    }
}

/// A byte has at most four observed calls, and each has at most two set
/// bits.
pub proof fn lemma_byte_counts_bound(b: u8)
    ensures
        byte_calls(b) <= 4,
        byte_ones(b) <= 2 * byte_calls(b),
{
}

/// The copies of the first allele that an observed code stands for, and
/// zero for the missing code.
pub open spec fn code_dosage(code: u8) -> nat {
    if code_is_call(code) {
        spec_two_bits_to_value(true, 0, code) as nat
    } else {
        0
    }
}

/// The copies of the first allele among the four calls of a byte.
pub open spec fn byte_dosage(b: u8) -> nat {
    code_dosage(lane_code(b, 0)) + code_dosage(lane_code(b, 1)) + code_dosage(lane_code(b, 2))
        + code_dosage(lane_code(b, 3))
}

/// The copies of the first allele among the calls of a column.
pub open spec fn column_dosage(col: Seq<u8>) -> nat
    decreases col.len(),
{
    if col.len() == 0 {
        0
    } else {
        column_dosage(col.drop_last()) + byte_dosage(col.last())
    }
}

/// The frequency of a column is the mean number of copies of the first
/// allele among its observed calls: with `n` observed calls, `2 n` is
/// the count of observed bits, and `2 n` less the count of set bits is
/// the number of copies, so that `(1 - ones / (2 n)) * 2` is the copies
/// divided by `n`.
pub proof fn lemma_frequency_is_mean_dosage(col: Seq<u8>)
    ensures
        column_dosage(col) + column_ones(col) == 2 * column_calls(col),
    decreases col.len(),
{
    if col.len() > 0 {
        lemma_frequency_is_mean_dosage(col.drop_last());
        let b = col.last();
        lemma_lane_code_bound(b, 0);
        lemma_lane_code_bound(b, 1);
        lemma_lane_code_bound(b, 2);
        lemma_lane_code_bound(b, 3);
    }
}

/// The allele counts of one column.
#[derive(Debug, Clone, Copy, PartialEq, Eq)]
pub struct FreqCount {
    /// Twice the number of observed calls.
    pub nonmissing_count: u128,
    /// The number of set bits among the observed calls.
    pub ones_count: u128,
}

/// Whether the counts are those of a column.
pub open spec fn counts_of(col: Seq<u8>, c: FreqCount) -> bool {
    &&& c.nonmissing_count == 2 * column_calls(col)
    &&& c.ones_count == column_ones(col)
}

/// Counts the observed calls and their set bits in a column, byte by byte,
/// through the mask of each byte.
pub fn byte_vec_to_freq(byte_vec: &[u8]) -> (c: FreqCount)
    ensures
        counts_of(byte_vec@, c),
        c.ones_count <= c.nonmissing_count,
{
    let mut nonmissing_count: u128 = 0;
    let mut ones_count: u128 = 0;
    let mut k: usize = 0;
    while k < byte_vec.len()
        invariant
            k <= byte_vec.len(),
            nonmissing_count == 2 * column_calls(byte_vec@.take(k as int)),
            ones_count == column_ones(byte_vec@.take(k as int)),
            ones_count <= nonmissing_count,
            nonmissing_count <= 8 * k,
        decreases byte_vec.len() - k,
    {
        let byte: u8 = byte_vec[k];
        let nonmissing_mask: u8 = nonmissing_mask_u8(byte);
        proof {
            lemma_mask_counts(byte);
            lemma_byte_counts_bound(byte);
            assert(byte_vec@.take(k as int + 1).drop_last() =~= byte_vec@.take(k as int));
            assert(byte_vec@.take(k as int + 1).last() == byte);
        }
        nonmissing_count = nonmissing_count + nonmissing_mask.count_ones() as u128;
        ones_count = ones_count + (byte & nonmissing_mask).count_ones() as u128;
        k += 1;
    }
    assert(byte_vec@.take(k as int) =~= byte_vec@);
    FreqCount { nonmissing_count, ones_count }
}

} // verus!
