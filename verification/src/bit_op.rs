//! Bit-level operations on packed genotype bytes.
//!
//! A packed byte holds four genotype calls of two bits each, call `k` in bits
//! `2k` and `2k + 1`. The code `0b01` marks a missing call; the codes `0b00`
//! and `0b11` are the two homozygous states and `0b10` is the heterozygous
//! state.

use vstd::prelude::*;

verus! {

pub const MASK55: u8 = 0b01010101;

/// The two-bit code of call `lane` (0 to 3) of a packed byte.
pub open spec fn lane_code(b: u8, lane: int) -> u8 {
    if lane == 0 {
        b & 3
    } else if lane == 1 {
        (b >> 2) & 3
    } else if lane == 2 {
        (b >> 4) & 3
    } else {
        (b >> 6) & 3
    }
}

/// Whether a two-bit code is an observed call, that is, not the missing code.
pub open spec fn code_is_call(code: u8) -> bool {
    code != 1
}

/// The number of set bits of an observed two-bit code; zero for the missing
/// code.
pub open spec fn code_ones(code: u8) -> nat {
    if code == 2 {
        1
    } else if code == 3 {
        2
    } else {
        0
    }
}

/// The number of observed calls among the four calls of a byte.
pub open spec fn byte_calls(b: u8) -> nat {
    (if code_is_call(lane_code(b, 0)) { 1nat } else { 0nat })
        + (if code_is_call(lane_code(b, 1)) { 1nat } else { 0nat })
        + (if code_is_call(lane_code(b, 2)) { 1nat } else { 0nat })
        + (if code_is_call(lane_code(b, 3)) { 1nat } else { 0nat })
}

/// The number of set bits among the observed calls of a byte.
pub open spec fn byte_ones(b: u8) -> nat {
    code_ones(lane_code(b, 0)) + code_ones(lane_code(b, 1)) + code_ones(lane_code(b, 2))
        + code_ones(lane_code(b, 3))
}

/// The number of set bits of a byte.
pub open spec fn popcount(x: u8) -> nat {
    ((x & 1) + ((x >> 1) & 1) + ((x >> 2) & 1) + ((x >> 3) & 1) + ((x >> 4) & 1) + ((x >> 5) & 1)
        + ((x >> 6) & 1) + ((x >> 7) & 1)) as nat
}

/// `u8::count_ones` returns the number of ones in the binary representation
/// of its argument.
pub assume_specification[ u8::count_ones ](x: u8) -> (r: u32)
    ensures
        r == popcount(x),
;

/// The byte whose call `lane` is `0b11` where that call of `b` is observed
/// and `0b00` where it is missing.
pub open spec fn spec_nonmissing_mask(b: u8) -> u8 {
    let x10: u8 = ((b >> 1) & MASK55) | (!b & MASK55);
    x10 | (x10 << 1)
}

/// The lower bit of each call.
pub fn nyp_lower_digit_u8(x: u8) -> (r: u8)
    ensures
        r == x & MASK55,
{
    x & MASK55
}

/// The higher bit of each call, moved to the lower position.
pub fn nyp_higher_digit_u8(x: u8) -> (r: u8)
    ensures
        r == (x >> 1) & MASK55,
{
    (x >> 1) & MASK55
}

/// The mask of the observed calls of a packed byte: both bits of a call are
/// set where the call is observed and clear where it is missing.
pub fn nonmissing_mask_u8(x: u8) -> (r: u8)
    ensures
        r == spec_nonmissing_mask(x),
        forall|lane: int|
            0 <= lane < 4 ==> #[trigger] lane_code(r, lane) == if code_is_call(lane_code(x, lane)) {
                3u8
            } else {
                0u8
            },
{
    let x10 = nyp_higher_digit_u8(x) | nyp_lower_digit_u8(!x);
    let r = x10 | (x10 << 1);
    proof {
        lemma_mask_lanes(x);
        assert(r == spec_nonmissing_mask(x));
        assert forall|lane: int| 0 <= lane < 4 implies #[trigger] lane_code(r, lane) == if code_is_call(
            lane_code(x, lane),
        ) {
            3u8
        } else {
            0u8
        } by {
            assert(lane_code(r, lane) == lane_code(spec_nonmissing_mask(x), lane));
        }
    }
    r
}

/// Each call of the mask is `0b11` or `0b00` according to whether the call
/// of the byte is observed.
pub proof fn lemma_mask_lanes(b: u8)
    ensures
        forall|lane: int|
            0 <= lane < 4 ==> #[trigger] lane_code(spec_nonmissing_mask(b), lane) == if code_is_call(
                lane_code(b, lane),
            ) {
                3u8
            } else {
                0u8
            },
{
    let m = spec_nonmissing_mask(b);
    assert(m == (((b >> 1) & 0x55) | (!b & 0x55)) | ((((b >> 1) & 0x55) | (!b & 0x55)) << 1));
    assert(m & 3 == if (b & 3) != 1 { 3u8 } else { 0u8 }) by (bit_vector)
        requires
            m == (((b >> 1) & 0x55) | (!b & 0x55)) | ((((b >> 1) & 0x55) | (!b & 0x55)) << 1),
    ;
    assert((m >> 2) & 3 == if ((b >> 2) & 3) != 1 { 3u8 } else { 0u8 }) by (bit_vector)
        requires
            m == (((b >> 1) & 0x55) | (!b & 0x55)) | ((((b >> 1) & 0x55) | (!b & 0x55)) << 1),
    ;
    assert((m >> 4) & 3 == if ((b >> 4) & 3) != 1 { 3u8 } else { 0u8 }) by (bit_vector)
        requires
            m == (((b >> 1) & 0x55) | (!b & 0x55)) | ((((b >> 1) & 0x55) | (!b & 0x55)) << 1),
    ;
    assert((m >> 6) & 3 == if ((b >> 6) & 3) != 1 { 3u8 } else { 0u8 }) by (bit_vector)
        requires
            m == (((b >> 1) & 0x55) | (!b & 0x55)) | ((((b >> 1) & 0x55) | (!b & 0x55)) << 1),
    ;
}

/// The set bits of a byte are the set bits of its four calls.
proof fn lemma_popcount_by_lanes(x: u8)
    ensures
        popcount(x) == lane_bits(lane_code(x, 0)) + lane_bits(lane_code(x, 1)) + lane_bits(
            lane_code(x, 2),
        ) + lane_bits(lane_code(x, 3)),
        forall|lane: int| 0 <= lane < 4 ==> #[trigger] lane_code(x, lane) <= 3,
{
    assert(x & 1 == (x & 3) & 1) by (bit_vector);
    assert((x >> 1) & 1 == ((x & 3) >> 1) & 1) by (bit_vector);
    assert((x >> 2) & 1 == ((x >> 2) & 3) & 1) by (bit_vector);
    assert((x >> 3) & 1 == (((x >> 2) & 3) >> 1) & 1) by (bit_vector);
    assert((x >> 4) & 1 == ((x >> 4) & 3) & 1) by (bit_vector);
    assert((x >> 5) & 1 == (((x >> 4) & 3) >> 1) & 1) by (bit_vector);
    assert((x >> 6) & 1 == ((x >> 6) & 3) & 1) by (bit_vector);
    assert((x >> 7) & 1 == (((x >> 6) & 3) >> 1) & 1) by (bit_vector);
    assert(x & 3 <= 3) by (bit_vector);
    assert((x >> 2) & 3 <= 3) by (bit_vector);
    assert((x >> 4) & 3 <= 3) by (bit_vector);
    assert((x >> 6) & 3 <= 3) by (bit_vector);
}

/// The number of set bits of a two-bit code.
pub open spec fn lane_bits(code: u8) -> nat {
    ((code & 1) + ((code >> 1) & 1)) as nat
}

proof fn lemma_lane_bits(code: u8)
    requires
        code <= 3,
    ensures
        lane_bits(code) == if code == 0 {
            0nat
        } else if code == 3 {
            2nat
        } else {
            1nat
        },
{
    assert(code <= 3 ==> (code & 1) + ((code >> 1) & 1) == if code == 0 {
        0int
    } else if code == 3 {
        2int
    } else {
        1int
    }) by (bit_vector);
}

/// The byte-mask method agrees with unpacking the four calls and counting:
/// the set bits of the mask are twice the observed calls, and the set bits
/// of the byte under the mask are the set bits of its observed calls.
pub proof fn lemma_mask_counts(b: u8)
    ensures
        popcount(spec_nonmissing_mask(b)) == 2 * byte_calls(b),
        popcount(b & spec_nonmissing_mask(b)) == byte_ones(b),
{
    let m = spec_nonmissing_mask(b);
    let bm = b & m;
    lemma_mask_lanes(b);
    lemma_popcount_by_lanes(b);
    lemma_popcount_by_lanes(m);
    lemma_popcount_by_lanes(bm);
    assert(bm & 3 == (b & 3) & (m & 3)) by (bit_vector)
        requires
            bm == b & m,
    ;
    assert((bm >> 2) & 3 == ((b >> 2) & 3) & ((m >> 2) & 3)) by (bit_vector)
        requires
            bm == b & m,
    ;
    assert((bm >> 4) & 3 == ((b >> 4) & 3) & ((m >> 4) & 3)) by (bit_vector)
        requires
            bm == b & m,
    ;
    assert((bm >> 6) & 3 == ((b >> 6) & 3) & ((m >> 6) & 3)) by (bit_vector)
        requires
            bm == b & m,
    ;
    assert forall|lane: int| 0 <= lane < 4 implies lane_bits(#[trigger] lane_code(m, lane)) == (
    if code_is_call(lane_code(b, lane)) {
        2nat
    } else {
        0nat
    }) && lane_bits(lane_code(bm, lane)) == code_ones(lane_code(b, lane)) by {
        let c = lane_code(b, lane);
        let cm = lane_code(m, lane);
        let cbm = lane_code(bm, lane);
        assert(cbm == c & cm);
        assert(c & 3 == c) by (bit_vector)
            requires
                c <= 3,
        ;
        assert(c & 0 == 0) by (bit_vector);
        lemma_lane_bits(c);
        lemma_lane_bits(cm);
        lemma_lane_bits(cbm);
    }
    assert(lane_code(m, 0) == lane_code(m, 0));
    assert(lane_code(m, 1) == lane_code(m, 1));
    assert(lane_code(m, 2) == lane_code(m, 2));
    assert(lane_code(m, 3) == lane_code(m, 3));
}

/// Shifting a byte right by twice a lane and keeping two bits gives that
/// lane's code, which is below four.
pub proof fn lemma_shift_is_lane(b: u8, shift: u8)
    requires
        shift == 0 || shift == 2 || shift == 4 || shift == 6,
    ensures
        (b >> shift) & 3 == lane_code(b, shift as int / 2),
        lane_code(b, shift as int / 2) < 4,
{
    assert((b >> 0u8) & 3 == b & 3 && b & 3 < 4 && (b >> 2u8) & 3 < 4 && (b >> 4u8) & 3 < 4 && (b
        >> 6u8) & 3 < 4) by (bit_vector);
}

/// Every lane code is below four.
pub proof fn lemma_lane_code_bound(b: u8, lane: int)
    ensures
        lane_code(b, lane) < 4,
{
    assert(b & 3 < 4 && (b >> 2u8) & 3 < 4 && (b >> 4u8) & 3 < 4 && (b >> 6u8) & 3 < 4)
        by (bit_vector);
}

/// The lookup table from a two-bit code to a genotype value: the number of
/// copies of the counted allele for the three observed codes, and
/// `missing_value` for the missing code. With `count_a1` the first allele is
/// counted, otherwise the second.
pub open spec fn spec_two_bits_to_value(count_a1: bool, missing_value: i8, code: u8) -> i8 {
    if code == 1 {
        missing_value
    } else if code == 2 {
        1
    } else if (code == 0) == count_a1 {
        2
    } else {
        0
    }
}

/// Builds the four-entry lookup table from a two-bit code to a genotype
/// value.
pub fn set_up_two_bits_to_value(count_a1: bool, missing_value: i8) -> (r: [i8; 4])
    ensures
        forall|code: u8|
            code < 4 ==> #[trigger] r@[code as int] == spec_two_bits_to_value(
                count_a1,
                missing_value,
                code,
            ),
{
    let homozygous_primary_allele: i8 = 0;
    let heterozygous_allele: i8 = 1;
    let homozygous_secondary_allele: i8 = 2;
    if count_a1 {
        [homozygous_secondary_allele, missing_value, heterozygous_allele, homozygous_primary_allele]
    } else {
        [homozygous_primary_allele, missing_value, heterozygous_allele, homozygous_secondary_allele]
    }
}

} // verus!
