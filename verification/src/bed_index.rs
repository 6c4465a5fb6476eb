//! Sizes and indices of a compact genotype file.
//!
//! A file has a three-byte header and then one column of packed bytes per
//! entry of its major axis; a column packs the calls of the minor axis four
//! to a byte. Indices into an axis may be negative, counting from its end.

use crate::bed_error::BedError;
use vstd::prelude::*;

verus! {

pub const BED_FILE_MAGIC1: u8 = 0x6C;

pub const BED_FILE_MAGIC2: u8 = 0x1B;

pub const CB_HEADER_U64: u64 = 3;

pub const CB_HEADER_USIZE: usize = 3;

/// The largest value of an integer type.
pub trait Max: Sized {
    /// The largest value of the type.
    spec fn spec_max() -> Self;

    fn max() -> (r: Self)
        ensures
            r == Self::spec_max(),
    ;
}

impl Max for u8 {
    open spec fn spec_max() -> u8 {
        u8::MAX
    }

    fn max() -> u8 {
        u8::MAX
    }
}

impl Max for u64 {
    open spec fn spec_max() -> u64 {
        u64::MAX
    }

    fn max() -> u64 {
        u64::MAX
    }
}

/// The value that stands for a missing call in a type of genotype values.
pub trait Missing: Sized {
    /// The missing value of the type.
    spec fn spec_missing() -> Self;

    fn missing() -> (r: Self)
        ensures
            r == Self::spec_missing(),
    ;
}

impl Missing for i8 {
    open spec fn spec_missing() -> i8 {
        MISSING_I8
    }

    fn missing() -> i8 {
        MISSING_I8
    }
}

/// A type of genotype values: one that can be copied and compared, has a
/// missing value, and holds the numbers of copies of an allele.
pub trait BedVal: Copy + Default + From<i8> + core::fmt::Debug + Sync + Send + Missing + PartialEq {

}

impl<T> BedVal for T where
    T: Copy + Default + From<i8> + core::fmt::Debug + Sync + Send + Missing + PartialEq,
 {

}

/// The missing value of `i8` genotypes.
pub const MISSING_I8: i8 = -127;

/// The number of bytes that pack `n` calls: `n / 4`, rounded up.
pub open spec fn spec_div4(n: int) -> int {
    if n > 0 {
        (n - 1) / 4 + 1
    } else {
        0
    }
}

/// An unsigned integer type in which the offsets into a file are counted.
pub trait FileOffset: Max + Copy {
    /// The number that a value stands for.
    spec fn spec_int(self) -> int;

    /// Every value lies between zero and the largest value of its type.
    proof fn lemma_in_range(self)
        ensures
            0 <= self.spec_int() <= Self::spec_max().spec_int(),
    ;

    /// The value that stands for a count, where the type has one.
    fn from_count(n: usize) -> (r: Option<Self>)
        ensures
            r is Some <==> n <= Self::spec_max().spec_int(),
            r matches Some(v) ==> v.spec_int() == n,
    ;

    /// The difference of two values, the larger first.
    fn minus(self, other: Self) -> (r: Self)
        requires
            other.spec_int() <= self.spec_int(),
        ensures
            r.spec_int() == self.spec_int() - other.spec_int(),
    ;

    /// The quotient of two values, rounded down.
    fn divided_by(self, other: Self) -> (r: Self)
        requires
            other.spec_int() > 0,
        ensures
            r.spec_int() == self.spec_int() / other.spec_int(),
    ;

    /// Whether a value is below another.
    fn less_than(self, other: Self) -> (r: bool)
        ensures
            r == (self.spec_int() < other.spec_int()),
    ;
}

impl FileOffset for u8 {
    open spec fn spec_int(self) -> int {
        self as int
    }

    proof fn lemma_in_range(self) {
    }

    fn from_count(n: usize) -> Option<u8> {
        if n <= 255 {
            Some(n as u8)
        } else {
            None
        }
    }

    fn minus(self, other: u8) -> u8 {
        self - other
    }

    fn divided_by(self, other: u8) -> u8 {
        self / other
    }

    fn less_than(self, other: u8) -> bool {
        self < other
    }
}

impl FileOffset for u64 {
    open spec fn spec_int(self) -> int {
        self as int
    }

    proof fn lemma_in_range(self) {
    }

    fn from_count(n: usize) -> Option<u64> {
        Some(n as u64)
    }

    fn minus(self, other: u64) -> u64 {
        self - other
    }

    fn divided_by(self, other: u64) -> u64 {
        self / other
    }

    fn less_than(self, other: u64) -> bool {
        self < other
    }
}

/// Whether the length of a column of `iid_count` calls and the number
/// `sid_count` of columns can be counted in a type whose largest value is
/// `max`, and that many columns after a header of `header` bytes end at an
/// offset that the type can hold.
pub open spec fn spec_offsets_fit(iid_count: int, sid_count: int, header: int, max: int) -> bool {
    &&& spec_div4(iid_count) <= max
    &&& sid_count <= max
    &&& spec_div4(iid_count) * sid_count + header <= max
}

/// The length in bytes of a column of `in_iid_count` calls, as `usize` and
/// in the type of offsets, provided that the length and the number
/// `in_sid_count` of columns can be counted in that type and the columns,
/// after a header of `cb_header` bytes, end at an offset that it can hold.
pub fn try_div_4<T: FileOffset>(in_iid_count: usize, in_sid_count: usize, cb_header: T) -> (r:
    Result<(usize, T), BedError>)
    ensures
        r is Ok <==> spec_offsets_fit(
            in_iid_count as int,
            in_sid_count as int,
            cb_header.spec_int(),
            T::spec_max().spec_int(),
        ),
        r matches Ok((d, dt)) ==> d == spec_div4(in_iid_count as int) && dt.spec_int() == d,
        r matches Err(e) ==> e == BedError::IndexesTooBigForFiles(in_iid_count, in_sid_count),
{
    // 4 genotypes per byte so round up without overflow
    let in_iid_count_div4: usize = if in_iid_count > 0 {
        (in_iid_count - 1) / 4 + 1
    } else {
        0
    };
    let in_iid_count_div4_t: T = match T::from_count(in_iid_count_div4) {
        Some(v) => v,
        None => {
            return Err(BedError::IndexesTooBigForFiles(in_iid_count, in_sid_count));
        },
    };
    let in_sid_count_t: T = match T::from_count(in_sid_count) {
        Some(v) => v,
        None => {
            return Err(BedError::IndexesTooBigForFiles(in_iid_count, in_sid_count));
        },
    };
    let m: T = <T as Max>::max();
    proof {
        cb_header.lemma_in_range();
    }
    if in_sid_count > 0 {
        let room: T = m.minus(cb_header).divided_by(in_sid_count_t);
        proof {
            lemma_columns_fit(
                m.spec_int() - cb_header.spec_int(),
                in_sid_count as int,
                in_iid_count_div4 as int,
            );
        }
        if room.less_than(in_iid_count_div4_t) {
            return Err(BedError::IndexesTooBigForFiles(in_iid_count, in_sid_count));
        }
    } else {
        assert(spec_div4(in_iid_count as int) * 0 == 0);
    }
    Ok((in_iid_count_div4, in_iid_count_div4_t))
}

/// `d` columns of `s` bytes fit in `room` bytes exactly when `room / s` is
/// at least `d`.
proof fn lemma_columns_fit(room: int, s: int, d: int)
    requires
        room >= 0,
        s > 0,
        d >= 0,
    ensures
        room / s < d <==> d * s > room,
{
    let q = room / s;
    let r = room % s;
    assert(room == q * s + r && 0 <= r < s) by (nonlinear_arith)
        requires
            q == room / s,
            r == room % s,
            s > 0,
    ;
    assert(q < d ==> d * s >= q * s + s) by (nonlinear_arith)
        requires
            s > 0,
    ;
    assert(q >= d ==> d * s <= q * s) by (nonlinear_arith)
        requires
            s > 0,
    ;
}

/// Whether `i` is an index into an axis of `count` entries: from the front
/// (`0` to `count - 1`) or from the end (`-1` down to `-count`).
pub open spec fn index_ok(count: int, i: int) -> bool {
    -count <= i < count
}

/// The position on the axis that index `i` stands for.
pub open spec fn index_pos(count: int, i: int) -> int {
    if i >= 0 {
        i
    } else {
        count + i
    }
}

/// The position that a signed index stands for, or `None` where it is
/// outside the axis.
pub fn resolve_index(count: usize, i: isize) -> (r: Option<usize>)
    ensures
        r is Some <==> index_ok(count as int, i as int),
        r matches Some(p) ==> p == index_pos(count as int, i as int) && p < count,
{
    if i >= 0 {
        let p: usize = i as usize;
        if p < count {
            Some(p)
        } else {
            None
        }
    } else {
        let back: usize = (-(i + 1)) as usize + 1;
        if back <= count {
            Some(count - back)
        } else {
            None
        }
    }
}

/// Whether every index of a list is an index into an axis of `count`
/// entries.
pub open spec fn all_index_ok(count: int, index: Seq<isize>) -> bool {
    forall|k: int| 0 <= k < index.len() ==> index_ok(count, #[trigger] index[k] as int)
}

/// Whether `k` is the place of the first index of a list that is outside
/// an axis of `count` entries.
pub open spec fn first_bad_index(count: int, index: Seq<isize>, k: int) -> bool {
    &&& 0 <= k < index.len()
    &&& !index_ok(count, index[k] as int)
    &&& forall|h: int| 0 <= h < k ==> index_ok(count, #[trigger] index[h] as int)
}

/// Checks a list of indices to individuals and computes, for each, the byte
/// of a column that holds its call and the shift of the call within that
/// byte. The first index outside the axis is reported.
pub fn check_and_precompute_iid_index(in_iid_count: usize, iid_index: &[isize]) -> (r: Result<
    (Vec<usize>, Vec<u8>),
    BedError,
>)
    ensures
        r is Ok <==> all_index_ok(in_iid_count as int, iid_index@),
        r matches Ok((i_div_4, i_mod_4_times_2)) ==> {
            &&& i_div_4.len() == iid_index.len()
            &&& i_mod_4_times_2.len() == iid_index.len()
            &&& forall|k: int|
                0 <= k < iid_index.len() ==> (#[trigger] i_div_4[k]) == index_pos(
                    in_iid_count as int,
                    iid_index[k] as int,
                ) / 4
            &&& forall|k: int|
                0 <= k < iid_index.len() ==> (#[trigger] i_mod_4_times_2[k]) == index_pos(
                    in_iid_count as int,
                    iid_index[k] as int,
                ) % 4 * 2
        },
        r matches Err(e) ==> exists|k: int|
            first_bad_index(in_iid_count as int, iid_index@, k) && e == BedError::IidIndexTooBig(
                #[trigger] iid_index[k],
            ),
{
    let mut i_div_4_array: Vec<usize> = Vec::new();
    let mut i_mod_4_times_2_array: Vec<u8> = Vec::new();
    let mut k: usize = 0;
    while k < iid_index.len()
        invariant
            k <= iid_index.len(),
            i_div_4_array.len() == k,
            i_mod_4_times_2_array.len() == k,
            forall|h: int| 0 <= h < k ==> index_ok(in_iid_count as int, #[trigger] iid_index[h] as int),
            forall|h: int|
                0 <= h < k ==> (#[trigger] i_div_4_array[h]) == index_pos(
                    in_iid_count as int,
                    iid_index[h] as int,
                ) / 4,
            forall|h: int|
                0 <= h < k ==> (#[trigger] i_mod_4_times_2_array[h]) == index_pos(
                    in_iid_count as int,
                    iid_index[h] as int,
                ) % 4 * 2,
        decreases iid_index.len() - k,
    {
        let in_iid_i_signed: isize = iid_index[k];
        match resolve_index(in_iid_count, in_iid_i_signed) {
            Some(in_iid_i) => {
                i_div_4_array.push(in_iid_i / 4);
                i_mod_4_times_2_array.push((in_iid_i % 4 * 2) as u8);
            },
            None => {
                assert(first_bad_index(in_iid_count as int, iid_index@, k as int));
                return Err(BedError::IidIndexTooBig(in_iid_i_signed));
            },
        }
        k += 1;
    }
    Ok((i_div_4_array, i_mod_4_times_2_array))
}

/// The positions that a list of signed indices stands for, or the first
/// index of the list that is outside the axis.
pub fn resolve_indices(count: usize, index: &[isize]) -> (r: Result<Vec<usize>, isize>)
    ensures
        r is Ok <==> all_index_ok(count as int, index@),
        r matches Ok(pos) ==> {
            &&& pos.len() == index.len()
            &&& forall|k: int|
                0 <= k < index.len() ==> (#[trigger] pos[k]) == index_pos(
                    count as int,
                    index[k] as int,
                ) && pos[k] < count
        },
        r matches Err(x) ==> exists|k: int|
            first_bad_index(count as int, index@, k) && x == #[trigger] index[k],
{
    let mut pos: Vec<usize> = Vec::new();
    let mut k: usize = 0;
    while k < index.len()
        invariant
            k <= index.len(),
            pos.len() == k,
            forall|h: int| 0 <= h < k ==> index_ok(count as int, #[trigger] index[h] as int),
            forall|h: int|
                0 <= h < k ==> (#[trigger] pos[h]) == index_pos(count as int, index[h] as int)
                    && pos[h] < count,
        decreases index.len() - k,
    {
        let signed: isize = index[k];
        match resolve_index(count, signed) {
            Some(p) => {
                pos.push(p);
            },
            None => {
                assert(first_bad_index(count as int, index@, k as int));
                return Err(signed);
            },
        }
        k += 1;
    }
    Ok(pos)
}

} // verus!
