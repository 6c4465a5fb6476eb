//! A reader of a compact genotype file that decodes whole markers, with a
//! swap flag for each, and counts each marker's alleles on the way.
//!
//! The reader holds the file marker by marker. A file that is laid out
//! individual by individual is repacked once, when the reader is made, so
//! that markers are read alike from either layout.

use crate::bed_crate::{
    code_at, disk_addressable, disk_length_ok, file_code, file_major_count, file_minor_count,
    file_ok, header_ok, lemma_offset_in_body, mode_ok, open_and_check,
};
use crate::bed_error::BedError;
use crate::bed_index::{
    all_index_ok, check_and_precompute_iid_index, first_bad_index, index_ok, index_pos,
    resolve_indices, spec_div4, try_div_4, BED_FILE_MAGIC1, BED_FILE_MAGIC2, CB_HEADER_U64,
    CB_HEADER_USIZE, MISSING_I8,
};
use crate::bit_op::{
    lane_code, lemma_lane_code_bound, lemma_shift_is_lane, set_up_two_bits_to_value,
    spec_two_bits_to_value,
};
use crate::block::{block_fits, GenoBlock};
use crate::freq::{byte_vec_to_freq, counts_of, FreqCount};
use vstd::prelude::*;
use vstd::slice::slice_subrange;

verus! {

/// The byte that packs four codes, the first in the lowest two bits.
pub open spec fn pack4(c0: u8, c1: u8, c2: u8, c3: u8) -> u8 {
    c0 | (c1 << 2) | (c2 << 4) | (c3 << 6)
}

/// Unpacking a packed byte gives back the four codes.
pub proof fn lemma_pack4_lanes(c0: u8, c1: u8, c2: u8, c3: u8)
    requires
        c0 < 4,
        c1 < 4,
        c2 < 4,
        c3 < 4,
    ensures
        lane_code(pack4(c0, c1, c2, c3), 0) == c0,
        lane_code(pack4(c0, c1, c2, c3), 1) == c1,
        lane_code(pack4(c0, c1, c2, c3), 2) == c2,
        lane_code(pack4(c0, c1, c2, c3), 3) == c3,
{
    let p: u8 = c0 | (c1 << 2) | (c2 << 4) | (c3 << 6);
    assert(p & 3 == c0 && (p >> 2) & 3 == c1 && (p >> 4) & 3 == c2 && (p >> 6) & 3 == c3)
        by (bit_vector)
        requires
            p == c0 | (c1 << 2) | (c2 << 4) | (c3 << 6),
            c0 < 4,
            c1 < 4,
            c2 < 4,
            c3 < 4,
    ;
}

/// The code of individual `iid` at marker `sid`, and the code zero beyond
/// the last individual.
pub open spec fn padded_code(bytes: Seq<u8>, iid_count: int, sid_count: int, sid: int, iid: int) -> u8 {
    if iid < iid_count {
        file_code(bytes, iid_count, sid_count, sid, iid)
    } else {
        0
    }
}

/// The packed calls of marker `sid`, four individuals to a byte: the bytes
/// of its column where the file holds one column per marker, and else its
/// calls gathered from the columns of the individuals, with the calls
/// beyond the last individual set to the code zero.
pub open spec fn file_column(bytes: Seq<u8>, iid_count: int, sid_count: int, sid: int) -> Seq<u8> {
    if bytes[2] == 1 {
        bytes.subrange(
            CB_HEADER_USIZE + sid * spec_div4(iid_count),
            CB_HEADER_USIZE + sid * spec_div4(iid_count) + spec_div4(iid_count),
        )
    } else {
        Seq::new(
            spec_div4(iid_count) as nat,
            |k: int|
                pack4(
                    padded_code(bytes, iid_count, sid_count, sid, 4 * k),
                    padded_code(bytes, iid_count, sid_count, sid, 4 * k + 1),
                    padded_code(bytes, iid_count, sid_count, sid, 4 * k + 2),
                    padded_code(bytes, iid_count, sid_count, sid, 4 * k + 3),
                ),
        )
    }
}

/// In a well-formed file of either layout, the packed calls of a marker
/// hold, for each individual, that individual's code at the marker.
pub proof fn lemma_column_holds_codes(
    bytes: Seq<u8>,
    iid_count: int,
    sid_count: int,
    sid: int,
    iid: int,
)
    requires
        file_ok(bytes, iid_count, sid_count),
        0 <= sid < sid_count,
        0 <= iid < iid_count,
    ensures
        file_column(bytes, iid_count, sid_count, sid).len() == spec_div4(iid_count),
        0 <= iid / 4 < spec_div4(iid_count),
        lane_code(file_column(bytes, iid_count, sid_count, sid)[iid / 4], iid % 4) == file_code(
            bytes,
            iid_count,
            sid_count,
            sid,
            iid,
        ),
{
    let d = spec_div4(iid_count);
    if bytes[2] == 1 {
        lemma_offset_in_body(d, sid_count, sid, iid / 4);
        assert(sid * d + d <= d * sid_count) by (nonlinear_arith)
            requires
                0 <= sid < sid_count,
                d >= 0,
        ;
    } else {
        let k = iid / 4;
        let c0 = padded_code(bytes, iid_count, sid_count, sid, 4 * k);
        let c1 = padded_code(bytes, iid_count, sid_count, sid, 4 * k + 1);
        let c2 = padded_code(bytes, iid_count, sid_count, sid, 4 * k + 2);
        let c3 = padded_code(bytes, iid_count, sid_count, sid, 4 * k + 3);
        lemma_padded_code_bound(bytes, iid_count, sid_count, sid, 4 * k);
        lemma_padded_code_bound(bytes, iid_count, sid_count, sid, 4 * k + 1);
        lemma_padded_code_bound(bytes, iid_count, sid_count, sid, 4 * k + 2);
        lemma_padded_code_bound(bytes, iid_count, sid_count, sid, 4 * k + 3);
        lemma_pack4_lanes(c0, c1, c2, c3);
    }
}

/// A padded code is below four.
pub proof fn lemma_padded_code_bound(
    bytes: Seq<u8>,
    iid_count: int,
    sid_count: int,
    sid: int,
    iid: int,
)
    ensures
        padded_code(bytes, iid_count, sid_count, sid, iid) < 4,
{
    if iid < iid_count {
        if bytes[2] == 1 {
            lemma_lane_code_bound(
                bytes[CB_HEADER_USIZE + sid * spec_div4(iid_count) + iid / 4],
                iid % 4,
            );
        } else {
            lemma_lane_code_bound(
                bytes[CB_HEADER_USIZE + iid * spec_div4(sid_count) + sid / 4],
                sid % 4,
            );
        }
    }
}

/// The code of individual `base + lane` at marker `sid` in a file that is
/// laid out individual by individual, and zero beyond the last individual.
fn gather_code(
    bytes: &[u8],
    iid_count: usize,
    sid_count: usize,
    div4_in: usize,
    sid: usize,
    base: usize,
    lane: usize,
) -> (c: u8)
    requires
        bytes@.len() == div4_in * iid_count + CB_HEADER_USIZE,
        div4_in == spec_div4(sid_count as int),
        bytes@[2] == 0,
        sid < sid_count,
        base < iid_count,
        lane < 4,
    ensures
        c == padded_code(bytes@, iid_count as int, sid_count as int, sid as int, base + lane),
        c < 4,
{
    if lane < iid_count - base {
        let iid: usize = base + lane;
        code_at(bytes, div4_in, iid_count, iid, sid / 4, (sid % 4 * 2) as u8)
    } else {
        0
    }
}

/// Repacks a file that is laid out individual by individual into the
/// layout with one column per marker.
fn to_marker_major(
    bytes: &[u8],
    iid_count: usize,
    sid_count: usize,
    div4_in: usize,
    div4_out: usize,
) -> (out: Vec<u8>)
    requires
        bytes@.len() == div4_in * iid_count + CB_HEADER_USIZE,
        div4_in == spec_div4(sid_count as int),
        div4_out == spec_div4(iid_count as int),
        bytes@[2] == 0,
        div4_out * sid_count + CB_HEADER_USIZE <= usize::MAX,
    ensures
        out@.len() == div4_out * sid_count + CB_HEADER_USIZE,
        out@[0] == BED_FILE_MAGIC1,
        out@[1] == BED_FILE_MAGIC2,
        out@[2] == 1,
        forall|s: int|
            0 <= s < sid_count ==> #[trigger] out@.subrange(
                CB_HEADER_USIZE + s * div4_out,
                CB_HEADER_USIZE + s * div4_out + div4_out,
            ) == file_column(bytes@, iid_count as int, sid_count as int, s),
{
    let mut out: Vec<u8> = Vec::new();
    out.push(BED_FILE_MAGIC1);
    out.push(BED_FILE_MAGIC2);
    out.push(1);
    let mut s: usize = 0;
    assert(0 * div4_out == 0);
    while s < sid_count
        invariant
            s <= sid_count,
            bytes@.len() == div4_in * iid_count + CB_HEADER_USIZE,
            div4_in == spec_div4(sid_count as int),
            div4_out == spec_div4(iid_count as int),
            bytes@[2] == 0,
            div4_out * sid_count + CB_HEADER_USIZE <= usize::MAX,
            out@.len() == s * div4_out + CB_HEADER_USIZE,
            out@[0] == BED_FILE_MAGIC1,
            out@[1] == BED_FILE_MAGIC2,
            out@[2] == 1,
            forall|t: int|
                0 <= t < s ==> #[trigger] out@.subrange(
                    CB_HEADER_USIZE + t * div4_out,
                    CB_HEADER_USIZE + t * div4_out + div4_out,
                ) == file_column(bytes@, iid_count as int, sid_count as int, t),
        decreases sid_count - s,
    {
        let mut col: Vec<u8> = Vec::new();
        let mut k: usize = 0;
        while k < div4_out
            invariant
                k <= div4_out,
                s < sid_count,
                bytes@.len() == div4_in * iid_count + CB_HEADER_USIZE,
                div4_in == spec_div4(sid_count as int),
                div4_out == spec_div4(iid_count as int),
                bytes@[2] == 0,
                col@.len() == k,
                forall|h: int|
                    0 <= h < k ==> #[trigger] col@[h] == file_column(
                        bytes@,
                        iid_count as int,
                        sid_count as int,
                        s as int,
                    )[h],
            decreases div4_out - k,
        {
            let base: usize = 4 * k;
            let c0: u8 = gather_code(bytes, iid_count, sid_count, div4_in, s, base, 0);
            let c1: u8 = gather_code(bytes, iid_count, sid_count, div4_in, s, base, 1);
            let c2: u8 = gather_code(bytes, iid_count, sid_count, div4_in, s, base, 2);
            let c3: u8 = gather_code(bytes, iid_count, sid_count, div4_in, s, base, 3);
            let b: u8 = c0 | (c1 << 2) | (c2 << 4) | (c3 << 6);
            assert(b == pack4(c0, c1, c2, c3));
            col.push(b);
            k += 1;
        }
        assert(col@ =~= file_column(bytes@, iid_count as int, sid_count as int, s as int));
        let ghost before = out@;
        let ghost column = col@;
        out.append(&mut col);
        proof {
            let d = div4_out as int;
            assert((s + 1) * d == s * d + d) by (nonlinear_arith);
            assert((s + 1) * d <= d * sid_count) by (nonlinear_arith)
                requires
                    s + 1 <= sid_count,
                    d >= 0,
            ;
            assert(out@ == before + column);
            assert forall|t: int| 0 <= t < s + 1 implies #[trigger] out@.subrange(
                CB_HEADER_USIZE + t * d,
                CB_HEADER_USIZE + t * d + d,
            ) == file_column(bytes@, iid_count as int, sid_count as int, t) by {
                if t < s {
                    assert(t * d + d <= s * d) by (nonlinear_arith)
                        requires
                            0 <= t < s,
                            d >= 0,
                    ;
                    assert(0 <= t * d) by (nonlinear_arith)
                        requires
                            0 <= t,
                            d >= 0,
                    ;
                    assert(out@.subrange(CB_HEADER_USIZE + t * d, CB_HEADER_USIZE + t * d + d)
                        =~= before.subrange(
                        CB_HEADER_USIZE + t * d,
                        CB_HEADER_USIZE + t * d + d,
                    ));
                } else {
                    assert(out@.subrange(CB_HEADER_USIZE + t * d, CB_HEADER_USIZE + t * d + d)
                        =~= column);
                }
            }
        }
        s += 1;
    }
    proof {
        assert(s * div4_out == div4_out * sid_count) by (nonlinear_arith)
            requires
                s == sid_count,
        ;
    }
    out
}

/// The genotype value of a code: the number of copies of the first allele,
/// or of the second allele where `swap` is set, and the missing value for
/// the missing code either way.
pub open spec fn spec_genotype(code: u8, swap: bool) -> i8 {
    let v = spec_two_bits_to_value(true, MISSING_I8, code);
    if swap && code != 1 {
        (2 - v) as i8
    } else {
        v
    }
}

/// The swap transform of a genotype value: `2 - v`, and the missing value
/// unchanged.
pub open spec fn spec_swap(v: i8) -> i8 {
    if v == MISSING_I8 {
        v
    } else {
        (2 - v) as i8
    }
}

/// For every code, the swapped genotype value is the swap transform of
/// the plain one, and it is the value that the other lookup table gives.
pub proof fn lemma_swap_of_code(code: u8)
    ensures
        spec_genotype(code, true) == spec_swap(spec_genotype(code, false)),
        spec_genotype(code, true) == spec_two_bits_to_value(false, MISSING_I8, code),
{
}

/// Whether a table is a lookup table from codes to genotype values: the
/// heterozygous code gives one copy, the two homozygous codes give none and
/// two, either way round, and the missing code gives any value that the
/// caller has chosen to stand for a missing call.
pub open spec fn is_lookup_table(table: Seq<i8>) -> bool {
    &&& table.len() == 4
    &&& table[2] == 1
    &&& (table[0] == 0 && table[3] == 2) || (table[0] == 2 && table[3] == 0)
}

/// The value that a lookup table gives a code, swapped or not: for the
/// missing code the table's missing value either way, and for an observed
/// code the table's value or, swapped, two less that value.
pub open spec fn spec_table_value(table: Seq<i8>, code: u8, swap: bool) -> i8 {
    if code != 1 && swap {
        (2 - table[code as int]) as i8
    } else {
        table[code as int]
    }
}

/// Under either lookup table and whatever value stands for a missing
/// call, the swapped value of a code is two less its plain value, and the
/// missing code keeps the missing value.
pub proof fn lemma_swap_under_either_table(table: Seq<i8>, code: u8)
    requires
        is_lookup_table(table),
        code < 4,
    ensures
        code == 1 ==> spec_table_value(table, code, true) == table[1] && spec_table_value(
            table,
            code,
            false,
        ) == table[1],
        code != 1 ==> spec_table_value(table, code, true) == 2 - spec_table_value(
            table,
            code,
            false,
        ),
        code != 1 ==> 0 <= spec_table_value(table, code, false) <= 2,
{
}

/// The table that counts the first allele, with the missing value of
/// `i8` genotypes, is a lookup table, and what it gives a code is the
/// genotype value of the code.
pub proof fn lemma_reader_table(table: Seq<i8>, code: u8, swap: bool)
    requires
        table.len() == 4,
        forall|c: u8|
            c < 4 ==> #[trigger] table[c as int] == spec_two_bits_to_value(true, MISSING_I8, c),
        code < 4,
    ensures
        is_lookup_table(table),
        spec_table_value(table, code, swap) == spec_genotype(code, swap),
{
    assert(table[0u8 as int] == spec_two_bits_to_value(true, MISSING_I8, 0u8));
    assert(table[2u8 as int] == spec_two_bits_to_value(true, MISSING_I8, 2u8));
    assert(table[3u8 as int] == spec_two_bits_to_value(true, MISSING_I8, 3u8));
    assert(table[code as int] == spec_two_bits_to_value(true, MISSING_I8, code));
}

/// The genotype value of a code under a lookup table and a swap flag.
fn decode_code(bit_map: &[i8; 4], code: u8, swap_flag: bool) -> (v: i8)
    requires
        code < 4,
        is_lookup_table(bit_map@),
    ensures
        v == spec_table_value(bit_map@, code, swap_flag),
{
    let g: i8 = bit_map[code as usize];
    assert(g == bit_map@[code as int]);
    if swap_flag && code != 1 {
        2 - g
    } else {
        g
    }
}

/// Decodes a whole column of packed calls into column `j` of a block, one
/// row per individual; the padding calls of the last byte are left out.
///
/// The lookup table may count either allele and may hold any value for the
/// missing code. With `swap_flag` each observed value `v` is put down as
/// `2 - v`; a missing call is the table's missing value either way.
pub fn byte_vec_to_arr(
    byte_vec: &[u8],
    swap_flag: bool,
    j: usize,
    bit_map: &[i8; 4],
    val: &mut GenoBlock,
)
    requires
        old(val).wf(),
        j < old(val).spec_ncols(),
        byte_vec@.len() == spec_div4(old(val).spec_nrows() as int),
        is_lookup_table(bit_map@),
    ensures
        final(val).wf(),
        final(val).spec_nrows() == old(val).spec_nrows(),
        final(val).spec_ncols() == old(val).spec_ncols(),
        forall|i: int|
            0 <= i < old(val).spec_nrows() ==> (#[trigger] final(val)@[i])[j as int]
                == spec_table_value(bit_map@, lane_code(byte_vec@[i / 4], i % 4), swap_flag),
        forall|i: int, jj: int|
            0 <= i < old(val).spec_nrows() && 0 <= jj < old(val).spec_ncols() && jj != j ==> (
            #[trigger] final(val)@[i][jj]) == old(val)@[i][jj],
{
    let rows: usize = val.nrows();
    let n_bytes: usize = byte_vec.len();
    let mut k: usize = 0;
    while k < n_bytes
        invariant
            k <= n_bytes,
            n_bytes == byte_vec@.len(),
            n_bytes == spec_div4(rows as int),
            val.wf(),
            val.spec_nrows() == rows,
            val.spec_nrows() == old(val).spec_nrows(),
            val.spec_ncols() == old(val).spec_ncols(),
            j < val.spec_ncols(),
            is_lookup_table(bit_map@),
            forall|i: int|
                0 <= i < rows && i < 4 * k ==> (#[trigger] val@[i])[j as int]
                    == spec_table_value(
                    bit_map@,
                    lane_code(byte_vec@[i / 4], i % 4),
                    swap_flag,
                ),
            forall|i: int, jj: int|
                0 <= i < rows && 0 <= jj < val.spec_ncols() && jj != j ==> (
                #[trigger] val@[i][jj]) == old(val)@[i][jj],
        decreases n_bytes - k,
    {
        let byte: u8 = byte_vec[k];
        let base: usize = 4 * k;
        let mut lane: usize = 0;
        while lane < 4
            invariant
                lane <= 4,
                k < n_bytes,
                base == 4 * k,
                base < rows,
                byte == byte_vec@[k as int],
                n_bytes == byte_vec@.len(),
                n_bytes == spec_div4(rows as int),
                val.wf(),
                val.spec_nrows() == rows,
                val.spec_nrows() == old(val).spec_nrows(),
                val.spec_ncols() == old(val).spec_ncols(),
                j < val.spec_ncols(),
                is_lookup_table(bit_map@),
                forall|i: int|
                    0 <= i < rows && i < base + lane ==> (#[trigger] val@[i])[j as int]
                        == spec_table_value(bit_map@, lane_code(byte_vec@[i / 4], i % 4), swap_flag),
                forall|i: int, jj: int|
                    0 <= i < rows && 0 <= jj < val.spec_ncols() && jj != j ==> (
                    #[trigger] val@[i][jj]) == old(val)@[i][jj],
            decreases 4 - lane,
        {
            if lane < rows - base {
                let i: usize = base + lane;
                let shift: u8 = (lane * 2) as u8;
                proof {
                    lemma_shift_is_lane(byte, shift);
                }
                let code: u8 = (byte >> shift) & 3;
                let v: i8 = decode_code(bit_map, code, swap_flag);
                let ghost before = val@;
                val.put(i, j, v);
                proof {
                    assert(val@[i as int][j as int] == v);
                    assert forall|ii: int, jj: int|
                        0 <= ii < rows && 0 <= jj < val.spec_ncols() && !(ii == i && jj == j)
                            implies (#[trigger] val@[ii][jj]) == before[ii][jj] by {}
                    assert forall|ii: int| 0 <= ii < rows && ii < base + lane + 1 implies (
                    #[trigger] val@[ii])[j as int] == spec_table_value(
                        bit_map@,
                        lane_code(byte_vec@[ii / 4], ii % 4),
                        swap_flag,
                    ) by {
                        if ii != i {
                            assert(val@[ii][j as int] == before[ii][j as int]);
                        }
                    }
                }
            }
            lane += 1;
        }
        k += 1;
    }
}

/// A reader of one compact genotype file, made from the file's bytes and
/// the two counts of its metadata tables.
pub struct BedSnpReader {
    bytes: Vec<u8>,
    in_iid_count_div4: usize,
    in_iid_count: usize,
    in_sid_count: usize,
    bit_map: [i8; 4],
}

impl BedSnpReader {
    /// The number of individuals.
    pub closed spec fn spec_iid_count(&self) -> nat {
        self.in_iid_count as nat
    }

    /// The number of markers.
    pub closed spec fn spec_sid_count(&self) -> nat {
        self.in_sid_count as nat
    }

    /// The packed calls of marker `sid`, four individuals to a byte.
    pub closed spec fn spec_column(&self, sid: int) -> Seq<u8> {
        self.bytes@.subrange(
            CB_HEADER_USIZE + sid * self.in_iid_count_div4,
            CB_HEADER_USIZE + sid * self.in_iid_count_div4 + self.in_iid_count_div4,
        )
    }

    /// The reader holds one column of the right length for each marker, and
    /// the lookup table that counts the first allele.
    pub closed spec fn wf(&self) -> bool {
        &&& self.bytes@.len() == self.in_iid_count_div4 * self.in_sid_count + CB_HEADER_USIZE
        &&& self.in_iid_count_div4 == spec_div4(self.in_iid_count as int)
        &&& forall|code: u8|
            code < 4 ==> #[trigger] self.bit_map@[code as int] == spec_two_bits_to_value(
                true,
                MISSING_I8,
                code,
            )
    }

    /// The code of individual `iid` at marker `sid`.
    pub open spec fn spec_code(&self, sid: int, iid: int) -> u8 {
        lane_code(self.spec_column(sid)[iid / 4], iid % 4)
    }

    /// Makes a reader from the bytes of a file and the numbers of
    /// individuals and markers.
    ///
    /// The header is checked first, then the orientation byte, then that the
    /// counts stay addressable, then the length of the file. A file that is
    /// laid out individual by individual is repacked by marker; where the
    /// repacked file would be longer than memory can index, the counts are
    /// reported as too big.
    pub fn new(bytes: Vec<u8>, in_iid_count: usize, in_sid_count: usize) -> (r: Result<
        BedSnpReader,
        BedError,
    >)
        ensures
            spec_open_error(bytes@, in_iid_count as int, in_sid_count as int) matches Some(e) ==> r
                == Err::<BedSnpReader, BedError>(e),
            spec_open_error(bytes@, in_iid_count as int, in_sid_count as int) is None ==> (
            r matches Ok(reader) && {
                &&& reader.wf()
                &&& reader.spec_iid_count() == in_iid_count
                &&& reader.spec_sid_count() == in_sid_count
                &&& forall|sid: int|
                    0 <= sid < in_sid_count ==> #[trigger] reader.spec_column(sid) == file_column(
                        bytes@,
                        in_iid_count as int,
                        in_sid_count as int,
                        sid,
                    )
                &&& forall|sid: int, iid: int|
                    0 <= sid < in_sid_count && 0 <= iid < in_iid_count
                        ==> #[trigger] reader.spec_code(sid, iid) == file_code(
                        bytes@,
                        in_iid_count as int,
                        in_sid_count as int,
                        sid,
                        iid,
                    )
            }),
    {
        let bytes_vector: Vec<u8> = match open_and_check(bytes.as_slice()) {
            Ok(v) => v,
            Err(e) => {
                return Err(e);
            },
        };
        assert(bytes_vector@[2] == bytes@[2]);
        let mode: u8 = bytes_vector[2];
        if mode != 0 && mode != 1 {
            return Err(BedError::BadMode);
        }
        let (minor_count, major_count) = if mode == 0 {
            (in_sid_count, in_iid_count)
        } else {
            (in_iid_count, in_sid_count)
        };
        let (minor_div4, minor_div4_u64) = match try_div_4(
            minor_count,
            major_count,
            CB_HEADER_U64,
        ) {
            Ok(v) => v,
            Err(e) => {
                return Err(e);
            },
        };
        // "as" and math is safe because of early checks
        let file_len: u64 = bytes.len() as u64;
        assert(minor_div4_u64 * (major_count as u64) == spec_div4(minor_count as int)
            * major_count);
        let file_len2: u64 = minor_div4_u64 * (major_count as u64) + CB_HEADER_U64;
        if file_len != file_len2 {
            return Err(BedError::IllFormed);
        }
        let bit_map: [i8; 4] = set_up_two_bits_to_value(true, MISSING_I8);
        let ghost file = bytes@;
        if mode == 1 {
            let reader = BedSnpReader {
                bytes,
                in_iid_count_div4: minor_div4,
                in_iid_count,
                in_sid_count,
                bit_map,
            };
            proof {
                assert forall|sid: int, iid: int|
                    0 <= sid < in_sid_count && 0 <= iid < in_iid_count
                        implies #[trigger] reader.spec_code(sid, iid) == file_code(
                    file,
                    in_iid_count as int,
                    in_sid_count as int,
                    sid,
                    iid,
                ) by {
                    lemma_column_holds_codes(
                        file,
                        in_iid_count as int,
                        in_sid_count as int,
                        sid,
                        iid,
                    );
                }
            }
            Ok(reader)
        } else {
            let out_div4: usize = if in_iid_count > 0 {
                (in_iid_count - 1) / 4 + 1
            } else {
                0
            };
            let fits: bool = match out_div4.checked_mul(in_sid_count) {
                Some(n) => n <= usize::MAX - CB_HEADER_USIZE,
                None => false,
            };
            if !fits {
                return Err(BedError::IndexesTooBigForFiles(in_iid_count, in_sid_count));
            }
            let repacked: Vec<u8> = to_marker_major(
                bytes.as_slice(),
                in_iid_count,
                in_sid_count,
                minor_div4,
                out_div4,
            );
            let reader = BedSnpReader {
                bytes: repacked,
                in_iid_count_div4: out_div4,
                in_iid_count,
                in_sid_count,
                bit_map,
            };
            proof {
                assert forall|sid: int, iid: int|
                    0 <= sid < in_sid_count && 0 <= iid < in_iid_count
                        implies #[trigger] reader.spec_code(sid, iid) == file_code(
                    file,
                    in_iid_count as int,
                    in_sid_count as int,
                    sid,
                    iid,
                ) by {
                    assert(reader.spec_column(sid) == file_column(
                        file,
                        in_iid_count as int,
                        in_sid_count as int,
                        sid,
                    ));
                    lemma_column_holds_codes(
                        file,
                        in_iid_count as int,
                        in_sid_count as int,
                        sid,
                        iid,
                    );
                }
            }
            Ok(reader)
        }
    }

    /// The genotype value of individual `iid` at marker `sid`, swapped or
    /// not.
    pub open spec fn spec_cell(&self, sid: int, iid: int, swap: bool) -> i8 {
        spec_genotype(self.spec_code(sid, iid), swap)
    }

    /// Whether `cells` is the block of every individual, in order, at the
    /// markers `sid_idxs` with the swap flags `swap`.
    pub open spec fn is_full_decode(
        &self,
        sid_idxs: Seq<isize>,
        swap: Seq<bool>,
        cells: Seq<Seq<i8>>,
    ) -> bool {
        &&& cells.len() == self.spec_iid_count()
        &&& forall|i: int|
            0 <= i < self.spec_iid_count() ==> (#[trigger] cells[i]).len() == sid_idxs.len()
        &&& forall|i: int, j: int|
            0 <= i < self.spec_iid_count() && 0 <= j < sid_idxs.len() ==> (#[trigger] cells[i][j])
                == self.spec_cell(
                index_pos(self.spec_sid_count() as int, sid_idxs[j] as int),
                i,
                swap[j],
            )
    }

    /// Whether `cells` is the block of the individuals `iid_idxs` at the
    /// markers `sid_idxs` with the swap flags `swap`.
    pub open spec fn is_listed_decode(
        &self,
        sid_idxs: Seq<isize>,
        iid_idxs: Seq<isize>,
        swap: Seq<bool>,
        cells: Seq<Seq<i8>>,
    ) -> bool {
        &&& cells.len() == iid_idxs.len()
        &&& forall|i: int| 0 <= i < iid_idxs.len() ==> (#[trigger] cells[i]).len() == sid_idxs.len()
        &&& forall|i: int, j: int|
            0 <= i < iid_idxs.len() && 0 <= j < sid_idxs.len() ==> (#[trigger] cells[i][j])
                == self.spec_cell(
                index_pos(self.spec_sid_count() as int, sid_idxs[j] as int),
                index_pos(self.spec_iid_count() as int, iid_idxs[i] as int),
                swap[j],
            )
    }

    /// The packed calls of the marker at position `sid_idx`.
    pub fn read_snp(&self, sid_idx: usize) -> (col: &[u8])
        requires
            self.wf(),
            sid_idx < self.spec_sid_count(),
        ensures
            col@ == self.spec_column(sid_idx as int),
            col@.len() == spec_div4(self.spec_iid_count() as int),
    {
        proof {
            let d = self.in_iid_count_div4 as int;
            assert(sid_idx * d + d <= d * self.in_sid_count && 0 <= sid_idx * d)
                by (nonlinear_arith)
                requires
                    0 <= sid_idx < self.in_sid_count,
                    d >= 0,
            ;
        }
        let len: usize = self.bytes.len();
        assert(sid_idx * self.in_iid_count_div4 + self.in_iid_count_div4 + CB_HEADER_USIZE <= len);
        let start: usize = CB_HEADER_USIZE + sid_idx * self.in_iid_count_div4;
        slice_subrange(self.bytes.as_slice(), start, start + self.in_iid_count_div4)
    }

    /// Decodes every individual at the markers at the positions `sid_pos`
    /// and, where `count` is set, counts the alleles of each marker.
    fn read_columns(&self, sid_pos: &Vec<usize>, swap_vec: &[bool], count: bool) -> (r: (
        GenoBlock,
        Vec<FreqCount>,
    ))
        requires
            self.wf(),
            swap_vec@.len() == sid_pos@.len(),
            block_fits(self.spec_iid_count() as int, sid_pos@.len() as int),
            forall|j: int| 0 <= j < sid_pos@.len() ==> (#[trigger] sid_pos@[j]) < self.spec_sid_count(),
        ensures
            r.0.wf(),
            r.0.spec_nrows() == self.spec_iid_count(),
            r.0.spec_ncols() == sid_pos@.len(),
            forall|i: int, j: int|
                0 <= i < self.spec_iid_count() && 0 <= j < sid_pos@.len() ==> (#[trigger] r.0@[i][j])
                    == self.spec_cell(sid_pos@[j] as int, i, swap_vec@[j]),
            count ==> r.1@.len() == sid_pos@.len(),
            count ==> forall|j: int|
                0 <= j < sid_pos@.len() ==> counts_of(
                    self.spec_column(sid_pos@[j] as int),
                    #[trigger] r.1@[j],
                ),
            !count ==> r.1@.len() == 0,
    {
        let n: usize = sid_pos.len();
        let made: Option<GenoBlock> = GenoBlock::new(self.in_iid_count, n);
        let mut val: GenoBlock = made.unwrap();
        let mut freq_vec: Vec<FreqCount> = Vec::new();
        let mut j: usize = 0;
        // read by each snp
        while j < n
            invariant
                j <= n,
                n == sid_pos@.len(),
                swap_vec@.len() == n,
                self.wf(),
                val.wf(),
                val.spec_nrows() == self.spec_iid_count(),
                val.spec_ncols() == n,
                forall|h: int| 0 <= h < n ==> (#[trigger] sid_pos@[h]) < self.spec_sid_count(),
                forall|i: int, h: int|
                    0 <= i < self.spec_iid_count() && 0 <= h < j ==> (#[trigger] val@[i][h])
                        == self.spec_cell(sid_pos@[h] as int, i, swap_vec@[h]),
                count ==> freq_vec@.len() == j,
                count ==> forall|h: int|
                    0 <= h < j ==> counts_of(
                        self.spec_column(sid_pos@[h] as int),
                        #[trigger] freq_vec@[h],
                    ),
                !count ==> freq_vec@.len() == 0,
            decreases n - j,
        {
            // read
            let byte_vec: &[u8] = self.read_snp(sid_pos[j]);
            // calculate freq
            if count {
                let freq: FreqCount = byte_vec_to_freq(byte_vec);
                freq_vec.push(freq);
            }
            // into array
            let ghost before = val@;
            proof {
                lemma_reader_table(self.bit_map@, 0, false);
            }
            byte_vec_to_arr(byte_vec, swap_vec[j], j, &self.bit_map, &mut val);
            proof {
                assert forall|i: int, h: int|
                    0 <= i < self.spec_iid_count() && 0 <= h < j + 1 implies (
                #[trigger] val@[i][h]) == self.spec_cell(sid_pos@[h] as int, i, swap_vec@[h]) by {
                    if h < j {
                        assert(val@[i][h] == before[i][h]);
                    } else {
                        let code = lane_code(byte_vec@[i / 4], i % 4);
                        lemma_lane_code_bound(byte_vec@[i / 4], i % 4);
                        lemma_reader_table(self.bit_map@, code, swap_vec@[j as int]);
                        assert(val@[i][j as int] == spec_table_value(
                            self.bit_map@,
                            code,
                            swap_vec@[j as int],
                        ));
                    }
                }
            }
            j += 1;
        }
        (val, freq_vec)
    }

    /// Checks the flags and the marker indices of a request and resolves
    /// the indices to positions.
    fn check_request(&self, sid_idxs: &[isize], swap_vec: &[bool]) -> (r: Result<
        Vec<usize>,
        BedError,
    >)
        requires
            self.wf(),
        ensures
            swap_vec@.len() != sid_idxs@.len() ==> r == Err::<Vec<usize>, BedError>(
                BedError::BoolArrayVectorWrongLength(
                    sid_idxs@.len() as usize,
                    swap_vec@.len() as usize,
                ),
            ),
            swap_vec@.len() == sid_idxs@.len() && !all_index_ok(
                self.spec_sid_count() as int,
                sid_idxs@,
            ) ==> exists|k: int|
                first_bad_index(self.spec_sid_count() as int, sid_idxs@, k) && r == Err::<
                    Vec<usize>,
                    BedError,
                >(BedError::SidIndexTooBig(#[trigger] sid_idxs@[k])),
            swap_vec@.len() == sid_idxs@.len() && all_index_ok(
                self.spec_sid_count() as int,
                sid_idxs@,
            ) ==> (r matches Ok(pos) && {
                &&& pos@.len() == sid_idxs@.len()
                &&& forall|j: int|
                    0 <= j < sid_idxs@.len() ==> (#[trigger] pos@[j]) == index_pos(
                        self.spec_sid_count() as int,
                        sid_idxs@[j] as int,
                    ) && pos@[j] < self.spec_sid_count()
            }),
    {
        if swap_vec.len() != sid_idxs.len() {
            return Err(BedError::BoolArrayVectorWrongLength(sid_idxs.len(), swap_vec.len()));
        }
        match resolve_indices(self.in_sid_count, sid_idxs) {
            Ok(pos) => Ok(pos),
            Err(x) => Err(BedError::SidIndexTooBig(x)),
        }
    }

    /// Decodes every individual, in order, at the markers `sid_idxs`, each
    /// swapped where its flag in `swap_vec` is set, and counts the alleles
    /// of each marker.
    ///
    /// The block has one row per individual: the padding calls of a
    /// column's last byte are not part of it.
    pub fn read_to_ndarray(&self, sid_idxs: &[isize], swap_vec: &[bool]) -> (r: Result<
        (GenoBlock, Vec<FreqCount>),
        BedError,
    >)
        requires
            self.wf(),
            block_fits(self.spec_iid_count() as int, sid_idxs@.len() as int),
        ensures
            swap_vec@.len() != sid_idxs@.len() ==> r == Err::<
                (GenoBlock, Vec<FreqCount>),
                BedError,
            >(
                BedError::BoolArrayVectorWrongLength(
                    sid_idxs@.len() as usize,
                    swap_vec@.len() as usize,
                ),
            ),
            swap_vec@.len() == sid_idxs@.len() && !all_index_ok(
                self.spec_sid_count() as int,
                sid_idxs@,
            ) ==> exists|k: int|
                first_bad_index(self.spec_sid_count() as int, sid_idxs@, k) && r == Err::<
                    (GenoBlock, Vec<FreqCount>),
                    BedError,
                >(BedError::SidIndexTooBig(#[trigger] sid_idxs@[k])),
            swap_vec@.len() == sid_idxs@.len() && all_index_ok(
                self.spec_sid_count() as int,
                sid_idxs@,
            ) ==> (r matches Ok((val, freq_vec)) && {
                &&& val.wf()
                &&& val.spec_nrows() == self.spec_iid_count()
                &&& val.spec_ncols() == sid_idxs@.len()
                &&& self.is_full_decode(sid_idxs@, swap_vec@, val@)
                &&& freq_vec@.len() == sid_idxs@.len()
                &&& forall|j: int|
                    0 <= j < sid_idxs@.len() ==> counts_of(
                        self.spec_column(
                            index_pos(self.spec_sid_count() as int, sid_idxs@[j] as int),
                        ),
                        #[trigger] freq_vec@[j],
                    )
            }),
    {
        let sid_pos: Vec<usize> = match self.check_request(sid_idxs, swap_vec) {
            Ok(v) => v,
            Err(e) => {
                return Err(e);
            },
        };
        let (val, freq_vec) = self.read_columns(&sid_pos, swap_vec, true);
        Ok((val, freq_vec))
    }

    /// Decodes every individual, in order, at the markers `sid_idxs`, each
    /// swapped where its flag in `swap_vec` is set, for a caller that
    /// brings the markers' frequencies along and needs no counts.
    pub fn read_to_ndarray_freq(&self, sid_idxs: &[isize], swap_vec: &[bool]) -> (r: Result<
        GenoBlock,
        BedError,
    >)
        requires
            self.wf(),
            block_fits(self.spec_iid_count() as int, sid_idxs@.len() as int),
        ensures
            swap_vec@.len() != sid_idxs@.len() ==> r == Err::<GenoBlock, BedError>(
                BedError::BoolArrayVectorWrongLength(
                    sid_idxs@.len() as usize,
                    swap_vec@.len() as usize,
                ),
            ),
            swap_vec@.len() == sid_idxs@.len() && !all_index_ok(
                self.spec_sid_count() as int,
                sid_idxs@,
            ) ==> exists|k: int|
                first_bad_index(self.spec_sid_count() as int, sid_idxs@, k) && r == Err::<
                    GenoBlock,
                    BedError,
                >(BedError::SidIndexTooBig(#[trigger] sid_idxs@[k])),
            swap_vec@.len() == sid_idxs@.len() && all_index_ok(
                self.spec_sid_count() as int,
                sid_idxs@,
            ) ==> (r matches Ok(val) && {
                &&& val.wf()
                &&& val.spec_nrows() == self.spec_iid_count()
                &&& val.spec_ncols() == sid_idxs@.len()
                &&& self.is_full_decode(sid_idxs@, swap_vec@, val@)
            }),
    {
        let sid_pos: Vec<usize> = match self.check_request(sid_idxs, swap_vec) {
            Ok(v) => v,
            Err(e) => {
                return Err(e);
            },
        };
        let (val, _freq_vec) = self.read_columns(&sid_pos, swap_vec, false);
        Ok(val)
    }

    /// Decodes the individuals `iid_idxs` at the markers `sid_idxs`, each
    /// marker swapped where its flag in `swap_vec` is set. An index may be
    /// negative and then counts from the end of its axis.
    ///
    /// The flags are checked first, then the indices to individuals, then
    /// the indices to markers.
    pub fn read_to_ndarray_ind(
        &self,
        sid_idxs: &[isize],
        iid_idxs: &[isize],
        swap_vec: &[bool],
    ) -> (r: Result<GenoBlock, BedError>)
        requires
            self.wf(),
            block_fits(iid_idxs@.len() as int, sid_idxs@.len() as int),
        ensures
            swap_vec@.len() != sid_idxs@.len() ==> r == Err::<GenoBlock, BedError>(
                BedError::BoolArrayVectorWrongLength(
                    sid_idxs@.len() as usize,
                    swap_vec@.len() as usize,
                ),
            ),
            swap_vec@.len() == sid_idxs@.len() && !all_index_ok(
                self.spec_iid_count() as int,
                iid_idxs@,
            ) ==> exists|k: int|
                first_bad_index(self.spec_iid_count() as int, iid_idxs@, k) && r == Err::<
                    GenoBlock,
                    BedError,
                >(BedError::IidIndexTooBig(#[trigger] iid_idxs@[k])),
            swap_vec@.len() == sid_idxs@.len() && all_index_ok(
                self.spec_iid_count() as int,
                iid_idxs@,
            ) && !all_index_ok(self.spec_sid_count() as int, sid_idxs@) ==> exists|k: int|
                first_bad_index(self.spec_sid_count() as int, sid_idxs@, k) && r == Err::<
                    GenoBlock,
                    BedError,
                >(BedError::SidIndexTooBig(#[trigger] sid_idxs@[k])),
            swap_vec@.len() == sid_idxs@.len() && all_index_ok(
                self.spec_iid_count() as int,
                iid_idxs@,
            ) && all_index_ok(self.spec_sid_count() as int, sid_idxs@) ==> (r matches Ok(val) && {
                &&& val.wf()
                &&& val.spec_nrows() == iid_idxs@.len()
                &&& val.spec_ncols() == sid_idxs@.len()
                &&& self.is_listed_decode(sid_idxs@, iid_idxs@, swap_vec@, val@)
            }),
    {
        if swap_vec.len() != sid_idxs.len() {
            return Err(BedError::BoolArrayVectorWrongLength(sid_idxs.len(), swap_vec.len()));
        }
        // Check and precompute for each iid_index

        let (i_div_4_array, i_mod_4_times_2_array) = match check_and_precompute_iid_index(
            self.in_iid_count,
            iid_idxs,
        ) {
            Ok(v) => v,
            Err(e) => {
                return Err(e);
            },
        };
        let sid_pos: Vec<usize> = match resolve_indices(self.in_sid_count, sid_idxs) {
            Ok(v) => v,
            Err(x) => {
                return Err(BedError::SidIndexTooBig(x));
            },
        };
        let n_iid: usize = iid_idxs.len();
        let n_sid: usize = sid_idxs.len();
        let made: Option<GenoBlock> = GenoBlock::new(n_iid, n_sid);
        let mut val: GenoBlock = made.unwrap();
        let mut j: usize = 0;
        while j < n_sid
            invariant
                j <= n_sid,
                n_iid == iid_idxs@.len(),
                n_sid == sid_idxs@.len(),
                swap_vec@.len() == n_sid,
                self.wf(),
                val.wf(),
                val.spec_nrows() == n_iid,
                val.spec_ncols() == n_sid,
                i_div_4_array.len() == n_iid,
                i_mod_4_times_2_array.len() == n_iid,
                sid_pos.len() == n_sid,
                all_index_ok(self.in_iid_count as int, iid_idxs@),
                forall|k: int|
                    0 <= k < n_iid ==> (#[trigger] i_div_4_array[k]) == index_pos(
                        self.in_iid_count as int,
                        iid_idxs@[k] as int,
                    ) / 4,
                forall|k: int|
                    0 <= k < n_iid ==> (#[trigger] i_mod_4_times_2_array[k]) == index_pos(
                        self.in_iid_count as int,
                        iid_idxs@[k] as int,
                    ) % 4 * 2,
                forall|k: int|
                    0 <= k < n_sid ==> (#[trigger] sid_pos[k]) == index_pos(
                        self.in_sid_count as int,
                        sid_idxs@[k] as int,
                    ) && sid_pos[k] < self.in_sid_count,
                forall|i: int, h: int|
                    0 <= i < n_iid && 0 <= h < j ==> (#[trigger] val@[i][h]) == self.spec_cell(
                        index_pos(self.spec_sid_count() as int, sid_idxs@[h] as int),
                        index_pos(self.spec_iid_count() as int, iid_idxs@[i] as int),
                        swap_vec@[h],
                    ),
            decreases n_sid - j,
        {
            let byte_vec: &[u8] = self.read_snp(sid_pos[j]);
            let swap_flag: bool = swap_vec[j];
            let mut i: usize = 0;
            while i < n_iid
                invariant
                    i <= n_iid,
                    j < n_sid,
                    n_iid == iid_idxs@.len(),
                    n_sid == sid_idxs@.len(),
                    self.wf(),
                    val.wf(),
                    val.spec_nrows() == n_iid,
                    val.spec_ncols() == n_sid,
                    i_div_4_array.len() == n_iid,
                    i_mod_4_times_2_array.len() == n_iid,
                    swap_flag == swap_vec@[j as int],
                    byte_vec@ == self.spec_column(sid_pos[j as int] as int),
                    byte_vec@.len() == spec_div4(self.in_iid_count as int),
                    sid_pos[j as int] == index_pos(
                        self.in_sid_count as int,
                        sid_idxs@[j as int] as int,
                    ),
                    all_index_ok(self.in_iid_count as int, iid_idxs@),
                    forall|k: int|
                        0 <= k < n_iid ==> (#[trigger] i_div_4_array[k]) == index_pos(
                            self.in_iid_count as int,
                            iid_idxs@[k] as int,
                        ) / 4,
                    forall|k: int|
                        0 <= k < n_iid ==> (#[trigger] i_mod_4_times_2_array[k]) == index_pos(
                            self.in_iid_count as int,
                            iid_idxs@[k] as int,
                        ) % 4 * 2,
                    forall|ii: int, h: int|
                        0 <= ii < n_iid && 0 <= h < j ==> (#[trigger] val@[ii][h])
                            == self.spec_cell(
                            index_pos(self.spec_sid_count() as int, sid_idxs@[h] as int),
                            index_pos(self.spec_iid_count() as int, iid_idxs@[ii] as int),
                            swap_vec@[h],
                        ),
                    forall|ii: int|
                        0 <= ii < i ==> (#[trigger] val@[ii])[j as int] == self.spec_cell(
                            index_pos(self.spec_sid_count() as int, sid_idxs@[j as int] as int),
                            index_pos(self.spec_iid_count() as int, iid_idxs@[ii] as int),
                            swap_vec@[j as int],
                        ),
                decreases n_iid - i,
            {
                let i_div_4: usize = i_div_4_array[i];
                let i_mod_4_times_2: u8 = i_mod_4_times_2_array[i];
                assert(index_ok(self.in_iid_count as int, iid_idxs@[i as int] as int));
                let byte: u8 = byte_vec[i_div_4];
                proof {
                    lemma_shift_is_lane(byte, i_mod_4_times_2);
                }
                let genotype_byte: u8 = (byte >> i_mod_4_times_2) & 0x03;
                proof {
                    lemma_reader_table(self.bit_map@, genotype_byte, swap_flag);
                }
                let v: i8 = decode_code(&self.bit_map, genotype_byte, swap_flag);
                let ghost before = val@;
                val.put(i, j, v);
                proof {
                    assert(val@[i as int][j as int] == v);
                    assert forall|ii: int, h: int|
                        0 <= ii < n_iid && 0 <= h < n_sid && !(ii == i && h == j) implies (
                    #[trigger] val@[ii][h]) == before[ii][h] by {}
                    assert forall|ii: int| 0 <= ii < i + 1 implies (#[trigger] val@[ii])[j as int]
                        == self.spec_cell(
                        index_pos(self.spec_sid_count() as int, sid_idxs@[j as int] as int),
                        index_pos(self.spec_iid_count() as int, iid_idxs@[ii] as int),
                        swap_vec@[j as int],
                    ) by {
                        if ii != i {
                            assert(val@[ii][j as int] == before[ii][j as int]);
                        }
                    }
                }
                i += 1;
            }
            j += 1;
        }
        Ok(val)
    }

    /// Decoding every individual gives the same block as decoding the
    /// individuals listed one by one, from the first to the last.
    pub proof fn lemma_full_axis_is_listed_in_order(
        &self,
        sid_idxs: Seq<isize>,
        iid_idxs: Seq<isize>,
        swap: Seq<bool>,
        full: Seq<Seq<i8>>,
        listed: Seq<Seq<i8>>,
    )
        requires
            iid_idxs.len() == self.spec_iid_count(),
            forall|i: int| 0 <= i < iid_idxs.len() ==> #[trigger] iid_idxs[i] == i,
            self.is_full_decode(sid_idxs, swap, full),
            self.is_listed_decode(sid_idxs, iid_idxs, swap, listed),
        ensures
            full == listed,
    {
        assert forall|i: int| 0 <= i < full.len() implies #[trigger] full[i] == listed[i] by {
            assert(full[i].len() == listed[i].len());
            assert forall|j: int| 0 <= j < full[i].len() implies full[i][j] == listed[i][j] by {
                assert(iid_idxs[i] == i);
                assert(full[i][j] == listed[i][j]);
            }
            assert(full[i] =~= listed[i]);
        }
        assert(full =~= listed);
    }

    /// Decoding a marker with its swap flag set gives, cell by cell, the
    /// swap transform of what decoding it without the flag gives: `2 - v`
    /// for an observed value `v`, and the missing value where it is missing.
    pub proof fn lemma_swap_is_transform(
        &self,
        sid_idxs: Seq<isize>,
        swap: Seq<bool>,
        plain_flags: Seq<bool>,
        swapped: Seq<Seq<i8>>,
        plain: Seq<Seq<i8>>,
    )
        requires
            swap.len() == sid_idxs.len(),
            plain_flags.len() == sid_idxs.len(),
            forall|j: int| 0 <= j < plain_flags.len() ==> !#[trigger] plain_flags[j],
            self.is_full_decode(sid_idxs, swap, swapped),
            self.is_full_decode(sid_idxs, plain_flags, plain),
        ensures
            forall|i: int, j: int|
                0 <= i < self.spec_iid_count() && 0 <= j < sid_idxs.len() ==> (
                #[trigger] swapped[i][j]) == if swap[j] {
                    spec_swap(plain[i][j])
                } else {
                    plain[i][j]
                },
    {
        assert forall|i: int, j: int|
            0 <= i < self.spec_iid_count() && 0 <= j < sid_idxs.len() implies (
        #[trigger] swapped[i][j]) == if swap[j] {
            spec_swap(plain[i][j])
        } else {
            plain[i][j]
        } by {
            let sid = index_pos(self.spec_sid_count() as int, sid_idxs[j] as int);
            assert(!plain_flags[j]);
            assert(plain[i][j] == self.spec_cell(sid, i, false));
            lemma_swap_of_code(self.spec_code(sid, i));
        }
    }

    /// The number of individuals.
    pub fn iid_count(&self) -> (n: usize)
        ensures
            n == self.spec_iid_count(),
    {
        self.in_iid_count
    }

    /// The number of markers.
    pub fn sid_count(&self) -> (n: usize)
        ensures
            n == self.spec_sid_count(),
    {
        self.in_sid_count
    }
}

/// Whether the file, held one column per marker, is short enough for
/// memory to index. A file that is laid out by marker already is.
pub open spec fn spec_repack_fits(bytes: Seq<u8>, iid_count: int, sid_count: int) -> bool {
    bytes[2] == 1 || spec_div4(iid_count) * sid_count + CB_HEADER_USIZE <= usize::MAX
}

/// The error of making a reader from the bytes of a file, if there is
/// one. The first of these counts: wrong magic bytes (ill-formed), an
/// orientation byte that is neither 0 nor 1 (bad mode), counts that the
/// file's layout cannot address (too big, with the length of the minor and
/// of the major axis), a file of the wrong length (ill-formed), and a file
/// that is too long once it is held by marker (too big, with the numbers
/// of individuals and markers).
pub open spec fn spec_open_error(bytes: Seq<u8>, iid_count: int, sid_count: int) -> Option<
    BedError,
> {
    let minor = file_minor_count(bytes, iid_count, sid_count);
    let major = file_major_count(bytes, iid_count, sid_count);
    if !header_ok(bytes) {
        Some(BedError::IllFormed)
    } else if !mode_ok(bytes) {
        Some(BedError::BadMode)
    } else if !disk_addressable(minor, major) {
        Some(BedError::IndexesTooBigForFiles(minor as usize, major as usize))
    } else if !disk_length_ok(bytes, minor, major) {
        Some(BedError::IllFormed)
    } else if !spec_repack_fits(bytes, iid_count, sid_count) {
        Some(BedError::IndexesTooBigForFiles(iid_count as usize, sid_count as usize))
    } else {
        None
    }
}

/// A reader of whole markers that swaps where it is asked to and counts
/// alleles where it is asked to.
pub struct FreqBedReader {
    pub bed_reader: BedSnpReader,
}

impl FreqBedReader {
    /// A reader of the file with these bytes, for a data set with
    /// `iid_count` individuals and `sid_count` markers.
    pub fn new(bytes: Vec<u8>, iid_count: usize, sid_count: usize) -> (r: Result<
        FreqBedReader,
        BedError,
    >)
        ensures
            match r {
                Ok(reader) => {
                    &&& spec_open_error(bytes@, iid_count as int, sid_count as int) is None
                    &&& reader.bed_reader.wf()
                    &&& reader.bed_reader.spec_iid_count() == iid_count
                    &&& reader.bed_reader.spec_sid_count() == sid_count
                    &&& forall|sid: int, iid: int|
                        0 <= sid < sid_count && 0 <= iid < iid_count
                            ==> #[trigger] reader.bed_reader.spec_code(sid, iid) == file_code(
                            bytes@,
                            iid_count as int,
                            sid_count as int,
                            sid,
                            iid,
                        )
                },
                Err(e) => spec_open_error(bytes@, iid_count as int, sid_count as int) == Some(e),
            },
    {
        match BedSnpReader::new(bytes, iid_count, sid_count) {
            Ok(bed_reader) => Ok(FreqBedReader { bed_reader }),
            Err(e) => Err(e),
        }
    }

    /// Decodes every individual at the markers `snp_idx`. Without
    /// `swap_vec` no marker is swapped. With `count` the alleles of each
    /// marker are counted and the counts come with the block.
    pub fn read_snp(&self, snp_idx: &[isize], swap_vec: Option<&[bool]>, count: bool) -> (r:
        Result<(GenoBlock, Option<Vec<FreqCount>>), BedError>)
        requires
            self.bed_reader.wf(),
            block_fits(self.bed_reader.spec_iid_count() as int, snp_idx@.len() as int),
        ensures
            ({
                let swap = match swap_vec {
                    Some(v) => v@,
                    None => Seq::new(snp_idx@.len(), |j: int| false),
                };
                let reader = self.bed_reader;
                let sid_count = reader.spec_sid_count() as int;
                &&& swap.len() != snp_idx@.len() ==> (r matches Err(e) && e
                    == BedError::BoolArrayVectorWrongLength(
                    snp_idx@.len() as usize,
                    swap.len() as usize,
                ))
                &&& swap.len() == snp_idx@.len() && !all_index_ok(sid_count, snp_idx@) ==> (
                r matches Err(e) && exists|k: int|
                    first_bad_index(sid_count, snp_idx@, k) && e == BedError::SidIndexTooBig(
                        #[trigger] snp_idx@[k],
                    ))
                &&& swap.len() == snp_idx@.len() && all_index_ok(sid_count, snp_idx@) ==> (
                r matches Ok((val, freq)) && {
                    &&& val.wf()
                    &&& val.spec_nrows() == reader.spec_iid_count()
                    &&& val.spec_ncols() == snp_idx@.len()
                    &&& reader.is_full_decode(snp_idx@, swap, val@)
                    &&& freq is Some <==> count
                    &&& freq matches Some(freq_vec) ==> {
                        &&& freq_vec@.len() == snp_idx@.len()
                        &&& forall|j: int|
                            0 <= j < snp_idx@.len() ==> counts_of(
                                reader.spec_column(index_pos(sid_count, snp_idx@[j] as int)),
                                #[trigger] freq_vec@[j],
                            )
                    }
                })
            }),
    {
        let mut default_swap_vec: Vec<bool> = Vec::new();
        let swap_vec: &[bool] = match swap_vec {
            Some(v) => v,
            None => {
                let mut j: usize = 0;
                while j < snp_idx.len()
                    invariant
                        j <= snp_idx@.len(),
                        default_swap_vec@.len() == j,
                        forall|h: int| 0 <= h < j ==> !#[trigger] default_swap_vec@[h],
                    decreases snp_idx.len() - j,
                {
                    default_swap_vec.push(false);
                    j += 1;
                }
                assert(default_swap_vec@ =~= Seq::new(snp_idx@.len(), |j: int| false));
                default_swap_vec.as_slice()
            },
        };
        if count {
            match self.bed_reader.read_to_ndarray(snp_idx, swap_vec) {
                Ok((val, freq_vec)) => Ok((val, Some(freq_vec))),
                Err(e) => Err(e),
            }
        } else {
            match self.bed_reader.read_to_ndarray_freq(snp_idx, swap_vec) {
                Ok(val) => Ok((val, None)),
                Err(e) => Err(e),
            }
        }
    }
}

} // verus!
