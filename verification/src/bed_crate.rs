//! Decoding of a compact genotype file, given as its bytes, into a block of
//! genotype values for chosen individuals and markers.
//!
//! The header's third byte tells the orientation: with 1 the file holds one
//! column per marker, with 0 one column per individual. Either way a caller
//! addresses a call by marker and by individual.

use crate::bed_error::BedError;
use crate::bed_index::{
    all_index_ok, check_and_precompute_iid_index, first_bad_index, index_ok, index_pos,
    resolve_indices, spec_div4, try_div_4, BED_FILE_MAGIC1, BED_FILE_MAGIC2, CB_HEADER_U64,
    CB_HEADER_USIZE,
};
use crate::bit_op::{
    lane_code, lemma_shift_is_lane, set_up_two_bits_to_value, spec_two_bits_to_value,
};
use crate::block::GenoBlock;
use vstd::prelude::*;

verus! {

/// The code on disk of the call at `minor` of column `major`, in a file
/// whose columns pack `minor_count` calls each.
pub open spec fn disk_code(bytes: Seq<u8>, minor_count: int, major: int, minor: int) -> u8 {
    lane_code(bytes[CB_HEADER_USIZE + major * spec_div4(minor_count) + minor / 4], minor % 4)
}

/// Whether `major_count` columns of `minor_count` calls, after the header,
/// stay within what a `u64` offset can address.
pub open spec fn disk_addressable(minor_count: int, major_count: int) -> bool {
    spec_div4(minor_count) * major_count + CB_HEADER_U64 <= u64::MAX
}

/// Whether a file is exactly as long as its header and `major_count`
/// columns of `minor_count` calls.
pub open spec fn disk_length_ok(bytes: Seq<u8>, minor_count: int, major_count: int) -> bool {
    bytes.len() == spec_div4(minor_count) * major_count + CB_HEADER_U64
}

/// The value at the place of individual-side index `i` and marker-side
/// index `j` in a block that is read as it stands or, with `transposed`,
/// with its two axes exchanged.
pub open spec fn cell_at(cells: Seq<Seq<i8>>, transposed: bool, i: int, j: int) -> i8 {
    if transposed {
        cells[j][i]
    } else {
        cells[i][j]
    }
}

/// Whether a block of `rows` by `cols`, read as `transposed` says, has one
/// row per minor index and one column per major index.
pub open spec fn shape_ok(transposed: bool, minor_len: int, major_len: int, rows: int, cols: int) -> bool {
    if transposed {
        rows == major_len && cols == minor_len
    } else {
        rows == minor_len && cols == major_len
    }
}

/// The value that a decode puts at the place of minor index `i` and major
/// index `j`.
pub open spec fn spec_read_value(
    bytes: Seq<u8>,
    in_iid_count: int,
    in_sid_count: int,
    is_a1_counted: bool,
    missing_value: i8,
    iid_index: Seq<isize>,
    sid_index: Seq<isize>,
    i: int,
    j: int,
) -> i8 {
    spec_two_bits_to_value(
        is_a1_counted,
        missing_value,
        disk_code(
            bytes,
            in_iid_count,
            index_pos(in_sid_count, sid_index[j] as int),
            index_pos(in_iid_count, iid_index[i] as int),
        ),
    )
}

/// Byte `k` of column `major` lies within a body of `major_count` columns
/// of `div4` bytes.
pub proof fn lemma_offset_in_body(div4: int, major_count: int, major: int, k: int)
    requires
        0 <= major < major_count,
        0 <= k < div4,
    ensures
        0 <= major * div4 + k < div4 * major_count,
        0 <= major * div4,
{
    assert((major + 1) * div4 <= major_count * div4) by (nonlinear_arith)
        requires
            major + 1 <= major_count,
            div4 >= 0,
    ;
    assert((major + 1) * div4 == major * div4 + div4) by (nonlinear_arith);
    assert(major_count * div4 == div4 * major_count) by (nonlinear_arith);
    assert(0 <= major * div4) by (nonlinear_arith)
        requires
            0 <= major,
            0 <= div4,
    ;
}

/// The code of the call that byte `k` of column `major` holds at `shift`
/// bits.
pub(crate) fn code_at(bytes: &[u8], div4: usize, major_count: usize, major: usize, k: usize, shift: u8) -> (c:
    u8)
    requires
        bytes@.len() == div4 * major_count + CB_HEADER_USIZE,
        major < major_count,
        k < div4,
        shift == 0 || shift == 2 || shift == 4 || shift == 6,
    ensures
        c == lane_code(bytes@[CB_HEADER_USIZE + major * div4 + k], shift as int / 2),
        c < 4,
{
    let len: usize = bytes.len();
    proof {
        lemma_offset_in_body(div4 as int, major_count as int, major as int, k as int);
    }
    assert(major * div4 + k + CB_HEADER_USIZE < len);
    let b: u8 = bytes[CB_HEADER_USIZE + major * div4 + k];
    proof {
        lemma_shift_is_lane(b, shift);
    }
    (b >> shift) & 3
}

/// Decodes the calls at the given minor and major indices of a file body
/// into `out_val`, one row per minor index and one column per major index
/// or, with `transposed`, the other way round.
///
/// `in_iid_count` is the number of calls that a column packs and
/// `in_sid_count` the number of columns. Everything is checked before the
/// first value is written: the size and the length of the file, the shape
/// of the block, the minor indices and then the major indices.
pub fn internal_read_no_alloc(
    bytes: &[u8],
    in_iid_count: usize,
    in_sid_count: usize,
    is_a1_counted: bool,
    iid_index: &[isize],
    sid_index: &[isize],
    missing_value: i8,
    transposed: bool,
    out_val: &mut GenoBlock,
) -> (r: Result<(), BedError>)
    requires
        old(out_val).wf(),
    ensures
        final(out_val).wf(),
        final(out_val).spec_nrows() == old(out_val).spec_nrows(),
        final(out_val).spec_ncols() == old(out_val).spec_ncols(),
        r is Err ==> final(out_val)@ == old(out_val)@,
        !disk_addressable(in_iid_count as int, in_sid_count as int) ==> r == Err::<(), BedError>(
            BedError::IndexesTooBigForFiles(in_iid_count, in_sid_count),
        ),
        disk_addressable(in_iid_count as int, in_sid_count as int) && !disk_length_ok(
            bytes@,
            in_iid_count as int,
            in_sid_count as int,
        ) ==> r == Err::<(), BedError>(BedError::IllFormed),
        disk_addressable(in_iid_count as int, in_sid_count as int) && disk_length_ok(
            bytes@,
            in_iid_count as int,
            in_sid_count as int,
        ) ==> {
            let rows = old(out_val).spec_nrows() as int;
            let cols = old(out_val).spec_ncols() as int;
            let fits = shape_ok(transposed, iid_index@.len() as int, sid_index@.len() as int, rows, cols);
            let iid_ok = all_index_ok(in_iid_count as int, iid_index@);
            let sid_ok = all_index_ok(in_sid_count as int, sid_index@);
            &&& !fits ==> r == Err::<(), BedError>(
                BedError::IndexMismatch(
                    iid_index@.len() as usize,
                    sid_index@.len() as usize,
                    if transposed {
                        cols as usize
                    } else {
                        rows as usize
                    },
                    if transposed {
                        rows as usize
                    } else {
                        cols as usize
                    },
                ),
            )
            &&& fits && !iid_ok ==> exists|k: int|
                first_bad_index(in_iid_count as int, iid_index@, k) && r == Err::<(), BedError>(
                    BedError::IidIndexTooBig(#[trigger] iid_index@[k]),
                )
            &&& fits && iid_ok && !sid_ok ==> exists|k: int|
                first_bad_index(in_sid_count as int, sid_index@, k) && r == Err::<(), BedError>(
                    BedError::SidIndexTooBig(#[trigger] sid_index@[k]),
                )
            &&& fits && iid_ok && sid_ok ==> {
                &&& r is Ok
                &&& forall|i: int, j: int|
                    0 <= i < iid_index@.len() && 0 <= j < sid_index@.len() ==> #[trigger] cell_at(
                        final(out_val)@,
                        transposed,
                        i,
                        j,
                    ) == spec_read_value(
                        bytes@,
                        in_iid_count as int,
                        in_sid_count as int,
                        is_a1_counted,
                        missing_value,
                        iid_index@,
                        sid_index@,
                        i,
                        j,
                    )
            }
        },
{
    // Check the file length
    let (in_iid_count_div4, in_iid_count_div4_u64) = match try_div_4(
        in_iid_count,
        in_sid_count,
        CB_HEADER_U64,
    ) {
        Ok(v) => v,
        Err(e) => {
            return Err(e);
        },
    };
    let file_len: u64 = bytes.len() as u64;
    assert(in_iid_count_div4_u64 * (in_sid_count as u64) == spec_div4(in_iid_count as int)
        * in_sid_count);
    let file_len2: u64 = in_iid_count_div4_u64 * (in_sid_count as u64) + CB_HEADER_U64;
    if file_len != file_len2 {
        return Err(BedError::IllFormed);
    }
    // Check the shape of the output
    let rows: usize = out_val.nrows();
    let cols: usize = out_val.ncols();
    let fits: bool = if transposed {
        rows == sid_index.len() && cols == iid_index.len()
    } else {
        rows == iid_index.len() && cols == sid_index.len()
    };
    if !fits {
        if transposed {
            return Err(BedError::IndexMismatch(iid_index.len(), sid_index.len(), cols, rows));
        } else {
            return Err(BedError::IndexMismatch(iid_index.len(), sid_index.len(), rows, cols));
        }
    }
    // Check and precompute for each iid_index

    let (i_div_4_array, i_mod_4_times_2_array) = match check_and_precompute_iid_index(
        in_iid_count,
        iid_index,
    ) {
        Ok(v) => v,
        Err(e) => {
            return Err(e);
        },
    };
    // Check and compute work for each sid_index
    let sid_pos: Vec<usize> = match resolve_indices(in_sid_count, sid_index) {
        Ok(v) => v,
        Err(x) => {
            return Err(BedError::SidIndexTooBig(x));
        },
    };
    let from_two_bits_to_value: [i8; 4] = set_up_two_bits_to_value(is_a1_counted, missing_value);
    let n_iid: usize = iid_index.len();
    let n_sid: usize = sid_index.len();
    let mut j: usize = 0;
    while j < n_sid
        invariant
            j <= n_sid,
            n_iid == iid_index@.len(),
            n_sid == sid_index@.len(),
            out_val.wf(),
            out_val.spec_nrows() == rows,
            out_val.spec_ncols() == cols,
            shape_ok(transposed, n_iid as int, n_sid as int, rows as int, cols as int),
            bytes@.len() == in_iid_count_div4 * in_sid_count + CB_HEADER_USIZE,
            in_iid_count_div4 == spec_div4(in_iid_count as int),
            i_div_4_array.len() == n_iid,
            i_mod_4_times_2_array.len() == n_iid,
            sid_pos.len() == n_sid,
            all_index_ok(in_iid_count as int, iid_index@),
            forall|k: int|
                0 <= k < n_iid ==> (#[trigger] i_div_4_array[k]) == index_pos(
                    in_iid_count as int,
                    iid_index@[k] as int,
                ) / 4,
            forall|k: int|
                0 <= k < n_iid ==> (#[trigger] i_mod_4_times_2_array[k]) == index_pos(
                    in_iid_count as int,
                    iid_index@[k] as int,
                ) % 4 * 2,
            forall|k: int|
                0 <= k < n_sid ==> (#[trigger] sid_pos[k]) == index_pos(
                    in_sid_count as int,
                    sid_index@[k] as int,
                ) && sid_pos[k] < in_sid_count,
            forall|code: u8|
                code < 4 ==> #[trigger] from_two_bits_to_value@[code as int]
                    == spec_two_bits_to_value(is_a1_counted, missing_value, code),
            forall|i: int, jj: int|
                0 <= i < n_iid && 0 <= jj < j ==> #[trigger] cell_at(out_val@, transposed, i, jj)
                    == spec_read_value(
                    bytes@,
                    in_iid_count as int,
                    in_sid_count as int,
                    is_a1_counted,
                    missing_value,
                    iid_index@,
                    sid_index@,
                    i,
                    jj,
                ),
        decreases n_sid - j,
    {
        let in_sid_i: usize = sid_pos[j];
        let mut i: usize = 0;
        while i < n_iid
            invariant
                i <= n_iid,
                j < n_sid,
                n_iid == iid_index@.len(),
                n_sid == sid_index@.len(),
                out_val.wf(),
                out_val.spec_nrows() == rows,
                out_val.spec_ncols() == cols,
                shape_ok(transposed, n_iid as int, n_sid as int, rows as int, cols as int),
                bytes@.len() == in_iid_count_div4 * in_sid_count + CB_HEADER_USIZE,
                in_iid_count_div4 == spec_div4(in_iid_count as int),
                i_div_4_array.len() == n_iid,
                i_mod_4_times_2_array.len() == n_iid,
                all_index_ok(in_iid_count as int, iid_index@),
                in_sid_i < in_sid_count,
                in_sid_i == index_pos(in_sid_count as int, sid_index@[j as int] as int),
                forall|k: int|
                    0 <= k < n_iid ==> (#[trigger] i_div_4_array[k]) == index_pos(
                        in_iid_count as int,
                        iid_index@[k] as int,
                    ) / 4,
                forall|k: int|
                    0 <= k < n_iid ==> (#[trigger] i_mod_4_times_2_array[k]) == index_pos(
                        in_iid_count as int,
                        iid_index@[k] as int,
                    ) % 4 * 2,
                forall|code: u8|
                    code < 4 ==> #[trigger] from_two_bits_to_value@[code as int]
                        == spec_two_bits_to_value(is_a1_counted, missing_value, code),
                forall|ii: int, jj: int|
                    0 <= ii < n_iid && 0 <= jj < j ==> #[trigger] cell_at(
                        out_val@,
                        transposed,
                        ii,
                        jj,
                    ) == spec_read_value(
                        bytes@,
                        in_iid_count as int,
                        in_sid_count as int,
                        is_a1_counted,
                        missing_value,
                        iid_index@,
                        sid_index@,
                        ii,
                        jj,
                    ),
                forall|ii: int|
                    0 <= ii < i ==> #[trigger] cell_at(out_val@, transposed, ii, j as int)
                        == spec_read_value(
                        bytes@,
                        in_iid_count as int,
                        in_sid_count as int,
                        is_a1_counted,
                        missing_value,
                        iid_index@,
                        sid_index@,
                        ii,
                        j as int,
                    ),
            decreases n_iid - i,
        {
            let i_div_4: usize = i_div_4_array[i];
            let i_mod_4_times_2: u8 = i_mod_4_times_2_array[i];
            assert(index_ok(in_iid_count as int, iid_index@[i as int] as int));
            let genotype_byte: u8 = code_at(
                bytes,
                in_iid_count_div4,
                in_sid_count,
                in_sid_i,
                i_div_4,
                i_mod_4_times_2,
            );
            let v: i8 = from_two_bits_to_value[genotype_byte as usize];
            assert(v == from_two_bits_to_value@[genotype_byte as int]);
            let ghost before = out_val@;
            if transposed {
                out_val.put(j, i, v);
            } else {
                out_val.put(i, j, v);
            }
            proof {
                assert(cell_at(out_val@, transposed, i as int, j as int) == v);
                assert forall|ii: int, jj: int|
                    0 <= ii < n_iid && 0 <= jj < n_sid && !(ii == i && jj == j) implies #[trigger] cell_at(
                    out_val@,
                    transposed,
                    ii,
                    jj,
                ) == cell_at(before, transposed, ii, jj) by {}
                assert(cell_at(out_val@, transposed, i as int, j as int) == spec_read_value(
                    bytes@,
                    in_iid_count as int,
                    in_sid_count as int,
                    is_a1_counted,
                    missing_value,
                    iid_index@,
                    sid_index@,
                    i as int,
                    j as int,
                ));
            }
            i += 1;
        }
        j += 1;
    }
    Ok(())
}

/// Whether a file starts with the two magic bytes and an orientation byte.
pub open spec fn header_ok(bytes: Seq<u8>) -> bool {
    &&& bytes.len() >= CB_HEADER_USIZE
    &&& bytes[0] == BED_FILE_MAGIC1
    &&& bytes[1] == BED_FILE_MAGIC2
}

/// Whether the orientation byte is one of the two that are defined.
pub open spec fn mode_ok(bytes: Seq<u8>) -> bool {
    bytes[2] == 0 || bytes[2] == 1
}

/// The number of calls that a column of the file packs: the individuals
/// where the file holds one column per marker, else the markers.
pub open spec fn file_minor_count(bytes: Seq<u8>, iid_count: int, sid_count: int) -> int {
    if bytes[2] == 1 {
        iid_count
    } else {
        sid_count
    }
}

/// The number of columns of the file.
pub open spec fn file_major_count(bytes: Seq<u8>, iid_count: int, sid_count: int) -> int {
    if bytes[2] == 1 {
        sid_count
    } else {
        iid_count
    }
}

/// Whether the bytes are a well-formed file for `iid_count` individuals and
/// `sid_count` markers: header, orientation, and a length that is exactly
/// that of the header and the columns.
pub open spec fn file_ok(bytes: Seq<u8>, iid_count: int, sid_count: int) -> bool {
    &&& header_ok(bytes)
    &&& mode_ok(bytes)
    &&& disk_addressable(
        file_minor_count(bytes, iid_count, sid_count),
        file_major_count(bytes, iid_count, sid_count),
    )
    &&& disk_length_ok(
        bytes,
        file_minor_count(bytes, iid_count, sid_count),
        file_major_count(bytes, iid_count, sid_count),
    )
}

/// The code of the call of individual `iid` at marker `sid`, whichever way
/// the file is laid out.
pub open spec fn file_code(bytes: Seq<u8>, iid_count: int, sid_count: int, sid: int, iid: int) -> u8 {
    if bytes[2] == 1 {
        disk_code(bytes, iid_count, sid, iid)
    } else {
        disk_code(bytes, sid_count, iid, sid)
    }
}

/// Checks the two magic bytes of a file and returns its three header bytes.
/// A file shorter than its header is ill-formed too.
pub fn open_and_check(bytes: &[u8]) -> (r: Result<Vec<u8>, BedError>)
    ensures
        r is Ok <==> header_ok(bytes@),
        r matches Ok(header) ==> header@ == bytes@.subrange(0, CB_HEADER_USIZE as int),
        r matches Err(e) ==> e == BedError::IllFormed,
{
    if bytes.len() < CB_HEADER_USIZE {
        return Err(BedError::IllFormed);
    }
    if (BED_FILE_MAGIC1 != bytes[0]) || (BED_FILE_MAGIC2 != bytes[1]) {
        return Err(BedError::IllFormed);
    }
    let mut bytes_vector: Vec<u8> = Vec::new();
    bytes_vector.push(bytes[0]);
    bytes_vector.push(bytes[1]);
    bytes_vector.push(bytes[2]);
    assert(bytes_vector@ =~= bytes@.subrange(0, CB_HEADER_USIZE as int));
    Ok(bytes_vector)
}

/// The error of a decode that ran with the two axes exchanged, named by the
/// true axes.
pub open spec fn spec_exchange_axes(e: BedError) -> BedError {
    match e {
        BedError::IidIndexTooBig(x) => BedError::SidIndexTooBig(x),
        BedError::SidIndexTooBig(x) => BedError::IidIndexTooBig(x),
        BedError::IndexMismatch(a, b, c, d) => BedError::IndexMismatch(b, a, d, c),
        _ => e,
    }
}

fn exchange_axes(e: BedError) -> (r: BedError)
    ensures
        r == spec_exchange_axes(e),
{
    match e {
        BedError::IidIndexTooBig(x) => BedError::SidIndexTooBig(x),
        BedError::SidIndexTooBig(x) => BedError::IidIndexTooBig(x),
        BedError::IndexMismatch(a, b, c, d) => BedError::IndexMismatch(b, a, d, c),
        _ => e,
    }
}

/// Whether a request to decode can be met: the file is well formed, the
/// block has one row per individual index and one column per marker
/// index, and every index lies within its axis.
pub open spec fn read_ok(
    bytes: Seq<u8>,
    iid_count: int,
    sid_count: int,
    iid_index: Seq<isize>,
    sid_index: Seq<isize>,
    rows: int,
    cols: int,
) -> bool {
    &&& file_ok(bytes, iid_count, sid_count)
    &&& rows == iid_index.len()
    &&& cols == sid_index.len()
    &&& all_index_ok(iid_count, iid_index)
    &&& all_index_ok(sid_count, sid_index)
}

/// Whether `e` is the error of a request to decode that cannot be met.
///
/// The first of these counts: wrong magic bytes (ill-formed), an
/// orientation byte that is neither 0 nor 1 (bad mode), counts that the
/// file's layout cannot address (too big, with the length of the minor and
/// of the major axis), a file of the wrong length (ill-formed), a block of
/// the wrong shape, and an index outside its axis. Of the two index lists
/// the one of the file's minor axis is checked first, and of a list the
/// first index outside the axis is reported.
pub open spec fn is_read_error(
    bytes: Seq<u8>,
    iid_count: int,
    sid_count: int,
    iid_index: Seq<isize>,
    sid_index: Seq<isize>,
    rows: int,
    cols: int,
    e: BedError,
) -> bool {
    let minor = file_minor_count(bytes, iid_count, sid_count);
    let major = file_major_count(bytes, iid_count, sid_count);
    let iid_ok = all_index_ok(iid_count, iid_index);
    let sid_ok = all_index_ok(sid_count, sid_index);
    if !header_ok(bytes) {
        e == BedError::IllFormed
    } else if !mode_ok(bytes) {
        e == BedError::BadMode
    } else if !disk_addressable(minor, major) {
        e == BedError::IndexesTooBigForFiles(minor as usize, major as usize)
    } else if !disk_length_ok(bytes, minor, major) {
        e == BedError::IllFormed
    } else if !(rows == iid_index.len() && cols == sid_index.len()) {
        e == BedError::IndexMismatch(
            iid_index.len() as usize,
            sid_index.len() as usize,
            rows as usize,
            cols as usize,
        )
    } else if !iid_ok && (bytes[2] == 1 || sid_ok) {
        exists|k: int|
            first_bad_index(iid_count, iid_index, k) && e == BedError::IidIndexTooBig(
                #[trigger] iid_index[k],
            )
    } else {
        !sid_ok && exists|k: int|
            first_bad_index(sid_count, sid_index, k) && e == BedError::SidIndexTooBig(
                #[trigger] sid_index[k],
            )
    }
}

/// Whether `cells` holds, for each individual index `i` and marker index
/// `j`, the value of that individual's call at that marker.
pub open spec fn is_read_block(
    bytes: Seq<u8>,
    iid_count: int,
    sid_count: int,
    is_a1_counted: bool,
    missing_value: i8,
    iid_index: Seq<isize>,
    sid_index: Seq<isize>,
    cells: Seq<Seq<i8>>,
) -> bool {
    forall|i: int, j: int|
        0 <= i < iid_index.len() && 0 <= j < sid_index.len() ==> (#[trigger] cells[i][j])
            == spec_two_bits_to_value(
            is_a1_counted,
            missing_value,
            file_code(
                bytes,
                iid_count,
                sid_count,
                index_pos(sid_count, sid_index[j] as int),
                index_pos(iid_count, iid_index[i] as int),
            ),
        )
}

/// A request to decode has one answer: two blocks of the shape of the
/// request that each hold its values are the same block.
pub proof fn lemma_read_block_is_one(
    bytes: Seq<u8>,
    iid_count: int,
    sid_count: int,
    is_a1_counted: bool,
    missing_value: i8,
    iid_index: Seq<isize>,
    sid_index: Seq<isize>,
    a: Seq<Seq<i8>>,
    b: Seq<Seq<i8>>,
)
    requires
        a.len() == iid_index.len(),
        b.len() == iid_index.len(),
        forall|i: int| 0 <= i < iid_index.len() ==> (#[trigger] a[i]).len() == sid_index.len(),
        forall|i: int| 0 <= i < iid_index.len() ==> (#[trigger] b[i]).len() == sid_index.len(),
        is_read_block(
            bytes,
            iid_count,
            sid_count,
            is_a1_counted,
            missing_value,
            iid_index,
            sid_index,
            a,
        ),
        is_read_block(
            bytes,
            iid_count,
            sid_count,
            is_a1_counted,
            missing_value,
            iid_index,
            sid_index,
            b,
        ),
    ensures
        a == b,
{
    assert forall|i: int| 0 <= i < a.len() implies #[trigger] a[i] == b[i] by {
        assert forall|j: int| 0 <= j < a[i].len() implies a[i][j] == b[i][j] by {
            assert(a[i][j] == b[i][j]);
        }
        assert(a[i] =~= b[i]);
    }
    assert(a =~= b);
}

/// Decodes the calls of the individuals `iid_index` at the markers
/// `sid_index` from the bytes of a file into `val`, one row per individual
/// and one column per marker.
///
/// The file is checked first (magic bytes, orientation, size, length), then
/// the shape of `val`, then the two index lists, the one of the file's
/// minor axis first. On an error `val` is left as it was.
pub fn read_no_alloc(
    bytes: &[u8],
    iid_count: usize,
    sid_count: usize,
    is_a1_counted: bool,
    iid_index: &[isize],
    sid_index: &[isize],
    missing_value: i8,
    val: &mut GenoBlock,
) -> (r: Result<(), BedError>)
    requires
        old(val).wf(),
    ensures
        final(val).wf(),
        final(val).spec_nrows() == old(val).spec_nrows(),
        final(val).spec_ncols() == old(val).spec_ncols(),
        r is Err ==> final(val)@ == old(val)@,
        r is Ok <==> read_ok(
            bytes@,
            iid_count as int,
            sid_count as int,
            iid_index@,
            sid_index@,
            old(val).spec_nrows() as int,
            old(val).spec_ncols() as int,
        ),
        r matches Err(e) ==> is_read_error(
            bytes@,
            iid_count as int,
            sid_count as int,
            iid_index@,
            sid_index@,
            old(val).spec_nrows() as int,
            old(val).spec_ncols() as int,
            e,
        ),
        r is Ok ==> is_read_block(
            bytes@,
            iid_count as int,
            sid_count as int,
            is_a1_counted,
            missing_value,
            iid_index@,
            sid_index@,
            final(val)@,
        ),
{
    let bytes_vector: Vec<u8> = match open_and_check(bytes) {
        Ok(v) => v,
        Err(e) => {
            return Err(e);
        },
    };
    assert(bytes_vector@[2] == bytes@[2]);
    let mode: u8 = bytes_vector[2];
    if mode == 0 {
        // We swap 'iid' and 'sid' and then reverse the axes.
        match internal_read_no_alloc(
            bytes,
            sid_count,
            iid_count,
            is_a1_counted,
            sid_index,
            iid_index,
            missing_value,
            true,
            val,
        ) {
            Ok(()) => {
                assert forall|i: int, j: int|
                    0 <= i < iid_index@.len() && 0 <= j < sid_index@.len() implies (
                #[trigger] val@[i][j]) == spec_two_bits_to_value(
                    is_a1_counted,
                    missing_value,
                    file_code(
                        bytes@,
                        iid_count as int,
                        sid_count as int,
                        index_pos(sid_count as int, sid_index@[j] as int),
                        index_pos(iid_count as int, iid_index@[i] as int),
                    ),
                ) by {
                    assert(val@[i][j] == cell_at(val@, true, j, i));
                }
                Ok(())
            },
            Err(e) => Err(exchange_axes(e)),
        }
    } else if mode == 1 {
        match internal_read_no_alloc(
            bytes,
            iid_count,
            sid_count,
            is_a1_counted,
            iid_index,
            sid_index,
            missing_value,
            false,
            val,
        ) {
            Ok(()) => {
                assert forall|i: int, j: int|
                    0 <= i < iid_index@.len() && 0 <= j < sid_index@.len() implies (
                #[trigger] val@[i][j]) == spec_two_bits_to_value(
                    is_a1_counted,
                    missing_value,
                    file_code(
                        bytes@,
                        iid_count as int,
                        sid_count as int,
                        index_pos(sid_count as int, sid_index@[j] as int),
                        index_pos(iid_count as int, iid_index@[i] as int),
                    ),
                ) by {
                    assert(val@[i][j] == cell_at(val@, false, i, j));
                }
                Ok(())
            },
            Err(e) => Err(e),
        }
    } else {
        Err(BedError::BadMode)
    }
}

} // verus!
