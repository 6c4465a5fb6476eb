//! The genotypes that a score is computed from: decoded for the matched
//! markers, oriented to the tested allele, and with the fill of each
//! marker's missing calls.
//!
//! The score of an individual for one score column is the sum, over the
//! matched markers, of the marker's weight times the individual's genotype
//! at the marker, a missing genotype counting as the marker's fill.

use crate::bed_crate::{file_code, is_read_error, read_no_alloc, read_ok};
use crate::bed_error::BedError;
use crate::bed_index::{all_index_ok, first_bad_index, index_pos, MISSING_I8};
use crate::bit_op::{lemma_lane_code_bound, spec_two_bits_to_value};
use crate::block::{block_fits, GenoBlock};
use crate::geno_reader::{spec_genotype, BedSnpReader};
use crate::predict::{
    is_genotype, process_gt, resolve_missing, spec_fill, spec_first_no_freq, spec_lacks_freq,
    Fill, GtError, ScoreError,
};
use crate::weight::Weights;
use vstd::prelude::*;

verus! {

/// The number of batches of `batch_size` that hold `total` entries, the
/// last batch being short where the size does not divide the total.
pub open spec fn spec_num_batches(total: int, batch_size: int) -> int {
    total / batch_size + if total % batch_size > 0 {
        1int
    } else {
        0int
    }
}

/// Where batch `i` starts.
pub open spec fn spec_batch_start(i: int, batch_size: int) -> int {
    i * batch_size
}

/// Where batch `i` ends: at the start of the next batch, or at the total
/// if that comes first.
pub open spec fn spec_batch_end(i: int, batch_size: int, total: int) -> int {
    if (i + 1) * batch_size < total {
        (i + 1) * batch_size
    } else {
        total
    }
}

/// The number of batches of `batch_size` that hold `total` entries.
pub fn num_batches(total: usize, batch_size: usize) -> (n: usize)
    requires
        batch_size > 0,
    ensures
        n == spec_num_batches(total as int, batch_size as int),
{
    let mut num_batches: usize = total / batch_size;
    if total % batch_size > 0 {
        assert(total / batch_size < total) by (nonlinear_arith)
            requires
                batch_size > 0,
                total % batch_size > 0,
                total >= 0,
        ;
        num_batches += 1
    }
    num_batches
}

/// The batches are contiguous and disjoint and cover the entries: each
/// batch but the last is full, the last is not empty, each batch starts
/// where the one before ends, and the last ends at the total.
pub proof fn lemma_batches_partition(total: int, batch_size: int, i: int)
    requires
        batch_size > 0,
        total >= 0,
        0 <= i < spec_num_batches(total, batch_size),
    ensures
        0 <= spec_batch_start(i, batch_size) < spec_batch_end(i, batch_size, total) <= total,
        spec_batch_end(i, batch_size, total) - spec_batch_start(i, batch_size) <= batch_size,
        i + 1 < spec_num_batches(total, batch_size) ==> spec_batch_end(i, batch_size, total)
            - spec_batch_start(i, batch_size) == batch_size,
        i + 1 < spec_num_batches(total, batch_size) ==> spec_batch_start(i + 1, batch_size)
            == spec_batch_end(i, batch_size, total),
        i + 1 == spec_num_batches(total, batch_size) ==> spec_batch_end(i, batch_size, total)
            == total,
{
    let q = total / batch_size;
    let r = total % batch_size;
    assert(total == q * batch_size + r && 0 <= r < batch_size) by (nonlinear_arith)
        requires
            q == total / batch_size,
            r == total % batch_size,
            batch_size > 0,
    ;
    assert((i + 1) * batch_size == i * batch_size + batch_size) by (nonlinear_arith);
    assert(i < q ==> (i + 1) * batch_size <= q * batch_size) by (nonlinear_arith)
        requires
            batch_size > 0,
    ;
    assert(i >= q ==> (i + 1) * batch_size >= q * batch_size + batch_size) by (nonlinear_arith)
        requires
            batch_size > 0,
    ;
    assert(i >= q ==> i * batch_size >= q * batch_size) by (nonlinear_arith)
        requires
            batch_size > 0,
    ;
    assert(0 <= i * batch_size) by (nonlinear_arith)
        requires
            0 <= i,
            batch_size > 0,
    ;
    assert(i <= q ==> i * batch_size <= q * batch_size) by (nonlinear_arith)
        requires
            batch_size > 0,
    ;
}

/// Every entry lies in exactly one batch: the batch `p / batch_size`.
pub proof fn lemma_batch_of_entry(total: int, batch_size: int, p: int, i: int)
    requires
        batch_size > 0,
        0 <= p < total,
        0 <= i,
    ensures
        p / batch_size < spec_num_batches(total, batch_size),
        (spec_batch_start(i, batch_size) <= p < spec_batch_end(i, batch_size, total)) <==> i == p
            / batch_size,
{
    let b = p / batch_size;
    let r = p % batch_size;
    assert(p == b * batch_size + r && 0 <= r < batch_size) by (nonlinear_arith)
        requires
            b == p / batch_size,
            r == p % batch_size,
            batch_size > 0,
    ;
    let q = total / batch_size;
    let tr = total % batch_size;
    assert(total == q * batch_size + tr && 0 <= tr < batch_size) by (nonlinear_arith)
        requires
            q == total / batch_size,
            tr == total % batch_size,
            batch_size > 0,
    ;
    assert(b > q ==> b * batch_size >= q * batch_size + batch_size) by (nonlinear_arith)
        requires
            batch_size > 0,
    ;
    assert((i + 1) * batch_size == i * batch_size + batch_size) by (nonlinear_arith);
    assert(i < b ==> (i + 1) * batch_size <= b * batch_size) by (nonlinear_arith)
        requires
            batch_size > 0,
    ;
    assert(i > b ==> i * batch_size >= b * batch_size + batch_size) by (nonlinear_arith)
        requires
            batch_size > 0,
    ;
}

/// The indices of the individuals of batch `i`, in order: from the start
/// of the batch up to its end.
pub open spec fn spec_batch_iid(i: int, batch_size: int, iid_count: int) -> Seq<isize> {
    Seq::new(
        (spec_batch_end(i, batch_size, iid_count) - spec_batch_start(i, batch_size)) as nat,
        |k: int| (spec_batch_start(i, batch_size) + k) as isize,
    )
}

/// The indices of the individuals of batch `i`, in order.
pub fn batch_iid(i: usize, batch_size: usize, iid_count: usize) -> (iid: Vec<isize>)
    requires
        batch_size > 0,
        i < spec_num_batches(iid_count as int, batch_size as int),
        iid_count <= isize::MAX,
    ensures
        iid@ == spec_batch_iid(i as int, batch_size as int, iid_count as int),
        iid@.len() == spec_batch_end(i as int, batch_size as int, iid_count as int)
            - spec_batch_start(i as int, batch_size as int),
        forall|k: int|
            0 <= k < iid@.len() ==> #[trigger] iid@[k] == spec_batch_start(
                i as int,
                batch_size as int,
            ) + k,
{
    proof {
        lemma_batches_partition(iid_count as int, batch_size as int, i as int);
    }
    let start: usize = i * batch_size;
    let end: usize = if iid_count - start > batch_size {
        start + batch_size
    } else {
        iid_count
    };
    assert((i + 1) * batch_size == i * batch_size + batch_size) by (nonlinear_arith);
    let mut iid: Vec<isize> = Vec::new();
    let mut p: usize = start;
    while p < end
        invariant
            start <= p <= end,
            end <= iid_count,
            iid_count <= isize::MAX,
            iid@.len() == p - start,
            forall|k: int| 0 <= k < iid@.len() ==> #[trigger] iid@[k] == start + k,
        decreases end - p,
    {
        iid.push(p as isize);
        p += 1;
    }
    assert(iid@ =~= spec_batch_iid(i as int, batch_size as int, iid_count as int));
    iid
}

/// The value of a code is a genotype, swapped or not.
pub proof fn lemma_code_is_genotype(code: u8, swap: bool)
    requires
        code < 4,
    ensures
        is_genotype(spec_genotype(code, swap)),
        is_genotype(spec_two_bits_to_value(true, MISSING_I8, code)),
{
}

/// Whether `cells` holds the genotypes of the individuals `iid_idx` at
/// the matched markers of `weights`, read from a file and each marker
/// oriented to its tested allele.
pub open spec fn is_scoring_block(
    bytes: Seq<u8>,
    iid_count: int,
    sid_count: int,
    weights: Weights,
    iid_idx: Seq<isize>,
    cells: Seq<Seq<i8>>,
) -> bool {
    &&& cells.len() == iid_idx.len()
    &&& forall|i: int| 0 <= i < iid_idx.len() ==> (#[trigger] cells[i]).len() == weights.matched@.len()
    &&& forall|i: int, j: int|
        0 <= i < iid_idx.len() && 0 <= j < weights.matched@.len() ==> (#[trigger] cells[i][j])
            == spec_genotype(
            file_code(
                bytes,
                iid_count,
                sid_count,
                index_pos(sid_count, weights.sid_idx@[j] as int),
                index_pos(iid_count, iid_idx[i] as int),
            ),
            weights.swap_vec@[j],
        )
}

/// Whether `fills` holds the fill of each matched marker for the block
/// `cells`.
pub open spec fn is_fills(weights: Weights, cells: Seq<Seq<i8>>, fills: Seq<Fill>) -> bool {
    &&& fills.len() == weights.matched@.len()
    &&& forall|j: int|
        0 <= j < weights.matched@.len() ==> #[trigger] fills[j] == spec_fill(
            weights.missing_strategy,
            weights.matched@[j],
            cells,
            j,
        )
}

/// Whether `e` is the error of preparing the genotypes of the individuals
/// `iid_idx` at the matched markers: the error of decoding them where they
/// cannot be decoded, and else the first matched marker without a
/// frequency, where missing calls are to be filled with frequencies.
pub open spec fn is_score_error(
    bytes: Seq<u8>,
    iid_count: int,
    sid_count: int,
    weights: Weights,
    iid_idx: Seq<isize>,
    e: ScoreError,
) -> bool {
    if read_ok(
        bytes,
        iid_count,
        sid_count,
        iid_idx,
        weights.sid_idx@,
        iid_idx.len() as int,
        weights.matched@.len() as int,
    ) {
        spec_lacks_freq(weights) && e == ScoreError::Gt(
            GtError::NoFrequency {
                marker: spec_first_no_freq(
                    weights.matched@,
                    weights.matched@.len() as int,
                ) as usize,
            },
        )
    } else {
        e matches ScoreError::Bed(b) && is_read_error(
            bytes,
            iid_count,
            sid_count,
            iid_idx,
            weights.sid_idx@,
            iid_idx.len() as int,
            weights.matched@.len() as int,
            b,
        )
    }
}

/// Decodes, from the bytes of a file, the genotypes of the individuals
/// `iid_idx` at the matched markers, orients each marker to its tested
/// allele and gives each marker's fill.
///
/// The genotypes are decoded first; an error of decoding comes before the
/// error of a marker without a frequency.
pub fn cal_score_array(
    bytes: &[u8],
    iid_count: usize,
    sid_count: usize,
    weights: &Weights,
    iid_idx: &[isize],
) -> (r: Result<(GenoBlock, Vec<Fill>), ScoreError>)
    requires
        weights.wf(),
        block_fits(iid_idx@.len() as int, weights.matched@.len() as int),
    ensures
        r is Ok <==> read_ok(
            bytes@,
            iid_count as int,
            sid_count as int,
            iid_idx@,
            weights.sid_idx@,
            iid_idx@.len() as int,
            weights.matched@.len() as int,
        ) && !spec_lacks_freq(*weights),
        r matches Err(e) ==> is_score_error(
            bytes@,
            iid_count as int,
            sid_count as int,
            *weights,
            iid_idx@,
            e,
        ),
        r matches Ok((gt, fills)) ==> {
            &&& gt.wf()
            &&& gt.spec_nrows() == iid_idx@.len()
            &&& gt.spec_ncols() == weights.matched@.len()
            &&& is_scoring_block(
                bytes@,
                iid_count as int,
                sid_count as int,
                *weights,
                iid_idx@,
                gt@,
            )
            &&& is_fills(*weights, gt@, fills@)
        },
{
    let made: Option<GenoBlock> = GenoBlock::new(iid_idx.len(), weights.len());
    let mut gt: GenoBlock = made.unwrap();
    match read_no_alloc(
        bytes,
        iid_count,
        sid_count,
        true,
        iid_idx,
        weights.sid_idx.as_slice(),
        MISSING_I8,
        &mut gt,
    ) {
        Ok(()) => {},
        Err(e) => {
            return Err(ScoreError::Bed(e));
        },
    }
    let ghost plain = gt@;
    proof {
        assert forall|i: int, j: int| 0 <= i < plain.len() && 0 <= j < plain[i].len() implies is_genotype(
            #[trigger] plain[i][j],
        ) by {
            let code = file_code(
                bytes@,
                iid_count as int,
                sid_count as int,
                index_pos(sid_count as int, weights.sid_idx@[j] as int),
                index_pos(iid_count as int, iid_idx@[i] as int),
            );
            lemma_file_code_bound(
                bytes@,
                iid_count as int,
                sid_count as int,
                index_pos(sid_count as int, weights.sid_idx@[j] as int),
                index_pos(iid_count as int, iid_idx@[i] as int),
            );
            lemma_code_is_genotype(code, false);
        }
    }
    // process gt
    let fills: Vec<Fill> = match process_gt(weights, &mut gt) {
        Ok(v) => v,
        Err(e) => {
            return Err(ScoreError::Gt(e));
        },
    };
    proof {
        assert forall|i: int, j: int|
            0 <= i < iid_idx@.len() && 0 <= j < weights.matched@.len() implies (#[trigger] gt@[i][j])
            == spec_genotype(
            file_code(
                bytes@,
                iid_count as int,
                sid_count as int,
                index_pos(sid_count as int, weights.sid_idx@[j] as int),
                index_pos(iid_count as int, iid_idx@[i] as int),
            ),
            weights.swap_vec@[j],
        ) by {
            lemma_file_code_bound(
                bytes@,
                iid_count as int,
                sid_count as int,
                index_pos(sid_count as int, weights.sid_idx@[j] as int),
                index_pos(iid_count as int, iid_idx@[i] as int),
            );
            assert(plain[i][j] == spec_two_bits_to_value(
                true,
                MISSING_I8,
                file_code(
                    bytes@,
                    iid_count as int,
                    sid_count as int,
                    index_pos(sid_count as int, weights.sid_idx@[j] as int),
                    index_pos(iid_count as int, iid_idx@[i] as int),
                ),
            ));
        }
    }
    Ok((gt, fills))
}

/// A code of a file is below four.
pub proof fn lemma_file_code_bound(bytes: Seq<u8>, iid_count: int, sid_count: int, sid: int, iid: int)
    ensures
        file_code(bytes, iid_count, sid_count, sid, iid) < 4,
{
    if bytes[2] == 1 {
        lemma_lane_code_bound(
            bytes[3 + sid * crate::bed_index::spec_div4(iid_count) + iid / 4],
            iid % 4,
        );
    } else {
        lemma_lane_code_bound(
            bytes[3 + iid * crate::bed_index::spec_div4(sid_count) + sid / 4],
            sid % 4,
        );
    }
}

/// Decodes the genotypes of the individuals of batch `i` at the matched
/// markers, oriented and with each marker's fill, together with the
/// indices of those individuals.
pub fn cal_scores(
    weights: &Weights,
    i: usize,
    batch_size: usize,
    bytes: &[u8],
    iid_count: usize,
    sid_count: usize,
) -> (r: Result<(Vec<isize>, GenoBlock, Vec<Fill>), ScoreError>)
    requires
        weights.wf(),
        batch_size > 0,
        i < spec_num_batches(iid_count as int, batch_size as int),
        iid_count <= isize::MAX,
        block_fits(batch_size as int, weights.matched@.len() as int),
    ensures
        r is Ok <==> file_ok_for(bytes@, iid_count as int, sid_count as int, *weights)
            && !spec_lacks_freq(*weights),
        r matches Ok((iid, gt, fills)) ==> {
            &&& iid@ == spec_batch_iid(i as int, batch_size as int, iid_count as int)
            &&& gt.wf()
            &&& gt.spec_nrows() == iid@.len()
            &&& gt.spec_ncols() == weights.matched@.len()
            &&& is_scoring_block(bytes@, iid_count as int, sid_count as int, *weights, iid@, gt@)
            &&& is_fills(*weights, gt@, fills@)
        },
        r matches Err(e) ==> is_score_error(
            bytes@,
            iid_count as int,
            sid_count as int,
            *weights,
            spec_batch_iid(i as int, batch_size as int, iid_count as int),
            e,
        ),
{
    // cal batch
    let iid: Vec<isize> = batch_iid(i, batch_size, iid_count);
    proof {
        lemma_batches_partition(iid_count as int, batch_size as int, i as int);
        assert(iid@.len() * weights.matched@.len() <= batch_size * weights.matched@.len())
            by (nonlinear_arith)
            requires
                iid@.len() <= batch_size,
        ;
        assert(all_index_ok(iid_count as int, iid@));
    }
    // get gt
    match cal_score_array(bytes, iid_count, sid_count, weights, iid.as_slice()) {
        Ok((gt, fills)) => Ok((iid, gt, fills)),
        Err(e) => Err(e),
    }
}

/// Whether the file is well formed and holds every matched marker.
pub open spec fn file_ok_for(bytes: Seq<u8>, iid_count: int, sid_count: int, weights: Weights) -> bool {
    &&& crate::bed_crate::file_ok(bytes, iid_count, sid_count)
    &&& all_index_ok(sid_count, weights.sid_idx@)
}

/// Decodes, through a reader, the genotypes of every individual at the
/// matched markers, each marker oriented to its tested allele, and gives
/// each marker's fill.
pub fn cal_score_array_freq_reader(reader: &BedSnpReader, weights: &Weights) -> (r: Result<
    (GenoBlock, Vec<Fill>),
    BedError,
>)
    requires
        reader.wf(),
        weights.wf(),
        block_fits(reader.spec_iid_count() as int, weights.matched@.len() as int),
    ensures
        r is Ok <==> all_index_ok(reader.spec_sid_count() as int, weights.sid_idx@),
        r matches Err(e) ==> exists|k: int|
            first_bad_index(reader.spec_sid_count() as int, weights.sid_idx@, k) && e
                == BedError::SidIndexTooBig(#[trigger] weights.sid_idx@[k]),
        r matches Ok((gt, fills)) ==> {
            &&& gt.wf()
            &&& gt.spec_nrows() == reader.spec_iid_count()
            &&& gt.spec_ncols() == weights.matched@.len()
            &&& reader.is_full_decode(weights.sid_idx@, weights.swap_vec@, gt@)
            &&& is_fills(*weights, gt@, fills@)
        },
{
    let gt: GenoBlock = match reader.read_to_ndarray_freq(
        weights.sid_idx.as_slice(),
        weights.swap_vec.as_slice(),
    ) {
        Ok(v) => v,
        Err(e) => {
            return Err(e);
        },
    };
    let fills: Vec<Fill> = resolve_missing(weights, &gt);
    Ok((gt, fills))
}

} // verus!
