//! Preparing decoded genotypes for scoring: orientation and the value that
//! fills each marker's missing calls.
//!
//! A score is the product of the prepared genotypes and the weights. The
//! product, and the quotient that a mean is, are left to the caller: this
//! module gives the genotypes as integers and each fill as what it is made
//! of.

use crate::bed_error::BedError;
use crate::bed_index::MISSING_I8;
use crate::block::GenoBlock;
use crate::geno_reader::spec_swap;
use crate::meta::MissingStrategy;
use crate::join::MatchedSnp;
use crate::weight::Weights;
use vstd::prelude::*;

verus! {

/// Whether a value is a genotype: zero, one or two copies of an allele, or
/// the missing value.
pub open spec fn is_genotype(v: i8) -> bool {
    v == 0 || v == 1 || v == 2 || v == MISSING_I8
}

/// Whether every value of a block is a genotype.
pub open spec fn block_is_genotypes(cells: Seq<Seq<i8>>) -> bool {
    forall|i: int, j: int|
        0 <= i < cells.len() && 0 <= j < cells[i].len() ==> is_genotype(#[trigger] cells[i][j])
}

/// The sum of the observed values in column `j` of the first `n` rows.
pub open spec fn column_sum(cells: Seq<Seq<i8>>, j: int, n: int) -> nat
    decreases n,
{
    if n <= 0 {
        0
    } else {
        column_sum(cells, j, n - 1) + if cells[n - 1][j] == MISSING_I8 || cells[n - 1][j] < 0 {
            0nat
        } else {
            cells[n - 1][j] as nat
        }
    }
}

/// The number of observed values in column `j` of the first `n` rows.
pub open spec fn column_count(cells: Seq<Seq<i8>>, j: int, n: int) -> nat
    decreases n,
{
    if n <= 0 {
        0
    } else {
        column_count(cells, j, n - 1) + if cells[n - 1][j] == MISSING_I8 {
            0nat
        } else {
            1nat
        }
    }
}

/// What fills the missing calls of one marker.
#[derive(Debug, Clone, Copy, PartialEq, Eq)]
pub enum Fill {
    /// Zero.
    Zero,
    /// The frequency that the weight table holds in row `beta_row`.
    Freq { beta_row: usize },
    /// The mean of the marker's observed values in the batch: `sum`
    /// divided by `count`. It is undefined where `count` is zero.
    Mean { sum: u128, count: u128 },
}

/// Why genotypes cannot be prepared for scoring.
#[derive(Debug, Clone, Copy, PartialEq, Eq)]
pub enum GtError {
    /// Missing calls are to be filled with frequencies, and the weight row
    /// of this matched marker holds none.
    NoFrequency { marker: usize },
}

/// Why the genotypes that a score is computed from cannot be given.
#[derive(Debug, Clone, Copy, PartialEq, Eq)]
pub enum ScoreError {
    /// The genotypes cannot be decoded.
    Bed(BedError),
    /// The decoded genotypes cannot be prepared.
    Gt(GtError),
}

/// The place of the first of the matched markers `matched[0..n]` whose
/// weight row holds no frequency, or `n` where each holds one.
pub open spec fn spec_first_no_freq(matched: Seq<MatchedSnp>, n: int) -> int
    decreases n,
{
    if n <= 0 {
        0
    } else {
        let p = spec_first_no_freq(matched, n - 1);
        if p < n - 1 {
            p
        } else if !matched[n - 1].has_freq {
            n - 1
        } else {
            n
        }
    }
}

/// Whether the fills of the matched markers cannot be given: missing calls
/// are to be filled with frequencies and a marker has none.
pub open spec fn spec_lacks_freq(weights: Weights) -> bool {
    weights.missing_strategy == MissingStrategy::Freq && exists|j: int|
        0 <= j < weights.matched@.len() && !(#[trigger] weights.matched@[j]).has_freq
}

/// Once a marker without a frequency is found among the first `n`, more
/// markers do not change which is the first.
pub proof fn lemma_first_no_freq_stays(matched: Seq<MatchedSnp>, n: int, m: int)
    requires
        0 <= n <= m,
        spec_first_no_freq(matched, n) < n,
    ensures
        spec_first_no_freq(matched, m) == spec_first_no_freq(matched, n),
    decreases m - n,
{
    if n < m {
        lemma_first_no_freq_stays(matched, n, m - 1);
    }
}

/// The first marker without a frequency among the first `n` is one of
/// them and has none, and every marker before it has one; where there is
/// no such marker, each of the first `n` has a frequency.
pub proof fn lemma_first_no_freq(matched: Seq<MatchedSnp>, n: int)
    requires
        0 <= n <= matched.len(),
    ensures
        0 <= spec_first_no_freq(matched, n) <= n,
        spec_first_no_freq(matched, n) < n ==> !matched[spec_first_no_freq(matched, n)].has_freq,
        forall|j: int| 0 <= j < spec_first_no_freq(matched, n) ==> (#[trigger] matched[j]).has_freq,
    decreases n,
{
    if n > 0 {
        lemma_first_no_freq(matched, n - 1);
    }
}

/// The first matched marker whose weight row holds no frequency.
fn first_no_freq(weights: &Weights) -> (r: Option<usize>)
    ensures
        r is Some <==> spec_first_no_freq(weights.matched@, weights.matched@.len() as int)
            < weights.matched@.len(),
        r matches Some(j) ==> j == spec_first_no_freq(
            weights.matched@,
            weights.matched@.len() as int,
        ),
{
    let mut j: usize = 0;
    while j < weights.matched.len()
        invariant
            j <= weights.matched@.len(),
            spec_first_no_freq(weights.matched@, j as int) == j,
        decreases weights.matched.len() - j,
    {
        if !weights.matched[j].has_freq {
            proof {
                lemma_first_no_freq_stays(
                    weights.matched@,
                    j as int + 1,
                    weights.matched@.len() as int,
                );
            }
            return Some(j);
        }
        j += 1;
    }
    None
}

/// The fill of column `j` of a block whose orientation is settled, for a
/// matched marker: zero, the frequency of the marker's weight row (and
/// zero where the row holds none), or the mean of the observed values of
/// the column.
pub open spec fn spec_fill(
    strategy: MissingStrategy,
    marker: MatchedSnp,
    cells: Seq<Seq<i8>>,
    j: int,
) -> Fill {
    match strategy {
        MissingStrategy::Zero => Fill::Zero,
        MissingStrategy::Freq => if marker.has_freq {
            Fill::Freq { beta_row: marker.beta_row }
        } else {
            Fill::Zero
        },
        MissingStrategy::Impute => Fill::Mean {
            sum: column_sum(cells, j, cells.len() as int) as u128,
            count: column_count(cells, j, cells.len() as int) as u128,
        },
    }
}

/// Swapping a column leaves the number of its observed values as it is
/// and turns their sum `s` into `2 * count - s`: the mean of the swapped
/// values is two minus the mean of the values as they were.
pub proof fn lemma_swapped_column(plain: Seq<Seq<i8>>, swapped: Seq<Seq<i8>>, j: int, n: int)
    requires
        0 <= n <= plain.len(),
        n <= swapped.len(),
        forall|i: int| 0 <= i < n ==> is_genotype(#[trigger] plain[i][j]),
        forall|i: int| 0 <= i < n ==> (#[trigger] swapped[i])[j] == spec_swap(plain[i][j]),
    ensures
        column_count(swapped, j, n) == column_count(plain, j, n),
        column_sum(swapped, j, n) + column_sum(plain, j, n) == 2 * column_count(plain, j, n),
    decreases n,
{
    if n > 0 {
        lemma_swapped_column(plain, swapped, j, n - 1);
        assert(is_genotype(plain[n - 1][j]));
        assert(swapped[n - 1][j] == spec_swap(plain[n - 1][j]));
    }
}

/// The sum and the number of the observed values of column `j`.
fn column_stats(gt: &GenoBlock, j: usize) -> (r: (u128, u128))
    requires
        gt.wf(),
        j < gt.spec_ncols(),
    ensures
        r.0 == column_sum(gt@, j as int, gt@.len() as int),
        r.1 == column_count(gt@, j as int, gt@.len() as int),
{
    let rows: usize = gt.nrows();
    let mut sum: u128 = 0;
    let mut count: u128 = 0;
    let mut i: usize = 0;
    while i < rows
        invariant
            i <= rows,
            rows == gt@.len(),
            gt.wf(),
            j < gt.spec_ncols(),
            sum == column_sum(gt@, j as int, i as int),
            count == column_count(gt@, j as int, i as int),
            count <= i,
            sum <= 127 * i,
        decreases rows - i,
    {
        let x: i8 = gt.at(i, j);
        if x != MISSING_I8 {
            count = count + 1;
            if x > 0 {
                sum = sum + x as u128;
            }
        }
        i += 1;
    }
    (sum, count)
}

/// The fill of each marker of a block whose orientation is settled: zero,
/// the marker's frequency in the weight table, or the mean of its observed
/// values in this block, as the strategy of the weights says. A marker
/// that is to be filled with its frequency and has none is filled with
/// zero.
pub fn resolve_missing(weights: &Weights, gt: &GenoBlock) -> (fills: Vec<Fill>)
    requires
        weights.wf(),
        gt.wf(),
        gt.spec_ncols() == weights.matched@.len(),
    ensures
        fills@.len() == weights.matched@.len(),
        forall|j: int|
            0 <= j < weights.matched@.len() ==> #[trigger] fills@[j] == spec_fill(
                weights.missing_strategy,
                weights.matched@[j],
                gt@,
                j,
            ),
{
    let n: usize = weights.len();
    let mut fills: Vec<Fill> = Vec::new();
    let mut j: usize = 0;
    while j < n
        invariant
            j <= n,
            n == weights.matched@.len(),
            gt.wf(),
            gt.spec_ncols() == n,
            fills@.len() == j,
            forall|h: int|
                0 <= h < j ==> #[trigger] fills@[h] == spec_fill(
                    weights.missing_strategy,
                    weights.matched@[h],
                    gt@,
                    h,
                ),
        decreases n - j,
    {
        // deal with missing with different strategy
        let fill: Fill = match weights.missing_strategy {
            MissingStrategy::Zero => Fill::Zero,
            MissingStrategy::Freq => {
                if weights.matched[j].has_freq {
                    Fill::Freq { beta_row: weights.matched[j].beta_row }
                } else {
                    Fill::Zero
                }
            },
            MissingStrategy::Impute => {
                // cal non na mean
                let (sum, count) = column_stats(gt, j);
                Fill::Mean { sum, count }
            },
        };
        fills.push(fill);
        j += 1;
    }
    fills
}

/// Replaces each observed value `v` of column `j` by `2 - v`.
fn swap_column(gt: &mut GenoBlock, j: usize)
    requires
        old(gt).wf(),
        j < old(gt).spec_ncols(),
        forall|i: int| 0 <= i < old(gt)@.len() ==> is_genotype(#[trigger] old(gt)@[i][j as int]),
    ensures
        final(gt).wf(),
        final(gt).spec_nrows() == old(gt).spec_nrows(),
        final(gt).spec_ncols() == old(gt).spec_ncols(),
        forall|i: int|
            0 <= i < old(gt)@.len() ==> (#[trigger] final(gt)@[i])[j as int] == spec_swap(
                old(gt)@[i][j as int],
            ),
        forall|i: int, h: int|
            0 <= i < old(gt)@.len() && 0 <= h < old(gt).spec_ncols() && h != j ==> (
            #[trigger] final(gt)@[i][h]) == old(gt)@[i][h],
{
    let rows: usize = gt.nrows();
    let mut i: usize = 0;
    while i < rows
        invariant
            i <= rows,
            rows == gt@.len(),
            rows == old(gt)@.len(),
            gt.wf(),
            gt.spec_nrows() == old(gt).spec_nrows(),
            gt.spec_ncols() == old(gt).spec_ncols(),
            j < gt.spec_ncols(),
            forall|k: int| 0 <= k < rows ==> is_genotype(#[trigger] old(gt)@[k][j as int]),
            forall|k: int|
                0 <= k < i ==> (#[trigger] gt@[k])[j as int] == spec_swap(old(gt)@[k][j as int]),
            forall|k: int| i <= k < rows ==> (#[trigger] gt@[k])[j as int] == old(gt)@[k][j as int],
            forall|k: int, h: int|
                0 <= k < rows && 0 <= h < gt.spec_ncols() && h != j ==> (#[trigger] gt@[k][h])
                    == old(gt)@[k][h],
        decreases rows - i,
    {
        let x: i8 = gt.at(i, j);
        assert(is_genotype(old(gt)@[i as int][j as int]));
        if x != MISSING_I8 {
            let ghost before = gt@;
            gt.put(i, j, 2 - x);
            proof {
                assert forall|k: int, h: int|
                    0 <= k < rows && 0 <= h < gt.spec_ncols() && !(k == i && h == j) implies (
                #[trigger] gt@[k][h]) == before[k][h] by {}
                assert forall|k: int| 0 <= k < i + 1 implies (#[trigger] gt@[k])[j as int]
                    == spec_swap(old(gt)@[k][j as int]) by {
                    if k != i {
                        assert(gt@[k][j as int] == before[k][j as int]);
                    }
                }
                assert forall|k: int| i + 1 <= k < rows implies (#[trigger] gt@[k])[j as int]
                    == old(gt)@[k][j as int] by {
                    assert(gt@[k][j as int] == before[k][j as int]);
                }
            }
        }
        i += 1;
    }
}

/// Whether `after` is `before` with the markers swapped whose flag is set.
pub open spec fn is_oriented(swap: Seq<bool>, before: Seq<Seq<i8>>, after: Seq<Seq<i8>>) -> bool {
    &&& after.len() == before.len()
    &&& forall|i: int, j: int|
        0 <= i < before.len() && 0 <= j < swap.len() ==> (#[trigger] after[i][j]) == if swap[j] {
            spec_swap(before[i][j])
        } else {
            before[i][j]
        }
}

/// Swaps the markers whose tested allele is the reference allele and gives
/// the fill of each marker; one walk through the weights does both.
///
/// The genotypes come in as they were decoded, none swapped yet, and an
/// observed value is never changed but by the swap. A mean is taken over
/// the values as they stand after the swap, so that it is the mean of what
/// is scored. Where missing calls are to be filled with frequencies and a
/// marker has none, that is an error, the first such marker is reported
/// and the genotypes are left as they were; with the other two strategies
/// a marker without a frequency is no error.
pub fn process_gt(weights: &Weights, gt: &mut GenoBlock) -> (r: Result<Vec<Fill>, GtError>)
    requires
        weights.wf(),
        old(gt).wf(),
        old(gt).spec_ncols() == weights.matched@.len(),
        block_is_genotypes(old(gt)@),
    ensures
        final(gt).wf(),
        final(gt).spec_nrows() == old(gt).spec_nrows(),
        final(gt).spec_ncols() == old(gt).spec_ncols(),
        spec_lacks_freq(*weights) ==> final(gt)@ == old(gt)@ && r == Err::<Vec<Fill>, GtError>(
            GtError::NoFrequency {
                marker: spec_first_no_freq(
                    weights.matched@,
                    weights.matched@.len() as int,
                ) as usize,
            },
        ),
        !spec_lacks_freq(*weights) ==> (r matches Ok(fills) && {
            &&& is_oriented(weights.swap_vec@, old(gt)@, final(gt)@)
            &&& fills@.len() == weights.matched@.len()
            &&& weights.missing_strategy == MissingStrategy::Freq ==> forall|j: int|
                0 <= j < weights.matched@.len() ==> #[trigger] fills@[j] == (Fill::Freq {
                    beta_row: weights.matched@[j].beta_row,
                })
            &&& forall|j: int|
                0 <= j < weights.matched@.len() ==> #[trigger] fills@[j] == spec_fill(
                    weights.missing_strategy,
                    weights.matched@[j],
                    final(gt)@,
                    j,
                )
        }),
{
    proof {
        lemma_first_no_freq(weights.matched@, weights.matched@.len() as int);
    }
    if matches!(weights.missing_strategy, MissingStrategy::Freq) {
        match first_no_freq(weights) {
            Some(marker) => {
                return Err(GtError::NoFrequency { marker });
            },
            None => {},
        }
    }
    let n: usize = weights.len();
    let mut cc: usize = 0;
    while cc < n
        invariant
            cc <= n,
            n == weights.matched@.len(),
            weights.wf(),
            gt.wf(),
            gt.spec_nrows() == old(gt).spec_nrows(),
            gt.spec_ncols() == old(gt).spec_ncols(),
            gt.spec_ncols() == n,
            gt@.len() == old(gt)@.len(),
            old(gt).wf(),
            old(gt).spec_ncols() == n,
            block_is_genotypes(old(gt)@),
            forall|i: int, j: int|
                0 <= i < gt@.len() && 0 <= j < cc ==> (#[trigger] gt@[i][j]) == if weights.swap_vec@[j] {
                    spec_swap(old(gt)@[i][j])
                } else {
                    old(gt)@[i][j]
                },
            forall|i: int, j: int|
                0 <= i < gt@.len() && cc <= j < n ==> (#[trigger] gt@[i][j]) == old(gt)@[i][j],
        decreases n - cc,
    {
        let swap_flag: bool = weights.swap_vec[cc];
        if swap_flag {
            let ghost before = gt@;
            assert forall|i: int| 0 <= i < gt@.len() implies is_genotype(
                #[trigger] gt@[i][cc as int],
            ) by {
                assert(gt@[i][cc as int] == old(gt)@[i][cc as int]);
                assert(old(gt)@[i].len() == n);
            }
            swap_column(gt, cc);
            proof {
                assert forall|i: int, j: int| 0 <= i < gt@.len() && 0 <= j < cc + 1 implies (
                #[trigger] gt@[i][j]) == if weights.swap_vec@[j] {
                    spec_swap(old(gt)@[i][j])
                } else {
                    old(gt)@[i][j]
                } by {
                    if j < cc {
                        assert(gt@[i][j] == before[i][j]);
                    } else {
                        assert(gt@[i][cc as int] == spec_swap(before[i][cc as int]));
                    }
                }
                assert forall|i: int, j: int| 0 <= i < gt@.len() && cc + 1 <= j < n implies (
                #[trigger] gt@[i][j]) == old(gt)@[i][j] by {
                    assert(gt@[i][j] == before[i][j]);
                }
            }
        }
        cc += 1;
    }
    Ok(resolve_missing(weights, gt))
}

} // verus!
