//! Matching the markers of a weight table against the markers of a
//! genotype file.

use crate::betareader::bytes_eq;
use crate::meta::MetaArg;
use crate::weight::Weights;
use vstd::prelude::*;

verus! {

/// The status of a weight row whose tested allele is the marker's
/// alternate allele.
pub const GOOD: &'static str = "Good";

/// The status of a weight row whose tested allele is the marker's
/// reference allele: its genotypes are to be swapped.
pub const SWAP: &'static str = "Swap";

/// The status of a weight row whose tested allele is neither allele of the
/// marker: the row is left out.
pub const NO_MATCH: &'static str = "NoMatch";

/// The counts of a match between a genotype file and a weight table.
#[derive(Debug, Clone, Copy, PartialEq, Eq)]
pub struct MatchStatus {
    /// The markers of the genotype file.
    pub bfile_snp: usize,
    /// The rows of the weight table.
    pub model_snp: usize,
    /// The matched markers.
    pub match_snp: usize,
}

impl MatchStatus {
    pub fn new(bfile_snp: usize, model_snp: usize, match_snp: usize) -> (r: MatchStatus)
        ensures
            r.bfile_snp == bfile_snp,
            r.model_snp == model_snp,
            r.match_snp == match_snp,
    {
        MatchStatus { bfile_snp, model_snp, match_snp }
    }

    /// The counts before any batch: all zero.
    pub fn new_empty() -> (r: MatchStatus)
        ensures
            r.bfile_snp == 0,
            r.model_snp == 0,
            r.match_snp == 0,
    {
        MatchStatus { bfile_snp: 0, model_snp: 0, match_snp: 0 }
    }

    /// The counts of two batches together.
    pub open spec fn spec_add(self, another: MatchStatus) -> MatchStatus {
        MatchStatus {
            bfile_snp: another.bfile_snp,
            model_snp: (self.model_snp + another.model_snp) as usize,
            match_snp: (self.match_snp + another.match_snp) as usize,
        }
    }

    /// Whether the counts of two batches can be added without overflow.
    pub open spec fn can_add(self, another: MatchStatus) -> bool {
        &&& self.model_snp + another.model_snp <= usize::MAX
        &&& self.match_snp + another.match_snp <= usize::MAX
    }

    /// Adds the counts of another batch: the rows of the weight table and
    /// the matched markers add up, while the markers of the genotype file,
    /// which every batch reports alike, are taken from the batch that came
    /// last.
    pub fn add(self, another: MatchStatus) -> (r: MatchStatus)
        requires
            self.can_add(another),
        ensures
            r == self.spec_add(another),
            r.bfile_snp == another.bfile_snp,
            r.model_snp == self.model_snp + another.model_snp,
            r.match_snp == self.match_snp + another.match_snp,
    {
        MatchStatus {
            bfile_snp: another.bfile_snp,
            model_snp: self.model_snp + another.model_snp,
            match_snp: self.match_snp + another.match_snp,
        }
    }
}

/// One marker of the genotype file's marker table.
#[derive(Debug, Clone, PartialEq, Eq)]
pub struct BimRow {
    /// The row of the marker in the table, which is its index in the
    /// genotype file.
    pub idx: isize,
    /// Chromosome.
    pub chr: Vec<u8>,
    /// Identifier.
    pub id: Vec<u8>,
    /// Position on the chromosome.
    pub pos: i32,
    /// The alternate allele.
    pub alt: Vec<u8>,
    /// The reference allele.
    pub reference: Vec<u8>,
}

/// One row of a weight table, as far as matching reads it: the columns
/// that identify the marker and the tested allele.
#[derive(Debug, Clone, PartialEq, Eq)]
pub struct BetaRow {
    /// Chromosome.
    pub chr: Vec<u8>,
    /// Position on the chromosome.
    pub pos: i32,
    /// Identifier; read only where markers are matched by identifier.
    pub id: Vec<u8>,
    /// The tested allele.
    pub a1: Vec<u8>,
    /// Whether the row holds a frequency of the tested allele.
    pub has_freq: bool,
}

/// How the tested allele of a weight row relates to the two alleles of a
/// marker.
#[derive(Debug, Clone, Copy, PartialEq, Eq, Structural)]
pub enum SnpStatus {
    /// The tested allele is the alternate allele.
    Good,
    /// The tested allele is the reference allele.
    Swap,
    /// The tested allele is neither.
    NoMatch,
}

/// One matched marker: a marker of the genotype file, the weight row that
/// it was matched with, and the orientation of the tested allele.
#[derive(Debug, Clone, Copy, PartialEq, Eq)]
pub struct MatchedSnp {
    /// The marker's index in the genotype file.
    pub idx: isize,
    /// The place of the weight row among the rows that were given.
    pub beta_row: usize,
    /// `Good` or `Swap`.
    pub status: SnpStatus,
    /// Whether the weight row holds a frequency of the tested allele.
    pub has_freq: bool,
}

/// Why a match has no result.
#[derive(Debug, Clone, Copy, PartialEq, Eq)]
pub enum JoinError {
    /// No marker of the weight table matched a marker of the genotype
    /// file.
    NoSnpMatched,
}

/// Whether a marker and a weight row name the same locus: by identifier
/// or else by chromosome and position.
pub open spec fn key_eq(by_id: bool, m: BimRow, w: BetaRow) -> bool {
    if by_id {
        m.id@ == w.id@
    } else {
        m.chr@ == w.chr@ && m.pos == w.pos
    }
}

/// The status of a weight row against a marker at the same locus.
pub open spec fn spec_status(m: BimRow, w: BetaRow) -> SnpStatus {
    if w.a1@ == m.alt@ {
        SnpStatus::Good
    } else if w.a1@ == m.reference@ {
        SnpStatus::Swap
    } else {
        SnpStatus::NoMatch
    }
}

/// Whether a weight row matches a marker: same locus, and the tested
/// allele is one of the marker's two.
pub open spec fn joins(by_id: bool, m: BimRow, w: BetaRow) -> bool {
    key_eq(by_id, m, w) && spec_status(m, w) != SnpStatus::NoMatch
}

/// Whether two weight rows name the same locus and the same tested allele.
pub open spec fn same_target(by_id: bool, a: BetaRow, b: BetaRow) -> bool {
    &&& a.a1@ == b.a1@
    &&& if by_id {
        a.id@ == b.id@
    } else {
        a.chr@ == b.chr@ && a.pos == b.pos
    }
}

/// The place of the first of the markers `bim[0..n]` that a weight row
/// matches, or `n` where it matches none of them.
pub open spec fn first_join(by_id: bool, bim: Seq<BimRow>, w: BetaRow, n: int) -> int
    decreases n,
{
    if n <= 0 {
        0
    } else {
        let p = first_join(by_id, bim, w, n - 1);
        if p < n - 1 {
            p
        } else if joins(by_id, bim[n - 1], w) {
            n - 1
        } else {
            n
        }
    }
}

/// Whether one of the weight rows `beta[0..n]` names the same locus and
/// tested allele as `w`.
pub open spec fn seen_before(by_id: bool, beta: Seq<BetaRow>, w: BetaRow, n: int) -> bool
    decreases n,
{
    if n <= 0 {
        false
    } else {
        seen_before(by_id, beta, w, n - 1) || same_target(by_id, beta[n - 1], w)
    }
}

/// Whether weight row `j` gives a matched marker: it matches a marker, and
/// no earlier row names the same locus and tested allele.
pub open spec fn is_kept(by_id: bool, bim: Seq<BimRow>, beta: Seq<BetaRow>, j: int) -> bool {
    &&& first_join(by_id, bim, beta[j], bim.len() as int) < bim.len()
    &&& !seen_before(by_id, beta, beta[j], j)
}

/// The matched marker that weight row `j` gives: the first marker that it
/// matches.
pub open spec fn spec_entry(by_id: bool, bim: Seq<BimRow>, beta: Seq<BetaRow>, j: int) -> MatchedSnp {
    let m = bim[first_join(by_id, bim, beta[j], bim.len() as int)];
    MatchedSnp {
        idx: m.idx,
        beta_row: j as usize,
        status: spec_status(m, beta[j]),
        has_freq: beta[j].has_freq,
    }
}

/// The matched markers that the weight rows `beta[0..n]` give, in the
/// order of the weight rows.
pub open spec fn spec_matched(by_id: bool, bim: Seq<BimRow>, beta: Seq<BetaRow>, n: int) -> Seq<
    MatchedSnp,
>
    decreases n,
{
    if n <= 0 {
        Seq::empty()
    } else {
        let prev = spec_matched(by_id, bim, beta, n - 1);
        if is_kept(by_id, bim, beta, n - 1) {
            prev.push(spec_entry(by_id, bim, beta, n - 1))
        } else {
            prev
        }
    }
}

/// Whether a marker and a weight row name the same locus.
fn key_matches(by_id: bool, m: &BimRow, w: &BetaRow) -> (r: bool)
    ensures
        r == key_eq(by_id, *m, *w),
{
    if by_id {
        bytes_eq(m.id.as_slice(), w.id.as_slice())
    } else {
        m.pos == w.pos && bytes_eq(m.chr.as_slice(), w.chr.as_slice())
    }
}

/// The status of a weight row against a marker.
pub fn status_of(m: &BimRow, w: &BetaRow) -> (r: SnpStatus)
    ensures
        r == spec_status(*m, *w),
{
    if bytes_eq(w.a1.as_slice(), m.alt.as_slice()) {
        SnpStatus::Good
    } else if bytes_eq(w.a1.as_slice(), m.reference.as_slice()) {
        SnpStatus::Swap
    } else {
        SnpStatus::NoMatch
    }
}

/// Whether two weight rows name the same locus and tested allele.
fn targets_equal(by_id: bool, a: &BetaRow, b: &BetaRow) -> (r: bool)
    ensures
        r == same_target(by_id, *a, *b),
{
    if bytes_eq(a.a1.as_slice(), b.a1.as_slice()) {
        if by_id {
            bytes_eq(a.id.as_slice(), b.id.as_slice())
        } else {
            a.pos == b.pos && bytes_eq(a.chr.as_slice(), b.chr.as_slice())
        }
    } else {
        false
    }
}

/// Finds the first marker that a weight row matches.
fn find_first_join(by_id: bool, bim: &Vec<BimRow>, w: &BetaRow) -> (r: Option<(usize, SnpStatus)>)
    ensures
        r is Some <==> first_join(by_id, bim@, *w, bim@.len() as int) < bim@.len(),
        r matches Some((p, status)) ==> {
            &&& p == first_join(by_id, bim@, *w, bim@.len() as int)
            &&& status == spec_status(bim@[p as int], *w)
            &&& status != SnpStatus::NoMatch
        },
{
    let mut i: usize = 0;
    while i < bim.len()
        invariant
            i <= bim.len(),
            first_join(by_id, bim@, *w, i as int) == i,
        decreases bim.len() - i,
    {
        if key_matches(by_id, &bim[i], w) {
            let status: SnpStatus = status_of(&bim[i], w);
            match status {
                SnpStatus::NoMatch => {},
                _ => {
                    proof {
                        lemma_first_join_stays(by_id, bim@, *w, i as int + 1, bim@.len() as int);
                    }
                    return Some((i, status));
                },
            }
        }
        i += 1;
    }
    None
}

/// Once a weight row has matched one of the first `n` markers, looking at
/// more markers does not change which one is the first.
pub proof fn lemma_first_join_stays(by_id: bool, bim: Seq<BimRow>, w: BetaRow, n: int, m: int)
    requires
        0 <= n <= m,
        first_join(by_id, bim, w, n) < n,
    ensures
        first_join(by_id, bim, w, m) == first_join(by_id, bim, w, n),
    decreases m - n,
{
    if n < m {
        lemma_first_join_stays(by_id, bim, w, n, m - 1);
    }
}

/// Whether an earlier weight row names the same locus and tested allele
/// as row `j`.
fn find_seen_before(by_id: bool, beta: &Vec<BetaRow>, j: usize) -> (r: bool)
    requires
        j < beta@.len(),
    ensures
        r == seen_before(by_id, beta@, beta@[j as int], j as int),
{
    let mut k: usize = 0;
    while k < j
        invariant
            k <= j,
            j < beta@.len(),
            !seen_before(by_id, beta@, beta@[j as int], k as int),
        decreases j - k,
    {
        if targets_equal(by_id, &beta[k], &beta[j]) {
            proof {
                lemma_seen_before_stays(by_id, beta@, beta@[j as int], k as int + 1, j as int);
            }
            return true;
        }
        k += 1;
    }
    false
}

/// A row that was seen among the first `n` rows is seen among more.
pub proof fn lemma_seen_before_stays(by_id: bool, beta: Seq<BetaRow>, w: BetaRow, n: int, m: int)
    requires
        0 <= n <= m,
        seen_before(by_id, beta, w, n),
    ensures
        seen_before(by_id, beta, w, m),
    decreases m - n,
{
    if n < m {
        lemma_seen_before_stays(by_id, beta, w, n, m - 1);
    }
}

/// Matches the rows of a weight table against the markers of a genotype
/// file and gives the matched markers in the order of the weight rows.
///
/// A weight row matches a marker at the same locus (the same identifier
/// with `by_id`, else the same chromosome and position) whose alternate or
/// reference allele is the row's tested allele. Of several markers that a
/// row matches the first counts; of several rows with the same locus and
/// tested allele only the first is kept.
pub fn join_snp(by_id: bool, bim: &Vec<BimRow>, beta: &Vec<BetaRow>) -> (out: Vec<MatchedSnp>)
    ensures
        out@ == spec_matched(by_id, bim@, beta@, beta@.len() as int),
{
    let mut out: Vec<MatchedSnp> = Vec::new();
    let mut j: usize = 0;
    while j < beta.len()
        invariant
            j <= beta.len(),
            out@ == spec_matched(by_id, bim@, beta@, j as int),
        decreases beta.len() - j,
    {
        match find_first_join(by_id, bim, &beta[j]) {
            Some((p, status)) => {
                if !find_seen_before(by_id, beta, j) {
                    out.push(
                        MatchedSnp {
                            idx: bim[p].idx,
                            beta_row: j,
                            status,
                            has_freq: beta[j].has_freq,
                        },
                    );
                }
            },
            None => {},
        }
        j += 1;
    }
    out
}

/// Every matched marker is `Good` or `Swap`, comes from a weight row and a
/// marker that were given, and the matched markers follow the order of the
/// weight rows; there are no more of them than weight rows.
pub proof fn lemma_matched_rows(by_id: bool, bim: Seq<BimRow>, beta: Seq<BetaRow>, n: int)
    requires
        0 <= n <= beta.len(),
        beta.len() <= usize::MAX,
    ensures
        spec_matched(by_id, bim, beta, n).len() <= n,
        forall|t: int|
            0 <= t < spec_matched(by_id, bim, beta, n).len() ==> {
                let e = #[trigger] spec_matched(by_id, bim, beta, n)[t];
                &&& e.status != SnpStatus::NoMatch
                &&& 0 <= e.beta_row < n
                &&& is_kept(by_id, bim, beta, e.beta_row as int)
                &&& e == spec_entry(by_id, bim, beta, e.beta_row as int)
            },
        forall|s: int, t: int|
            0 <= s < t < spec_matched(by_id, bim, beta, n).len() ==> spec_matched(
                by_id,
                bim,
                beta,
                n,
            )[s].beta_row < spec_matched(by_id, bim, beta, n)[t].beta_row,
    decreases n,
{
    if n > 0 {
        lemma_matched_rows(by_id, bim, beta, n - 1);
        let prev = spec_matched(by_id, bim, beta, n - 1);
        let cur = spec_matched(by_id, bim, beta, n);
        if is_kept(by_id, bim, beta, n - 1) {
            lemma_first_join_joins(by_id, bim, beta[n - 1], bim.len() as int);
            assert(cur == prev.push(spec_entry(by_id, bim, beta, n - 1)));
            assert forall|t: int| 0 <= t < cur.len() implies {
                let e = #[trigger] cur[t];
                &&& e.status != SnpStatus::NoMatch
                &&& 0 <= e.beta_row < n
                &&& is_kept(by_id, bim, beta, e.beta_row as int)
                &&& e == spec_entry(by_id, bim, beta, e.beta_row as int)
            } by {
                if t < prev.len() {
                    assert(cur[t] == prev[t]);
                }
            }
            assert forall|s: int, t: int| 0 <= s < t < cur.len() implies cur[s].beta_row
                < cur[t].beta_row by {
                assert(cur[s] == prev[s]);
                if t < prev.len() {
                    assert(cur[t] == prev[t]);
                }
            }
        } else {
            assert(cur == prev);
        }
    }
}

/// Where a weight row matches one of the first `n` markers, the first
/// that it matches is indeed matched, and none before it is.
pub proof fn lemma_first_join_joins(by_id: bool, bim: Seq<BimRow>, w: BetaRow, n: int)
    requires
        0 <= n <= bim.len(),
    ensures
        0 <= first_join(by_id, bim, w, n) <= n,
        first_join(by_id, bim, w, n) < n ==> joins(by_id, bim[first_join(by_id, bim, w, n)], w),
        forall|i: int| 0 <= i < first_join(by_id, bim, w, n) ==> !joins(by_id, #[trigger] bim[i], w),
    decreases n,
{
    if n > 0 {
        lemma_first_join_joins(by_id, bim, w, n - 1);
    }
}

/// The number of the markers `bim[0..n]` at the locus of a weight row:
/// the rows that the row gives in the join of the two tables.
pub open spec fn count_joined(by_id: bool, bim: Seq<BimRow>, w: BetaRow, n: int) -> nat
    decreases n,
{
    if n <= 0 {
        0
    } else {
        count_joined(by_id, bim, w, n - 1) + if key_eq(by_id, bim[n - 1], w) {
            1nat
        } else {
            0nat
        }
    }
}

/// The number of the markers `bim[0..n]` at the locus of a weight row
/// that have not the row's tested allele: the rows of the join that are
/// unmatched.
pub open spec fn count_unmatched(by_id: bool, bim: Seq<BimRow>, w: BetaRow, n: int) -> nat
    decreases n,
{
    if n <= 0 {
        0
    } else {
        count_unmatched(by_id, bim, w, n - 1) + if key_eq(by_id, bim[n - 1], w) && spec_status(
            bim[n - 1],
            w,
        ) == SnpStatus::NoMatch {
            1nat
        } else {
            0nat
        }
    }
}

/// The number of rows of the join of the markers with the weight rows
/// `beta[0..m]`.
pub open spec fn joined_rows(by_id: bool, bim: Seq<BimRow>, beta: Seq<BetaRow>, m: int) -> nat
    decreases m,
{
    if m <= 0 {
        0
    } else {
        joined_rows(by_id, bim, beta, m - 1) + count_joined(
            by_id,
            bim,
            beta[m - 1],
            bim.len() as int,
        )
    }
}

/// The number of unmatched rows of the join of the markers with the
/// weight rows `beta[0..m]`.
pub open spec fn unmatched_rows(by_id: bool, bim: Seq<BimRow>, beta: Seq<BetaRow>, m: int) -> nat
    decreases m,
{
    if m <= 0 {
        0
    } else {
        unmatched_rows(by_id, bim, beta, m - 1) + count_unmatched(
            by_id,
            bim,
            beta[m - 1],
            bim.len() as int,
        )
    }
}

/// Whether no two matched rows of the join are alike in locus and tested
/// allele: no weight row matches two markers, and no two weight rows that
/// match a marker name the same locus and tested allele.
pub open spec fn no_repeats(by_id: bool, bim: Seq<BimRow>, beta: Seq<BetaRow>) -> bool {
    forall|i: int, h: int, j: int, k: int|
        0 <= i < bim.len() && 0 <= h < bim.len() && 0 <= j < beta.len() && 0 <= k < beta.len()
            && !(i == h && j == k) && #[trigger] joins(by_id, bim[i], beta[j]) && #[trigger] joins(
            by_id,
            bim[h],
            beta[k],
        ) ==> !same_target(by_id, beta[j], beta[k])
}

/// A weight row that was seen among the first `n` rows has the locus and
/// the tested allele of one of them.
pub proof fn lemma_seen_before_is_a_row(by_id: bool, beta: Seq<BetaRow>, w: BetaRow, n: int)
    requires
        0 <= n <= beta.len(),
        seen_before(by_id, beta, w, n),
    ensures
        exists|k: int| 0 <= k < n && same_target(by_id, #[trigger] beta[k], w),
    decreases n,
{
    if !same_target(by_id, beta[n - 1], w) {
        lemma_seen_before_is_a_row(by_id, beta, w, n - 1);
    }
}

/// Among the first `n` markers, those at the locus of a weight row are
/// the unmatched and the matched; and where the row matches at most one
/// marker, the matched are one or none, according to whether the row
/// matches a marker at all.
pub proof fn lemma_count_of_a_row(by_id: bool, bim: Seq<BimRow>, w: BetaRow, n: int)
    requires
        0 <= n <= bim.len(),
        forall|i: int, h: int|
            0 <= i < h < bim.len() ==> !(#[trigger] joins(by_id, bim[i], w) && #[trigger] joins(
                by_id,
                bim[h],
                w,
            )),
    ensures
        count_joined(by_id, bim, w, n) == count_unmatched(by_id, bim, w, n) + if first_join(
            by_id,
            bim,
            w,
            n,
        ) < n {
            1nat
        } else {
            0nat
        },
    decreases n,
{
    if n > 0 {
        lemma_count_of_a_row(by_id, bim, w, n - 1);
        lemma_first_join_joins(by_id, bim, w, n - 1);
        let p = first_join(by_id, bim, w, n - 1);
        if p < n - 1 {
            assert(joins(by_id, bim[p], w));
            assert(!joins(by_id, bim[n - 1], w));
        }
    }
}

/// Where no two matched rows of the join are alike in locus and tested
/// allele, the matched markers are the rows of the join less the
/// unmatched rows: each row of the join that is not unmatched gives one
/// matched marker.
pub proof fn lemma_matched_is_joined_less_unmatched(
    by_id: bool,
    bim: Seq<BimRow>,
    beta: Seq<BetaRow>,
    m: int,
)
    requires
        0 <= m <= beta.len(),
        no_repeats(by_id, bim, beta),
    ensures
        joined_rows(by_id, bim, beta, m) == unmatched_rows(by_id, bim, beta, m) + spec_matched(
            by_id,
            bim,
            beta,
            m,
        ).len(),
    decreases m,
{
    if m > 0 {
        lemma_matched_is_joined_less_unmatched(by_id, bim, beta, m - 1);
        let w = beta[m - 1];
        assert forall|i: int, h: int| 0 <= i < h < bim.len() implies !(#[trigger] joins(
            by_id,
            bim[i],
            w,
        ) && #[trigger] joins(by_id, bim[h], w)) by {
            if joins(by_id, bim[i], w) && joins(by_id, bim[h], w) {
                assert(same_target(by_id, beta[m - 1], beta[m - 1]));
                assert(joins(by_id, bim[i], beta[m - 1]) && joins(by_id, bim[h], beta[m - 1]));
            }
        }
        lemma_count_of_a_row(by_id, bim, w, bim.len() as int);
        lemma_first_join_joins(by_id, bim, w, bim.len() as int);
        let p = first_join(by_id, bim, w, bim.len() as int);
        if p < bim.len() && seen_before(by_id, beta, w, m - 1) {
            lemma_seen_before_is_a_row(by_id, beta, w, m - 1);
            let k = choose|k: int| 0 <= k < m - 1 && same_target(by_id, #[trigger] beta[k], w);
            assert(joins(by_id, bim[p], beta[m - 1]));
            assert(joins(by_id, bim[p], beta[k]));
            assert(same_target(by_id, beta[k], beta[m - 1]));
            assert(false);
        }
    }
}

/// Matches a weight table against the markers of a genotype file and
/// builds from the matched markers what scoring needs, together with the
/// counts of the match.
///
/// The weight rows are those that are left once rows with an empty cell
/// have been taken out. Where nothing matches there is nothing to score:
/// that is an error, and no weights are made.
pub fn match_snp(meta_arg: &MetaArg, bim: &Vec<BimRow>, beta: &Vec<BetaRow>) -> (r: Result<
    (Weights, MatchStatus),
    JoinError,
>)
    ensures
        spec_matched(meta_arg.match_id_flag, bim@, beta@, beta@.len() as int).len() == 0 ==> r
            == Err::<(Weights, MatchStatus), JoinError>(JoinError::NoSnpMatched),
        spec_matched(meta_arg.match_id_flag, bim@, beta@, beta@.len() as int).len() > 0 ==> (
        r matches Ok((weights, match_status)) && {
            &&& weights.wf()
            &&& weights.matched@ == spec_matched(
                meta_arg.match_id_flag,
                bim@,
                beta@,
                beta@.len() as int,
            )
            &&& weights.missing_strategy == meta_arg.missing_strategy
            &&& weights.score_names@ == meta_arg.spec_score_names(false)
            &&& match_status.bfile_snp == bim@.len()
            &&& match_status.model_snp == beta@.len()
            &&& match_status.match_snp == weights.matched@.len()
        }),
{
    let matched: Vec<MatchedSnp> = join_snp(meta_arg.match_id_flag, bim, beta);
    // record match status
    if matched.len() == 0 {
        return Err(JoinError::NoSnpMatched);
    }
    let match_status = MatchStatus {
        bfile_snp: bim.len(),
        model_snp: beta.len(),
        match_snp: matched.len(),
    };
    proof {
        lemma_matched_rows(meta_arg.match_id_flag, bim@, beta@, beta@.len() as int);
    }
    // create weight object
    let weights_obj = Weights::new(
        matched,
        meta_arg.get_score_names(false).clone(),
        meta_arg.missing_strategy,
    );
    Ok((weights_obj, match_status))
}

} // verus!
