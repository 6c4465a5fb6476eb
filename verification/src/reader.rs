//! Reading genotypes and metadata of a data set through one interface.

use crate::bed_crate::{
    is_read_block, is_read_error, lemma_read_block_is_one, read_no_alloc, read_ok,
};
use crate::bed_error::BedError;
use crate::bed_index::MISSING_I8;
use crate::bfile::{
    is_bim_table, is_bim_table_error, is_fam_table, is_fam_table_error, read_bim, read_fam,
    rows_of, spec_lines, spec_rows_of, BfileError, FamRow,
};
use crate::block::{block_fits, GenoBlock};
use crate::join::BimRow;
use vstd::prelude::*;
use vstd::string::StringExecFns;

verus! {

/// A source of genotypes and of the metadata of their individuals and
/// markers, addressed by lists of indices.
pub trait ReadGenotype {
    /// The type of a genotype block.
    type GenoDtype;

    /// The type of a list of indices.
    type GenoIdx;

    /// The type of an error of decoding.
    type GenoError;

    /// Whether a block for the individuals `iid` and the markers `sid` is
    /// small enough to be held.
    spec fn can_hold(&self, sid: &Self::GenoIdx, iid: &Self::GenoIdx) -> bool;

    /// The genotypes of the individuals `iid` at the markers `sid`, read
    /// from the bytes of the genotype file.
    fn get_geno(&self, bytes: &[u8], sid: &Self::GenoIdx, iid: &Self::GenoIdx) -> Result<
        Self::GenoDtype,
        Self::GenoError,
    >
        requires
            self.can_hold(sid, iid),
    ;

    /// The places in the table of individuals of those that `iid` selects.
    fn get_ind(&self, iid: &Self::GenoIdx, inv: bool) -> Vec<usize>;

    /// The places in the table of markers of those that `sid` selects.
    fn get_snp(&self, sid: &Self::GenoIdx, inv: bool) -> Vec<usize>;
}

/// A data set whose genotypes are decoded straight from the bytes of its
/// genotype file.
#[derive(Debug)]
pub struct BedReaderNoLib {
    pub bed_path: String,
    pub fam: Vec<FamRow>,
    pub bim: Vec<BimRow>,
    pub iid_count: usize,
    pub sid_count: usize,
    pub iid_idx: Vec<isize>,
    pub sid_idx: Vec<isize>,
}

/// The indices `0` to `n - 1`.
pub open spec fn spec_all_idx(n: int) -> Seq<isize> {
    Seq::new(n as nat, |i: int| i as isize)
}

/// The indices `0` to `n - 1`.
pub fn all_idx(n: usize) -> (idx: Vec<isize>)
    requires
        n <= isize::MAX,
    ensures
        idx@ == spec_all_idx(n as int),
{
    let mut idx: Vec<isize> = Vec::new();
    let mut i: usize = 0;
    while i < n
        invariant
            i <= n,
            n <= isize::MAX,
            idx@.len() == i,
            forall|h: int| 0 <= h < i ==> #[trigger] idx@[h] == h,
        decreases n - i,
    {
        idx.push(i as isize);
        i += 1;
    }
    assert(idx@ =~= spec_all_idx(n as int));
    idx
}

/// The indices of a list as row numbers: each index as a 32-bit unsigned
/// number, the way a table holds its row numbers.
pub open spec fn spec_row_numbers(v: Seq<isize>) -> Seq<u32> {
    v.map_values(|e: isize| e as u32)
}

/// The indices of a list as row numbers.
pub fn row_numbers(v: &Vec<isize>) -> (r: Vec<u32>)
    ensures
        r@ == spec_row_numbers(v@),
{
    let mut r: Vec<u32> = Vec::new();
    let mut k: usize = 0;
    while k < v.len()
        invariant
            k <= v.len(),
            r@.len() == k,
            forall|h: int| 0 <= h < k ==> #[trigger] r@[h] == v@[h] as u32,
        decreases v.len() - k,
    {
        r.push(v[k] as u32);
        k += 1;
    }
    assert(r@ =~= spec_row_numbers(v@));
    r
}

impl BedReaderNoLib {
    /// The reader's counts and index lists are those of its tables.
    pub open spec fn wf(&self) -> bool {
        &&& self.iid_count == self.fam@.len()
        &&& self.sid_count == self.bim@.len()
        &&& self.iid_idx@ == spec_all_idx(self.iid_count as int)
        &&& self.sid_idx@ == spec_all_idx(self.sid_count as int)
    }

    /// The data set at the path prefix `bfile_path`, with its two tables
    /// read from the bytes of their files.
    pub fn new(bfile_path: &str, fam_bytes: &[u8], bim_bytes: &[u8]) -> (r: Result<
        BedReaderNoLib,
        BfileError,
    >)
        requires
            fam_bytes@.len() <= isize::MAX,
            bim_bytes@.len() <= isize::MAX,
        ensures
            match r {
                Ok(reader) => {
                    &&& reader.wf()
                    &&& reader.bed_path@ == bfile_path@ + ".bed"@
                    &&& is_fam_table(spec_lines(fam_bytes@), reader.fam@)
                    &&& is_bim_table(spec_lines(bim_bytes@), reader.bim@)
                },
                Err(BfileError::Fam(e)) => is_fam_table_error(spec_lines(fam_bytes@), e),
                Err(BfileError::Bim(e)) => is_bim_table_error(spec_lines(bim_bytes@), e),
            },
    {
        // get path
        let mut bed_path: String = String::from_str(bfile_path);
        bed_path.append(".bed");
        // get fam, bim
        let fam: Vec<FamRow> = match read_fam(fam_bytes) {
            Ok(v) => v,
            Err(e) => {
                return Err(BfileError::Fam(e));
            },
        };
        let bim: Vec<BimRow> = match read_bim(bim_bytes) {
            Ok(v) => v,
            Err(e) => {
                return Err(BfileError::Bim(e));
            },
        };
        proof {
            crate::bfile::lemma_lines_len(fam_bytes@);
            crate::bfile::lemma_lines_len(bim_bytes@);
        }
        let iid_count: usize = fam.len();
        let sid_count: usize = bim.len();
        let iid_all: Vec<isize> = all_idx(iid_count);
        let sid_all: Vec<isize> = all_idx(sid_count);
        Ok(
            BedReaderNoLib {
                bed_path,
                fam,
                bim,
                iid_count,
                sid_count,
                iid_idx: iid_all,
                sid_idx: sid_all,
            },
        )
    }

    /// Whether `val` is the block that `get_geno` gives for the markers
    /// `sid` and the individuals `iid`: of their shape, and with the
    /// genotype of each individual at each marker.
    pub open spec fn is_geno(
        &self,
        bytes: Seq<u8>,
        sid: Option<Vec<isize>>,
        iid: Option<Vec<isize>>,
        val: GenoBlock,
    ) -> bool {
        let iid_list = BedReaderNoLib::spec_idx(iid, self.iid_idx@);
        let sid_list = BedReaderNoLib::spec_idx(sid, self.sid_idx@);
        &&& val.wf()
        &&& val.spec_nrows() == iid_list.len()
        &&& val.spec_ncols() == sid_list.len()
        &&& is_read_block(
            bytes,
            self.iid_count as int,
            self.sid_count as int,
            true,
            MISSING_I8,
            iid_list,
            sid_list,
            val@,
        )
    }

    /// The genotypes of every individual are the same block whether no
    /// list of individuals is given or the list of all of them in order,
    /// and that block has one row for each individual.
    pub proof fn lemma_no_list_is_every_individual(
        &self,
        bytes: Seq<u8>,
        sid: Option<Vec<isize>>,
        listed: Vec<isize>,
        all: GenoBlock,
        by_list: GenoBlock,
    )
        requires
            self.wf(),
            listed@ == spec_all_idx(self.iid_count as int),
            self.is_geno(bytes, sid, None, all),
            self.is_geno(bytes, sid, Some(listed), by_list),
        ensures
            all@ == by_list@,
            all.spec_nrows() == self.iid_count,
            by_list.spec_nrows() == self.iid_count,
    {
        lemma_read_block_is_one(
            bytes,
            self.iid_count as int,
            self.sid_count as int,
            true,
            MISSING_I8,
            self.iid_idx@,
            BedReaderNoLib::spec_idx(sid, self.sid_idx@),
            all@,
            by_list@,
        );
    }

    /// The list of indices that a request stands for: the list that it
    /// gives, or every index of the axis.
    pub open spec fn spec_idx(given: Option<Vec<isize>>, all: Seq<isize>) -> Seq<isize> {
        match given {
            Some(v) => v@,
            None => all,
        }
    }
}

impl ReadGenotype for BedReaderNoLib {
    type GenoDtype = GenoBlock;

    type GenoIdx = Option<Vec<isize>>;

    type GenoError = BedError;

    open spec fn can_hold(&self, sid: &Option<Vec<isize>>, iid: &Option<Vec<isize>>) -> bool {
        block_fits(
            BedReaderNoLib::spec_idx(*iid, self.iid_idx@).len() as int,
            BedReaderNoLib::spec_idx(*sid, self.sid_idx@).len() as int,
        )
    }

    /// The genotypes of the individuals `iid` at the markers `sid`, every
    /// individual or marker where there is no list: the number of copies
    /// of the first allele, and the missing value for a missing call.
    fn get_geno(&self, bytes: &[u8], sid: &Option<Vec<isize>>, iid: &Option<Vec<isize>>) -> (r:
        Result<GenoBlock, BedError>)
        ensures
            ({
                let iid_list = BedReaderNoLib::spec_idx(*iid, self.iid_idx@);
                let sid_list = BedReaderNoLib::spec_idx(*sid, self.sid_idx@);
                &&& r is Ok <==> read_ok(
                    bytes@,
                    self.iid_count as int,
                    self.sid_count as int,
                    iid_list,
                    sid_list,
                    iid_list.len() as int,
                    sid_list.len() as int,
                )
                &&& r matches Err(e) ==> is_read_error(
                    bytes@,
                    self.iid_count as int,
                    self.sid_count as int,
                    iid_list,
                    sid_list,
                    iid_list.len() as int,
                    sid_list.len() as int,
                    e,
                )
                &&& r matches Ok(val) ==> self.is_geno(bytes@, *sid, *iid, val)
            }),
    {
        let iid: &Vec<isize> = match iid {
            Some(v) => v,
            None => &self.iid_idx,
        };
        let sid: &Vec<isize> = match sid {
            Some(v) => v,
            None => &self.sid_idx,
        };
        let made: Option<GenoBlock> = GenoBlock::new(iid.len(), sid.len());
        let mut val: GenoBlock = made.unwrap();
        match read_no_alloc(
            bytes,
            self.iid_count,
            self.sid_count,
            true,
            iid.as_slice(),
            sid.as_slice(),
            MISSING_I8,
            &mut val,
        ) {
            Ok(()) => Ok(val),
            Err(e) => Err(e),
        }
    }

    /// The places of the individuals whose row number is in `iid` or,
    /// with `inv`, of those whose row number is not; of all individuals
    /// where there is no list.
    fn get_ind(&self, iid: &Option<Vec<isize>>, inv: bool) -> (rows: Vec<usize>)
        ensures
            rows@ == spec_rows_of(
                match *iid {
                    Some(v) => Some(spec_row_numbers(v@)),
                    None => None,
                },
                inv,
                self.fam@.len() as int,
            ),
    {
        match iid {
            Some(v) => {
                let numbers: Vec<u32> = row_numbers(v);
                rows_of(Some(numbers.as_slice()), inv, self.fam.len())
            },
            None => rows_of(None, inv, self.fam.len()),
        }
    }

    /// The places of the markers whose row number is in `sid` or, with
    /// `inv`, of those whose row number is not; of all markers where
    /// there is no list.
    fn get_snp(&self, sid: &Option<Vec<isize>>, inv: bool) -> (rows: Vec<usize>)
        ensures
            rows@ == spec_rows_of(
                match *sid {
                    Some(v) => Some(spec_row_numbers(v@)),
                    None => None,
                },
                inv,
                self.bim@.len() as int,
            ),
    {
        match sid {
            Some(v) => {
                let numbers: Vec<u32> = row_numbers(v);
                rows_of(Some(numbers.as_slice()), inv, self.bim.len())
            },
            None => rows_of(None, inv, self.bim.len()),
        }
    }
}

} // verus!
