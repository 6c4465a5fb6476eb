//! The two metadata tables of a genotype file: its individuals and its
//! markers.
//!
//! Both are tab-separated text without a header line, one row to a line.
//! A row of individuals holds family, individual, two pedigree columns
//! that are not read, sex and phenotype; a row of markers holds chromosome,
//! identifier, a genetic distance that is not read, position and the two
//! alleles. Every row gets its place in the table as its index, and that
//! index is what the decoder and the matcher know it by.

use crate::betareader::{spec_names, spec_split, spec_strip, split_fields, strip_line_ends};
use crate::join::BimRow;
use vstd::prelude::*;
use vstd::slice::slice_to_vec;
use vstd::string::StringExecFns;

verus! {

pub const FID: &'static str = "FID";

pub const IID: &'static str = "IID";

pub const SEX: &'static str = "SEX";

pub const PHENO: &'static str = "PHENO";

pub const IDX: &'static str = "IDX";

pub const REF: &'static str = "REF";

pub const ALT: &'static str = "ALT";

/// The number of columns of a metadata table.
pub const META_COLUMNS: usize = 6;

/// One individual of a genotype file.
#[derive(Debug, Clone, PartialEq, Eq)]
pub struct FamRow {
    /// The row of the individual in the table, which is its index in the
    /// genotype file.
    pub idx: isize,
    /// Family.
    pub fid: Vec<u8>,
    /// Individual.
    pub iid: Vec<u8>,
    /// Sex code.
    pub sex: i32,
    /// Phenotype, as it is written in the table.
    pub pheno: Vec<u8>,
}

/// Why a metadata table cannot be read.
#[derive(Debug, Clone, Copy, PartialEq, Eq)]
pub enum TableError {
    /// Line `line` (from zero) has `found` columns and not six.
    FieldCount { line: usize, found: usize },
    /// A column of line `line` (from zero) that holds a number is not a
    /// number, or not one of 32 bits.
    BadInteger { line: usize },
}

/// Whether a byte is a decimal digit.
pub open spec fn spec_is_digit(b: u8) -> bool {
    48 <= b <= 57
}

/// The number that the first `n` digits of a text write.
pub open spec fn spec_digits_value(s: Seq<u8>, n: int) -> nat
    decreases n,
{
    if n <= 0 {
        0
    } else {
        spec_digits_value(s, n - 1) * 10 + (s[n - 1] - 48) as nat
    }
}

/// Whether every byte of a text is a decimal digit.
pub open spec fn spec_all_digits(s: Seq<u8>) -> bool {
    forall|i: int| 0 <= i < s.len() ==> spec_is_digit(#[trigger] s[i])
}

/// The 32-bit integer that a text writes: a sign, which may be left out,
/// and then at least one decimal digit.
pub open spec fn spec_parse_i32(s: Seq<u8>) -> Option<i32> {
    let signed = s.len() > 0 && (s[0] == 45 || s[0] == 43);
    let digits = if signed {
        s.subrange(1, s.len() as int)
    } else {
        s
    };
    let value = spec_digits_value(digits, digits.len() as int);
    let number = if s.len() > 0 && s[0] == 45 {
        -(value as int)
    } else {
        value as int
    };
    if digits.len() > 0 && spec_all_digits(digits) && i32::MIN <= number <= i32::MAX {
        Some(number as i32)
    } else {
        None
    }
}

/// More digits never write a smaller number.
pub proof fn lemma_digits_grow(s: Seq<u8>, n: int, m: int)
    requires
        0 <= n <= m <= s.len(),
        spec_all_digits(s),
    ensures
        spec_digits_value(s, n) <= spec_digits_value(s, m),
    decreases m - n,
{
    if n < m {
        lemma_digits_grow(s, n, m - 1);
        assert(spec_is_digit(s[m - 1]));
    }
}

/// Reads a 32-bit integer from its decimal text.
pub fn parse_i32(s: &[u8]) -> (r: Option<i32>)
    ensures
        r == spec_parse_i32(s@),
{
    let len: usize = s.len();
    let signed: bool = len > 0 && (s[0] == 45 || s[0] == 43);
    let negative: bool = len > 0 && s[0] == 45;
    let start: usize = if signed {
        1
    } else {
        0
    };
    if start == len {
        return None;
    }
    let ghost digits = if signed {
        s@.subrange(1, len as int)
    } else {
        s@
    };
    let mut value: u64 = 0;
    let mut k: usize = start;
    while k < len
        invariant
            start <= k <= len,
            len == s@.len(),
            signed == (s@.len() > 0 && (s@[0] == 45 || s@[0] == 43)),
            start == (if signed {
                1usize
            } else {
                0usize
            }),
            digits == (if signed {
                s@.subrange(1, len as int)
            } else {
                s@
            }),
            value == spec_digits_value(digits, k - start),
            value <= 0x8000_0000,
            forall|i: int| 0 <= i < k - start ==> spec_is_digit(#[trigger] digits[i]),
        decreases len - k,
    {
        let b: u8 = s[k];
        assert(digits.len() == len - start);
        assert(digits[k - start] == b);
        if b < 48 || b > 57 {
            assert(!spec_is_digit(digits[k - start]));
            assert(!spec_all_digits(digits));
            return None;
        }
        let next: u64 = value * 10 + (b - 48) as u64;
        assert(next == spec_digits_value(digits, k - start + 1));
        if next > 0x8000_0000 {
            proof {
                if spec_all_digits(digits) {
                    lemma_digits_grow(digits, k - start + 1, digits.len() as int);
                    assert(spec_digits_value(digits, digits.len() as int) > 0x8000_0000);
                }
            }
            return None;
        }
        value = next;
        k += 1;
    }
    assert(spec_all_digits(digits));
    if negative {
        let number: i64 = -(value as i64);
        Some(number as i32)
    } else if value <= 0x7fff_ffff {
        Some(value as i32)
    } else {
        None
    }
}

/// The lines of a table: the text split at each line feed, without the
/// empty line that follows a final line feed.
pub open spec fn spec_lines(bytes: Seq<u8>) -> Seq<Seq<u8>> {
    let lines = spec_split(bytes, 10, bytes.len() as int);
    if lines.last().len() == 0 {
        lines.drop_last()
    } else {
        lines
    }
}

/// The columns of a line: the line without carriage returns, split at
/// each tab.
pub open spec fn spec_columns(line: Seq<u8>) -> Seq<Seq<u8>> {
    let text = spec_strip(line, line.len() as int);
    spec_split(text, 9, text.len() as int)
}

/// The lines of a table.
pub fn table_lines(bytes: &[u8]) -> (lines: Vec<Vec<u8>>)
    ensures
        spec_names(lines@) == spec_lines(bytes@),
{
    let mut lines: Vec<Vec<u8>> = split_fields(bytes, 10);
    proof {
        crate::betareader::lemma_split_len(bytes@, 10, bytes@.len() as int);
    }
    let n: usize = lines.len();
    if lines[n - 1].len() == 0 {
        let ghost all = spec_names(lines@);
        lines.pop();
        assert(spec_names(lines@) =~= all.drop_last());
    }
    lines
}

/// The columns of a line.
pub fn line_columns(line: &[u8]) -> (columns: Vec<Vec<u8>>)
    ensures
        spec_names(columns@) == spec_columns(line@),
{
    let text: Vec<u8> = strip_line_ends(line);
    split_fields(text.as_slice(), 9)
}

/// The error of line `k` of a table of markers, if the line has one.
#[verifier::opaque]
pub open spec fn spec_bim_error(line: Seq<u8>, k: int) -> Option<TableError> {
    let columns = spec_columns(line);
    if columns.len() != META_COLUMNS {
        Some(TableError::FieldCount { line: k as usize, found: columns.len() as usize })
    } else if spec_parse_i32(columns[3]) is None {
        Some(TableError::BadInteger { line: k as usize })
    } else {
        None
    }
}

/// Whether `row` is the marker that line `k` of a table writes.
#[verifier::opaque]
pub open spec fn is_bim_row(line: Seq<u8>, k: int, row: BimRow) -> bool {
    let columns = spec_columns(line);
    &&& row.idx == k
    &&& row.chr@ == columns[0]
    &&& row.id@ == columns[1]
    &&& spec_parse_i32(columns[3]) == Some(row.pos)
    &&& row.alt@ == columns[4]
    &&& row.reference@ == columns[5]
}

/// The error of line `k` of a table of individuals, if the line has one.
#[verifier::opaque]
pub open spec fn spec_fam_error(line: Seq<u8>, k: int) -> Option<TableError> {
    let columns = spec_columns(line);
    if columns.len() != META_COLUMNS {
        Some(TableError::FieldCount { line: k as usize, found: columns.len() as usize })
    } else if spec_parse_i32(columns[4]) is None {
        Some(TableError::BadInteger { line: k as usize })
    } else {
        None
    }
}

/// Whether `row` is the individual that line `k` of a table writes.
#[verifier::opaque]
pub open spec fn is_fam_row(line: Seq<u8>, k: int, row: FamRow) -> bool {
    let columns = spec_columns(line);
    &&& row.idx == k
    &&& row.fid@ == columns[0]
    &&& row.iid@ == columns[1]
    &&& spec_parse_i32(columns[4]) == Some(row.sex)
    &&& row.pheno@ == columns[5]
}

/// Reads the marker that line `k` of a table writes.
pub fn parse_bim_line(line: &[u8], k: usize) -> (r: Result<BimRow, TableError>)
    requires
        k <= isize::MAX,
    ensures
        match spec_bim_error(line@, k as int) {
            Some(e) => r == Err::<BimRow, TableError>(e),
            None => r matches Ok(row) && is_bim_row(line@, k as int, row),
        },
{
    reveal(spec_bim_error);
    reveal(is_bim_row);
    let columns: Vec<Vec<u8>> = line_columns(line);
    if columns.len() != META_COLUMNS {
        return Err(TableError::FieldCount { line: k, found: columns.len() });
    }
    assert(spec_names(columns@)[3] == columns@[3]@);
    let pos: i32 = match parse_i32(columns[3].as_slice()) {
        Some(v) => v,
        None => {
            return Err(TableError::BadInteger { line: k });
        },
    };
    assert(spec_names(columns@)[0] == columns@[0]@);
    assert(spec_names(columns@)[1] == columns@[1]@);
    assert(spec_names(columns@)[4] == columns@[4]@);
    assert(spec_names(columns@)[5] == columns@[5]@);
    Ok(
        BimRow {
            idx: k as isize,
            chr: slice_to_vec(columns[0].as_slice()),
            id: slice_to_vec(columns[1].as_slice()),
            pos,
            alt: slice_to_vec(columns[4].as_slice()),
            reference: slice_to_vec(columns[5].as_slice()),
        },
    )
}

/// Reads the individual that line `k` of a table writes.
pub fn parse_fam_line(line: &[u8], k: usize) -> (r: Result<FamRow, TableError>)
    requires
        k <= isize::MAX,
    ensures
        match spec_fam_error(line@, k as int) {
            Some(e) => r == Err::<FamRow, TableError>(e),
            None => r matches Ok(row) && is_fam_row(line@, k as int, row),
        },
{
    reveal(spec_fam_error);
    reveal(is_fam_row);
    let columns: Vec<Vec<u8>> = line_columns(line);
    if columns.len() != META_COLUMNS {
        return Err(TableError::FieldCount { line: k, found: columns.len() });
    }
    assert(spec_names(columns@)[4] == columns@[4]@);
    let sex: i32 = match parse_i32(columns[4].as_slice()) {
        Some(v) => v,
        None => {
            return Err(TableError::BadInteger { line: k });
        },
    };
    assert(spec_names(columns@)[0] == columns@[0]@);
    assert(spec_names(columns@)[1] == columns@[1]@);
    assert(spec_names(columns@)[5] == columns@[5]@);
    Ok(
        FamRow {
            idx: k as isize,
            fid: slice_to_vec(columns[0].as_slice()),
            iid: slice_to_vec(columns[1].as_slice()),
            sex,
            pheno: slice_to_vec(columns[5].as_slice()),
        },
    )
}

/// Whether `rows` holds the markers that the lines of a table write.
pub open spec fn is_bim_table(lines: Seq<Seq<u8>>, rows: Seq<BimRow>) -> bool {
    &&& rows.len() == lines.len()
    &&& forall|k: int|
        0 <= k < lines.len() ==> spec_bim_error(lines[k], k) is None && is_bim_row(
            lines[k],
            k,
            #[trigger] rows[k],
        )
}

/// Whether `e` is the error of the first line of a table of markers that
/// cannot be read.
pub open spec fn is_bim_table_error(lines: Seq<Seq<u8>>, e: TableError) -> bool {
    exists|k: int|
        0 <= k < lines.len() && spec_bim_error(#[trigger] lines[k], k) == Some(e) && forall|h: int|
            0 <= h < k ==> spec_bim_error(#[trigger] lines[h], h) is None
}

/// Whether `rows` holds the individuals that the lines of a table write.
pub open spec fn is_fam_table(lines: Seq<Seq<u8>>, rows: Seq<FamRow>) -> bool {
    &&& rows.len() == lines.len()
    &&& forall|k: int|
        0 <= k < lines.len() ==> spec_fam_error(lines[k], k) is None && is_fam_row(
            lines[k],
            k,
            #[trigger] rows[k],
        )
}

/// Whether `e` is the error of the first line of a table of individuals
/// that cannot be read.
pub open spec fn is_fam_table_error(lines: Seq<Seq<u8>>, e: TableError) -> bool {
    exists|k: int|
        0 <= k < lines.len() && spec_fam_error(#[trigger] lines[k], k) == Some(e) && forall|h: int|
            0 <= h < k ==> spec_fam_error(#[trigger] lines[h], h) is None
}

/// Reads the table of markers: one marker to a line, each with its place
/// in the table as its index. The first line that cannot be read is
/// reported.
pub fn read_bim(bytes: &[u8]) -> (r: Result<Vec<BimRow>, TableError>)
    requires
        bytes@.len() <= isize::MAX,
    ensures
        match r {
            Ok(rows) => is_bim_table(spec_lines(bytes@), rows@),
            Err(e) => is_bim_table_error(spec_lines(bytes@), e),
        },
{
    let lines: Vec<Vec<u8>> = table_lines(bytes);
    proof {
        lemma_lines_len(bytes@);
    }
    let ghost texts = spec_lines(bytes@);
    let mut rows: Vec<BimRow> = Vec::new();
    let mut k: usize = 0;
    while k < lines.len()
        invariant
            k <= lines.len(),
            lines@.len() <= isize::MAX,
            spec_names(lines@) == texts,
            texts == spec_lines(bytes@),
            rows@.len() == k,
            forall|h: int| 0 <= h < k ==> spec_bim_error(#[trigger] texts[h], h) is None,
            forall|h: int| 0 <= h < k ==> is_bim_row(texts[h], h, #[trigger] rows@[h]),
        decreases lines.len() - k,
    {
        assert(texts[k as int] == lines@[k as int]@);
        match parse_bim_line(lines[k].as_slice(), k) {
            Ok(row) => {
                let ghost before = rows@;
                assert(spec_bim_error(texts[k as int], k as int) is None);
                assert(is_bim_row(texts[k as int], k as int, row));
                rows.push(row);
                assert(rows@[k as int] == row);
                assert forall|h: int| 0 <= h < k + 1 implies is_bim_row(
                    texts[h],
                    h,
                    #[trigger] rows@[h],
                ) by {
                    if h < k {
                        assert(rows@[h] == before[h]);
                    }
                }
            },
            Err(e) => {
                assert(texts.len() == lines@.len());
                assert(spec_bim_error(texts[k as int], k as int) == Some(e));
                assert(is_bim_table_error(texts, e));
                return Err(e);
            },
        }
        k += 1;
    }
    Ok(rows)
}

/// Reads the table of individuals: one individual to a line, each with
/// its place in the table as its index. The first line that cannot be
/// read is reported.
pub fn read_fam(bytes: &[u8]) -> (r: Result<Vec<FamRow>, TableError>)
    requires
        bytes@.len() <= isize::MAX,
    ensures
        match r {
            Ok(rows) => is_fam_table(spec_lines(bytes@), rows@),
            Err(e) => is_fam_table_error(spec_lines(bytes@), e),
        },
{
    let lines: Vec<Vec<u8>> = table_lines(bytes);
    proof {
        lemma_lines_len(bytes@);
    }
    let ghost texts = spec_lines(bytes@);
    let mut rows: Vec<FamRow> = Vec::new();
    let mut k: usize = 0;
    while k < lines.len()
        invariant
            k <= lines.len(),
            lines@.len() <= isize::MAX,
            spec_names(lines@) == texts,
            texts == spec_lines(bytes@),
            rows@.len() == k,
            forall|h: int| 0 <= h < k ==> spec_fam_error(#[trigger] texts[h], h) is None,
            forall|h: int| 0 <= h < k ==> is_fam_row(texts[h], h, #[trigger] rows@[h]),
        decreases lines.len() - k,
    {
        assert(texts[k as int] == lines@[k as int]@);
        match parse_fam_line(lines[k].as_slice(), k) {
            Ok(row) => {
                let ghost before = rows@;
                assert(spec_fam_error(texts[k as int], k as int) is None);
                assert(is_fam_row(texts[k as int], k as int, row));
                rows.push(row);
                assert(rows@[k as int] == row);
                assert forall|h: int| 0 <= h < k + 1 implies is_fam_row(
                    texts[h],
                    h,
                    #[trigger] rows@[h],
                ) by {
                    if h < k {
                        assert(rows@[h] == before[h]);
                    }
                }
            },
            Err(e) => {
                assert(texts.len() == lines@.len());
                assert(spec_fam_error(texts[k as int], k as int) == Some(e));
                assert(is_fam_table_error(texts, e));
                return Err(e);
            },
        }
        k += 1;
    }
    Ok(rows)
}

/// A text has no more fields than bytes and one, and so no more lines.
pub proof fn lemma_split_bound(line: Seq<u8>, sep: u8, n: int)
    requires
        0 <= n,
    ensures
        1 <= spec_split(line, sep, n).len() <= n + 1,
    decreases n,
{
    if n > 0 {
        lemma_split_bound(line, sep, n - 1);
    }
}

/// A table has no more lines than bytes.
pub proof fn lemma_lines_len(bytes: Seq<u8>)
    ensures
        spec_lines(bytes).len() <= bytes.len(),
{
    lemma_split_bound(bytes, 10, bytes.len() as int);
    lemma_last_field(bytes, 10, bytes.len() as int);
}

/// The last field of a text that does not end in a separator is not empty.
pub proof fn lemma_last_field(line: Seq<u8>, sep: u8, n: int)
    requires
        0 <= n,
    ensures
        spec_split(line, sep, n).len() == n + 1 ==> spec_split(line, sep, n).last().len() == 0,
    decreases n,
{
    if n > 0 {
        lemma_split_bound(line, sep, n - 1);
        lemma_last_field(line, sep, n - 1);
    }
}

/// Whether one of the first `n` indices of a list is `i`.
pub open spec fn spec_listed(v: Seq<u32>, i: int, n: int) -> bool
    decreases n,
{
    n > 0 && (spec_listed(v, i, n - 1) || v[n - 1] == i)
}

/// For each row of a table of `n_rows` rows, whether it is selected: the
/// rows whose index is in the list or, with `inv`, the rows whose index is
/// not.
pub fn create_mask_u32(v: &[u32], inv: bool, n_rows: usize) -> (mask: Vec<bool>)
    ensures
        mask@.len() == n_rows,
        forall|i: int|
            0 <= i < n_rows ==> #[trigger] mask@[i] == (spec_listed(v@, i, v@.len() as int) != inv),
{
    let mut mask: Vec<bool> = Vec::new();
    let mut i: usize = 0;
    while i < n_rows
        invariant
            i <= n_rows,
            mask@.len() == i,
            forall|h: int|
                0 <= h < i ==> #[trigger] mask@[h] == (spec_listed(v@, h, v@.len() as int) != inv),
        decreases n_rows - i,
    {
        let mut found: bool = false;
        let mut k: usize = 0;
        while k < v.len()
            invariant
                k <= v.len(),
                found == spec_listed(v@, i as int, k as int),
            decreases v.len() - k,
        {
            if v[k] as usize == i {
                found = true;
            }
            k += 1;
        }
        mask.push(found != inv);
        i += 1;
    }
    mask
}

/// The places of the flags that are set among the first `n`, in order.
pub open spec fn spec_selected(mask: Seq<bool>, n: int) -> Seq<usize>
    decreases n,
{
    if n <= 0 {
        Seq::empty()
    } else if mask[n - 1] {
        spec_selected(mask, n - 1).push((n - 1) as usize)
    } else {
        spec_selected(mask, n - 1)
    }
}

/// The places of the rows that a mask selects, in order.
pub fn selected_rows(mask: &Vec<bool>) -> (rows: Vec<usize>)
    ensures
        rows@ == spec_selected(mask@, mask@.len() as int),
{
    let mut rows: Vec<usize> = Vec::new();
    let mut i: usize = 0;
    while i < mask.len()
        invariant
            i <= mask.len(),
            rows@ == spec_selected(mask@, i as int),
        decreases mask.len() - i,
    {
        if mask[i] {
            rows.push(i);
        }
        i += 1;
    }
    rows
}

/// The places of all `n` rows, in order.
pub open spec fn spec_all_rows(n: int) -> Seq<usize> {
    Seq::new(n as nat, |i: int| i as usize)
}

/// The set of files of one genotype data set: the path of the genotype
/// file and the two metadata tables.
#[derive(Debug)]
pub struct BfileSet {
    pub bed_path: String,
    pub fam: Vec<FamRow>,
    pub bim: Vec<BimRow>,
}

/// The two tables could not both be read.
#[derive(Debug, Clone, Copy, PartialEq, Eq)]
pub enum BfileError {
    /// The table of individuals cannot be read.
    Fam(TableError),
    /// The table of markers cannot be read.
    Bim(TableError),
}

/// The places of rows that a list of indices selects among `n` rows: all
/// rows where there is no list.
pub open spec fn spec_rows_of(list: Option<Seq<u32>>, inv: bool, n: int) -> Seq<usize> {
    match list {
        Some(v) => spec_selected(
            Seq::new(n as nat, |i: int| spec_listed(v, i, v.len() as int) != inv),
            n,
        ),
        None => spec_all_rows(n),
    }
}

/// The places of rows that a list of indices selects among `n_rows` rows.
pub fn rows_of(list: Option<&[u32]>, inv: bool, n_rows: usize) -> (rows: Vec<usize>)
    ensures
        rows@ == spec_rows_of(
            match list {
                Some(v) => Some(v@),
                None => None,
            },
            inv,
            n_rows as int,
        ),
{
    match list {
        Some(v) => {
            let mask: Vec<bool> = create_mask_u32(v, inv, n_rows);
            assert(mask@ =~= Seq::new(
                n_rows as nat,
                |i: int| spec_listed(v@, i, v@.len() as int) != inv,
            ));
            selected_rows(&mask)
        },
        None => {
            let mut rows: Vec<usize> = Vec::new();
            let mut i: usize = 0;
            while i < n_rows
                invariant
                    i <= n_rows,
                    rows@.len() == i,
                    forall|h: int| 0 <= h < i ==> #[trigger] rows@[h] == h,
                decreases n_rows - i,
            {
                rows.push(i);
                i += 1;
            }
            assert(rows@ =~= spec_all_rows(n_rows as int));
            rows
        },
    }
}

impl BfileSet {
    /// The data set at the path prefix `bfile_path`: the genotype file is
    /// that path with `.bed`, and the two tables are read from the bytes
    /// of the files with `.fam` and `.bim`.
    pub fn new(bfile_path: &str, fam_bytes: &[u8], bim_bytes: &[u8]) -> (r: Result<
        BfileSet,
        BfileError,
    >)
        requires
            fam_bytes@.len() <= isize::MAX,
            bim_bytes@.len() <= isize::MAX,
        ensures
            match r {
                Ok(set) => {
                    &&& set.bed_path@ == bfile_path@ + ".bed"@
                    &&& is_fam_table(spec_lines(fam_bytes@), set.fam@)
                    &&& is_bim_table(spec_lines(bim_bytes@), set.bim@)
                },
                Err(BfileError::Fam(e)) => is_fam_table_error(spec_lines(fam_bytes@), e),
                Err(BfileError::Bim(e)) => {
                    &&& is_bim_table_error(spec_lines(bim_bytes@), e)
                    &&& exists|rows: Seq<FamRow>| is_fam_table(spec_lines(fam_bytes@), rows)
                },
            },
    {
        // get path
        let mut bed_path: String = String::from_str(bfile_path);
        bed_path.append(".bed");
        // get fam, bim
        let fam: Vec<FamRow> = match read_fam(fam_bytes) {
            Ok(v) => v,
            Err(e) => {
                return Err(BfileError::Fam(e));
            },
        };
        let bim: Vec<BimRow> = match read_bim(bim_bytes) {
            Ok(v) => v,
            Err(e) => {
                return Err(BfileError::Bim(e));
            },
        };
        Ok(BfileSet { bed_path, fam, bim })
    }

    /// The places of the individuals whose index is in `iid` or, with
    /// `inv`, of those whose index is not; of all individuals where there
    /// is no list.
    pub fn get_ind(&self, iid: Option<&[u32]>, inv: bool) -> (rows: Vec<usize>)
        ensures
            rows@ == spec_rows_of(
                match iid {
                    Some(v) => Some(v@),
                    None => None,
                },
                inv,
                self.fam@.len() as int,
            ),
    {
        rows_of(iid, inv, self.fam.len())
    }

    /// The places of the markers whose index is in `sid` or, with `inv`,
    /// of those whose index is not; of all markers where there is no
    /// list.
    pub fn get_snp(&self, sid: Option<&[u32]>, inv: bool) -> (rows: Vec<usize>)
        ensures
            rows@ == spec_rows_of(
                match sid {
                    Some(v) => Some(v@),
                    None => None,
                },
                inv,
                self.bim@.len() as int,
            ),
    {
        rows_of(sid, inv, self.bim.len())
    }
}

} // verus!
