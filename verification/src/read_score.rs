//! The schema of a table of scores, resolved from the table's header line.
//!
//! A table of scores is comma-separated. Its columns of family and
//! individual are text, its columns of phenotype and of the scores that
//! are asked for are numbers, and every other column is left out.

use crate::betareader::{
    bytes_eq, name_bytes, spec_names, spec_split, spec_strip, spec_text, split_fields,
    strip_line_ends, ColType, Field,
};
use crate::bfile::{FID, IID, PHENO};
use vstd::prelude::*;
use vstd::slice::slice_to_vec;

verus! {

/// What a header line of a table of scores gives.
#[derive(Debug, Clone, PartialEq, Eq)]
pub struct ScoreSchema {
    /// The columns that are read, in the order of the header line.
    pub fields: Vec<Field>,
    /// Whether there is a column of phenotypes.
    pub has_pheno: bool,
    /// How many columns are the family or the individual: two in a table
    /// that has each of them once.
    pub fid_iid_count: usize,
}

/// Whether one of the score names `scores[0..n]` is the given text.
pub open spec fn spec_is_score(scores: Seq<String>, text: Seq<u8>, n: int) -> bool
    decreases n,
{
    n > 0 && (spec_is_score(scores, text, n - 1) || spec_text(scores[n - 1]@) == text)
}

/// What a field of the header line is.
pub enum ColumnKind {
    /// The family or the individual.
    Id,
    /// The phenotype.
    Pheno,
    /// A score that is asked for.
    Score,
    /// Something that is not read.
    Other,
}

/// What a field of the header line is: the family or the individual, else
/// the phenotype, else one of the scores, else something else.
pub open spec fn spec_kind(scores: Seq<String>, field: Seq<u8>) -> ColumnKind {
    if field == spec_text(FID@) || field == spec_text(IID@) {
        ColumnKind::Id
    } else if field == spec_text(PHENO@) {
        ColumnKind::Pheno
    } else if spec_is_score(scores, field, scores.len() as int) {
        ColumnKind::Score
    } else {
        ColumnKind::Other
    }
}

/// The columns that the fields `fields[0..n]` give, in order: text for
/// the family and the individual, numbers for the phenotype and the
/// scores, and nothing for the rest.
pub open spec fn spec_score_fields(scores: Seq<String>, fields: Seq<Seq<u8>>, n: int) -> Seq<
    (Seq<u8>, ColType),
>
    decreases n,
{
    if n <= 0 {
        Seq::empty()
    } else {
        let prev = spec_score_fields(scores, fields, n - 1);
        match spec_kind(scores, fields[n - 1]) {
            ColumnKind::Id => prev.push((fields[n - 1], ColType::Utf8)),
            ColumnKind::Pheno => prev.push((fields[n - 1], ColType::Float32)),
            ColumnKind::Score => prev.push((fields[n - 1], ColType::Float32)),
            ColumnKind::Other => prev,
        }
    }
}

/// Whether one of the fields `fields[0..n]` is the phenotype.
pub open spec fn spec_has_pheno(scores: Seq<String>, fields: Seq<Seq<u8>>, n: int) -> bool
    decreases n,
{
    n > 0 && (spec_has_pheno(scores, fields, n - 1) || spec_kind(scores, fields[n - 1])
        is Pheno)
}

/// How many of the fields `fields[0..n]` are the family or the
/// individual.
pub open spec fn spec_id_count(scores: Seq<String>, fields: Seq<Seq<u8>>, n: int) -> nat
    decreases n,
{
    if n <= 0 {
        0
    } else {
        spec_id_count(scores, fields, n - 1) + if spec_kind(scores, fields[n - 1]) is Id {
            1nat
        } else {
            0nat
        }
    }
}

/// The fields of the header line of a table of scores: the line without
/// its line ends, split at each comma.
pub open spec fn spec_score_header(first_line: Seq<u8>) -> Seq<Seq<u8>> {
    let line = spec_strip(first_line, first_line.len() as int);
    spec_split(line, 44, line.len() as int)
}

/// Whether a text is one of the score names.
fn is_score(score_names: &Vec<String>, text: &[u8]) -> (r: bool)
    ensures
        r == spec_is_score(score_names@, text@, score_names@.len() as int),
{
    let mut n: usize = 0;
    while n < score_names.len()
        invariant
            n <= score_names.len(),
            !spec_is_score(score_names@, text@, n as int),
        decreases score_names.len() - n,
    {
        let name: Vec<u8> = name_bytes(score_names[n].as_str());
        if bytes_eq(name.as_slice(), text) {
            proof {
                lemma_is_score_stays(
                    score_names@,
                    text@,
                    n as int + 1,
                    score_names@.len() as int,
                );
            }
            return true;
        }
        n += 1;
    }
    false
}

/// A text that is among the first `n` score names is among more.
pub proof fn lemma_is_score_stays(scores: Seq<String>, text: Seq<u8>, n: int, m: int)
    requires
        0 <= n <= m,
        spec_is_score(scores, text, n),
    ensures
        spec_is_score(scores, text, m),
    decreases m - n,
{
    if n < m {
        lemma_is_score_stays(scores, text, n, m - 1);
    }
}

/// Resolves the schema of a table of scores from its header line.
pub fn get_shema(first_line: &[u8], score_names: &Vec<String>) -> (r: ScoreSchema)
    ensures
        crate::betareader::spec_fields(r.fields@) == spec_score_fields(
            score_names@,
            spec_score_header(first_line@),
            spec_score_header(first_line@).len() as int,
        ),
        r.has_pheno == spec_has_pheno(
            score_names@,
            spec_score_header(first_line@),
            spec_score_header(first_line@).len() as int,
        ),
        r.fid_iid_count == spec_id_count(
            score_names@,
            spec_score_header(first_line@),
            spec_score_header(first_line@).len() as int,
        ),
{
    let line: Vec<u8> = strip_line_ends(first_line);
    let header: Vec<Vec<u8>> = split_fields(line.as_slice(), 44);
    let fid: Vec<u8> = name_bytes(FID);
    let iid: Vec<u8> = name_bytes(IID);
    let pheno: Vec<u8> = name_bytes(PHENO);
    let ghost texts = spec_names(header@);
    let mut fid_iid_count: usize = 0;
    let mut field_vec: Vec<Field> = Vec::new();
    let mut has_pheno: bool = false;
    let mut k: usize = 0;
    while k < header.len()
        invariant
            k <= header.len(),
            texts == spec_names(header@),
            fid@ == spec_text(FID@),
            iid@ == spec_text(IID@),
            pheno@ == spec_text(PHENO@),
            crate::betareader::spec_fields(field_vec@) == spec_score_fields(
                score_names@,
                texts,
                k as int,
            ),
            has_pheno == spec_has_pheno(score_names@, texts, k as int),
            fid_iid_count == spec_id_count(score_names@, texts, k as int),
            fid_iid_count <= k,
        decreases header.len() - k,
    {
        let i: &[u8] = header[k].as_slice();
        assert(texts[k as int] == i@);
        let ghost before = crate::betareader::spec_fields(field_vec@);
        if bytes_eq(i, fid.as_slice()) || bytes_eq(i, iid.as_slice()) {
            field_vec.push(Field { name: slice_to_vec(i), dtype: ColType::Utf8 });
            assert(crate::betareader::spec_fields(field_vec@) =~= before.push(
                (i@, ColType::Utf8),
            ));
            fid_iid_count += 1;
        } else if bytes_eq(i, pheno.as_slice()) {
            field_vec.push(Field { name: slice_to_vec(i), dtype: ColType::Float32 });
            assert(crate::betareader::spec_fields(field_vec@) =~= before.push(
                (i@, ColType::Float32),
            ));
            has_pheno = true;
        } else if is_score(score_names, i) {
            field_vec.push(Field { name: slice_to_vec(i), dtype: ColType::Float32 });
            assert(crate::betareader::spec_fields(field_vec@) =~= before.push(
                (i@, ColType::Float32),
            ));
        }
        k += 1;
    }
    ScoreSchema { fields: field_vec, has_pheno, fid_iid_count }
}

} // verus!
