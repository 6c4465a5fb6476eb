//! Settings of a run that the matcher and the scorer share.

use crate::betareader::{spec_names, spec_split, spec_strip, split_fields, strip_line_ends};
use vstd::prelude::*;
use vstd::string::StringExecFns;

verus! {

/// The name of the column that holds a matched marker's status.
pub const STATUS: &'static str = "STATUS";

/// The name of the column that holds a rank.
pub const RANK: &'static str = "RANK";

/// How a missing genotype call is filled before scoring.
#[derive(Clone, Debug, Copy, PartialEq, Eq)]
pub enum MissingStrategy {
    /// With the mean of the observed calls of the same marker in the batch.
    Impute,
    /// With zero.
    Zero,
    /// With the frequency that the weight table brings for the marker.
    Freq,
}

/// A setting that names none of the choices.
#[derive(Debug)]
pub enum MetaError {
    /// The missing strategy is none of `Impute`, `Zero` and `Freq`; the
    /// value is the name as it was given.
    UnknownMissingStrategy(String),
    /// A line of ranges has this many columns, which is more than three.
    TooManyColumns(usize),
}

/// The strategy that a name stands for, if any.
pub open spec fn spec_missing_strategy(name: Seq<char>) -> Option<MissingStrategy> {
    if name == "Impute"@ {
        Some(MissingStrategy::Impute)
    } else if name == "Zero"@ {
        Some(MissingStrategy::Zero)
    } else if name == "Freq"@ {
        Some(MissingStrategy::Freq)
    } else {
        None
    }
}

impl MissingStrategy {
    /// The strategy named `strategy`: one of `Impute`, `Zero` and `Freq`,
    /// spelled exactly so.
    pub fn new(strategy: &str) -> (r: Result<MissingStrategy, MetaError>)
        ensures
            match spec_missing_strategy(strategy@) {
                Some(s) => r matches Ok(got) && got == s,
                None => r matches Err(MetaError::UnknownMissingStrategy(name)) && name@
                    == strategy@,
            },
    {
        let given: String = String::from_str(strategy);
        if given == String::from_str("Impute") {
            Ok(MissingStrategy::Impute)
        } else if given == String::from_str("Zero") {
            Ok(MissingStrategy::Zero)
        } else if given == String::from_str("Freq") {
            Ok(MissingStrategy::Freq)
        } else {
            Err(MetaError::UnknownMissingStrategy(given))
        }
    }
}

/// The named ranges of p-values of a run, and the score columns that they
/// give rise to.
///
/// Each range gives every score column a companion that keeps the weights
/// of the rows whose p-value lies in the range and is zero elsewhere. The
/// bounds of the ranges are not kept here.
#[derive(Debug)]
pub struct QRange {
    /// The names of the ranges.
    pub name: Vec<String>,
    /// The names of all score columns: each score column as it was asked
    /// for, followed by its companions in the order of the ranges.
    pub score_names: Vec<String>,
    /// The names of the score columns as they were asked for.
    pub score_names_raw: Vec<String>,
}

/// The name of the companion of a score column for a range.
pub open spec fn spec_companion(score_name: Seq<char>, range_name: Seq<char>) -> Seq<char> {
    score_name + "_"@ + range_name
}

/// The names of a score column and of its companions for the ranges
/// `names[0..n]`.
pub open spec fn spec_expand_one(score_name: Seq<char>, names: Seq<Seq<char>>, n: int) -> Seq<
    Seq<char>,
>
    decreases n,
{
    if n <= 0 {
        seq![score_name]
    } else {
        spec_expand_one(score_name, names, n - 1).push(spec_companion(score_name, names[n - 1]))
    }
}

/// The names of the score columns `scores[0..m]` and of their companions.
pub open spec fn spec_expand(scores: Seq<Seq<char>>, names: Seq<Seq<char>>, m: int) -> Seq<
    Seq<char>,
>
    decreases m,
{
    if m <= 0 {
        Seq::empty()
    } else {
        spec_expand(scores, names, m - 1) + spec_expand_one(
            scores[m - 1],
            names,
            names.len() as int,
        )
    }
}

/// The texts of a list of names.
pub open spec fn spec_texts(names: Seq<String>) -> Seq<Seq<char>> {
    names.map_values(|s: String| s@)
}

/// A copy of a name.
fn copy_name(name: &String) -> (r: String)
    ensures
        r@ == name@,
{
    name.clone()
}

impl QRange {
    /// The ranges named `names` for the score columns `score_names`.
    pub fn new(names: Vec<String>, score_names: &Vec<String>) -> (r: QRange)
        ensures
            r.name@ == names@,
            spec_texts(r.score_names_raw@) == spec_texts(score_names@),
            spec_texts(r.score_names@) == spec_expand(
                spec_texts(score_names@),
                spec_texts(names@),
                score_names@.len() as int,
            ),
    {
        let mut raw: Vec<String> = Vec::new();
        let mut expanded: Vec<String> = Vec::new();
        let ghost scores = spec_texts(score_names@);
        let ghost ranges = spec_texts(names@);
        let mut m: usize = 0;
        while m < score_names.len()
            invariant
                m <= score_names.len(),
                scores == spec_texts(score_names@),
                ranges == spec_texts(names@),
                spec_texts(raw@) == scores.take(m as int),
                spec_texts(expanded@) == spec_expand(scores, ranges, m as int),
            decreases score_names.len() - m,
        {
            let score_name: &String = &score_names[m];
            let ghost raw_before = spec_texts(raw@);
            raw.push(copy_name(score_name));
            assert(score_name@ == scores[m as int]);
            assert(spec_texts(raw@) =~= raw_before.push(score_name@));
            assert(spec_texts(raw@) =~= scores.take(m as int + 1));
            let ghost before = spec_texts(expanded@);
            expanded.push(copy_name(score_name));
            assert(spec_texts(expanded@) =~= before + spec_expand_one(scores[m as int], ranges, 0));
            let mut n: usize = 0;
            while n < names.len()
                invariant
                    n <= names.len(),
                    m < score_names.len(),
                    scores == spec_texts(score_names@),
                    ranges == spec_texts(names@),
                    score_name@ == scores[m as int],
                    spec_texts(expanded@) == before + spec_expand_one(
                        scores[m as int],
                        ranges,
                        n as int,
                    ),
                decreases names.len() - n,
            {
                let mut new_name: String = copy_name(score_name);
                new_name.append("_");
                new_name.append(names[n].as_str());
                let ghost so_far = spec_texts(expanded@);
                expanded.push(new_name);
                assert(spec_texts(expanded@) =~= so_far.push(
                    spec_companion(scores[m as int], ranges[n as int]),
                ));
                assert(spec_texts(expanded@) =~= before + spec_expand_one(
                    scores[m as int],
                    ranges,
                    n as int + 1,
                ));
                n += 1;
            }
            m += 1;
        }
        assert(scores.take(m as int) =~= scores);
        QRange { name: names, score_names: expanded, score_names_raw: raw }
    }

    /// The number of ranges.
    pub fn len(&self) -> (n: usize)
        ensures
            n == self.name@.len(),
    {
        self.name.len()
    }
}

/// The score columns of a run: with ranges of p-values, or as they were
/// asked for.
#[derive(Debug)]
pub enum QrangeOrScorenames {
    QRange(QRange),
    ScoreNameRaws(Vec<String>),
}

/// The settings of a run.
#[derive(Debug)]
pub struct MetaArg {
    /// The number of individuals, or of weight rows, in a batch.
    pub batch_size: usize,
    /// The number of worker threads.
    pub thread_num: usize,
    /// Whether markers are matched by identifier rather than by
    /// chromosome and position.
    pub match_id_flag: bool,
    /// How missing calls are filled.
    pub missing_strategy: MissingStrategy,
    /// The prefix of the paths of the output files.
    pub out_prefix: String,
    /// The score columns.
    pub q_range_enum: QrangeOrScorenames,
}

impl MetaArg {
    /// The names of the score columns: with `old_flag` as they were asked
    /// for, else with the companions that the ranges add.
    pub open spec fn spec_score_names(&self, old_flag: bool) -> Seq<String> {
        match self.q_range_enum {
            QrangeOrScorenames::QRange(v) => {
                if old_flag {
                    v.score_names_raw@
                } else {
                    v.score_names@
                }
            },
            QrangeOrScorenames::ScoreNameRaws(v) => v@,
        }
    }

    /// The names of the score columns: with `old_flag` as they were asked
    /// for, else with the companions that the ranges add.
    pub fn get_score_names(&self, old_flag: bool) -> (r: &Vec<String>)
        ensures
            r@ == self.spec_score_names(old_flag),
    {
        match &self.q_range_enum {
            QrangeOrScorenames::QRange(v) => {
                if old_flag {
                    &v.score_names_raw
                } else {
                    &v.score_names
                }
            },
            QrangeOrScorenames::ScoreNameRaws(v) => v,
        }
    }
}

/// The columns of a line of ranges: the line without its line ends,
/// split at each tab.
pub open spec fn spec_q_range_columns(line: Seq<u8>) -> Seq<Seq<u8>> {
    let text = spec_strip(line, line.len() as int);
    spec_split(text, 9, text.len() as int)
}

/// The columns of one line of a file of ranges: the name of a range, its
/// lower bound and its upper bound. More than three columns are an error:
/// the file has more columns than a range, or is not separated by tabs.
pub fn q_range_columns(line: &[u8]) -> (r: Result<Vec<Vec<u8>>, MetaError>)
    ensures
        spec_q_range_columns(line@).len() > 3 ==> (r matches Err(MetaError::TooManyColumns(n))
            && n == spec_q_range_columns(line@).len()),
        spec_q_range_columns(line@).len() <= 3 ==> (r matches Ok(columns) && spec_names(columns@)
            == spec_q_range_columns(line@)),
{
    let text: Vec<u8> = strip_line_ends(line);
    let columns: Vec<Vec<u8>> = split_fields(text.as_slice(), 9);
    if columns.len() > 3 {
        return Err(MetaError::TooManyColumns(columns.len()));
    }
    Ok(columns)
}

} // verus!
