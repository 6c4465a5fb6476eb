//! The arguments of the predictor and what a run takes from them.

use crate::betareader::{BetaArg, PVALUE};
use crate::meta::{MetaArg, MetaError, MissingStrategy, QRange, QrangeOrScorenames};
use vstd::prelude::*;
use vstd::string::StringExecFns;

verus! {

/// The column names of a weight table.
#[derive(Debug)]
pub struct BetaCol {
    /// chromosome column for weight file
    pub chrom: String,
    /// position column for weight file
    pub pos: String,
    /// id column for weight file
    pub snp_id: String,
    /// a1 column for weight file
    pub a1: String,
    /// freq column for weight file
    pub freq: String,
    /// pvalue column for weight file, required when ranges of p-values are
    /// given
    pub pvalue: String,
}

/// The arguments of the predictor.
#[derive(Debug)]
pub struct MyArgs {
    /// analysis mode, one of ["Validate", "Predict", "Run", "CandT"]
    pub mode: String,
    /// weight path, should be a tsv file
    pub weight_path: String,
    /// path to plink bed files
    pub bed_path: String,
    /// output prefix
    pub out_prefix: String,
    /// score names: scores to be process
    pub score_names: Vec<String>,
    /// number of thread to run
    pub thread_num: usize,
    /// batch size for sample / or snp if batch-snp flag is set.
    pub batch_size: usize,
    /// whether to match by id instead of match by pos and chrom
    pub match_id_flag: bool,
    /// how much to log
    pub verbose: u8,
    /// whether to batch by ind, default is batch by snp
    pub batch_ind: bool,
    /// The column name set for beta tsv
    pub beta_col: BetaCol,
    /// Strategy to deal with missing value in genotype. Should be one of
    /// the following: Freq, Impute and Zero
    pub missing_strategy: String,
    /// whether to write matched snp and related information
    pub write_beta: bool,
    /// q range file, a headerless tsv file consisted of three columns:
    /// **name**, **from** and **to**, used in filtering p value for
    /// weights.
    pub q_ranges: Option<String>,
}

/// The mode of a run.
#[derive(Debug, Clone, Copy, PartialEq, Eq, Structural)]
pub enum ModeEnum {
    Validate,
    Predict,
    Run,
    CandT,
}

/// An argument that cannot be used.
#[derive(Debug)]
pub enum ArgError {
    /// The mode is none of the known modes; the value is the mode as it
    /// was given, in lower case.
    ModeNotFound(String),
    /// Of the covariate table and the covariate weights one is given and
    /// the other is not.
    CovPathsDiffer,
}

/// The lower-case form of a character: the letters `A` to `Z` become `a`
/// to `z`, every other character stays.
pub open spec fn spec_lower_char(c: char) -> char {
    if 65 <= c as u32 <= 90 {
        ((c as u32) + 32) as char
    } else {
        c
    }
}

/// The lower-case form of a text, character by character.
pub open spec fn spec_ascii_lower(s: Seq<char>) -> Seq<char> {
    s.map_values(|c: char| spec_lower_char(c))
}

/// Calls `str::to_ascii_lowercase`, which returns a copy of the string
/// where the ASCII letters `A` to `Z` are mapped to `a` to `z` and every
/// other character is unchanged.
#[verifier::external_body]
pub(crate) fn ascii_lowercase(s: &str) -> (r: String)
    ensures
        r@ == spec_ascii_lower(s@),
{
    s.to_ascii_lowercase()
}

/// The mode that a lower-case name stands for, if any.
pub open spec fn spec_mode(lower: Seq<char>) -> Option<ModeEnum> {
    if lower == "validate"@ || lower == "val"@ {
        Some(ModeEnum::Validate)
    } else if lower == "predict"@ || lower == "pred"@ {
        Some(ModeEnum::Predict)
    } else if lower == "run"@ {
        Some(ModeEnum::Run)
    } else if lower == "candt"@ {
        Some(ModeEnum::CandT)
    } else {
        None
    }
}

impl ModeEnum {
    /// The mode named `ss`, whatever the case of its letters: `validate`
    /// or `val`, `predict` or `pred`, `run`, `candt`.
    pub fn from_str(ss: &str) -> (r: Result<ModeEnum, ArgError>)
        ensures
            match spec_mode(spec_ascii_lower(ss@)) {
                Some(m) => r matches Ok(got) && got == m,
                None => r matches Err(ArgError::ModeNotFound(name)) && name@ == spec_ascii_lower(
                    ss@,
                ),
            },
    {
        let ss: String = ascii_lowercase(ss);
        if ss == String::from_str("validate") || ss == String::from_str("val") {
            Ok(ModeEnum::Validate)
        } else if ss == String::from_str("predict") || ss == String::from_str("pred") {
            Ok(ModeEnum::Predict)
        } else if ss == String::from_str("run") {
            Ok(ModeEnum::Run)
        } else if ss == String::from_str("candt") {
            Ok(ModeEnum::CandT)
        } else {
            Err(ArgError::ModeNotFound(ss))
        }
    }
}

/// Whether two sets of arguments agree in all but what a mode settles:
/// the missing strategy and whether the matched markers are written.
pub open spec fn same_but_defaults(a: MyArgs, b: MyArgs) -> bool {
    &&& a.mode == b.mode
    &&& a.weight_path == b.weight_path
    &&& a.bed_path == b.bed_path
    &&& a.out_prefix == b.out_prefix
    &&& a.score_names == b.score_names
    &&& a.thread_num == b.thread_num
    &&& a.batch_size == b.batch_size
    &&& a.match_id_flag == b.match_id_flag
    &&& a.verbose == b.verbose
    &&& a.batch_ind == b.batch_ind
    &&& a.beta_col == b.beta_col
    &&& a.q_ranges == b.q_ranges
}

/// Whether the arguments give the ranges of p-values exactly where the
/// mode works with them: `CandT` needs them, `Validate` and `Predict`
/// take none, `Run` takes either.
pub open spec fn q_ranges_fit_mode(args: MyArgs) -> bool {
    match spec_mode(spec_ascii_lower(args.mode@)) {
        Some(ModeEnum::Validate) => args.q_ranges is None,
        Some(ModeEnum::Predict) => args.q_ranges is None,
        Some(ModeEnum::CandT) => args.q_ranges is Some,
        _ => true,
    }
}

impl MyArgs {
    /// Settles what the mode settles: `Validate` and `CandT` write the
    /// matched markers and impute missing calls, `Predict` does not write
    /// them and fills missing calls with frequencies, `Run` leaves the
    /// arguments as they are. An unknown mode is an error and changes
    /// nothing.
    pub fn check_defaul(&mut self) -> (r: Result<(), ArgError>)
        requires
            q_ranges_fit_mode(*old(self)),
        ensures
            same_but_defaults(*old(self), *final(self)),
            match spec_mode(spec_ascii_lower(old(self).mode@)) {
                Some(ModeEnum::Validate) | Some(ModeEnum::CandT) => {
                    &&& r is Ok
                    &&& final(self).write_beta
                    &&& final(self).missing_strategy@ == "Impute"@
                },
                Some(ModeEnum::Predict) => {
                    &&& r is Ok
                    &&& !final(self).write_beta
                    &&& final(self).missing_strategy@ == "Freq"@
                },
                Some(ModeEnum::Run) => {
                    &&& r is Ok
                    &&& final(self).write_beta == old(self).write_beta
                    &&& final(self).missing_strategy == old(self).missing_strategy
                },
                None => {
                    &&& r matches Err(ArgError::ModeNotFound(name))
                    &&& name@ == spec_ascii_lower(old(self).mode@)
                    &&& final(self).write_beta == old(self).write_beta
                    &&& final(self).missing_strategy == old(self).missing_strategy
                },
            },
    {
        let mode: ModeEnum = match ModeEnum::from_str(self.mode.as_str()) {
            Ok(m) => m,
            Err(e) => {
                return Err(e);
            },
        };
        match mode {
            ModeEnum::Validate => {
                self.write_beta = true;
                self.missing_strategy = String::from_str("Impute");
            },
            ModeEnum::CandT => {
                self.write_beta = true;
                self.missing_strategy = String::from_str("Impute");
            },
            ModeEnum::Predict => {
                self.write_beta = false;
                self.missing_strategy = String::from_str("Freq");
            },
            ModeEnum::Run => (),
        }
        Ok(())
    }

    /// Whether the run imputes missing calls while it is batched by
    /// individual: each batch then imputes from its own individuals only,
    /// which a caller is to be warned of.
    pub fn imputes_by_individual(&self, missing_strategy: MissingStrategy) -> (r: bool)
        ensures
            r == (missing_strategy == MissingStrategy::Impute && self.batch_ind),
    {
        matches!(missing_strategy, MissingStrategy::Impute) && self.batch_ind
    }

    /// What reading the weight table and running need of the arguments.
    ///
    /// `q_range_names` holds the names of the ranges of p-values, where
    /// the arguments name a file of ranges and the file has been read.
    pub fn get_structs<'a>(&'a self, q_range_names: Option<Vec<String>>) -> (r: Result<
        (BetaArg<'a>, MetaArg),
        MetaError,
    >)
        ensures
            crate::meta::spec_missing_strategy(self.missing_strategy@) is None ==> (
            r matches Err(MetaError::UnknownMissingStrategy(name)) && name@
                == self.missing_strategy@),
            crate::meta::spec_missing_strategy(self.missing_strategy@) matches Some(strategy) ==> (
            r matches Ok((beta_arg, meta_arg)) && {
                &&& beta_arg.chrom@ == self.beta_col.chrom@
                &&& beta_arg.pos@ == self.beta_col.pos@
                &&& beta_arg.a1@ == self.beta_col.a1@
                &&& beta_arg.freq@ == self.beta_col.freq@
                &&& beta_arg.snp_id@ == self.beta_col.snp_id@
                &&& beta_arg.pvalue@ == self.beta_col.pvalue@
                &&& beta_arg.score_names@ == self.score_names@
                &&& beta_arg.weight_path@ == self.weight_path@
                &&& beta_arg.need_freq == (strategy == MissingStrategy::Freq)
                &&& beta_arg.need_id == self.match_id_flag
                &&& beta_arg.need_pvalue == (self.q_ranges is Some)
                &&& meta_arg.batch_size == self.batch_size
                &&& meta_arg.thread_num == self.thread_num
                &&& meta_arg.match_id_flag == self.match_id_flag
                &&& meta_arg.missing_strategy == strategy
                &&& meta_arg.out_prefix@ == self.out_prefix@
                &&& match q_range_names {
                    Some(names) => meta_arg.q_range_enum matches QrangeOrScorenames::QRange(q)
                        && q.name@ == names@ && crate::meta::spec_texts(q.score_names_raw@)
                        == crate::meta::spec_texts(self.score_names@)
                        && crate::meta::spec_texts(q.score_names@) == crate::meta::spec_expand(
                        crate::meta::spec_texts(self.score_names@),
                        crate::meta::spec_texts(names@),
                        self.score_names@.len() as int,
                    ),
                    None => meta_arg.q_range_enum matches QrangeOrScorenames::ScoreNameRaws(v)
                        && v@ == self.score_names@,
                }
            }),
    {
        // some check
        let missing_strategy: MissingStrategy = match MissingStrategy::new(
            self.missing_strategy.as_str(),
        ) {
            Ok(v) => v,
            Err(e) => {
                return Err(e);
            },
        };
        let beta_arg = BetaArg {
            // col
            chrom: self.beta_col.chrom.as_str(),
            pos: self.beta_col.pos.as_str(),
            a1: self.beta_col.a1.as_str(),
            freq: self.beta_col.freq.as_str(),
            snp_id: self.beta_col.snp_id.as_str(),
            pvalue: self.beta_col.pvalue.as_str(),
            // misc
            score_names: &self.score_names,
            weight_path: self.weight_path.as_str(),
            // flag
            need_freq: matches!(missing_strategy, MissingStrategy::Freq),
            need_id: self.match_id_flag,
            need_pvalue: self.q_ranges.is_some(),
        };
        let qragne_or_score: QrangeOrScorenames = match q_range_names {
            Some(v) => QrangeOrScorenames::QRange(QRange::new(v, &self.score_names)),
            None => QrangeOrScorenames::ScoreNameRaws(self.score_names.clone()),
        };
        let meta_arg = MetaArg {
            batch_size: self.batch_size,
            thread_num: self.thread_num,
            match_id_flag: self.match_id_flag,
            missing_strategy,
            out_prefix: self.out_prefix.clone(),
            q_range_enum: qragne_or_score,
        };
        Ok((beta_arg, meta_arg))
    }
}

/// The arguments of the predictor in their earlier form, with the column
/// names of the weight table among them.
#[derive(Debug)]
pub struct Args {
    /// weight path, should be a tsv file
    pub weight_path: String,
    /// path to plink bed files
    pub bed_path: String,
    /// output prefix
    pub out_prefix: String,
    /// score names: scores to be process
    pub score_names: Vec<String>,
    /// number of thread to run
    pub thread_num: usize,
    /// batch size for sample / or snp if batch-snp flag is set.
    pub batch_size: usize,
    /// Use freq to fill missing or not
    pub missing_strategy: String,
    /// if match by id
    pub match_id_flag: bool,
    /// if show log
    pub verbose: bool,
    /// whether to batch by snp, default is batch by ind
    pub batch_snp: bool,
    /// if output percentile and rank
    pub percentile_flag: bool,
    /// chromosome column for weight file
    pub chrom: String,
    /// position column for weight file
    pub pos: String,
    /// id column for weight file
    pub snp_id: String,
    /// a1 column for weight file
    pub a1: String,
    /// freq column for weight file
    pub freq: String,
}

impl Args {
    /// Whether the run imputes missing calls while it is batched by
    /// individual, which a caller is to be warned of.
    pub fn imputes_by_individual(&self, missing_strategy: MissingStrategy) -> (r: bool)
        ensures
            r == (missing_strategy == MissingStrategy::Impute && !self.batch_snp),
    {
        matches!(missing_strategy, MissingStrategy::Impute) && !self.batch_snp
    }

    /// What reading the weight table and running need of the arguments.
    /// There are no ranges of p-values: the score columns are those that
    /// were asked for.
    pub fn into_struct<'a>(&'a self) -> (r: Result<(BetaArg<'a>, MetaArg), MetaError>)
        ensures
            crate::meta::spec_missing_strategy(self.missing_strategy@) is None ==> (
            r matches Err(MetaError::UnknownMissingStrategy(name)) && name@
                == self.missing_strategy@),
            crate::meta::spec_missing_strategy(self.missing_strategy@) matches Some(strategy) ==> (
            r matches Ok((beta_arg, meta_arg)) && {
                &&& beta_arg.chrom@ == self.chrom@
                &&& beta_arg.pos@ == self.pos@
                &&& beta_arg.a1@ == self.a1@
                &&& beta_arg.freq@ == self.freq@
                &&& beta_arg.snp_id@ == self.snp_id@
                &&& beta_arg.pvalue@ == PVALUE@
                &&& beta_arg.score_names@ == self.score_names@
                &&& beta_arg.weight_path@ == self.weight_path@
                &&& beta_arg.need_freq == (strategy == MissingStrategy::Freq)
                &&& beta_arg.need_id == self.match_id_flag
                &&& !beta_arg.need_pvalue
                &&& meta_arg.batch_size == self.batch_size
                &&& meta_arg.thread_num == self.thread_num
                &&& meta_arg.match_id_flag == self.match_id_flag
                &&& meta_arg.missing_strategy == strategy
                &&& meta_arg.out_prefix@ == self.out_prefix@
                &&& meta_arg.q_range_enum matches QrangeOrScorenames::ScoreNameRaws(v) && v@
                    == self.score_names@
            }),
    {
        // some check
        let missing_strategy: MissingStrategy = match MissingStrategy::new(
            self.missing_strategy.as_str(),
        ) {
            Ok(v) => v,
            Err(e) => {
                return Err(e);
            },
        };
        let beta_arg = BetaArg {
            chrom: self.chrom.as_str(),
            pos: self.pos.as_str(),
            a1: self.a1.as_str(),
            freq: self.freq.as_str(),
            snp_id: self.snp_id.as_str(),
            pvalue: PVALUE,
            score_names: &self.score_names,
            weight_path: self.weight_path.as_str(),
            need_freq: matches!(missing_strategy, MissingStrategy::Freq),
            need_id: self.match_id_flag,
            need_pvalue: false,
        };
        let meta_arg = MetaArg {
            batch_size: self.batch_size,
            thread_num: self.thread_num,
            match_id_flag: self.match_id_flag,
            missing_strategy,
            out_prefix: self.out_prefix.clone(),
            q_range_enum: QrangeOrScorenames::ScoreNameRaws(self.score_names.clone()),
        };
        // bed_path and out_path are still only in self, they should not belong to meta
        // and they should only be access in main
        Ok((beta_arg, meta_arg))
    }
}

/// The text of a decimal digit.
pub open spec fn spec_digit(d: nat) -> Seq<char> {
    if d == 0 {
        "0"@
    } else if d == 1 {
        "1"@
    } else if d == 2 {
        "2"@
    } else if d == 3 {
        "3"@
    } else if d == 4 {
        "4"@
    } else if d == 5 {
        "5"@
    } else if d == 6 {
        "6"@
    } else if d == 7 {
        "7"@
    } else if d == 8 {
        "8"@
    } else {
        "9"@
    }
}

/// The decimal text of a number, without leading zeros.
pub open spec fn spec_decimal(n: nat) -> Seq<char>
    decreases n,
{
    if n < 10 {
        spec_digit(n)
    } else {
        spec_decimal(n / 10) + spec_digit(n % 10)
    }
}

fn digit(d: usize) -> (r: &'static str)
    requires
        d < 10,
    ensures
        r@ == spec_digit(d as nat),
{
    if d == 0 {
        "0"
    } else if d == 1 {
        "1"
    } else if d == 2 {
        "2"
    } else if d == 3 {
        "3"
    } else if d == 4 {
        "4"
    } else if d == 5 {
        "5"
    } else if d == 6 {
        "6"
    } else if d == 7 {
        "7"
    } else if d == 8 {
        "8"
    } else {
        "9"
    }
}

/// The decimal text of a number.
pub fn decimal(n: usize) -> (r: String)
    ensures
        r@ == spec_decimal(n as nat),
    decreases n,
{
    if n < 10 {
        String::from_str(digit(n))
    } else {
        let mut s: String = decimal(n / 10);
        s.append(digit(n % 10));
        s
    }
}

/// The line that tells how a run is configured: its batch size, its
/// number of threads and the axis that it is batched along.
pub fn print_run_config(cli: &MyArgs) -> (r: String)
    ensures
        r@ == "Run with batch size "@ + spec_decimal(cli.batch_size as nat) + " and "@
            + spec_decimal(cli.thread_num as nat) + " threads along "@ + (if !cli.batch_ind {
            "snp"@
        } else {
            "ind"@
        }),
{
    let aa: &str = if !cli.batch_ind {
        "snp"
    } else {
        "ind"
    };
    let mut s: String = String::from_str("Run with batch size ");
    s.append(decimal(cli.batch_size).as_str());
    s.append(" and ");
    s.append(decimal(cli.thread_num).as_str());
    s.append(" threads along ");
    s.append(aa);
    s
}

/// How much of what happens is logged.
#[derive(Debug, Clone, Copy, PartialEq, Eq, Structural)]
pub enum LevelFilter {
    Warn,
    Info,
    Debug,
    Trace,
}

/// The level of logging for a count of verbosity flags.
pub fn match_verbose(verbose_count: u8) -> (r: LevelFilter)
    ensures
        r == (if verbose_count == 0 {
            LevelFilter::Warn
        } else if verbose_count == 1 {
            LevelFilter::Info
        } else if verbose_count == 2 {
            LevelFilter::Debug
        } else {
            LevelFilter::Trace
        }),
{
    match verbose_count {
        0 => LevelFilter::Warn,
        1 => LevelFilter::Info,
        2 => LevelFilter::Debug,
        _ => LevelFilter::Trace,
    }
}

} // verus!
