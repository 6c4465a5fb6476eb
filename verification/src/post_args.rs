//! The arguments of the post-processing of scores.

use crate::args::{ascii_lowercase, spec_ascii_lower, ArgError};
use vstd::prelude::*;
use vstd::string::StringExecFns;

verus! {

/// The arguments of the post-processing of scores.
#[derive(Debug)]
pub struct MyArgs {
    /// mode, should be Predict / Validate
    pub mode: String,
    /// path of the score table
    pub score_path: String,
    /// output prefix
    pub out_prefix: String,
    /// score names: scores to be process
    pub score_names: Vec<String>,
    /// how much to log
    pub verbose: u8,
    /// whether to calculate correlation between PHENO and score
    pub eval_flag: bool,
    /// path to a rank file. If specified, percentiles of sample scores are
    /// interpolated based on the rank.
    pub rank_path: Option<String>,
    /// covariate path, a table with the covariates of each sample
    pub cov_csv_path: Option<String>,
    /// path of the covariate weights, used in predict mode
    pub cov_weight_path: Option<String>,
}

/// The kind of a covariate.
#[derive(Debug, Clone, Copy, PartialEq, Eq, Structural)]
pub enum CovType {
    /// It takes the two values zero and one.
    Binary,
    /// It takes any values.
    Quant,
}

/// The mode of a post-processing.
#[derive(Debug, Clone, Copy, PartialEq, Eq, Structural)]
pub enum ModeEnum {
    Predict,
    Validate,
    Run,
}

/// The mode that a lower-case name stands for, if any.
pub open spec fn spec_mode(lower: Seq<char>) -> Option<ModeEnum> {
    if lower == "validate"@ || lower == "val"@ {
        Some(ModeEnum::Validate)
    } else if lower == "predict"@ || lower == "pred"@ {
        Some(ModeEnum::Predict)
    } else if lower == "run"@ {
        Some(ModeEnum::Run)
    } else {
        None
    }
}

impl ModeEnum {
    /// The mode named `ss`, whatever the case of its letters: `validate`
    /// or `val`, `predict` or `pred`, `run`.
    pub fn from_str(ss: &str) -> (r: Result<ModeEnum, ArgError>)
        ensures
            match spec_mode(spec_ascii_lower(ss@)) {
                Some(m) => r matches Ok(got) && got == m,
                None => r matches Err(ArgError::ModeNotFound(name)) && name@ == spec_ascii_lower(
                    ss@,
                ),
            },
    {
        let ss: String = ascii_lowercase(ss);
        if ss == String::from_str("validate") || ss == String::from_str("val") {
            Ok(ModeEnum::Validate)
        } else if ss == String::from_str("predict") || ss == String::from_str("pred") {
            Ok(ModeEnum::Predict)
        } else if ss == String::from_str("run") {
            Ok(ModeEnum::Run)
        } else {
            Err(ArgError::ModeNotFound(ss))
        }
    }
}

/// Whether two sets of arguments agree in all but whether the scores are
/// evaluated against the phenotype.
pub open spec fn same_but_eval(a: MyArgs, b: MyArgs) -> bool {
    &&& a.mode == b.mode
    &&& a.score_path == b.score_path
    &&& a.out_prefix == b.out_prefix
    &&& a.score_names == b.score_names
    &&& a.verbose == b.verbose
    &&& a.rank_path == b.rank_path
    &&& a.cov_csv_path == b.cov_csv_path
    &&& a.cov_weight_path == b.cov_weight_path
}

/// Whether the arguments give the paths that the mode works with:
/// `Validate` takes neither a rank file nor covariate weights, `Predict`
/// needs a rank file, `Run` takes anything.
pub open spec fn paths_fit_mode(args: MyArgs) -> bool {
    match spec_mode(spec_ascii_lower(args.mode@)) {
        Some(ModeEnum::Validate) => args.rank_path is None && args.cov_weight_path is None,
        Some(ModeEnum::Predict) => args.rank_path is Some,
        _ => true,
    }
}

impl MyArgs {
    /// Settles what the mode settles: `Validate` evaluates the scores,
    /// `Predict` does not, and wants the covariate table and the
    /// covariate weights both or neither; `Run` leaves the arguments as
    /// they are. An error changes nothing.
    pub fn check_defaul(&mut self) -> (r: Result<(), ArgError>)
        requires
            paths_fit_mode(*old(self)),
        ensures
            same_but_eval(*old(self), *final(self)),
            match spec_mode(spec_ascii_lower(old(self).mode@)) {
                Some(ModeEnum::Validate) => r is Ok && final(self).eval_flag,
                Some(ModeEnum::Predict) => if (old(self).cov_csv_path is None) != (old(
                    self,
                ).cov_weight_path is None) {
                    &&& r matches Err(ArgError::CovPathsDiffer)
                    &&& final(self).eval_flag == old(self).eval_flag
                } else {
                    r is Ok && !final(self).eval_flag
                },
                Some(ModeEnum::Run) => r is Ok && final(self).eval_flag == old(self).eval_flag,
                None => {
                    &&& r matches Err(ArgError::ModeNotFound(name))
                    &&& name@ == spec_ascii_lower(old(self).mode@)
                    &&& final(self).eval_flag == old(self).eval_flag
                },
            },
    {
        let mode: ModeEnum = match ModeEnum::from_str(self.mode.as_str()) {
            Ok(m) => m,
            Err(e) => {
                return Err(e);
            },
        };
        match mode {
            ModeEnum::Validate => {
                self.eval_flag = true;
            },
            ModeEnum::Predict => {
                if self.cov_csv_path.is_none() != self.cov_weight_path.is_none() {
                    return Err(ArgError::CovPathsDiffer);
                }
                self.eval_flag = false;
            },
            ModeEnum::Run => (),
        }
        Ok(())
    }
}

} // verus!
