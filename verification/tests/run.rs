use pgspredictor::args::{
    decimal, match_verbose, print_run_config, ArgError, Args, BetaCol, LevelFilter, ModeEnum,
    MyArgs,
};
use pgspredictor::join::{JoinError, MatchStatus};
use pgspredictor::meta::{MetaError, MissingStrategy, QrangeOrScorenames};
use pgspredictor::post_args;
use pgspredictor::runner::{
    IndAction, IndBatchRun, IndEvent, Phase, SnpAction, SnpBatchRun, SnpEvent,
};

fn my_args(mode: &str) -> MyArgs {
    MyArgs {
        mode: mode.to_string(),
        weight_path: "w.tsv".to_string(),
        bed_path: "cohort".to_string(),
        out_prefix: "out".to_string(),
        score_names: vec!["S1".to_string()],
        thread_num: 1,
        batch_size: 10000,
        match_id_flag: false,
        verbose: 0,
        batch_ind: false,
        beta_col: BetaCol {
            chrom: "CHR".to_string(),
            pos: "POS".to_string(),
            snp_id: "ID".to_string(),
            a1: "A1".to_string(),
            freq: "FREQ".to_string(),
            pvalue: "P".to_string(),
        },
        missing_strategy: "Zero".to_string(),
        write_beta: false,
        q_ranges: None,
    }
}

#[test]
fn modes() {
    assert_eq!(ModeEnum::from_str("validate").unwrap(), ModeEnum::Validate);
    assert_eq!(ModeEnum::from_str("VAL").unwrap(), ModeEnum::Validate);
    assert_eq!(ModeEnum::from_str("Predict").unwrap(), ModeEnum::Predict);
    assert_eq!(ModeEnum::from_str("pred").unwrap(), ModeEnum::Predict);
    assert_eq!(ModeEnum::from_str("RUN").unwrap(), ModeEnum::Run);
    assert_eq!(ModeEnum::from_str("CandT").unwrap(), ModeEnum::CandT);
    match ModeEnum::from_str("Test") {
        Err(ArgError::ModeNotFound(name)) => assert_eq!(name, "test"),
        _ => panic!("test is no mode"),
    }
    assert!(ModeEnum::from_str("").is_err());
    assert!(ModeEnum::from_str("vali").is_err());
}

#[test]
fn defaults_of_validate() {
    let mut a = my_args("Validate");
    a.check_defaul().unwrap();
    assert!(a.write_beta);
    assert_eq!(a.missing_strategy, "Impute");
    assert_eq!(a.mode, "Validate");
    assert_eq!(a.batch_size, 10000);
}

#[test]
fn defaults_of_candt() {
    let mut a = my_args("candt");
    a.q_ranges = Some("ranges.tsv".to_string());
    a.check_defaul().unwrap();
    assert!(a.write_beta);
    assert_eq!(a.missing_strategy, "Impute");
    assert_eq!(a.q_ranges, Some("ranges.tsv".to_string()));
}

#[test]
fn defaults_of_predict() {
    let mut a = my_args("PRED");
    a.write_beta = true;
    a.check_defaul().unwrap();
    assert!(!a.write_beta);
    assert_eq!(a.missing_strategy, "Freq");
}

#[test]
fn defaults_of_run_and_unknown_mode() {
    let mut a = my_args("run");
    a.write_beta = true;
    a.check_defaul().unwrap();
    assert!(a.write_beta);
    assert_eq!(a.missing_strategy, "Zero");
    let mut b = my_args("walk");
    match b.check_defaul() {
        Err(ArgError::ModeNotFound(name)) => assert_eq!(name, "walk"),
        _ => panic!("walk is no mode"),
    }
    assert!(!b.write_beta);
    assert_eq!(b.missing_strategy, "Zero");
}

#[test]
fn structs_of_arguments() {
    let mut a = my_args("run");
    a.missing_strategy = "Freq".to_string();
    a.match_id_flag = true;
    a.thread_num = 4;
    let (beta_arg, meta_arg) = a.get_structs(None).unwrap();
    assert_eq!(beta_arg.chrom, "CHR");
    assert_eq!(beta_arg.pvalue, "P");
    assert_eq!(beta_arg.weight_path, "w.tsv");
    assert_eq!(beta_arg.score_names, &vec!["S1".to_string()]);
    assert!(beta_arg.need_freq);
    assert!(beta_arg.need_id);
    assert!(!beta_arg.need_pvalue);
    assert_eq!(meta_arg.batch_size, 10000);
    assert_eq!(meta_arg.thread_num, 4);
    assert!(meta_arg.match_id_flag);
    assert_eq!(meta_arg.missing_strategy, MissingStrategy::Freq);
    assert_eq!(meta_arg.out_prefix, "out");
    match meta_arg.q_range_enum {
        QrangeOrScorenames::ScoreNameRaws(v) => assert_eq!(v, vec!["S1".to_string()]),
        _ => panic!("no ranges were given"),
    }
    assert!(!a.imputes_by_individual(MissingStrategy::Impute));
}

#[test]
fn structs_with_ranges() {
    let mut a = my_args("candt");
    a.q_ranges = Some("ranges.tsv".to_string());
    a.missing_strategy = "Impute".to_string();
    a.batch_ind = true;
    let (beta_arg, meta_arg) = a.get_structs(Some(vec!["lo".to_string()])).unwrap();
    assert!(beta_arg.need_pvalue);
    assert!(!beta_arg.need_freq);
    assert_eq!(meta_arg.get_score_names(false), &vec!["S1".to_string(), "S1_lo".to_string()]);
    assert_eq!(meta_arg.get_score_names(true), &vec!["S1".to_string()]);
    assert!(a.imputes_by_individual(MissingStrategy::Impute));
    assert!(!a.imputes_by_individual(MissingStrategy::Freq));
}

#[test]
fn structs_with_unknown_strategy() {
    let mut a = my_args("run");
    a.missing_strategy = "Guess".to_string();
    match a.get_structs(None) {
        Err(MetaError::UnknownMissingStrategy(name)) => assert_eq!(name, "Guess"),
        _ => panic!("Guess is no strategy"),
    }
}

#[test]
fn earlier_arguments() {
    let a = Args {
        weight_path: "w.tsv".to_string(),
        bed_path: "cohort".to_string(),
        out_prefix: "out".to_string(),
        score_names: vec!["S1".to_string(), "S2".to_string()],
        thread_num: 2,
        batch_size: 50,
        missing_strategy: "Impute".to_string(),
        match_id_flag: false,
        verbose: true,
        batch_snp: false,
        percentile_flag: false,
        chrom: "chrom".to_string(),
        pos: "bp".to_string(),
        snp_id: "ID".to_string(),
        a1: "A1".to_string(),
        freq: "FREQ".to_string(),
    };
    let (beta_arg, meta_arg) = a.into_struct().unwrap();
    assert_eq!(beta_arg.chrom, "chrom");
    assert_eq!(beta_arg.pos, "bp");
    assert_eq!(beta_arg.pvalue, "P");
    assert!(!beta_arg.need_freq);
    assert!(!beta_arg.need_pvalue);
    assert_eq!(meta_arg.batch_size, 50);
    assert_eq!(meta_arg.thread_num, 2);
    assert_eq!(meta_arg.missing_strategy, MissingStrategy::Impute);
    assert_eq!(meta_arg.get_score_names(false).len(), 2);
    assert!(a.imputes_by_individual(MissingStrategy::Impute));
}

#[test]
fn run_configuration_line() {
    assert_eq!(decimal(0), "0");
    assert_eq!(decimal(9), "9");
    assert_eq!(decimal(10), "10");
    assert_eq!(decimal(10000), "10000");
    assert_eq!(decimal(usize::MAX), usize::MAX.to_string());
    let mut a = my_args("run");
    assert_eq!(print_run_config(&a), "Run with batch size 10000 and 1 threads along snp");
    a.batch_ind = true;
    a.thread_num = 8;
    a.batch_size = 32;
    assert_eq!(print_run_config(&a), "Run with batch size 32 and 8 threads along ind");
}

#[test]
fn verbosity() {
    assert_eq!(match_verbose(0), LevelFilter::Warn);
    assert_eq!(match_verbose(1), LevelFilter::Info);
    assert_eq!(match_verbose(2), LevelFilter::Debug);
    assert_eq!(match_verbose(3), LevelFilter::Trace);
    assert_eq!(match_verbose(255), LevelFilter::Trace);
}

fn post(mode: &str) -> post_args::MyArgs {
    post_args::MyArgs {
        mode: mode.to_string(),
        score_path: "scores.csv".to_string(),
        out_prefix: "out".to_string(),
        score_names: vec!["S1".to_string()],
        verbose: 0,
        eval_flag: false,
        rank_path: None,
        cov_csv_path: None,
        cov_weight_path: None,
    }
}

#[test]
fn post_processing_defaults() {
    assert_eq!(post_args::ModeEnum::from_str("Val").unwrap(), post_args::ModeEnum::Validate);
    assert_eq!(post_args::ModeEnum::from_str("predict").unwrap(), post_args::ModeEnum::Predict);
    assert_eq!(post_args::ModeEnum::from_str("Run").unwrap(), post_args::ModeEnum::Run);
    assert!(post_args::ModeEnum::from_str("candt").is_err());
    assert_eq!(post_args::CovType::Binary, post_args::CovType::Binary);
    assert_ne!(post_args::CovType::Binary, post_args::CovType::Quant);

    let mut a = post("validate");
    a.check_defaul().unwrap();
    assert!(a.eval_flag);

    let mut b = post("predict");
    b.eval_flag = true;
    b.rank_path = Some("rank.csv".to_string());
    b.check_defaul().unwrap();
    assert!(!b.eval_flag);

    let mut c = post("predict");
    c.eval_flag = true;
    c.rank_path = Some("rank.csv".to_string());
    c.cov_csv_path = Some("cov.csv".to_string());
    assert!(matches!(c.check_defaul(), Err(ArgError::CovPathsDiffer)));
    assert!(c.eval_flag);
    c.cov_weight_path = Some("cov.json".to_string());
    c.check_defaul().unwrap();
    assert!(!c.eval_flag);

    let mut d = post("run");
    d.eval_flag = true;
    d.check_defaul().unwrap();
    assert!(d.eval_flag);

    let mut e = post("other");
    assert!(matches!(e.check_defaul(), Err(ArgError::ModeNotFound(_))));
}

#[test]
fn run_by_marker() {
    let mut run = SnpBatchRun::new(2);
    assert_eq!(run.phase, Phase::Init);
    assert_eq!(run.step(SnpEvent::BatchRead), SnpAction::Reject);
    assert_eq!(run.step(SnpEvent::Started), SnpAction::SpawnWorkers { workers: 2, queue: 4 });
    assert_eq!(run.phase, Phase::Streaming);
    assert_eq!(run.step(SnpEvent::Started), SnpAction::Reject);
    assert_eq!(run.step(SnpEvent::BatchRead), SnpAction::Dispatch);
    assert_eq!(run.step(SnpEvent::BatchRead), SnpAction::Dispatch);
    assert_eq!(
        run.step(SnpEvent::BatchScored(MatchStatus::new(3, 10, 4))),
        SnpAction::Accumulate { first: true }
    );
    assert_eq!(run.step(SnpEvent::BatchRead), SnpAction::Dispatch);
    assert_eq!(run.step(SnpEvent::InputExhausted), SnpAction::SendSentinels(2));
    assert_eq!(run.phase, Phase::Draining);
    assert_eq!(run.step(SnpEvent::BatchRead), SnpAction::Reject);
    assert_eq!(run.step(SnpEvent::WorkersJoined), SnpAction::Reject);
    assert_eq!(run.step(SnpEvent::BatchUnmatched), SnpAction::Skip);
    assert_eq!(
        run.step(SnpEvent::BatchScored(MatchStatus::new(3, 7, 2))),
        SnpAction::Accumulate { first: false }
    );
    assert_eq!(run.step(SnpEvent::BatchUnmatched), SnpAction::Reject);
    let total = MatchStatus { bfile_snp: 3, model_snp: 17, match_snp: 6 };
    assert_eq!(run.step(SnpEvent::WorkersJoined), SnpAction::Finish(total));
    assert_eq!(run.phase, Phase::Joined);
    assert_eq!(run.step(SnpEvent::OutputMade), SnpAction::Rest);
    assert_eq!(run.phase, Phase::Done);
    assert_eq!(run.step(SnpEvent::BatchFailed), SnpAction::Reject);
    assert_eq!(run.phase, Phase::Done);
    assert_eq!((run.dispatched, run.settled, run.scored), (3, 3, 2));
    assert_eq!(run.match_status, total);
}

#[test]
fn run_by_marker_fails() {
    let mut run = SnpBatchRun::new(1);
    run.step(SnpEvent::Started);
    run.step(SnpEvent::BatchRead);
    assert_eq!(run.step(SnpEvent::BatchFailed), SnpAction::Abort);
    assert_eq!(run.phase, Phase::Failed);
    assert_eq!(run.step(SnpEvent::InputExhausted), SnpAction::Reject);

    // every batch unmatched: there is no sum
    let mut run = SnpBatchRun::new(1);
    run.step(SnpEvent::Started);
    run.step(SnpEvent::BatchRead);
    run.step(SnpEvent::BatchUnmatched);
    run.step(SnpEvent::InputExhausted);
    assert_eq!(run.step(SnpEvent::WorkersJoined), SnpAction::Fail(JoinError::NoSnpMatched));
    assert_eq!(run.phase, Phase::Failed);

    // no batch at all
    let mut run = SnpBatchRun::new(3);
    run.step(SnpEvent::Started);
    run.step(SnpEvent::InputExhausted);
    assert_eq!(run.step(SnpEvent::WorkersJoined), SnpAction::Fail(JoinError::NoSnpMatched));

    // counts that do not fit
    let mut run = SnpBatchRun::new(1);
    run.step(SnpEvent::Started);
    run.step(SnpEvent::BatchRead);
    run.step(SnpEvent::BatchRead);
    run.step(SnpEvent::BatchScored(MatchStatus::new(1, usize::MAX, 1)));
    assert_eq!(run.step(SnpEvent::BatchScored(MatchStatus::new(1, 1, 1))), SnpAction::Abort);
    assert_eq!(run.phase, Phase::Failed);

    let mut run = SnpBatchRun::new(usize::MAX);
    assert_eq!(
        run.step(SnpEvent::Started),
        SnpAction::SpawnWorkers { workers: usize::MAX, queue: usize::MAX }
    );
}

fn totals(thread_num: usize, order: &[usize]) -> MatchStatus {
    let batches = [
        Some(MatchStatus::new(9, 10, 1)),
        None,
        Some(MatchStatus::new(9, 20, 2)),
        Some(MatchStatus::new(9, 30, 3)),
        None,
        Some(MatchStatus::new(9, 40, 4)),
    ];
    let mut run = SnpBatchRun::new(thread_num);
    run.step(SnpEvent::Started);
    for _ in 0..batches.len() {
        assert_eq!(run.step(SnpEvent::BatchRead), SnpAction::Dispatch);
    }
    run.step(SnpEvent::InputExhausted);
    for &b in order {
        match batches[b] {
            Some(s) => {
                run.step(SnpEvent::BatchScored(s));
            }
            None => {
                run.step(SnpEvent::BatchUnmatched);
            }
        }
    }
    match run.step(SnpEvent::WorkersJoined) {
        SnpAction::Finish(total) => total,
        other => panic!("the run did not finish: {:?}", other),
    }
}

#[test]
fn totals_do_not_depend_on_threads_or_order() {
    let expected = MatchStatus { bfile_snp: 9, model_snp: 100, match_snp: 10 };
    assert_eq!(totals(1, &[0, 1, 2, 3, 4, 5]), expected);
    assert_eq!(totals(2, &[1, 0, 3, 2, 5, 4]), expected);
    assert_eq!(totals(8, &[5, 4, 3, 2, 1, 0]), expected);
    assert_eq!(totals(8, &[2, 5, 0, 4, 3, 1]), expected);
}

#[test]
fn run_by_individual() {
    let mut run = IndBatchRun::new(3, 4);
    assert_eq!(run.phase(), Phase::Init);
    assert_eq!(run.step(IndEvent::ChunkDone(0)), IndAction::Reject);
    assert_eq!(run.step(IndEvent::Started), IndAction::SpawnWorkers { workers: 3, chunks: 4 });
    assert_eq!(run.step(IndEvent::ChunkDone(2)), IndAction::Place(2));
    assert_eq!(run.step(IndEvent::ChunksSent), IndAction::SendSentinels(3));
    assert_eq!(run.phase(), Phase::Draining);
    assert_eq!(run.step(IndEvent::ChunkDone(0)), IndAction::Place(0));
    assert_eq!(run.step(IndEvent::ChunkDone(3)), IndAction::Place(3));
    assert_eq!(run.step(IndEvent::ChunkDone(1)), IndAction::Place(1));
    assert_eq!(run.step(IndEvent::WorkersJoined), IndAction::Finish);
    assert_eq!(run.phase(), Phase::Joined);
    assert_eq!(run.step(IndEvent::ChunkDone(1)), IndAction::Reject);
    assert_eq!(run.step(IndEvent::OutputMade), IndAction::Rest);
    assert_eq!(run.phase(), Phase::Done);
}

#[test]
fn run_by_individual_fails() {
    // a chunk twice
    let mut run = IndBatchRun::new(2, 2);
    run.step(IndEvent::Started);
    run.step(IndEvent::ChunksSent);
    assert_eq!(run.step(IndEvent::ChunkDone(1)), IndAction::Place(1));
    assert_eq!(run.step(IndEvent::ChunkDone(1)), IndAction::Abort);
    assert_eq!(run.phase(), Phase::Failed);

    // a chunk that there is not
    let mut run = IndBatchRun::new(2, 2);
    run.step(IndEvent::Started);
    assert_eq!(run.step(IndEvent::ChunkDone(2)), IndAction::Abort);

    // a chunk that never came back
    let mut run = IndBatchRun::new(2, 2);
    run.step(IndEvent::Started);
    run.step(IndEvent::ChunksSent);
    run.step(IndEvent::ChunkDone(0));
    assert_eq!(run.step(IndEvent::WorkersJoined), IndAction::Abort);
    assert_eq!(run.phase(), Phase::Failed);

    // a chunk that failed
    let mut run = IndBatchRun::new(2, 2);
    run.step(IndEvent::Started);
    assert_eq!(run.step(IndEvent::ChunkFailed), IndAction::Abort);
    assert_eq!(run.step(IndEvent::ChunkDone(0)), IndAction::Reject);

    // no chunk at all
    let mut run = IndBatchRun::new(1, 0);
    run.step(IndEvent::Started);
    run.step(IndEvent::ChunksSent);
    assert_eq!(run.step(IndEvent::WorkersJoined), IndAction::Finish);
}
