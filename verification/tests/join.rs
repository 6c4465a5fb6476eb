use pgspredictor::join::{
    join_snp, match_snp, status_of, BetaRow, BimRow, JoinError, MatchStatus, MatchedSnp,
    SnpStatus, GOOD, NO_MATCH, SWAP,
};
use pgspredictor::meta::{
    q_range_columns, MetaArg, MetaError, MissingStrategy, QRange, QrangeOrScorenames, RANK,
    STATUS,
};
use pgspredictor::weight::Weights;

fn bim(idx: isize, chr: &str, id: &str, pos: i32, alt: &str, reference: &str) -> BimRow {
    BimRow {
        idx,
        chr: chr.as_bytes().to_vec(),
        id: id.as_bytes().to_vec(),
        pos,
        alt: alt.as_bytes().to_vec(),
        reference: reference.as_bytes().to_vec(),
    }
}

fn beta(chr: &str, pos: i32, id: &str, a1: &str) -> BetaRow {
    BetaRow {
        chr: chr.as_bytes().to_vec(),
        pos,
        id: id.as_bytes().to_vec(),
        a1: a1.as_bytes().to_vec(),
        has_freq: true,
    }
}

fn markers() -> Vec<BimRow> {
    vec![
        bim(0, "1", "rs1", 100, "A", "G"),
        bim(1, "1", "rs2", 200, "C", "T"),
        bim(2, "2", "rs3", 300, "G", "A"),
    ]
}

fn meta(match_id_flag: bool, missing_strategy: MissingStrategy) -> MetaArg {
    MetaArg {
        batch_size: 10,
        thread_num: 1,
        match_id_flag,
        missing_strategy,
        out_prefix: "out".to_string(),
        q_range_enum: QrangeOrScorenames::ScoreNameRaws(vec!["S1".to_string()]),
    }
}

#[test]
fn status_names() {
    assert_eq!(GOOD, "Good");
    assert_eq!(SWAP, "Swap");
    assert_eq!(NO_MATCH, "NoMatch");
    assert_eq!(STATUS, "STATUS");
    assert_eq!(RANK, "RANK");
}

#[test]
fn status_of_a_row() {
    let m = bim(0, "1", "rs1", 100, "A", "G");
    assert_eq!(status_of(&m, &beta("1", 100, "rs1", "A")), SnpStatus::Good);
    assert_eq!(status_of(&m, &beta("1", 100, "rs1", "G")), SnpStatus::Swap);
    assert_eq!(status_of(&m, &beta("1", 100, "rs1", "T")), SnpStatus::NoMatch);
    assert_eq!(status_of(&m, &beta("1", 100, "rs1", "")), SnpStatus::NoMatch);
}

#[test]
fn match_status_counts() {
    let aa = MatchStatus::new_empty();
    assert_eq!(aa, MatchStatus { bfile_snp: 0, model_snp: 0, match_snp: 0 });
    let bb = MatchStatus::new(1234, 234, 198);
    assert_eq!(bb, MatchStatus { bfile_snp: 1234, model_snp: 234, match_snp: 198 });
    let cc = aa.add(bb);
    assert_eq!(cc, MatchStatus { bfile_snp: 1234, model_snp: 234, match_snp: 198 });
    let dd = cc.add(MatchStatus::new(1234, 100, 2));
    assert_eq!(dd, MatchStatus { bfile_snp: 1234, model_snp: 334, match_snp: 200 });
    // the markers of the file are taken from the batch that came last
    let ee = MatchStatus::new(7, 1, 1).add(MatchStatus::new(9, 2, 2));
    assert_eq!(ee, MatchStatus { bfile_snp: 9, model_snp: 3, match_snp: 3 });
}

#[test]
fn adding_counts_in_any_order() {
    let a = MatchStatus::new(5, 10, 3);
    let b = MatchStatus::new(5, 20, 4);
    let c = MatchStatus::new(5, 30, 5);
    assert_eq!(a.add(b).add(c), a.add(c).add(b));
    assert_eq!(a.add(b).add(c), c.add(b).add(a));
    assert_eq!(a.add(b).add(c), a.add(b.add(c)));
}

#[test]
fn join_by_position() {
    let rows = vec![beta("1", 100, "x", "A"), beta("2", 300, "y", "A")];
    let matched = join_snp(false, &markers(), &rows);
    assert_eq!(
        matched,
        vec![
            MatchedSnp { idx: 0, beta_row: 0, status: SnpStatus::Good, has_freq: true },
            MatchedSnp { idx: 2, beta_row: 1, status: SnpStatus::Swap, has_freq: true },
        ]
    );
}

#[test]
fn join_by_identifier() {
    let rows = vec![beta("9", 1, "rs3", "G"), beta("9", 1, "rs2", "T"), beta("1", 100, "no", "A")];
    let matched = join_snp(true, &markers(), &rows);
    assert_eq!(
        matched,
        vec![
            MatchedSnp { idx: 2, beta_row: 0, status: SnpStatus::Good, has_freq: true },
            MatchedSnp { idx: 1, beta_row: 1, status: SnpStatus::Swap, has_freq: true },
        ]
    );
}

#[test]
fn join_keeps_the_first_of_equal_rows() {
    let rows = vec![
        beta("1", 100, "", "G"),
        beta("1", 100, "", "A"),
        beta("1", 100, "", "G"),
        beta("1", 100, "", "A"),
    ];
    let matched = join_snp(false, &markers(), &rows);
    assert_eq!(
        matched,
        vec![
            MatchedSnp { idx: 0, beta_row: 0, status: SnpStatus::Swap, has_freq: true },
            MatchedSnp { idx: 0, beta_row: 1, status: SnpStatus::Good, has_freq: true },
        ]
    );
}

#[test]
fn join_takes_the_first_marker_of_a_locus() {
    // more than two alleles at one place: two markers share the position
    let table = vec![
        bim(0, "1", "a", 100, "A", "G"),
        bim(1, "1", "b", 100, "T", "G"),
        bim(2, "1", "c", 100, "T", "C"),
    ];
    let rows = vec![beta("1", 100, "", "T"), beta("1", 100, "", "G"), beta("1", 100, "", "C")];
    let matched = join_snp(false, &table, &rows);
    assert_eq!(
        matched,
        vec![
            MatchedSnp { idx: 1, beta_row: 0, status: SnpStatus::Good, has_freq: true },
            MatchedSnp { idx: 0, beta_row: 1, status: SnpStatus::Swap, has_freq: true },
            MatchedSnp { idx: 2, beta_row: 2, status: SnpStatus::Swap, has_freq: true },
        ]
    );
}

#[test]
fn unmatched_allele_is_left_out() {
    // three rows join by position, one of them with an allele that the
    // marker does not have
    let rows = vec![beta("1", 100, "", "A"), beta("1", 200, "", "G"), beta("2", 300, "", "A")];
    let (weights, status) =
        match_snp(&meta(false, MissingStrategy::Zero), &markers(), &rows).unwrap();
    assert_eq!(status, MatchStatus { bfile_snp: 3, model_snp: 3, match_snp: 2 });
    assert_eq!(
        weights.matched,
        vec![
            MatchedSnp { idx: 0, beta_row: 0, status: SnpStatus::Good, has_freq: true },
            MatchedSnp { idx: 2, beta_row: 2, status: SnpStatus::Swap, has_freq: true },
        ]
    );
    for m in &weights.matched {
        assert_ne!(m.status, SnpStatus::NoMatch);
    }
    assert_eq!(weights.sid_idx, vec![0, 2]);
    assert_eq!(weights.swap_vec, vec![false, true]);
    assert_eq!(weights.missing_strategy, MissingStrategy::Zero);
    assert_eq!(weights.score_names, vec!["S1".to_string()]);
    assert_eq!(weights.len(), 2);
}

#[test]
fn no_marker_matched() {
    let rows = vec![beta("3", 100, "", "A"), beta("1", 200, "", "G")];
    let r = match_snp(&meta(false, MissingStrategy::Impute), &markers(), &rows);
    assert_eq!(r.err(), Some(JoinError::NoSnpMatched));
    let r = match_snp(&meta(false, MissingStrategy::Impute), &markers(), &Vec::new());
    assert_eq!(r.err(), Some(JoinError::NoSnpMatched));
    let r = match_snp(&meta(false, MissingStrategy::Impute), &Vec::new(), &rows);
    assert_eq!(r.err(), Some(JoinError::NoSnpMatched));
}

#[test]
fn weights_follow_the_matched_markers() {
    let matched = vec![
        MatchedSnp { idx: 7, beta_row: 3, status: SnpStatus::Swap, has_freq: true },
        MatchedSnp { idx: -1, beta_row: 0, status: SnpStatus::Good, has_freq: true },
    ];
    let w = Weights::new(matched.clone(), vec!["a".to_string()], MissingStrategy::Freq);
    assert_eq!(w.matched, matched);
    assert_eq!(w.sid_idx, vec![7, -1]);
    assert_eq!(w.swap_vec, vec![true, false]);
    assert_eq!(w.missing_strategy, MissingStrategy::Freq);
}

#[test]
fn missing_strategy_names() {
    assert_eq!(MissingStrategy::new("Impute").unwrap(), MissingStrategy::Impute);
    assert_eq!(MissingStrategy::new("Zero").unwrap(), MissingStrategy::Zero);
    assert_eq!(MissingStrategy::new("Freq").unwrap(), MissingStrategy::Freq);
    match MissingStrategy::new("freq") {
        Err(MetaError::UnknownMissingStrategy(name)) => assert_eq!(name, "freq"),
        _ => panic!("freq is no strategy"),
    }
    assert!(MissingStrategy::new("").is_err());
    assert!(MissingStrategy::new("Impute ").is_err());
}

#[test]
fn score_names_with_ranges() {
    let scores = vec!["S1".to_string(), "S2".to_string()];
    let q = QRange::new(vec!["low".to_string(), "high".to_string()], &scores);
    assert_eq!(q.len(), 2);
    assert_eq!(q.name, vec!["low".to_string(), "high".to_string()]);
    assert_eq!(q.score_names_raw, scores);
    assert_eq!(q.score_names, vec!["S1", "S1_low", "S1_high", "S2", "S2_low", "S2_high"]);
    let none = QRange::new(Vec::new(), &scores);
    assert_eq!(none.score_names, vec!["S1", "S2"]);
    let m = MetaArg {
        batch_size: 1,
        thread_num: 1,
        match_id_flag: false,
        missing_strategy: MissingStrategy::Zero,
        out_prefix: String::new(),
        q_range_enum: QrangeOrScorenames::QRange(q),
    };
    assert_eq!(m.get_score_names(true), &vec!["S1".to_string(), "S2".to_string()]);
    assert_eq!(m.get_score_names(false).len(), 6);
    let raw = meta(false, MissingStrategy::Zero);
    assert_eq!(raw.get_score_names(true), &vec!["S1".to_string()]);
    assert_eq!(raw.get_score_names(false), &vec!["S1".to_string()]);
}

#[test]
fn range_lines() {
    assert_eq!(
        q_range_columns(b"low\t0\t0.05\r\n").unwrap(),
        vec![b"low".to_vec(), b"0".to_vec(), b"0.05".to_vec()]
    );
    assert_eq!(q_range_columns(b"only").unwrap(), vec![b"only".to_vec()]);
    assert_eq!(q_range_columns(b"").unwrap(), vec![Vec::<u8>::new()]);
    match q_range_columns(b"a\tb\tc\td") {
        Err(MetaError::TooManyColumns(n)) => assert_eq!(n, 4),
        _ => panic!("four columns are too many"),
    }
}

#[test]
fn frequency_presence_follows_the_weight_row() {
    let mut rows = vec![beta("1", 100, "x", "A"), beta("2", 300, "y", "A")];
    rows[1].has_freq = false;
    let matched = join_snp(false, &markers(), &rows);
    assert_eq!(
        matched,
        vec![
            MatchedSnp { idx: 0, beta_row: 0, status: SnpStatus::Good, has_freq: true },
            MatchedSnp { idx: 2, beta_row: 1, status: SnpStatus::Swap, has_freq: false },
        ]
    );
}

#[test]
fn matched_markers_are_joined_rows_less_unmatched() {
    let table = markers();
    let rows = vec![
        beta("1", 100, "", "A"),
        beta("1", 200, "", "G"),
        beta("2", 300, "", "A"),
        beta("3", 300, "", "A"),
        beta("1", 200, "", "T"),
    ];
    let mut joined = 0;
    let mut unmatched = 0;
    for m in &table {
        for w in &rows {
            if m.chr == w.chr && m.pos == w.pos {
                joined += 1;
                if status_of(m, w) == SnpStatus::NoMatch {
                    unmatched += 1;
                }
            }
        }
    }
    assert_eq!((joined, unmatched), (4, 1));
    let (weights, status) =
        match_snp(&meta(false, MissingStrategy::Zero), &table, &rows).unwrap();
    assert_eq!(status.match_snp, joined - unmatched);
    assert_eq!(weights.sid_idx.len(), joined - unmatched);
    assert_eq!(weights.sid_idx, vec![0, 2, 1]);
    // the marker of the unmatched row is there only for the row that matched it
    assert_eq!(weights.matched[2].beta_row, 4);
}
