use pgspredictor::betareader::{
    bytes_eq, insert, lookup, name_bytes, split_fields, strip_line_ends, BetaArg, ColType,
    Field, SchemaEntry, SchemaError, A1, CHR, FREQ, ID, POS, PVALUE,
};
use pgspredictor::bfile::{
    create_mask_u32, line_columns, parse_bim_line, parse_fam_line, parse_i32, read_bim,
    read_fam, selected_rows, table_lines, BfileError, BfileSet, FamRow, TableError,
};
use pgspredictor::join::BimRow;
use pgspredictor::output::{
    appends_beta, out_path, BETA_SUFFIX, CHECK_SUFFIX, COR_SUFFIX, PERCENTILE_SUFFIX,
    RANK_SUFFIX, SCORE_SUFFIX,
};

fn field(name: &str, dtype: ColType) -> Field {
    Field { name: name.as_bytes().to_vec(), dtype }
}

fn names(list: &[&str]) -> Vec<Vec<u8>> {
    list.iter().map(|s| s.as_bytes().to_vec()).collect()
}

#[test]
fn column_names() {
    assert_eq!((ID, CHR, POS, A1, FREQ, PVALUE), ("ID", "CHR", "POS", "A1", "FREQ", "P"));
    assert_eq!(name_bytes("CHR"), b"CHR".to_vec());
}

#[test]
fn byte_strings() {
    assert!(bytes_eq(b"", b""));
    assert!(bytes_eq(b"abc", b"abc"));
    assert!(!bytes_eq(b"abc", b"abd"));
    assert!(!bytes_eq(b"abc", b"ab"));
    assert_eq!(strip_line_ends(b"a\r\nb\n\r"), b"ab".to_vec());
    assert_eq!(strip_line_ends(b""), Vec::<u8>::new());
    assert_eq!(split_fields(b"", 9), names(&[""]));
    assert_eq!(split_fields(b"a", 9), names(&["a"]));
    assert_eq!(split_fields(b"a\tbc\t", 9), names(&["a", "bc", ""]));
    assert_eq!(split_fields(b"\t\t", 9), names(&["", "", ""]));
    assert_eq!(split_fields(b"a,b", b','), names(&["a", "b"]));
}

#[test]
fn table_of_expected_columns() {
    let mut table: Vec<SchemaEntry> = Vec::new();
    let e = |h: &str, n: &str, dtype: ColType| SchemaEntry {
        header: h.as_bytes().to_vec(),
        name: n.as_bytes().to_vec(),
        dtype,
    };
    insert(&mut table, e("chrom", "CHR", ColType::Utf8));
    insert(&mut table, e("bp", "POS", ColType::Int32));
    assert_eq!(lookup(&table, b"bp"), Some(1));
    assert_eq!(lookup(&table, b"chrom"), Some(0));
    assert_eq!(lookup(&table, b"CHR"), None);
    // a header that is expected twice keeps its place and takes the later entry
    insert(&mut table, e("chrom", "S1", ColType::Float32));
    assert_eq!(table.len(), 2);
    assert_eq!(table[0], e("chrom", "S1", ColType::Float32));
}

fn beta_arg<'a>(score_names: &'a Vec<String>) -> BetaArg<'a> {
    BetaArg {
        chrom: "chrom",
        pos: "POS",
        a1: "A1",
        freq: "FREQ",
        snp_id: "ID",
        pvalue: "P",
        score_names,
        weight_path: "weights.tsv",
        need_freq: false,
        need_id: false,
        need_pvalue: false,
    }
}

#[test]
fn schema_from_header() {
    let scores = vec!["S1".to_string(), "S2".to_string()];
    let arg = beta_arg(&scores);
    let (schema, cols) = arg.get_beta_schema(b"chrom\tPOS\tother\tA1\tS2\tS1\tFREQ\r\n").unwrap();
    assert_eq!(
        schema,
        vec![
            field("CHR", ColType::Utf8),
            field("POS", ColType::Int32),
            field("other", ColType::Utf8),
            field("A1", ColType::Utf8),
            field("S2", ColType::Float32),
            field("S1", ColType::Float32),
            field("FREQ", ColType::Utf8),
        ]
    );
    assert_eq!(cols, names(&["chrom", "POS", "A1", "S1", "S2"]));
}

#[test]
fn schema_with_optional_columns() {
    let scores = vec!["S1".to_string()];
    let mut arg = beta_arg(&scores);
    arg.need_freq = true;
    arg.need_id = true;
    arg.need_pvalue = true;
    let (schema, cols) = arg.get_beta_schema(b"ID\tchrom\tPOS\tA1\tP\tFREQ\tS1").unwrap();
    assert_eq!(
        schema,
        vec![
            field("ID", ColType::Utf8),
            field("CHR", ColType::Utf8),
            field("POS", ColType::Int32),
            field("A1", ColType::Utf8),
            field("P", ColType::Float32),
            field("FREQ", ColType::Float32),
            field("S1", ColType::Float32),
        ]
    );
    assert_eq!(cols, names(&["chrom", "POS", "A1", "S1", "FREQ", "ID", "P"]));
    assert_eq!(arg.get_schema_table().len(), 7);
}

#[test]
fn schema_with_a_header_twice() {
    let scores = vec!["S1".to_string()];
    let arg = beta_arg(&scores);
    let (schema, _) = arg.get_beta_schema(b"chrom\tPOS\tA1\tS1\tS1").unwrap();
    assert_eq!(schema[3], field("S1", ColType::Float32));
    assert_eq!(schema[4], field("S1", ColType::Utf8));
}

#[test]
fn schema_with_missing_columns() {
    let scores = vec!["S1".to_string()];
    let arg = beta_arg(&scores);
    assert_eq!(
        arg.get_beta_schema(b"chrom\tPOS\tS1\n").err(),
        Some(SchemaError::MissingColumns(names(&["A1"])))
    );
    assert_eq!(
        arg.get_beta_schema(b"CHR,POS,A1,S1").err(),
        Some(SchemaError::MissingColumns(names(&["chrom", "POS", "A1", "S1"])))
    );
    assert_eq!(
        arg.get_beta_schema(b"").err(),
        Some(SchemaError::MissingColumns(names(&["chrom", "POS", "A1", "S1"])))
    );
}

#[test]
fn integers() {
    assert_eq!(parse_i32(b"0"), Some(0));
    assert_eq!(parse_i32(b"007"), Some(7));
    assert_eq!(parse_i32(b"-12"), Some(-12));
    assert_eq!(parse_i32(b"+12"), Some(12));
    assert_eq!(parse_i32(b"2147483647"), Some(i32::MAX));
    assert_eq!(parse_i32(b"-2147483648"), Some(i32::MIN));
    assert_eq!(parse_i32(b"2147483648"), None);
    assert_eq!(parse_i32(b"-2147483649"), None);
    assert_eq!(parse_i32(b"99999999999999999999999"), None);
    assert_eq!(parse_i32(b""), None);
    assert_eq!(parse_i32(b"-"), None);
    assert_eq!(parse_i32(b"1.5"), None);
    assert_eq!(parse_i32(b" 1"), None);
    assert_eq!(parse_i32(b"1-"), None);
}

const BIM: &[u8] = b"1\trs1\t0\t100\tA\tG\n1\trs2\t0\t200\tC\tT\r\n2\trs3\t0.5\t300\tG\tA\n";

const FAM: &[u8] = b"f1\ti1\t0\t0\t1\t1.5\nf1\ti2\t0\t0\t2\t-9\nf2\ti3\ti1\ti2\t0\tNA\nf3\ti4\t0\t0\t1\t0";

#[test]
fn lines_and_columns() {
    assert_eq!(table_lines(b""), Vec::<Vec<u8>>::new());
    assert_eq!(table_lines(b"a\nb"), names(&["a", "b"]));
    assert_eq!(table_lines(b"a\nb\n"), names(&["a", "b"]));
    assert_eq!(table_lines(b"a\n\nb\n"), names(&["a", "", "b"]));
    assert_eq!(line_columns(b"x\ty\r"), names(&["x", "y"]));
}

#[test]
fn marker_table() {
    let rows = read_bim(BIM).unwrap();
    assert_eq!(rows.len(), 3);
    assert_eq!(
        rows[1],
        BimRow {
            idx: 1,
            chr: b"1".to_vec(),
            id: b"rs2".to_vec(),
            pos: 200,
            alt: b"C".to_vec(),
            reference: b"T".to_vec(),
        }
    );
    assert_eq!(rows[2].idx, 2);
    assert_eq!(rows[2].pos, 300);
    assert_eq!(read_bim(b"").unwrap(), Vec::new());
    assert_eq!(
        read_bim(b"1\trs1\t0\t100\tA\tG\n1\trs2\t0\t200\tC\n"),
        Err(TableError::FieldCount { line: 1, found: 5 })
    );
    assert_eq!(
        read_bim(b"1\trs1\t0\tx\tA\tG\n1\trs2\n"),
        Err(TableError::BadInteger { line: 0 })
    );
    assert_eq!(
        parse_bim_line(b"1 rs1 0 100 A G", 4),
        Err(TableError::FieldCount { line: 4, found: 1 })
    );
    assert_eq!(parse_bim_line(b"X\trs9\t0\t5\tA\tG", 4).unwrap().idx, 4);
}

#[test]
fn individual_table() {
    let rows = read_fam(FAM).unwrap();
    assert_eq!(rows.len(), 4);
    assert_eq!(
        rows[2],
        FamRow {
            idx: 2,
            fid: b"f2".to_vec(),
            iid: b"i3".to_vec(),
            sex: 0,
            pheno: b"NA".to_vec(),
        }
    );
    assert_eq!(rows[0].pheno, b"1.5".to_vec());
    assert_eq!(
        read_fam(b"f1\ti1\t0\t0\tmale\t1\n"),
        Err(TableError::BadInteger { line: 0 })
    );
    assert_eq!(
        parse_fam_line(b"f1\ti1\t0\t0\t1\t1\textra", 0),
        Err(TableError::FieldCount { line: 0, found: 7 })
    );
}

#[test]
fn row_selection() {
    assert_eq!(create_mask_u32(&[1, 3, 9], false, 5), vec![false, true, false, true, false]);
    assert_eq!(create_mask_u32(&[1, 3, 9], true, 5), vec![true, false, true, false, true]);
    assert_eq!(create_mask_u32(&[], false, 2), vec![false, false]);
    assert_eq!(selected_rows(&vec![false, true, false, true, true]), vec![1, 3, 4]);
    let set = BfileSet::new("data/cohort", FAM, BIM).unwrap();
    assert_eq!(set.bed_path, "data/cohort.bed");
    assert_eq!(set.fam.len(), 4);
    assert_eq!(set.bim.len(), 3);
    assert_eq!(set.get_ind(None, false), vec![0, 1, 2, 3]);
    assert_eq!(set.get_ind(None, true), vec![0, 1, 2, 3]);
    assert_eq!(set.get_ind(Some(&[3, 0, 3]), false), vec![0, 3]);
    assert_eq!(set.get_ind(Some(&[3, 0]), true), vec![1, 2]);
    assert_eq!(set.get_snp(Some(&[2]), false), vec![2]);
    assert_eq!(set.get_snp(Some(&[7]), false), Vec::<usize>::new());
    assert_eq!(
        BfileSet::new("x", b"bad", BIM).err(),
        Some(BfileError::Fam(TableError::FieldCount { line: 0, found: 1 }))
    );
    assert_eq!(
        BfileSet::new("x", FAM, b"bad\n").err(),
        Some(BfileError::Bim(TableError::FieldCount { line: 0, found: 1 }))
    );
}

#[test]
fn output_paths() {
    assert_eq!(out_path("out/run1", SCORE_SUFFIX), "out/run1.score.csv");
    assert_eq!(out_path("out/run1", CHECK_SUFFIX), "out/run1.check.json");
    assert_eq!(out_path("out/run1", COR_SUFFIX), "out/run1.cor.csv");
    assert_eq!(out_path("out/run1", PERCENTILE_SUFFIX), "out/run1.percentile.csv");
    assert_eq!(out_path("out/run1", RANK_SUFFIX), "out/run1.rank.csv");
    assert_eq!(out_path("", BETA_SUFFIX), ".beta.tsv");
    assert!(!appends_beta(0));
    assert!(appends_beta(1));
    assert!(appends_beta(7));
}
