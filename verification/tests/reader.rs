use pgspredictor::bed_crate::internal_read_no_alloc;
use pgspredictor::bed_error::BedError;
use pgspredictor::betareader::{ColType, Field};
use pgspredictor::bfile::{BfileError, TableError};
use pgspredictor::block::GenoBlock;
use pgspredictor::read_score::{get_shema, ScoreSchema};
use pgspredictor::reader::{all_idx, row_numbers, BedReaderNoLib, ReadGenotype};

const M: i8 = -127;

const BED: [u8; 6] = [0x6C, 0x1B, 1, 0b1110_0100, 0b1000_1111, 0b0001_0010];

const BIM: &[u8] = b"1\trs1\t0\t100\tA\tG\n1\trs2\t0\t200\tC\tT\n2\trs3\t0\t300\tG\tA\n";

const FAM: &[u8] = b"f1\ti1\t0\t0\t1\t1.5\nf1\ti2\t0\t0\t2\t0.5\nf2\ti3\t0\t0\t1\t2\nf3\ti4\t0\t0\t1\t0\n";

fn rows(b: &GenoBlock) -> Vec<Vec<i8>> {
    (0..b.nrows())
        .map(|i| (0..b.ncols()).map(|j| b.get(i, j).unwrap()).collect())
        .collect()
}

#[test]
fn data_set_from_its_files() {
    let reader = BedReaderNoLib::new("data/cohort", FAM, BIM).unwrap();
    assert_eq!(reader.bed_path, "data/cohort.bed");
    assert_eq!(reader.iid_count, 4);
    assert_eq!(reader.sid_count, 3);
    assert_eq!(reader.iid_idx, vec![0, 1, 2, 3]);
    assert_eq!(reader.sid_idx, vec![0, 1, 2]);
    assert_eq!(reader.fam[3].iid, b"i4".to_vec());
    assert_eq!(reader.bim[2].pos, 300);
    assert_eq!(
        BedReaderNoLib::new("x", FAM, b"1\trs1\n").err(),
        Some(BfileError::Bim(TableError::FieldCount { line: 0, found: 2 }))
    );
    assert_eq!(all_idx(0), Vec::<isize>::new());
    assert_eq!(all_idx(3), vec![0, 1, 2]);
    assert_eq!(row_numbers(&vec![0, 5, 2]), vec![0, 5, 2]);
}

#[test]
fn genotypes_of_a_data_set() {
    let reader = BedReaderNoLib::new("cohort", FAM, BIM).unwrap();
    let all = reader.get_geno(&BED, &None, &None).unwrap();
    assert_eq!(
        rows(&all),
        vec![vec![2, 0, 1], vec![M, 0, 2], vec![1, 2, M], vec![0, 1, 2]]
    );
    let some = reader.get_geno(&BED, &Some(vec![2, 0]), &Some(vec![-1, 1])).unwrap();
    assert_eq!(rows(&some), vec![vec![2, 0], vec![2, M]]);
    let one_marker = reader.get_geno(&BED, &Some(vec![1]), &None).unwrap();
    assert_eq!(rows(&one_marker), vec![vec![0], vec![0], vec![2], vec![1]]);
    assert_eq!(
        reader.get_geno(&BED, &Some(vec![3]), &None).err(),
        Some(BedError::SidIndexTooBig(3))
    );
    assert_eq!(
        reader.get_geno(&BED, &None, &Some(vec![0, -5])).err(),
        Some(BedError::IidIndexTooBig(-5))
    );
    assert_eq!(reader.get_geno(&BED[..5], &None, &None).err(), Some(BedError::IllFormed));
}

#[test]
fn rows_of_a_data_set() {
    let reader = BedReaderNoLib::new("cohort", FAM, BIM).unwrap();
    assert_eq!(reader.get_ind(&None, false), vec![0, 1, 2, 3]);
    assert_eq!(reader.get_ind(&Some(vec![3, 1]), false), vec![1, 3]);
    assert_eq!(reader.get_ind(&Some(vec![3, 1]), true), vec![0, 2]);
    assert_eq!(reader.get_snp(&None, true), vec![0, 1, 2]);
    assert_eq!(reader.get_snp(&Some(vec![0]), true), vec![1, 2]);
    assert_eq!(reader.get_snp(&Some(vec![9]), false), Vec::<usize>::new());
}

#[test]
fn decode_with_axes_exchanged() {
    // the file read as one column per individual of three markers each
    let by_individual = [0x6C, 0x1B, 0, 0b0010_1100, 0b0000_1101, 0b0001_0010, 0b0000_1011];
    let mut val = GenoBlock::new(4, 3).unwrap();
    let r = internal_read_no_alloc(
        &by_individual,
        3,
        4,
        true,
        &[0, 1, 2],
        &[0, 1, 2, 3],
        M,
        true,
        &mut val,
    );
    assert_eq!(r, Ok(()));
    assert_eq!(
        rows(&val),
        vec![vec![2, 0, 1], vec![M, 0, 2], vec![1, 2, M], vec![0, 1, 2]]
    );
    let mut wrong = GenoBlock::new(3, 4).unwrap();
    let r = internal_read_no_alloc(
        &by_individual,
        3,
        4,
        true,
        &[0, 1, 2],
        &[0, 1, 2, 3],
        M,
        true,
        &mut wrong,
    );
    assert_eq!(r, Err(BedError::IndexMismatch(3, 4, 4, 3)));
    let r = internal_read_no_alloc(&BED, 4, 3, true, &[0], &[5], M, false, &mut wrong);
    assert_eq!(r, Err(BedError::IndexMismatch(1, 1, 3, 4)));
    let mut one = GenoBlock::new(1, 1).unwrap();
    let r = internal_read_no_alloc(&BED, 4, 3, true, &[0], &[5], M, false, &mut one);
    assert_eq!(r, Err(BedError::SidIndexTooBig(5)));
    let r = internal_read_no_alloc(&BED, 4, 3, false, &[2], &[1], M, false, &mut one);
    assert_eq!(r, Ok(()));
    assert_eq!(rows(&one), vec![vec![0]]);
    let r = internal_read_no_alloc(&BED, usize::MAX, usize::MAX, true, &[0], &[0], M, false, &mut one);
    assert_eq!(r, Err(BedError::IndexesTooBigForFiles(usize::MAX, usize::MAX)));
}

fn field(name: &str, dtype: ColType) -> Field {
    Field { name: name.as_bytes().to_vec(), dtype }
}

#[test]
fn schema_of_a_score_table() {
    let scores = vec!["S1".to_string(), "S2".to_string()];
    assert_eq!(
        get_shema(b"FID,IID,PHENO,S2,other,S1\r\n", &scores),
        ScoreSchema {
            fields: vec![
                field("FID", ColType::Utf8),
                field("IID", ColType::Utf8),
                field("PHENO", ColType::Float32),
                field("S2", ColType::Float32),
                field("S1", ColType::Float32),
            ],
            has_pheno: true,
            fid_iid_count: 2,
        }
    );
    assert_eq!(
        get_shema(b"IID,S1", &scores),
        ScoreSchema {
            fields: vec![field("IID", ColType::Utf8), field("S1", ColType::Float32)],
            has_pheno: false,
            fid_iid_count: 1,
        }
    );
    assert_eq!(
        get_shema(b"FID\tIID", &scores),
        ScoreSchema { fields: vec![], has_pheno: false, fid_iid_count: 0 }
    );
    assert_eq!(get_shema(b"FID,FID,IID", &Vec::new()).fid_iid_count, 3);
}

/// The byte that holds the calls of individuals `4 k` to `4 k + 3` at
/// marker `s` in a made-up cohort.
fn cohort_byte(s: usize, k: usize) -> u8 {
    ((s * 31 + k * 7 + s / 97 + 5) % 256) as u8
}

/// The genotype of an individual at a marker of the made-up cohort: the
/// copies of the first allele, or the missing value.
fn cohort_value(s: usize, i: usize) -> i8 {
    match (cohort_byte(s, i / 4) >> (2 * (i % 4))) & 3 {
        0 => 2,
        1 => M,
        2 => 1,
        _ => 0,
    }
}

/// The three files of a made-up cohort of 4300 individuals and 10000
/// markers.
fn cohort() -> (Vec<u8>, Vec<u8>, Vec<u8>) {
    let (iid_count, sid_count) = (4300usize, 10000usize);
    let mut bed = vec![0x6C, 0x1B, 1];
    for s in 0..sid_count {
        for k in 0..(iid_count + 3) / 4 {
            bed.push(cohort_byte(s, k));
        }
    }
    let mut fam = String::new();
    for i in 0..iid_count {
        fam.push_str(&format!("f{}\ti{}\t0\t0\t{}\t{}\n", i / 2, i, i % 2 + 1, i % 7));
    }
    let mut bim = String::new();
    for s in 0..sid_count {
        bim.push_str(&format!("{}\trs{}\t0\t{}\tA\tG\n", s % 22 + 1, s, 1000 + s));
    }
    (bed, fam.into_bytes(), bim.into_bytes())
}

#[test]
fn test_bed_nolib() {
    let (bed, fam, bim) = cohort();
    let sid = Some(vec![1, 2, 3, 4, 5, 900, 1234, 943, 2222, 10, 10, 9999]);
    let iid = Some(vec![
        8, 9, 22, 3, 200, 4235, 1, 2, 3, 4, 5, 900, 1234, 943, 2222, 10,
    ]);

    let bed_reader = BedReaderNoLib::new("cohort", &fam, &bim).unwrap();
    assert_eq!((bed_reader.iid_count, bed_reader.sid_count), (4300, 10000));
    let arr = bed_reader.get_geno(&bed, &sid, &iid).unwrap();
    let snp = bed_reader.get_snp(&sid, false);
    assert_eq!(snp, vec![1, 2, 3, 4, 5, 10, 900, 943, 1234, 2222, 9999]);
    assert_eq!(bed_reader.bim[snp[10]].id, b"rs9999".to_vec());
    let ind = bed_reader.get_ind(&iid, false);
    assert_eq!(ind, vec![1, 2, 3, 4, 5, 8, 9, 10, 22, 200, 900, 943, 1234, 2222, 4235]);
    assert_eq!(bed_reader.fam[ind[14]].iid, b"i4235".to_vec());

    assert_eq!((arr.nrows(), arr.ncols()), (16, 12));
    let (sid, iid) = (sid.unwrap(), iid.unwrap());
    let mut missing = 0;
    for i in 0..16 {
        for j in 0..12 {
            let x = arr.get(i, j).unwrap();
            assert_eq!(x, cohort_value(sid[j] as usize, iid[i] as usize));
            // a missing call put down as a hundred, as a reader of the table would
            let shown = if x == M { 100 } else { x };
            assert!(shown == 100 || (0..=2).contains(&shown));
            if x == M {
                missing += 1;
            }
        }
    }
    assert!(missing > 0 && missing < 16 * 12);
    // the marker that is asked for twice is read twice
    for i in 0..16 {
        assert_eq!(arr.get(i, 9), arr.get(i, 10));
    }
}

#[test]
fn test_test_bed_nolib() {
    let (bed, fam, bim) = cohort();
    let sid = Some(vec![1, 2, 3, 4, 5, 900, 1234, 943, 2222, 10]);
    let iid = Some(vec![8, 9, 22, 3, 200, 4235]);

    let bed_reader = BedReaderNoLib::new("cohort", &fam, &bim).unwrap();
    let arr = bed_reader.get_geno(&bed, &sid, &iid).unwrap();
    assert_eq!(bed_reader.get_snp(&sid, false), vec![1, 2, 3, 4, 5, 10, 900, 943, 1234, 2222]);
    assert_eq!(bed_reader.get_ind(&iid, false), vec![3, 8, 9, 22, 200, 4235]);
    assert_eq!((arr.nrows(), arr.ncols()), (6, 10));
    let (sid, iid) = (sid.unwrap(), iid.unwrap());
    for i in 0..6 {
        for j in 0..10 {
            assert_eq!(arr.get(i, j), Some(cohort_value(sid[j] as usize, iid[i] as usize)));
        }
    }
    // every individual, with and without a list of them
    let one = Some(vec![9999]);
    let all = bed_reader.get_geno(&bed, &one, &None).unwrap();
    let listed = bed_reader.get_geno(&bed, &one, &Some((0..4300).collect())).unwrap();
    assert_eq!((all.nrows(), all.ncols()), (4300, 1));
    assert_eq!(rows(&all), rows(&listed));
}
