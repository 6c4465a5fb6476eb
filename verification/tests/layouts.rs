use pgspredictor::bed_crate::read_no_alloc;
use pgspredictor::block::GenoBlock;
use pgspredictor::freq::FreqCount;
use pgspredictor::geno_reader::BedSnpReader;

const M: i8 = -127;

/// The code of individual `iid` at marker `sid` in a made-up cohort.
fn code(sid: usize, iid: usize) -> u8 {
    ((sid * 7 + iid * 13 + sid * iid + 3) % 4) as u8
}

/// The bytes of a file, laid out by marker or by individual.
fn file(iid_count: usize, sid_count: usize, by_marker: bool) -> Vec<u8> {
    let (major, minor) = if by_marker { (sid_count, iid_count) } else { (iid_count, sid_count) };
    let mut bytes = vec![0x6C, 0x1B, if by_marker { 1 } else { 0 }];
    for a in 0..major {
        for k in 0..(minor + 3) / 4 {
            let mut b = 0u8;
            for lane in 0..4 {
                let i = 4 * k + lane;
                if i < minor {
                    let c = if by_marker { code(a, i) } else { code(i, a) };
                    b |= c << (2 * lane);
                }
            }
            bytes.push(b);
        }
    }
    bytes
}

fn value(c: u8, swap: bool) -> i8 {
    match (c, swap) {
        (1, _) => M,
        (0, false) | (3, true) => 2,
        (2, _) => 1,
        _ => 0,
    }
}

fn rows(b: &GenoBlock) -> Vec<Vec<i8>> {
    (0..b.nrows())
        .map(|i| (0..b.ncols()).map(|j| b.get(i, j).unwrap()).collect())
        .collect()
}

#[test]
fn every_decoder_agrees_on_either_layout() {
    for &(iid_count, sid_count) in &[(1usize, 1usize), (3, 5), (4, 4), (5, 3), (9, 2), (16, 7), (103, 6)] {
        let sid: Vec<isize> = (0..sid_count as isize).rev().collect();
        let iid: Vec<isize> = (0..iid_count as isize).collect();
        let swap: Vec<bool> = (0..sid_count).map(|j| j % 2 == 1).collect();
        let expected: Vec<Vec<i8>> = (0..iid_count)
            .map(|i| (0..sid_count).map(|j| value(code(sid[j] as usize, i), swap[j])).collect())
            .collect();
        let plain: Vec<Vec<i8>> = (0..iid_count)
            .map(|i| (0..sid_count).map(|j| value(code(sid[j] as usize, i), false)).collect())
            .collect();
        let counts: Vec<FreqCount> = (0..sid_count)
            .map(|j| {
                let mut calls = 0u128;
                let mut ones = 0u128;
                // the padding calls of the last byte count as calls of the code zero
                for i in 0..(iid_count + 3) / 4 * 4 {
                    let c = if i < iid_count { code(sid[j] as usize, i) } else { 0 };
                    if c != 1 {
                        calls += 1;
                        ones += c.count_ones() as u128;
                    }
                }
                FreqCount { nonmissing_count: 2 * calls, ones_count: ones }
            })
            .collect();
        for &by_marker in &[true, false] {
            let bytes = file(iid_count, sid_count, by_marker);
            let mut val = GenoBlock::new(iid_count, sid_count).unwrap();
            assert_eq!(
                read_no_alloc(&bytes, iid_count, sid_count, true, &iid, &sid, M, &mut val),
                Ok(())
            );
            assert_eq!(rows(&val), plain);
            let reader = BedSnpReader::new(bytes, iid_count, sid_count).unwrap();
            let (full, freq) = reader.read_to_ndarray(&sid, &swap).unwrap();
            assert_eq!(rows(&full), expected);
            assert_eq!(freq, counts);
            let listed = reader.read_to_ndarray_ind(&sid, &iid, &swap).unwrap();
            assert_eq!(rows(&listed), expected);
            let no_counts = reader.read_to_ndarray_freq(&sid, &swap).unwrap();
            assert_eq!(rows(&no_counts), expected);
        }
        // the two layouts give the same columns
        let a = BedSnpReader::new(file(iid_count, sid_count, true), iid_count, sid_count).unwrap();
        let b = BedSnpReader::new(file(iid_count, sid_count, false), iid_count, sid_count).unwrap();
        for s in 0..sid_count {
            assert_eq!(a.read_snp(s), b.read_snp(s));
            assert_eq!(a.read_snp(s).len(), (iid_count + 3) / 4);
        }
    }
}

#[test]
fn files_without_individuals_or_markers() {
    let reader = BedSnpReader::new(vec![0x6C, 0x1B, 1], 0, 0).unwrap();
    let (val, freq) = reader.read_to_ndarray(&[], &[]).unwrap();
    assert_eq!((val.nrows(), val.ncols(), freq.len()), (0, 0, 0));
    let reader = BedSnpReader::new(vec![0x6C, 0x1B, 0], 5, 0).unwrap();
    let val = reader.read_to_ndarray_ind(&[], &[4, -5], &[]).unwrap();
    assert_eq!((val.nrows(), val.ncols()), (2, 0));
    let reader = BedSnpReader::new(vec![0x6C, 0x1B, 0], 0, 5).unwrap();
    let (val, freq) = reader.read_to_ndarray(&[4, 0], &[true, false]).unwrap();
    assert_eq!((val.nrows(), val.ncols()), (0, 2));
    assert_eq!(freq, vec![FreqCount { nonmissing_count: 0, ones_count: 0 }; 2]);
}
