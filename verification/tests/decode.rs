use pgspredictor::bed_crate::{open_and_check, read_no_alloc};
use pgspredictor::bed_error::BedError;
use pgspredictor::bed_index::{
    check_and_precompute_iid_index, resolve_index, try_div_4, FileOffset, Max, Missing,
    MISSING_I8,
};
use pgspredictor::bit_op::{nonmissing_mask_u8, set_up_two_bits_to_value};
use pgspredictor::block::GenoBlock;
use pgspredictor::freq::{byte_vec_to_freq, FreqCount};
use pgspredictor::geno_reader::{byte_vec_to_arr, BedSnpReader};

/// A file with one column per marker: 4 individuals, 3 markers.
///
/// Codes by marker, individual 0 first:
///   marker 0: 0, 1 (missing), 2, 3  -> byte 0b11_10_01_00
///   marker 1: 3, 3, 0, 2            -> byte 0b10_00_11_11
///   marker 2: 2, 0, 1 (missing), 0  -> byte 0b00_01_00_10
fn small_file() -> Vec<u8> {
    vec![0x6C, 0x1B, 1, 0b1110_0100, 0b1000_1111, 0b0001_0010]
}

/// The same calls with one column per individual (3 markers to a byte).
fn small_file_by_individual() -> Vec<u8> {
    // individual 0: markers 0, 3, 2 -> 0b00_10_11_00
    // individual 1: markers 1, 3, 0 -> 0b00_00_11_01
    // individual 2: markers 2, 0, 1 -> 0b00_01_00_10
    // individual 3: markers 3, 2, 0 -> 0b00_00_10_11
    vec![0x6C, 0x1B, 0, 0b0010_1100, 0b0000_1101, 0b0001_0010, 0b0000_1011]
}

fn rows(b: &GenoBlock) -> Vec<Vec<i8>> {
    let mut out = Vec::new();
    for i in 0..b.nrows() {
        let mut row = Vec::new();
        for j in 0..b.ncols() {
            row.push(b.get(i, j).unwrap());
        }
        out.push(row);
    }
    out
}

#[test]
fn test_mask() {
    let aa: u8 = 0b00011011;
    let b: u8 = nonmissing_mask_u8(aa);
    println!("{:#010b}", b);
    let cc = b.count_ones();
    println!("{}", cc);
    assert_eq!(b, 0b11001111);
    assert_eq!(cc, 6);
}

#[test]
fn test_nan() {
    let a = f32::NAN * 1.;
    println!("{}", a);
    assert!(a.is_nan());
}

#[test]
fn mask_agrees_with_unpacking_for_every_byte() {
    for b in 0..=255u8 {
        let mut calls = 0u32;
        let mut ones = 0u32;
        for lane in 0..4 {
            let code = (b >> (2 * lane)) & 3;
            if code != 1 {
                calls += 1;
                ones += code.count_ones();
            }
        }
        let mask = nonmissing_mask_u8(b);
        assert_eq!(mask.count_ones(), 2 * calls);
        assert_eq!((b & mask).count_ones(), ones);
    }
}

#[test]
fn frequency_of_columns() {
    // all missing: nothing observed
    let c = byte_vec_to_freq(&[0b0101_0101, 0b0101_0101]);
    assert_eq!(c, FreqCount { nonmissing_count: 0, ones_count: 0 });
    // all homozygous for the first allele (code 0)
    let c = byte_vec_to_freq(&[0, 0, 0]);
    assert_eq!(c, FreqCount { nonmissing_count: 24, ones_count: 0 });
    let freq = (1. - (c.ones_count as f32) / (c.nonmissing_count as f32)) * 2.;
    assert_eq!(freq, 2.0);
    // all homozygous for the second allele (code 3)
    let c = byte_vec_to_freq(&[0xFF]);
    assert_eq!(c, FreqCount { nonmissing_count: 8, ones_count: 8 });
    let freq = (1. - (c.ones_count as f32) / (c.nonmissing_count as f32)) * 2.;
    assert_eq!(freq, 0.0);
    // codes 0, missing, 2, 3
    let c = byte_vec_to_freq(&[0b1110_0100]);
    assert_eq!(c, FreqCount { nonmissing_count: 6, ones_count: 3 });
    let freq = (1. - (c.ones_count as f32) / (c.nonmissing_count as f32)) * 2.;
    assert_eq!(freq, 1.0);
}

#[test]
fn lookup_tables() {
    assert_eq!(set_up_two_bits_to_value(false, -127), [0, -127, 1, 2]);
    assert_eq!(set_up_two_bits_to_value(true, -127), [2, -127, 1, 0]);
    assert_eq!(<i8 as Missing>::missing(), MISSING_I8);
    assert_eq!(<u8 as Max>::max(), 255);
    assert_eq!(<u64 as Max>::max(), u64::MAX);
}

#[test]
fn column_length_and_addressing() {
    assert_eq!(try_div_4(0, 5, 3u64), Ok((0, 0)));
    assert_eq!(try_div_4(1, 5, 3u64), Ok((1, 1)));
    assert_eq!(try_div_4(4, 5, 3u64), Ok((1, 1)));
    assert_eq!(try_div_4(5, 5, 3u64), Ok((2, 2)));
    assert_eq!(try_div_4(5, 2, 3u64), Ok((2, 2u64)));
    assert_eq!(try_div_4(103, 0, 3u64), Ok((26, 26)));
    assert_eq!(
        try_div_4(usize::MAX, usize::MAX, 3u64),
        Err(BedError::IndexesTooBigForFiles(usize::MAX, usize::MAX))
    );
}

#[test]
fn column_length_with_short_offsets() {
    // 100 bytes to a column fit in a byte, three such columns after the
    // header do not: (255 - 3) / 3 is 84
    assert_eq!(try_div_4(400, 3, 3u8), Err(BedError::IndexesTooBigForFiles(400, 3)));
    assert_eq!(try_div_4(336, 3, 3u8), Ok((84, 84u8)));
    assert_eq!(try_div_4(337, 3, 3u8), Err(BedError::IndexesTooBigForFiles(337, 3)));
    assert_eq!(try_div_4(400, 2, 3u8), Ok((100, 100u8)));
    assert_eq!(try_div_4(400, 0, 3u8), Ok((100, 100u8)));
    assert_eq!(try_div_4(0, 0, 3u8), Ok((0, 0u8)));
    assert_eq!(try_div_4(0, 255, 255u8), Ok((0, 0u8)));
    // a length or a count that the type cannot hold
    assert_eq!(try_div_4(1021, 0, 3u8), Err(BedError::IndexesTooBigForFiles(1021, 0)));
    assert_eq!(try_div_4(1020, 0, 3u8), Ok((255, 255u8)));
    assert_eq!(try_div_4(0, 256, 3u8), Err(BedError::IndexesTooBigForFiles(0, 256)));
    assert_eq!(<u8 as FileOffset>::from_count(255), Some(255u8));
    assert_eq!(<u8 as FileOffset>::from_count(256), None);
    assert_eq!(<u64 as FileOffset>::from_count(7), Some(7u64));
    assert_eq!(200u8.minus(3).divided_by(2), 98);
    assert!(3u64.less_than(4) && !4u64.less_than(4));
}

#[test]
fn signed_indices() {
    assert_eq!(resolve_index(4, 0), Some(0));
    assert_eq!(resolve_index(4, 3), Some(3));
    assert_eq!(resolve_index(4, 4), None);
    assert_eq!(resolve_index(4, -1), Some(3));
    assert_eq!(resolve_index(4, -4), Some(0));
    assert_eq!(resolve_index(4, -5), None);
    assert_eq!(resolve_index(0, 0), None);
    assert_eq!(resolve_index(usize::MAX, isize::MIN), Some(usize::MAX - (1usize << 63)));
    assert_eq!(
        check_and_precompute_iid_index(10, &[0, 5, -1, 9]),
        Ok((vec![0, 1, 2, 2], vec![0, 2, 2, 2]))
    );
    assert_eq!(
        check_and_precompute_iid_index(10, &[0, 10, -11]),
        Err(BedError::IidIndexTooBig(10))
    );
}

#[test]
fn header_checks() {
    assert_eq!(open_and_check(&small_file()), Ok(vec![0x6C, 0x1B, 1]));
    assert_eq!(open_and_check(&[0x6C, 0x1B]), Err(BedError::IllFormed));
    assert_eq!(open_and_check(&[0x6C, 0x1C, 1, 0]), Err(BedError::IllFormed));
    assert_eq!(open_and_check(&[0x6D, 0x1B, 1, 0]), Err(BedError::IllFormed));
}

#[test]
fn read_whole_file_by_marker() {
    let bytes = small_file();
    let mut val = GenoBlock::new(4, 3).unwrap();
    let r = read_no_alloc(&bytes, 4, 3, true, &[0, 1, 2, 3], &[0, 1, 2], -127, &mut val);
    assert_eq!(r, Ok(()));
    assert_eq!(
        rows(&val),
        vec![vec![2, 0, 1], vec![-127, 0, 2], vec![1, 2, -127], vec![0, 1, 2]]
    );
    let mut val = GenoBlock::new(4, 3).unwrap();
    let r = read_no_alloc(&bytes, 4, 3, false, &[0, 1, 2, 3], &[0, 1, 2], 9, &mut val);
    assert_eq!(r, Ok(()));
    assert_eq!(rows(&val), vec![vec![0, 2, 1], vec![9, 2, 0], vec![1, 0, 9], vec![2, 1, 0]]);
}

#[test]
fn read_whole_file_by_individual() {
    let bytes = small_file_by_individual();
    let mut val = GenoBlock::new(4, 3).unwrap();
    let r = read_no_alloc(&bytes, 4, 3, true, &[0, 1, 2, 3], &[0, 1, 2], -127, &mut val);
    assert_eq!(r, Ok(()));
    assert_eq!(
        rows(&val),
        vec![vec![2, 0, 1], vec![-127, 0, 2], vec![1, 2, -127], vec![0, 1, 2]]
    );
}

#[test]
fn read_subset_with_negative_indices() {
    let bytes = small_file();
    let mut val = GenoBlock::new(2, 2).unwrap();
    let r = read_no_alloc(&bytes, 4, 3, true, &[-1, 1], &[2, -3], -127, &mut val);
    assert_eq!(r, Ok(()));
    assert_eq!(rows(&val), vec![vec![2, 0], vec![2, -127]]);
}

#[test]
fn read_errors() {
    let bytes = small_file();
    let mut val = GenoBlock::new(1, 1).unwrap();
    assert_eq!(
        read_no_alloc(&[0x6C, 0x1B, 2, 0, 0, 0], 4, 3, true, &[0], &[0], -127, &mut val),
        Err(BedError::BadMode)
    );
    assert_eq!(
        read_no_alloc(&bytes, 5, 3, true, &[0], &[0], -127, &mut val),
        Err(BedError::IllFormed)
    );
    assert_eq!(
        read_no_alloc(&bytes, 4, 3, true, &[0, 1], &[0], -127, &mut val),
        Err(BedError::IndexMismatch(2, 1, 1, 1))
    );
    assert_eq!(
        read_no_alloc(&bytes, 4, 3, true, &[4], &[3], -127, &mut val),
        Err(BedError::IidIndexTooBig(4))
    );
    assert_eq!(
        read_no_alloc(&bytes, 4, 3, true, &[0], &[-4], -127, &mut val),
        Err(BedError::SidIndexTooBig(-4))
    );
    let by_individual = small_file_by_individual();
    assert_eq!(
        read_no_alloc(&by_individual, 4, 3, true, &[4], &[3], -127, &mut val),
        Err(BedError::SidIndexTooBig(3))
    );
    assert_eq!(rows(&val), vec![vec![0]]);
}

#[test]
fn reader_rejects_bad_files() {
    assert_eq!(BedSnpReader::new(vec![0x6C], 4, 3).err(), Some(BedError::IllFormed));
    assert_eq!(
        BedSnpReader::new(vec![0x6C, 0x1B, 7, 0, 0, 0], 4, 3).err(),
        Some(BedError::BadMode)
    );
    assert_eq!(BedSnpReader::new(small_file(), 4, 4).err(), Some(BedError::IllFormed));
    assert_eq!(BedSnpReader::new(small_file(), 5, 3).err(), Some(BedError::IllFormed));
    assert_eq!(
        BedSnpReader::new(vec![0x6C, 0x1B, 1], usize::MAX, usize::MAX).err(),
        Some(BedError::IndexesTooBigForFiles(usize::MAX, usize::MAX))
    );
}

#[test]
fn reader_decodes_with_swap_and_counts() {
    let reader = BedSnpReader::new(small_file(), 4, 3).unwrap();
    assert_eq!(reader.iid_count(), 4);
    assert_eq!(reader.sid_count(), 3);
    let (val, freq) = reader.read_to_ndarray(&[0, 1, 2], &[false, true, false]).unwrap();
    assert_eq!(
        rows(&val),
        vec![vec![2, 2, 1], vec![-127, 2, 2], vec![1, 0, -127], vec![0, 1, 2]]
    );
    assert_eq!(
        freq,
        vec![
            FreqCount { nonmissing_count: 6, ones_count: 3 },
            FreqCount { nonmissing_count: 8, ones_count: 5 },
            FreqCount { nonmissing_count: 6, ones_count: 1 },
        ]
    );
    let val = reader.read_to_ndarray_freq(&[2, -1], &[true, true]).unwrap();
    assert_eq!(rows(&val), vec![vec![1, 1], vec![0, 0], vec![-127, -127], vec![0, 0]]);
}

#[test]
fn reader_of_either_layout_decodes_alike() {
    let a = BedSnpReader::new(small_file(), 4, 3).unwrap();
    let b = BedSnpReader::new(small_file_by_individual(), 4, 3).unwrap();
    let flags = [false, true, true];
    let (va, fa) = a.read_to_ndarray(&[0, 1, 2], &flags).unwrap();
    let (vb, fb) = b.read_to_ndarray(&[0, 1, 2], &flags).unwrap();
    assert_eq!(rows(&va), rows(&vb));
    assert_eq!(fa, fb);
    assert_eq!(a.read_snp(1), b.read_snp(1));
}

#[test]
fn full_axis_equals_listed_axis() {
    let reader = BedSnpReader::new(small_file(), 4, 3).unwrap();
    let flags = [true, false, true];
    let (full, _) = reader.read_to_ndarray(&[2, 0, 1], &flags).unwrap();
    let listed = reader.read_to_ndarray_ind(&[2, 0, 1], &[0, 1, 2, 3], &flags).unwrap();
    assert_eq!(rows(&full), rows(&listed));
}

#[test]
fn swap_is_two_minus_value_except_missing() {
    let reader = BedSnpReader::new(small_file(), 4, 3).unwrap();
    let (plain, _) = reader.read_to_ndarray(&[0, 1, 2], &[false, false, false]).unwrap();
    let (swapped, _) = reader.read_to_ndarray(&[0, 1, 2], &[true, true, true]).unwrap();
    for i in 0..4 {
        for j in 0..3 {
            let v = plain.get(i, j).unwrap();
            let expected = if v == MISSING_I8 { v } else { 2 - v };
            assert_eq!(swapped.get(i, j), Some(expected));
        }
    }
}

#[test]
fn listed_individuals_and_errors() {
    let reader = BedSnpReader::new(small_file(), 4, 3).unwrap();
    let val = reader.read_to_ndarray_ind(&[1, 0], &[3, -4, 1], &[false, true]).unwrap();
    assert_eq!(rows(&val), vec![vec![1, 2], vec![0, 0], vec![0, -127]]);
    assert_eq!(
        reader.read_to_ndarray_ind(&[1, 0], &[3, 4], &[false, true]).err(),
        Some(BedError::IidIndexTooBig(4))
    );
    assert_eq!(
        reader.read_to_ndarray_ind(&[3, 7], &[0], &[false, true]).err(),
        Some(BedError::SidIndexTooBig(3))
    );
    assert_eq!(
        reader.read_to_ndarray(&[0, 1], &[false]).err(),
        Some(BedError::BoolArrayVectorWrongLength(2, 1))
    );
    assert_eq!(
        reader.read_to_ndarray(&[0, 3], &[false, false]).err(),
        Some(BedError::SidIndexTooBig(3))
    );
}

fn file_of(iid_count: usize, sid_count: usize) -> Vec<u8> {
    let div4 = (iid_count + 3) / 4;
    let mut bytes = vec![0x6C, 0x1B, 1];
    for s in 0..sid_count {
        for k in 0..div4 {
            bytes.push(((s * 31 + k * 7 + 5) % 256) as u8);
        }
    }
    bytes
}

#[test]
fn block_has_one_row_per_individual() {
    for &n in &[1usize, 2, 3, 4, 5, 100, 103] {
        let reader = BedSnpReader::new(file_of(n, 2), n, 2).unwrap();
        let (val, freq) = reader.read_to_ndarray(&[0, 1], &[false, true]).unwrap();
        assert_eq!(val.nrows(), n);
        assert_eq!(val.ncols(), 2);
        assert_eq!(freq.len(), 2);
        assert_eq!(val.get(n, 0), None);
        assert!(val.get(n - 1, 1).is_some());
        let all: Vec<isize> = (0..n as isize).collect();
        let listed = reader.read_to_ndarray_ind(&[0, 1], &all, &[false, true]).unwrap();
        assert_eq!(rows(&val), rows(&listed));
    }
}

#[test]
fn block_limits() {
    assert!(GenoBlock::new(usize::MAX, 2).is_none());
    // a length of zero does not make room for a length that is too long
    assert!(GenoBlock::new(usize::MAX, 0).is_none());
    assert!(GenoBlock::new(0, usize::MAX).is_none());
    assert!(GenoBlock::new(isize::MAX as usize + 1, 0).is_none());
    assert!(GenoBlock::new(isize::MAX as usize, 0).is_some());
    assert!(GenoBlock::new(0, isize::MAX as usize).is_some());
    assert!(GenoBlock::new(1usize << 40, 1usize << 40).is_none());
    let mut b = GenoBlock::new(2, 3).unwrap();
    assert_eq!(rows(&b), vec![vec![0, 0, 0], vec![0, 0, 0]]);
    b.put(1, 2, 7);
    assert_eq!(b.at(1, 2), 7);
    assert_eq!(b.get(1, 2), Some(7));
    assert_eq!(b.get(2, 0), None);
    assert_eq!(b.get(0, 3), None);
    assert_eq!(rows(&b), vec![vec![0, 0, 0], vec![0, 0, 7]]);
    let e = GenoBlock::new(0, 5).unwrap();
    assert_eq!(e.nrows(), 0);
    assert_eq!(e.ncols(), 5);
}

fn column(b: &GenoBlock, j: usize) -> Vec<i8> {
    (0..b.nrows()).map(|i| b.get(i, j).unwrap()).collect()
}

#[test]
fn swap_under_either_table() {
    // codes 0, missing, 2, 3, then 3, 3, 0, 2, then 2 and three calls of padding
    let bytes = [0b1110_0100u8, 0b1000_1111, 0b0000_0010];
    for &count_a1 in &[true, false] {
        for &missing in &[-127i8, 9, 1, -1] {
            let table = set_up_two_bits_to_value(count_a1, missing);
            let mut plain = GenoBlock::new(9, 2).unwrap();
            let mut swapped = GenoBlock::new(9, 2).unwrap();
            byte_vec_to_arr(&bytes, false, 1, &table, &mut plain);
            byte_vec_to_arr(&bytes, true, 1, &table, &mut swapped);
            let (a, c) = if count_a1 { (2, 0) } else { (0, 2) };
            assert_eq!(column(&plain, 1), vec![a, missing, 1, c, c, c, a, 1, 1]);
            assert_eq!(column(&swapped, 1), vec![c, missing, 1, a, a, a, c, 1, 1]);
            for (r, code) in [0u8, 1, 2, 3, 3, 3, 0, 2, 2].iter().enumerate() {
                let d0 = plain.get(r, 1).unwrap();
                let d1 = swapped.get(r, 1).unwrap();
                if *code == 1 {
                    assert_eq!((d0, d1), (missing, missing));
                } else {
                    assert_eq!(d1, 2 - d0);
                }
            }
            // the other column is left as it was
            assert_eq!(column(&swapped, 0), vec![0; 9]);
        }
    }
}
