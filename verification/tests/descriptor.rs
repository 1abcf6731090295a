use hog::descriptor::{block_norm, can_describe, hog_descriptor_from_hist_grid, BlockArithmetic};
use hog::layout::{HogOptions, HogSpec};
use hog::multiarray::{copy, Array3d};

fn l2_norm(block: &[f32]) -> f32 {
    block.iter().fold(0f32, |sum, entry| sum + entry * entry).sqrt()
}

#[test]
fn test_hog_descriptor_from_hist_grid() {
    // A grid of cells 3 wide and 2 high. Each cell contains a histogram of 2 items.
    // There are two blocks, the left covering the leftmost 2x2 region, and the
    // right covering the rightmost 2x2 region. These regions overlap by one cell column.
    // There's no significance to the contents of the histograms used here, we're
    // just checking that the values are binned and normalised correctly.

    let opts = HogOptions::new(2, true, 5, 2, 1);
    let spec = HogSpec::from_options(15, 10, opts).unwrap();

    let mut grid = Array3d::<f32>::new([2, 3, 2], 0f32);

    {
        let tl = grid.inner_slice_mut(0, 0);
        copy(&[1f32, 3f32, 2f32], tl);
    }
    {
        let tm = grid.inner_slice_mut(1, 0);
        copy(&[2f32, 3f32, 5f32], tm);
    }
    {
        let tr = grid.inner_slice_mut(2, 0);
        copy(&[0f32, 1f32, 0f32], tr);
    }
    {
        let bl = grid.inner_slice_mut(0, 1);
        copy(&[5f32, 0f32, 7f32], bl);
    }
    {
        let bm = grid.inner_slice_mut(1, 1);
        copy(&[3f32, 7f32, 9f32], bm);
    }
    {
        let br = grid.inner_slice_mut(2, 1);
        copy(&[6f32, 1f32, 4f32], br);
    }

    let arithmetic = BlockArithmetic {
        zero: 0f32,
        norm: l2_norm,
        is_positive: |norm: f32| norm > 0f32,
        divide: |entry: f32, norm: f32| entry / norm,
    };
    let descriptor = hog_descriptor_from_hist_grid(&grid, spec, &arithmetic);
    assert_eq!(descriptor.len(), 16);

    let counts = [1, 3, 2, 3, 5, 0, 3, 7, 2, 3, 0, 1, 3, 7, 6, 1];
    let mut expected = [0f32; 16];

    let left_norm = 106f32.sqrt();
    let right_norm = 109f32.sqrt();

    for i in 0..8 {
        expected[i] = counts[i] as f32 / left_norm;
    }
    for i in 8..16 {
        expected[i] = counts[i] as f32 / right_norm;
    }

    assert_eq!(descriptor, expected);
}

#[test]
fn blocks_without_positive_norm_are_kept() {
    let spec = HogSpec::from_options(2, 1, HogOptions::new(2, true, 1, 1, 1)).unwrap();
    let grid = Array3d { data: vec![4i64, 8, -4, -8], lengths: [2, 2, 1] };
    let arithmetic = BlockArithmetic {
        zero: 0i64,
        norm: |block: &[i64]| block[0],
        is_positive: |norm: i64| norm > 0,
        divide: |entry: i64, norm: i64| entry / norm,
    };
    assert_eq!(
        hog_descriptor_from_hist_grid(&grid, spec, &arithmetic),
        vec![1, 2, -4, -8]
    );
}

#[test]
fn blocks_are_laid_out_row_by_row() {
    // Three by three cells of one bin, four blocks of two by two cells.
    let spec = HogSpec::from_options(3, 3, HogOptions::new(1, true, 1, 2, 1)).unwrap();
    let grid = Array3d { data: (1..10).collect::<Vec<i64>>(), lengths: [1, 3, 3] };
    let arithmetic = BlockArithmetic {
        zero: 0i64,
        norm: |block: &[i64]| block.iter().sum::<i64>(),
        is_positive: |_norm: i64| true,
        divide: |entry: i64, norm: i64| 1000 * norm + entry,
    };
    assert_eq!(
        hog_descriptor_from_hist_grid(&grid, spec, &arithmetic),
        vec![
            12001, 12002, 12004, 12005, 16002, 16003, 16005, 16006, 24004, 24005, 24007, 24008,
            28005, 28006, 28008, 28009
        ]
    );
}

#[test]
fn overlapping_blocks_share_cells() {
    let spec = HogSpec::from_options(3, 3, HogOptions::new(1, true, 1, 2, 1)).unwrap();
    let grid = Array3d { data: (1..10).collect::<Vec<i64>>(), lengths: [1, 3, 3] };
    let arithmetic = BlockArithmetic {
        zero: 0i64,
        norm: |_block: &[i64]| 0,
        is_positive: |norm: i64| norm > 0,
        divide: |_entry: i64, _norm: i64| 0,
    };
    let descriptor = hog_descriptor_from_hist_grid(&grid, spec, &arithmetic);
    // Right column of the first block, left column of the second.
    assert_eq!(descriptor[1], descriptor[4]);
    assert_eq!(descriptor[3], descriptor[6]);
    // Lower row of the first block, upper row of the one below it.
    assert_eq!(descriptor[2..4], descriptor[8..10]);
}

#[test]
fn larger_grids_are_read_by_prefix() {
    let spec = HogSpec::from_options(1, 1, HogOptions::new(1, true, 1, 1, 1)).unwrap();
    let grid = Array3d { data: vec![5i64, 6, 7, 8], lengths: [2, 2, 1] };
    let arithmetic = BlockArithmetic {
        zero: 0i64,
        norm: |_block: &[i64]| 0,
        is_positive: |norm: i64| norm > 0,
        divide: |_entry: i64, _norm: i64| 0,
    };
    assert_eq!(hog_descriptor_from_hist_grid(&grid, spec, &arithmetic), vec![5]);
}

#[test]
fn norm_of_a_block() {
    let blocks = Array3d { data: vec![1i64, 2, 30, 40], lengths: [2, 2, 1] };
    let arithmetic = BlockArithmetic {
        zero: 0i64,
        norm: |block: &[i64]| block[0] + block[1],
        is_positive: |norm: i64| norm > 0,
        divide: |entry: i64, norm: i64| entry / norm,
    };
    assert_eq!(block_norm(&blocks, 0, 0, &arithmetic), 3);
    assert_eq!(block_norm(&blocks, 1, 0, &arithmetic), 70);
}

#[test]
fn describable_specs() {
    let spec = |orientations, side| {
        HogSpec::from_options(8, 8, HogOptions::new(orientations, true, 1, side, 1)).unwrap()
    };
    assert!(can_describe(spec(9, 2)));
    assert!(!can_describe(spec(usize::MAX, 2)));
    assert!(!can_describe(spec(usize::MAX / 4, 2)));
}

#[test]
fn descriptors_of_non_negative_entries_are_between_zero_and_one() {
    let data: Vec<f32> = (0..24).map(|i| (i * i % 7) as f32).collect();
    let grid = Array3d { data, lengths: [2, 4, 3] };
    let spec = HogSpec::from_options(8, 6, HogOptions::new(2, false, 2, 2, 1)).unwrap();
    let arithmetic = BlockArithmetic {
        zero: 0f32,
        norm: l2_norm,
        is_positive: |norm: f32| norm > 0f32,
        divide: |entry: f32, norm: f32| entry / norm,
    };
    let descriptor = hog_descriptor_from_hist_grid(&grid, spec, &arithmetic);
    assert_eq!(descriptor.len(), 48);
    assert!(descriptor.iter().all(|entry| (0f32..=1f32).contains(entry)));
    assert!(descriptor.iter().any(|entry| *entry > 0f32));
}
