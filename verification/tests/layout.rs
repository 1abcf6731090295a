use hog::layout::{num_blocks, HogOptions, HogSpec};

#[test]
fn test_num_blocks() {
    // -----
    // ***
    //   ***
    assert_eq!(num_blocks(5, 3, 2), 2);
    // -----
    // *****
    assert_eq!(num_blocks(5, 5, 2), 1);
    // ----
    // **
    //   **
    assert_eq!(num_blocks(4, 2, 2), 2);
    // ---
    // *
    //  *
    //   *
    assert_eq!(num_blocks(3, 1, 1), 3);
}

#[test]
fn test_hog_spec() {
    assert_eq!(
        HogSpec::from_options(40, 40, HogOptions::new(8, true, 5, 2, 1))
            .unwrap()
            .descriptor_length(),
        1568
    );
    assert_eq!(
        HogSpec::from_options(40, 40, HogOptions::new(9, true, 4, 2, 1))
            .unwrap()
            .descriptor_length(),
        2916
    );
    assert_eq!(
        HogSpec::from_options(40, 40, HogOptions::new(8, true, 4, 2, 1))
            .unwrap()
            .descriptor_length(),
        2592
    );
}

#[test]
fn options_hold_their_parameters() {
    let options = HogOptions::new(9, false, 8, 3, 2);
    assert_eq!(options.orientations, 9);
    assert!(!options.signed);
    assert_eq!(options.cell_side, 8);
    assert_eq!(options.block_side, 3);
    assert_eq!(options.block_stride, 2);
}

#[test]
fn sides_must_be_whole_numbers_of_cells() {
    let options = HogOptions::new(8, true, 5, 2, 1);
    assert!(HogSpec::from_options(41, 40, options).is_none());
    assert!(HogSpec::from_options(40, 41, options).is_none());
    assert!(HogSpec::from_options(40, 45, options).is_some());
}

#[test]
fn cells_must_fit_the_stride() {
    // Eight cells: two strides of three beyond the first block.
    let spec = HogSpec::from_options(40, 40, HogOptions::new(8, true, 5, 2, 3)).unwrap();
    assert_eq!(spec.block_grid_lengths(), [32, 3, 3]);
    // Seven cells high: no whole number of strides.
    assert!(HogSpec::from_options(40, 35, HogOptions::new(8, true, 5, 2, 3)).is_none());
    assert!(HogSpec::from_options(35, 40, HogOptions::new(8, true, 5, 2, 3)).is_none());
}

#[test]
fn stride_is_counted_in_cells() {
    // Five cells: blocks of two at a stride of two cannot end at the fifth.
    assert!(HogSpec::from_options(20, 20, HogOptions::new(8, true, 4, 2, 2)).is_none());
    // Blocks of three at a stride of two cover five cells.
    let spec = HogSpec::from_options(20, 20, HogOptions::new(8, true, 4, 3, 2)).unwrap();
    assert_eq!(spec.cell_grid_lengths(), [8, 5, 5]);
    assert_eq!(spec.block_grid_lengths(), [72, 2, 2]);
}

#[test]
fn blocks_must_fit_the_image() {
    // Two cells a side, and blocks of three.
    assert_eq!(num_blocks(2, 3, 1), 0);
    assert!(HogSpec::from_options(10, 10, HogOptions::new(4, true, 5, 3, 1)).is_none());
    assert!(HogSpec::from_options(10, 15, HogOptions::new(4, true, 5, 3, 1)).is_none());
    assert!(HogSpec::from_options(15, 10, HogOptions::new(4, true, 5, 3, 1)).is_none());
    assert!(HogSpec::from_options(15, 15, HogOptions::new(4, true, 5, 3, 1)).is_some());
    assert!(HogSpec::from_options(10, 10, HogOptions::new(4, true, 5, 1000, 1)).is_none());
}

#[test]
fn sides_are_tested_before_the_stride() {
    // Refused before the stride, which is none, is looked at.
    assert!(HogSpec::from_options(7, 5, HogOptions::new(4, true, 5, 1, 0)).is_none());
    assert!(HogSpec::from_options(5, 5, HogOptions::new(4, true, 5, 2, 0)).is_none());
}

#[test]
fn decidable_inputs() {
    assert!(HogSpec::can_decide(40, 40, HogOptions::new(8, true, 5, 2, 1)));
    assert!(HogSpec::can_decide(7, 5, HogOptions::new(4, true, 5, 1, 0)));
    assert!(HogSpec::can_decide(5, 5, HogOptions::new(4, true, 5, 2, 0)));
    assert!(!HogSpec::can_decide(5, 5, HogOptions::new(4, true, 0, 1, 1)));
    assert!(!HogSpec::can_decide(5, 5, HogOptions::new(4, true, 5, 1, 0)));
    assert!(!HogSpec::can_decide(5, 5, HogOptions::new(4, true, 5, 1, usize::MAX)));
    assert!(HogSpec::can_decide(10, 10, HogOptions::new(4, true, 5, 1, usize::MAX)));
}

#[test]
fn blocks_of_a_spec_end_with_the_last_cell() {
    for cells in 1..10u32 {
        for side in 1..5usize {
            for stride in 1..4usize {
                let options = HogOptions::new(2, true, 3, side, stride);
                let fits = side <= cells as usize && (cells as usize - side) % stride == 0;
                match HogSpec::from_options(3 * cells, 3 * cells, options) {
                    Some(spec) => {
                        assert!(fits);
                        let blocks = spec.block_grid_lengths()[1];
                        assert_eq!((blocks - 1) * stride + side, cells as usize);
                    }
                    None => assert!(!fits),
                }
            }
        }
    }
}

#[test]
fn spec_lengths() {
    let options = HogOptions::new(2, true, 5, 2, 1);
    let spec = HogSpec::from_options(15, 10, options).unwrap();
    assert_eq!(spec.options(), options);
    assert_eq!(spec.cell_grid_lengths(), [2, 3, 2]);
    assert_eq!(spec.block_grid_lengths(), [8, 2, 1]);
    assert_eq!(spec.block_internal_lengths(), [2, 2, 2]);
    assert_eq!(spec.block_descriptor_length(), 8);
    assert_eq!(spec.descriptor_length(), 16);
    assert_eq!(spec.cell_area(), 25);
}

#[test]
fn cells_cover_image_exactly() {
    let options = HogOptions::new(9, true, 8, 2, 1);
    let spec = HogSpec::from_options(64, 128, options).unwrap();
    let lengths = spec.cell_grid_lengths();
    assert_eq!(lengths[1] * options.cell_side, 64);
    assert_eq!(lengths[2] * options.cell_side, 128);
}

#[test]
fn counted_blocks_are_those_that_fit() {
    for cells in 0..12usize {
        for side in 0..6usize {
            for stride in 1..5usize {
                if side <= cells + stride {
                    let count = num_blocks(cells, side, stride);
                    for k in 0..20usize {
                        assert_eq!(k < count, k * stride + side <= cells);
                    }
                }
            }
        }
    }
}

#[test]
fn blocks_cover_cells_when_strides_fit() {
    for cells in 1..12usize {
        for side in 0..6usize {
            for stride in 1..5usize {
                if side <= cells + stride {
                    let count = num_blocks(cells, side, stride);
                    let covered = (0..cells).all(|c| {
                        (0..count).any(|k| k * stride <= c && c < k * stride + side)
                    });
                    let fits = side <= cells
                        && (cells - side) % stride == 0
                        && (stride <= side || cells == side);
                    assert_eq!(covered, fits);
                }
            }
        }
    }
}

#[test]
fn last_block_ends_with_last_cell() {
    let count = num_blocks(11, 3, 2);
    assert_eq!(count, 5);
    assert_eq!((count - 1) * 2 + 3, 11);
}
