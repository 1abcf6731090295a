use hog::multiarray::{can_address, copy, inner_slice_mut, Array3d};

#[test]
fn new_array_is_filled() {
    let array = Array3d::new([2, 3, 2], 7u8);
    assert_eq!(array.lengths, [2, 3, 2]);
    assert_eq!(array.data, vec![7u8; 12]);
}

#[test]
fn empty_array() {
    let array = Array3d::new([0, 3, 2], 7u8);
    assert!(array.data.is_empty());
    assert!(array.inner_slice(2, 1).is_empty());
}

#[test]
fn first_dimension_varies_fastest() {
    let mut array = Array3d::new([2, 3, 2], 0usize);
    for i2 in 0..2 {
        for i1 in 0..3 {
            for i0 in 0..2 {
                *array.at_mut([i0, i1, i2]) = 100 * i2 + 10 * i1 + i0;
            }
        }
    }
    assert_eq!(
        array.data,
        vec![0, 1, 10, 11, 20, 21, 100, 101, 110, 111, 120, 121]
    );
    assert_eq!(array.inner_slice(1, 1), &[110, 111]);
    assert_eq!(*array.at_mut([1, 2, 0]), 21);
}

#[test]
fn mutable_slice_changes_its_run_alone() {
    let mut array = Array3d::new([2, 3, 2], 0u8);
    copy(&[5, 6, 9], array.inner_slice_mut(1, 1));
    assert_eq!(array.data, vec![0, 0, 0, 0, 0, 0, 0, 0, 5, 6, 0, 0]);
    let mut raw = [0u8; 4];
    copy(&[3, 4], inner_slice_mut(&mut raw, [2, 1, 2], 0, 1));
    assert_eq!(raw, [0, 0, 3, 4]);
}

#[test]
fn positions_and_indices_correspond() {
    let mut seen = vec![0u8; 24];
    let mut array = Array3d::new([3, 2, 4], 0usize);
    for position in 0..24 {
        array.data[position] = position;
    }
    for i2 in 0..4 {
        for i1 in 0..2 {
            for i0 in 0..3 {
                seen[*array.at_mut([i0, i1, i2])] += 1;
            }
        }
    }
    assert_eq!(seen, vec![1u8; 24]);
}

#[test]
fn copy_takes_a_prefix() {
    let mut to = [0u8; 2];
    copy(&[1, 3, 2], &mut to);
    assert_eq!(to, [1, 3]);
    let mut none: [u8; 0] = [];
    copy(&[1, 3, 2], &mut none);
}

#[test]
fn addressable_lengths() {
    assert!(can_address([2, 3, 2]));
    assert!(can_address([0, usize::MAX, usize::MAX]));
    assert!(!can_address([2, usize::MAX, 0]));
    assert!(!can_address([1, usize::MAX, 2]));
}

#[test]
fn complete_arrays() {
    assert!(Array3d::new([2, 3, 2], 0u8).is_complete());
    assert!(!Array3d { data: vec![0u8; 11], lengths: [2, 3, 2] }.is_complete());
    assert!(!Array3d { data: vec![0u8; 0], lengths: [2, usize::MAX, 0] }.is_complete());
}
