use hog::buffer::Gradients;
use hog::descriptor::{hog_descriptor_from_hist_grid, BlockArithmetic};
use hog::histogram::{cell_histograms, VoteArithmetic, VoteWeight};
use hog::hog;
use hog::interpolation::Position;
use hog::layout::{HogOptions, HogSpec};

fn locate(coordinate: u32, side: usize) -> Position<i64> {
    Position {
        whole: coordinate as usize / side,
        fraction: (coordinate as usize % side) as i64,
        complement: (side - coordinate as usize % side) as i64,
    }
}

fn orient(h: i16, v: i16, options: HogOptions) -> (i64, Position<i64>) {
    let whole = (h.unsigned_abs() as usize) % options.orientations;
    (v as i64, Position { whole, fraction: 1, complement: 3 })
}

fn tally(entry: i64, vote: VoteWeight<i64>) -> i64 {
    entry + vote.row * vote.column * vote.direction * vote.magnitude
}

fn norm(block: &[i64]) -> i64 {
    block.iter().sum::<i64>()
}

fn is_positive(norm: i64) -> bool {
    norm > 0
}

fn divide(entry: i64, norm: i64) -> i64 {
    entry * 1000 / norm
}

#[test]
fn incompatible_options_give_no_descriptor() {
    let gradients = Gradients::from_raw(3, 2, vec![0; 6], vec![0; 6]).unwrap();
    let votes = VoteArithmetic { zero: 0i64, locate, orient, tally };
    let blocks = BlockArithmetic { zero: 0i64, norm, is_positive, divide };
    assert!(hog(&gradients, HogOptions::new(2, false, 2, 1, 1), &votes, &blocks).is_none());
}

#[test]
fn descriptor_is_that_of_the_histograms() {
    let horizontal: Vec<i16> = (0..48).map(|i| 3 * i - 40).collect();
    let vertical: Vec<i16> = (0..48).map(|i| i % 7).collect();
    let gradients = Gradients::from_raw(8, 6, horizontal, vertical).unwrap();
    let options = HogOptions::new(3, false, 2, 2, 1);
    let votes = VoteArithmetic { zero: 0i64, locate, orient, tally };
    let blocks = BlockArithmetic { zero: 0i64, norm, is_positive, divide };
    let descriptor = hog(&gradients, options, &votes, &blocks).unwrap();
    let spec = HogSpec::from_options(8, 6, options).unwrap();
    assert_eq!(descriptor.len(), spec.descriptor_length());
    assert_eq!(descriptor.len(), 72);
    let grid = cell_histograms(&gradients, spec, &votes);
    assert_eq!(descriptor, hog_descriptor_from_hist_grid(&grid, spec, &blocks));
}

#[test]
fn single_cell_descriptor() {
    let gradients = Gradients::from_raw(1, 1, vec![1], vec![5]).unwrap();
    let votes = VoteArithmetic { zero: 0i64, locate, orient, tally };
    let blocks = BlockArithmetic { zero: 0i64, norm, is_positive, divide };
    // Bin 1 has three quarters of the vote and bin 0, around the end, one quarter.
    let descriptor = hog(&gradients, HogOptions::new(2, false, 1, 1, 1), &votes, &blocks);
    assert_eq!(descriptor, Some(vec![250, 750]));
}
