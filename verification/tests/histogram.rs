use hog::buffer::Gradients;
use hog::histogram::{can_tally, cell_histograms, contains_outer, VoteArithmetic, VoteWeight};
use hog::interpolation::Position;
use hog::layout::{HogOptions, HogSpec};
use hog::multiarray::Array3d;

fn split(pos: f32) -> Position<f32> {
    let fraction = pos - pos.floor();
    Position {
        whole: pos as usize,
        fraction,
        complement: 1f32 - fraction,
    }
}

fn orient(h: i16, v: i16, options: HogOptions) -> (f32, Position<f32>) {
    let pi = std::f32::consts::PI;
    let (mut h, mut v) = (h as f32, v as f32);
    let mut range = 2f32 * pi;
    if options.signed {
        range = pi;
        if v < 0f32 || (v == 0f32 && h < 0f32) {
            h = 0f32 - h;
            v = 0f32 - v;
        }
    }
    let mut d = v.atan2(h);
    if d < 0f32 {
        d = d + 2f32 * pi;
    }
    let interval = range / (options.orientations as f32);
    ((h.powi(2) + v.powi(2)).sqrt(), split(d / interval))
}

fn tally(entry: f32, vote: VoteWeight<f32>) -> f32 {
    entry
        + vote.row * vote.column * vote.direction * vote.magnitude / vote.cell_area as f32
}

fn histograms(gradients: &Gradients, spec: HogSpec) -> Array3d<f32> {
    let arithmetic = VoteArithmetic {
        zero: 0f32,
        locate: |coordinate: u32, side: usize| split(coordinate as f32 / side as f32),
        orient,
        tally,
    };
    cell_histograms(gradients, spec, &arithmetic)
}

#[test]
fn outer_bounds() {
    let array = Array3d::new([9, 3, 2], 0u8);
    assert!(contains_outer(&array, 2, 1));
    assert!(!contains_outer(&array, 3, 1));
    assert!(!contains_outer(&array, 2, 2));
}

#[test]
fn one_pixel_votes_for_one_bin() {
    // A pixel at the corner of the only cell, with a gradient along the first orientation.
    let spec = HogSpec::from_options(1, 1, HogOptions::new(4, false, 1, 1, 1)).unwrap();
    let gradients = Gradients::from_raw(1, 1, vec![5], vec![0]).unwrap();
    let grid = histograms(&gradients, spec);
    assert_eq!(grid.lengths, [4, 1, 1]);
    assert_eq!(grid.data, vec![5f32, 0f32, 0f32, 0f32]);
}

#[test]
fn votes_are_shared_between_cells() {
    // Two cells of two pixels a side; only the second pixel has a gradient, and it lies midway
    // between the corners of the two cells.
    let spec = HogSpec::from_options(4, 2, HogOptions::new(4, false, 2, 1, 1)).unwrap();
    let gradients =
        Gradients::from_raw(4, 2, vec![0, 8, 0, 0, 0, 0, 0, 0], vec![0; 8]).unwrap();
    let grid = histograms(&gradients, spec);
    assert_eq!(grid.lengths, [4, 2, 1]);
    assert_eq!(grid.data, vec![1f32, 0f32, 0f32, 0f32, 1f32, 0f32, 0f32, 0f32]);
}

#[test]
fn votes_outside_the_grid_are_dropped() {
    // The last pixel of the only cell shares half of its weight with a cell beyond the grid, in
    // each direction.
    let spec = HogSpec::from_options(2, 2, HogOptions::new(4, false, 2, 1, 1)).unwrap();
    let gradients = Gradients::from_raw(2, 2, vec![0, 0, 0, 16], vec![0; 4]).unwrap();
    let grid = histograms(&gradients, spec);
    assert_eq!(grid.data, vec![1f32, 0f32, 0f32, 0f32]);
}

#[test]
fn orientations_wrap_around() {
    let spec = HogSpec::from_options(1, 1, HogOptions::new(4, false, 1, 1, 1)).unwrap();
    let gradients = Gradients::from_raw(1, 1, vec![1], vec![2]).unwrap();
    let arithmetic = VoteArithmetic {
        zero: 100i64,
        locate: |coordinate: u32, side: usize| Position {
            whole: coordinate as usize / side,
            fraction: 0i64,
            complement: 1i64,
        },
        orient: |h: i16, v: i16, options: HogOptions| {
            let magnitude = 10 * h as i64 + v as i64;
            let last = options.orientations - 1;
            (magnitude, Position { whole: last, fraction: 3i64, complement: 2i64 })
        },
        tally: |entry: i64, vote: VoteWeight<i64>| {
            entry + vote.row * vote.column * vote.direction * vote.magnitude
        },
    };
    let grid = cell_histograms(&gradients, spec, &arithmetic);
    assert_eq!(grid.data, vec![136, 100, 100, 124]);
}

#[test]
fn votes_are_tallied_in_order() {
    // One bin that every vote is for, and a tally that records the order of weights.
    let spec = HogSpec::from_options(2, 1, HogOptions::new(1, false, 1, 1, 1)).unwrap();
    let gradients = Gradients::from_raw(2, 1, vec![3, 5], vec![0, 0]).unwrap();
    let arithmetic = VoteArithmetic {
        zero: 0i64,
        locate: |_coordinate: u32, _side: usize| Position {
            whole: 0,
            fraction: 2i64,
            complement: 1i64,
        },
        orient: |h: i16, _v: i16, _options: HogOptions| {
            (h as i64, Position { whole: 0, fraction: 2i64, complement: 1i64 })
        },
        tally: |entry: i64, vote: VoteWeight<i64>| {
            entry * 100 + vote.direction * 10 + vote.magnitude
        },
    };
    let grid = cell_histograms(&gradients, spec, &arithmetic);
    // Of each pixel, the left and the wrapped right orientation of the first cell; both pixels
    // also vote for the second cell.
    assert_eq!(grid.data, vec![13231525, 13231525]);
}

#[test]
fn votes_of_a_pixel_are_distinct() {
    let spec = HogSpec::from_options(2, 2, HogOptions::new(2, false, 1, 1, 1)).unwrap();
    let gradients = Gradients::from_raw(1, 1, vec![1], vec![1]).unwrap();
    let arithmetic = VoteArithmetic {
        zero: 0u32,
        locate: |_coordinate: u32, _side: usize| Position {
            whole: 0,
            fraction: 0u32,
            complement: 0u32,
        },
        orient: |_h: i16, _v: i16, _options: HogOptions| {
            (0u32, Position { whole: 1, fraction: 0u32, complement: 0u32 })
        },
        tally: |entry: u32, _vote: VoteWeight<u32>| entry + 1,
    };
    let grid = cell_histograms(&gradients, spec, &arithmetic);
    assert_eq!(grid.data, vec![1u32; 8]);
}

#[test]
fn vote_weights_carry_the_cell_area() {
    let spec = HogSpec::from_options(3, 3, HogOptions::new(1, false, 3, 1, 1)).unwrap();
    let gradients = Gradients::from_raw(1, 1, vec![1], vec![1]).unwrap();
    let arithmetic = VoteArithmetic {
        zero: 0usize,
        locate: |_coordinate: u32, side: usize| Position {
            whole: 0,
            fraction: 10 * side,
            complement: side,
        },
        orient: |_h: i16, _v: i16, _options: HogOptions| {
            (7usize, Position { whole: 0, fraction: 0, complement: 1 })
        },
        tally: |entry: usize, vote: VoteWeight<usize>| {
            entry * 10000
                + vote.cell_area * 1000
                + vote.row * 100
                + vote.column * 10
                + vote.direction
        },
    };
    let grid = cell_histograms(&gradients, spec, &arithmetic);
    assert_eq!(grid.data, vec![93319330]);
}

#[test]
fn tallyable_specs() {
    let options = HogOptions::new(9, false, 2, 1, 1);
    assert!(can_tally(HogSpec::from_options(8, 8, options).unwrap()));
    let options = HogOptions::new(usize::MAX, false, 2, 1, 1);
    assert!(!can_tally(HogSpec::from_options(8, 8, options).unwrap()));
    let options = HogOptions::new(9, false, usize::MAX, 0, 1);
    assert!(!can_tally(HogSpec::from_options(0, 0, options).unwrap()));
}

#[test]
fn cells_depend_on_nearby_pixels() {
    // Three by three cells of two pixels a side. The middle cell has its corner at (2, 2), and
    // pixels at columns or rows 0, 4 and 5 are two pixels or more away.
    let spec = HogSpec::from_options(6, 6, HogOptions::new(4, false, 2, 1, 1)).unwrap();
    let one: Vec<i16> = (0..36).map(|i| 7 * i % 13 + 1).collect();
    let mut two = one.clone();
    for y in 0..6 {
        for x in 0..6 {
            if !(1..4).contains(&x) || !(1..4).contains(&y) {
                two[6 * y + x] += 5;
            }
        }
    }
    let one = histograms(&Gradients::from_raw(6, 6, one.clone(), one).unwrap(), spec);
    let two = histograms(&Gradients::from_raw(6, 6, two.clone(), two).unwrap(), spec);
    assert_eq!(one.inner_slice(1, 1), two.inner_slice(1, 1));
    assert!(one.inner_slice(0, 0) != two.inner_slice(0, 0));
}

#[test]
fn signed_options_treat_opposite_gradients_as_equal() {
    let h: Vec<i16> = (0..16).map(|i| 5 * i % 11 - 5).collect();
    let v: Vec<i16> = (0..16).map(|i| 3 * i % 7 - 3).collect();
    let minus_h: Vec<i16> = h.iter().map(|g| -g).collect();
    let minus_v: Vec<i16> = v.iter().map(|g| -g).collect();
    let one = Gradients::from_raw(4, 4, h, v).unwrap();
    let two = Gradients::from_raw(4, 4, minus_h, minus_v).unwrap();
    let signed = HogSpec::from_options(4, 4, HogOptions::new(4, true, 2, 1, 1)).unwrap();
    assert_eq!(histograms(&one, signed).lengths, histograms(&two, signed).lengths);
    assert_eq!(histograms(&one, signed).data, histograms(&two, signed).data);
    let unsigned = HogSpec::from_options(4, 4, HogOptions::new(4, false, 2, 1, 1)).unwrap();
    assert!(histograms(&one, unsigned).data != histograms(&two, unsigned).data);
}
