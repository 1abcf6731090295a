use hog::interpolation::{Interpolation, Position};

fn split(pos: f32) -> Position<f32> {
    let fraction = pos - pos.floor();
    Position {
        whole: pos as usize,
        fraction,
        complement: 1f32 - fraction,
    }
}

#[test]
fn test_interpolation_from_position() {
    assert_eq!(
        Interpolation::from_position(split(10f32)),
        Interpolation::new([10, 11], [1f32, 0f32])
    );
    assert_eq!(
        Interpolation::from_position(split(10.25f32)),
        Interpolation::new([10, 11], [0.75f32, 0.25f32])
    );
}

#[test]
fn test_interpolation_from_position_wrapping() {
    assert_eq!(
        Interpolation::from_position_wrapping(split(10f32), 11),
        Interpolation::new([10, 0], [1f32, 0f32])
    );
    assert_eq!(
        Interpolation::from_position_wrapping(split(10.25f32), 11),
        Interpolation::new([10, 0], [0.75f32, 0.25f32])
    );
    assert_eq!(
        Interpolation::from_position_wrapping(split(10f32), 12),
        Interpolation::new([10, 11], [1f32, 0f32])
    );
    assert_eq!(
        Interpolation::from_position_wrapping(split(10.25f32), 12),
        Interpolation::new([10, 11], [0.75f32, 0.25f32])
    );
}

#[test]
fn wrapping_leaves_left_index_alone() {
    let pos = Position { whole: 14, fraction: 1u8, complement: 3u8 };
    assert_eq!(
        Interpolation::from_position_wrapping(pos, 11),
        Interpolation::new([14, 0], [3u8, 1u8])
    );
}

#[test]
fn wrapping_stays_in_bounds() {
    for length in 1..6usize {
        for whole in 0..length {
            let pos = Position { whole, fraction: 0u8, complement: 1u8 };
            let inter = Interpolation::from_position_wrapping(pos, length);
            assert_eq!(inter.indices, [whole, (whole + 1) % length]);
        }
    }
}
