use hog::buffer::GrayBuffer;
use hog::multiarray::Array3d;
use hog::render::{
    can_place_stars, draw_ray_mut, draw_star_mut, render_hist_grid, RayDirection, RayFrame, Window,
};
use std::cell::RefCell;

fn direction(bucket: usize, orientations: usize, full_turn: bool, opposite: bool) -> RayDirection {
    RayDirection { bucket, orientations, full_turn, opposite }
}

#[test]
fn rays_start_at_the_centre() {
    let window = Window { x: 10, y: 20, width: 7, height: 12 };
    let frame = draw_ray_mut(
        None,
        window,
        direction(1, 4, true, false),
        9,
        &|_image: Option<RayFrame>, w: Window, frame: RayFrame, d: RayDirection, i: u8| {
            assert_eq!(w, window);
            assert_eq!(d, direction(1, 4, true, false));
            assert_eq!(i, 9);
            Some(frame)
        },
    );
    assert_eq!(frame, Some(RayFrame { start_x: 3, start_y: 6, diameter: 12 }));
    let wide = Window { x: 0, y: 0, width: 9, height: 2 };
    let frame = draw_ray_mut(
        None,
        wide,
        direction(0, 1, true, false),
        0,
        &|_image: Option<RayFrame>, _w: Window, frame: RayFrame, _d: RayDirection, _i: u8| {
            Some(frame)
        },
    );
    assert_eq!(frame, Some(RayFrame { start_x: 4, start_y: 1, diameter: 9 }));
}

fn record(
    mut strokes: Vec<(RayDirection, u8)>,
    _window: Window,
    _frame: RayFrame,
    direction: RayDirection,
    intensity: u8,
) -> Vec<(RayDirection, u8)> {
    strokes.push((direction, intensity));
    strokes
}

fn clamp(entry: f32) -> u8 {
    entry.max(0f32).min(255f32) as u8
}

#[test]
fn full_turn_stars_have_one_ray_for_each_bucket() {
    let window = Window { x: 0, y: 0, width: 5, height: 5 };
    let strokes = draw_star_mut(Vec::new(), window, &[3f32, 300f32, -1f32], true, &clamp, &record);
    assert_eq!(
        strokes,
        vec![
            (direction(0, 3, true, false), 3),
            (direction(1, 3, true, false), 255),
            (direction(2, 3, true, false), 0),
        ]
    );
}

#[test]
fn half_turn_stars_have_opposite_rays() {
    let window = Window { x: 0, y: 0, width: 5, height: 5 };
    let strokes = draw_star_mut(Vec::new(), window, &[3f32, 4f32], false, &clamp, &record);
    assert_eq!(
        strokes,
        vec![
            (direction(0, 2, false, false), 3),
            (direction(0, 2, false, true), 3),
            (direction(1, 2, false, false), 4),
            (direction(1, 2, false, true), 4),
        ]
    );
}

#[test]
fn stars_are_drawn_in_their_windows() {
    let grid = Array3d { data: vec![1f32, 2f32, 3f32, 4f32, 5f32, 6f32], lengths: [1, 3, 2] };
    let strokes = RefCell::new(Vec::new());
    let out = render_hist_grid(
        10,
        &grid,
        true,
        &clamp,
        &|image: GrayBuffer, window: Window, frame: RayFrame, _d: RayDirection, intensity: u8| {
            assert_eq!(image.dimensions(), (30, 20));
            assert_eq!(frame, RayFrame { start_x: 5, start_y: 5, diameter: 10 });
            strokes.borrow_mut().push((window, intensity));
            image
        },
    );
    assert_eq!(out.dimensions(), (30, 20));
    assert_eq!(out.into_raw(), vec![0u8; 600]);
    let window = |x, y| Window { x, y, width: 10, height: 10 };
    assert_eq!(
        strokes.into_inner(),
        vec![
            (window(0, 0), 1),
            (window(10, 0), 2),
            (window(20, 0), 3),
            (window(0, 10), 4),
            (window(10, 10), 5),
            (window(20, 10), 6),
        ]
    );
}

#[test]
fn later_strokes_see_earlier_ones() {
    let grid = Array3d { data: vec![7f32, 9f32], lengths: [2, 1, 1] };
    let out = render_hist_grid(
        2,
        &grid,
        true,
        &clamp,
        &|image: GrayBuffer, _w: Window, _f: RayFrame, d: RayDirection, intensity: u8| {
            let (width, height) = image.dimensions();
            let mut samples = image.into_raw();
            samples[d.bucket] = intensity;
            samples[3] += 1;
            GrayBuffer::from_raw(width, height, samples).unwrap()
        },
    );
    assert_eq!(out.dimensions(), (2, 2));
    assert_eq!(out.into_raw(), vec![7, 9, 0, 2]);
}

#[test]
fn empty_grid_gives_empty_image() {
    let grid = Array3d { data: vec![0f32; 0], lengths: [4, 0, 3] };
    let out = render_hist_grid(
        5,
        &grid,
        true,
        &clamp,
        &|image: GrayBuffer, _w: Window, _f: RayFrame, _d: RayDirection, _i: u8| image,
    );
    assert_eq!(out.dimensions(), (0, 15));
}

#[test]
fn placeable_stars() {
    assert!(can_place_stars(10, 3, 2));
    assert!(can_place_stars(0, usize::MAX, usize::MAX));
    assert!(can_place_stars(u32::MAX, 1, 0));
    assert!(!can_place_stars(u32::MAX, 2, 0));
    assert!(!can_place_stars(1, 0, u32::MAX as usize + 1));
    assert!(!can_place_stars(u32::MAX, 1, 1));
}

#[test]
fn stars_depend_on_their_own_cell() {
    let fill = |image: GrayBuffer, w: Window, _f: RayFrame, d: RayDirection, intensity: u8| {
        let (width, height) = image.dimensions();
        let mut samples = image.into_raw();
        for y in w.y..w.y + w.height {
            let offset = (y * width + w.x) as usize + d.bucket;
            samples[offset] = samples[offset].wrapping_add(intensity);
        }
        GrayBuffer::from_raw(width, height, samples).unwrap()
    };
    let render = |data: Vec<f32>| {
        let grid = Array3d { data, lengths: [2, 2, 1] };
        render_hist_grid(3, &grid, false, &clamp, &fill).into_raw()
    };
    let one = render(vec![1f32, 2f32, 3f32, 4f32]);
    let two = render(vec![9f32, 8f32, 3f32, 4f32]);
    for y in 0..3 {
        assert_eq!(one[6 * y + 3..6 * y + 6], [6, 8, 0]);
        assert_eq!(two[6 * y + 3..6 * y + 6], [6, 8, 0]);
    }
    assert_eq!(one[0..3], [2, 4, 0]);
    assert_eq!(two[0..3], [18, 16, 0]);
}

#[test]
fn drawing_a_ray_twice_changes_nothing_more() {
    // A line drawer that paints a column of pixels, from the start of the ray down.
    let segment = |image: GrayBuffer, w: Window, f: RayFrame, _d: RayDirection, intensity: u8| {
        let (width, height) = image.dimensions();
        let mut samples = image.into_raw();
        for y in w.y + f.start_y..w.y + w.height {
            samples[(y * width + w.x + f.start_x) as usize] = intensity;
        }
        GrayBuffer::from_raw(width, height, samples).unwrap()
    };
    let image = |samples: Vec<u8>| GrayBuffer::from_raw(4, 3, samples).unwrap();
    let before = vec![1, 2, 3, 4, 5, 6, 7, 8, 9, 10, 11, 12];
    let expected = vec![1, 2, 3, 4, 5, 6, 90, 8, 9, 10, 90, 12];
    let window = Window { x: 1, y: 0, width: 3, height: 3 };
    let ray = direction(0, 4, true, false);
    let once = draw_ray_mut(image(before), window, ray, 90, &segment);
    assert_eq!(once.dimensions(), (4, 3));
    let once = once.into_raw();
    assert_eq!(once, expected);
    let twice = draw_ray_mut(image(once), window, ray, 90, &segment);
    assert_eq!(twice.dimensions(), (4, 3));
    assert_eq!(twice.into_raw(), expected);
}
