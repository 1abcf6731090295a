//! Visualising orientation histograms as stars of rays.

use crate::buffer::{gray_samples, gray_size, GrayBuffer};
use crate::multiarray::Array3d;
use vstd::prelude::*;

verus! {

/// A rectangular part of an image.
#[derive(Debug, Copy, Clone, PartialEq, Eq, Structural)]
pub struct Window {
    /// Column of the left edge.
    pub x: u32,
    /// Row of the top edge.
    pub y: u32,
    /// Width in pixels.
    pub width: u32,
    /// Height in pixels.
    pub height: u32,
}

/// Where a ray starts within a window, and how far it reaches.
#[derive(Debug, Copy, Clone, PartialEq, Eq, Structural)]
pub struct RayFrame {
    /// Column of the start, from the window's left edge.
    pub start_x: u32,
    /// Row of the start, from the window's top edge.
    pub start_y: u32,
    /// Twice the length of the ray.
    pub diameter: u32,
}

/// The direction of a ray: clockwise from the y axis, the fraction `bucket / orientations` of a
/// full turn or of half a turn, as `full_turn` says, and half a turn more if `opposite`.
#[derive(Debug, Copy, Clone, PartialEq, Eq, Structural)]
pub struct RayDirection {
    /// The histogram bucket that the ray shows.
    pub bucket: usize,
    /// The number of buckets of the histogram.
    pub orientations: usize,
    /// Whether the buckets span a full turn or half of one.
    pub full_turn: bool,
    /// Whether the ray points half a turn away from its bucket's direction.
    pub opposite: bool,
}

/// The frame of every ray of a window: it starts at the centre and reaches half of the longer
/// side.
pub open spec fn ray_frame(window: Window) -> RayFrame {
    RayFrame {
        start_x: window.width / 2,
        start_y: window.height / 2,
        diameter: if window.width < window.height {
            window.height
        } else {
            window.width
        },
    }
}

/// Whether a line drawer may be called on every argument.
pub open spec fn draws_anything<C, S: Fn(C, Window, RayFrame, RayDirection, u8) -> C>(
    segment: S,
) -> bool {
    forall|image: C, window: Window, frame: RayFrame, direction: RayDirection, intensity: u8|
        #[trigger]
        call_requires(segment, (image, window, frame, direction, intensity))
}

/// `after` is the image `before` with one ray of the given intensity drawn in a window.
pub open spec fn draws_ray<C, S: Fn(C, Window, RayFrame, RayDirection, u8) -> C>(
    segment: S,
    window: Window,
    direction: RayDirection,
    intensity: u8,
    before: C,
    after: C,
) -> bool {
    call_ensures(segment, (before, window, ray_frame(window), direction, intensity), after)
}

/// Draws a ray from the center of a window of an image, which is handed back. `segment` draws the
/// line, given where it starts, how far it reaches and in what direction.
pub fn draw_ray_mut<C, S: Fn(C, Window, RayFrame, RayDirection, u8) -> C>(
    image: C,
    window: Window,
    direction: RayDirection,
    intensity: u8,
    segment: &S,
) -> (drawn: C)
    requires
        draws_anything(*segment),
    ensures
        draws_ray(*segment, window, direction, intensity, image, drawn),
{
    let diameter: u32 = if window.width < window.height {
        window.height
    } else {
        window.width
    };
    let frame = RayFrame { start_x: window.width / 2, start_y: window.height / 2, diameter };
    segment(image, window, frame, direction, intensity)
}

/// The direction of the ray that shows a bucket of a histogram, or of the opposite ray.
pub open spec fn ray_direction(
    bucket: int,
    orientations: int,
    full_turn: bool,
    opposite: bool,
) -> RayDirection {
    RayDirection {
        bucket: bucket as usize,
        orientations: orientations as usize,
        full_turn,
        opposite,
    }
}

/// `after` is the image `before` with the ray of one bucket of a histogram drawn in a window, or,
/// where the buckets span half a turn, with that ray and then the opposite one, both of the same
/// intensity.
pub open spec fn draws_bucket<C, S: Fn(C, Window, RayFrame, RayDirection, u8) -> C>(
    segment: S,
    window: Window,
    bucket: int,
    orientations: int,
    full_turn: bool,
    intensity: u8,
    before: C,
    after: C,
) -> bool {
    let forward = ray_direction(bucket, orientations, full_turn, false);
    let backward = ray_direction(bucket, orientations, full_turn, true);
    if full_turn {
        draws_ray(segment, window, forward, intensity, before, after)
    } else {
        exists|half: C|
            #[trigger] draws_ray(segment, window, forward, intensity, before, half) && draws_ray(
                segment,
                window,
                backward,
                intensity,
                half,
                after,
            )
    }
}

/// `after` is the image `before` with the first `n` buckets of a histogram drawn in a window, in
/// order, each with the intensity of its entry.
pub open spec fn draws_star<
    T,
    C,
    I: Fn(T) -> u8,
    S: Fn(C, Window, RayFrame, RayDirection, u8) -> C,
>(
    clamp: I,
    segment: S,
    window: Window,
    hist: Seq<T>,
    full_turn: bool,
    n: nat,
    before: C,
    after: C,
) -> bool
    decreases n,
{
    if n == 0 {
        after == before
    } else {
        exists|image: C, intensity: u8|
            {
                &&& draws_star(
                    clamp,
                    segment,
                    window,
                    hist,
                    full_turn,
                    (n - 1) as nat,
                    before,
                    image,
                )
                &&& call_ensures(clamp, (hist[n - 1],), intensity)
                &&& #[trigger] draws_bucket(
                    segment,
                    window,
                    n - 1,
                    hist.len() as int,
                    full_turn,
                    intensity,
                    image,
                    after,
                )
            }
    }
}

/// Draws a visualisation of a histogram of edge orientation strengths as a collection of rays
/// emanating from the centre of a window of an image, which is handed back. The intensity of each
/// ray is the value of the bucket centred on its direction, brought into range by `clamp`. Buckets
/// span a full turn, one ray each, or half a turn, two opposite rays each.
pub fn draw_star_mut<
    T: Copy,
    C,
    I: Fn(T) -> u8,
    S: Fn(C, Window, RayFrame, RayDirection, u8) -> C,
>(image: C, window: Window, hist: &[T], full_turn: bool, clamp: &I, segment: &S) -> (drawn: C)
    requires
        forall|entry: T| #[trigger] call_requires(*clamp, (entry,)),
        draws_anything(*segment),
    ensures
        draws_star(*clamp, *segment, window, hist@, full_turn, hist@.len(), image, drawn),
{
    let orientations: usize = hist.len();
    let mut drawn: C = image;
    for bucket in 0..orientations
        invariant
            orientations == hist@.len(),
            forall|entry: T| #[trigger] call_requires(*clamp, (entry,)),
            draws_anything(*segment),
            draws_star(*clamp, *segment, window, hist@, full_turn, bucket as nat, image, drawn),
    {
        let ghost before = drawn;
        let ghost next = (bucket + 1) as nat;
        let intensity: u8 = clamp(hist[bucket]);
        let forward = RayDirection { bucket, orientations, full_turn, opposite: false };
        drawn = draw_ray_mut(drawn, window, forward, intensity, segment);
        assert(forward == ray_direction(next - 1, hist@.len() as int, full_turn, false));
        if !full_turn {
            let backward = RayDirection { bucket, orientations, full_turn, opposite: true };
            drawn = draw_ray_mut(drawn, window, backward, intensity, segment);
            assert(backward == ray_direction(next - 1, hist@.len() as int, full_turn, true));
        }
        assert(draws_bucket(
            *segment,
            window,
            next - 1,
            hist@.len() as int,
            full_turn,
            intensity,
            before,
            drawn,
        ));
    }
    drawn
}

/// The window of the star of a cell, counting cells from the top left of the image.
pub open spec fn star_window(star_side: u32, x: int, y: int) -> Window {
    Window {
        x: (x * star_side) as u32,
        y: (y * star_side) as u32,
        width: star_side,
        height: star_side,
    }
}

/// The width or height of an image with room for `cells` stars side by side.
pub open spec fn stars_length(star_side: u32, cells: usize) -> int {
    cells * star_side
}

/// Whether the stars of a grid of cells can be placed in `u32` arithmetic, and an image for all
/// of them can be allocated.
pub open spec fn stars_placeable(star_side: u32, cells_wide: usize, cells_high: usize) -> bool {
    &&& stars_length(star_side, cells_wide) <= u32::MAX
    &&& stars_length(star_side, cells_high) <= u32::MAX
    &&& stars_length(star_side, cells_wide) * stars_length(star_side, cells_high) <= isize::MAX
}

/// The width or height of an image with room for `cells` stars side by side, if it fits in `u32`.
fn checked_stars_length(star_side: u32, cells: usize) -> (length: Option<u32>)
    ensures
        length is Some <==> stars_length(star_side, cells) <= u32::MAX,
        length matches Some(l) ==> l == stars_length(star_side, cells),
{
    if star_side == 0 {
        assert(cells * star_side == 0) by (nonlinear_arith)
            requires
                star_side == 0,
        ;
        return Some(0);
    }
    if cells > u32::MAX as usize {
        assert(cells <= cells * star_side) by (nonlinear_arith)
            requires
                0 < star_side,
        ;
        return None;
    }
    (cells as u32).checked_mul(star_side)
}

/// Tests whether the stars of a grid of cells can be placed on an image.
pub fn can_place_stars(star_side: u32, cells_wide: usize, cells_high: usize) -> (possible: bool)
    ensures
        possible == stars_placeable(star_side, cells_wide, cells_high),
{
    match (
        checked_stars_length(star_side, cells_wide),
        checked_stars_length(star_side, cells_high),
    ) {
        (Some(width), Some(height)) => {
            assert(width * height <= u64::MAX) by (nonlinear_arith)
                requires
                    0 <= width <= u32::MAX,
                    0 <= height <= u32::MAX,
            ;
            width as u64 * height as u64 <= isize::MAX as u64
        },
        _ => false,
    }
}

/// The offset of the star of cell number `x` along a side with room for `cells` stars.
fn star_offset(star_side: u32, cells: usize, x: usize) -> (offset: u32)
    requires
        x <= cells,
        stars_length(star_side, cells) <= u32::MAX,
    ensures
        offset == x * star_side,
{
    assert(0 <= x * star_side <= cells * star_side) by (nonlinear_arith)
        requires
            x <= cells,
    ;
    assert((x as u32) * star_side == x * star_side) by {
        if star_side == 0 {
            assert((x as u32) * star_side == 0 && x * star_side == 0) by (nonlinear_arith)
                requires
                    star_side == 0,
            ;
        } else {
            assert(x <= x * star_side) by (nonlinear_arith)
                requires
                    0 < star_side,
            ;
        }
    }
    x as u32 * star_side
}

/// `after` is the image `before` with the stars of the first `n` cells of a grid drawn, row by
/// row, each in its own window.
pub open spec fn draws_grid<
    T,
    C,
    I: Fn(T) -> u8,
    S: Fn(C, Window, RayFrame, RayDirection, u8) -> C,
>(
    clamp: I,
    segment: S,
    star_side: u32,
    grid: Array3d<T>,
    full_turn: bool,
    n: nat,
    before: C,
    after: C,
) -> bool
    decreases n,
{
    if n == 0 {
        after == before
    } else {
        let x = (n - 1) % grid.lengths[1] as int;
        let y = (n - 1) / grid.lengths[1] as int;
        exists|image: C|
            draws_grid(
                clamp,
                segment,
                star_side,
                grid,
                full_turn,
                (n - 1) as nat,
                before,
                image,
            ) && #[trigger] draws_star(
                clamp,
                segment,
                star_window(star_side, x, y),
                grid.inner(x, y),
                full_turn,
                grid.lengths[0] as nat,
                image,
                after,
            )
    }
}

/// A black image of the given size.
pub open spec fn is_blank(image: GrayBuffer, width: int, height: int) -> bool {
    &&& gray_size(image).0 == width
    &&& gray_size(image).1 == height
    &&& gray_samples(image).len() == width * height
    &&& forall|i: int| 0 <= i < width * height ==> #[trigger] gray_samples(image)[i] == 0
}

/// Whether a line drawer hands back an image of the same size as it was given.
pub open spec fn keeps_size<S: Fn(GrayBuffer, Window, RayFrame, RayDirection, u8) -> GrayBuffer>(
    segment: S,
) -> bool {
    forall|
        before: GrayBuffer,
        window: Window,
        frame: RayFrame,
        direction: RayDirection,
        intensity: u8,
        after: GrayBuffer,
    | #[trigger]
        call_ensures(segment, (before, window, frame, direction, intensity), after) ==> gray_size(
            after,
        ) == gray_size(before)
}

/// Drawing a star keeps the size of the image if drawing a line does.
pub proof fn law_star_keeps_size<
    T,
    I: Fn(T) -> u8,
    S: Fn(GrayBuffer, Window, RayFrame, RayDirection, u8) -> GrayBuffer,
>(
    clamp: I,
    segment: S,
    window: Window,
    hist: Seq<T>,
    full_turn: bool,
    n: nat,
    before: GrayBuffer,
    after: GrayBuffer,
)
    requires
        keeps_size(segment),
        draws_star(clamp, segment, window, hist, full_turn, n, before, after),
    ensures
        gray_size(after) == gray_size(before),
    decreases n,
{
    if n > 0 {
        let (image, intensity) = choose|image: GrayBuffer, intensity: u8|
            {
                &&& draws_star(
                    clamp,
                    segment,
                    window,
                    hist,
                    full_turn,
                    (n - 1) as nat,
                    before,
                    image,
                )
                &&& call_ensures(clamp, (hist[n - 1],), intensity)
                &&& #[trigger] draws_bucket(
                    segment,
                    window,
                    n - 1,
                    hist.len() as int,
                    full_turn,
                    intensity,
                    image,
                    after,
                )
            };
        law_star_keeps_size(
            clamp,
            segment,
            window,
            hist,
            full_turn,
            (n - 1) as nat,
            before,
            image,
        );
    }
}

/// Drawing the stars of a grid keeps the size of the image if drawing a line does.
pub proof fn law_grid_keeps_size<
    T,
    I: Fn(T) -> u8,
    S: Fn(GrayBuffer, Window, RayFrame, RayDirection, u8) -> GrayBuffer,
>(
    clamp: I,
    segment: S,
    star_side: u32,
    grid: Array3d<T>,
    full_turn: bool,
    n: nat,
    before: GrayBuffer,
    after: GrayBuffer,
)
    requires
        keeps_size(segment),
        draws_grid(clamp, segment, star_side, grid, full_turn, n, before, after),
    ensures
        gray_size(after) == gray_size(before),
    decreases n,
{
    if n > 0 {
        let x = (n - 1) % grid.lengths[1] as int;
        let y = (n - 1) / grid.lengths[1] as int;
        let window = star_window(star_side, x, y);
        let image = choose|image: GrayBuffer|
            draws_grid(
                clamp,
                segment,
                star_side,
                grid,
                full_turn,
                (n - 1) as nat,
                before,
                image,
            ) && #[trigger] draws_star(
                clamp,
                segment,
                window,
                grid.inner(x, y),
                full_turn,
                grid.lengths[0] as nat,
                image,
                after,
            );
        law_grid_keeps_size(
            clamp,
            segment,
            star_side,
            grid,
            full_turn,
            (n - 1) as nat,
            before,
            image,
        );
        law_star_keeps_size(
            clamp,
            segment,
            window,
            grid.inner(x, y),
            full_turn,
            grid.lengths[0] as nat,
            image,
            after,
        );
    }
}

/// The windows of the stars of a grid lie within the image, and those of different cells do not
/// overlap.
pub proof fn law_stars_are_apart(
    star_side: u32,
    cells_wide: usize,
    cells_high: usize,
    x: int,
    y: int,
    other_x: int,
    other_y: int,
)
    requires
        stars_placeable(star_side, cells_wide, cells_high),
        0 <= x < cells_wide,
        0 <= y < cells_high,
        0 <= other_x < cells_wide,
        0 <= other_y < cells_high,
    ensures
        star_window(star_side, x, y).x + star_side <= stars_length(star_side, cells_wide),
        star_window(star_side, x, y).y + star_side <= stars_length(star_side, cells_high),
        x < other_x ==> star_window(star_side, x, y).x + star_side <= star_window(
            star_side,
            other_x,
            other_y,
        ).x,
        y < other_y ==> star_window(star_side, x, y).y + star_side <= star_window(
            star_side,
            other_x,
            other_y,
        ).y,
{
    assert(0 <= x * star_side && x * star_side + star_side <= cells_wide * star_side)
        by (nonlinear_arith)
        requires
            0 <= x < cells_wide,
    ;
    assert(0 <= y * star_side && y * star_side + star_side <= cells_high * star_side)
        by (nonlinear_arith)
        requires
            0 <= y < cells_high,
    ;
    assert(0 <= other_x * star_side && other_x * star_side + star_side <= cells_wide * star_side)
        by (nonlinear_arith)
        requires
            0 <= other_x < cells_wide,
    ;
    assert(0 <= other_y * star_side && other_y * star_side + star_side <= cells_high * star_side)
        by (nonlinear_arith)
        requires
            0 <= other_y < cells_high,
    ;
    if x < other_x {
        assert(x * star_side + star_side <= other_x * star_side) by (nonlinear_arith)
            requires
                x < other_x,
        ;
    }
    if y < other_y {
        assert(y * star_side + star_side <= other_y * star_side) by (nonlinear_arith)
            requires
                y < other_y,
        ;
    }
}

/// Visualises an array of orientation histograms.
/// The dimensions of the provided Array3d are orientation bucket,
/// horizontal location of the cell, then vertical location of the cell.
/// Note that we ignore block-level aggregation or normalisation here.
/// Each rendered star has side length star_side, so the image will have
/// width grid.lengths[1] * star_side and height grid.lengths[2] * star_side.
/// `full_turn` says whether the buckets span a full turn. Where gradients in
/// opposite directions are treated as equal, they span half a turn.
pub fn render_hist_grid<
    T: Copy,
    I: Fn(T) -> u8,
    S: Fn(GrayBuffer, Window, RayFrame, RayDirection, u8) -> GrayBuffer,
>(star_side: u32, grid: &Array3d<T>, full_turn: bool, clamp: &I, segment: &S) -> (out: GrayBuffer)
    requires
        grid.wf(),
        stars_placeable(star_side, grid.lengths[1], grid.lengths[2]),
        forall|entry: T| #[trigger] call_requires(*clamp, (entry,)),
        draws_anything(*segment),
    ensures
        exists|blank: GrayBuffer|
            #[trigger] is_blank(
                blank,
                stars_length(star_side, grid.lengths[1]),
                stars_length(star_side, grid.lengths[2]),
            ) && draws_grid(
                *clamp,
                *segment,
                star_side,
                *grid,
                full_turn,
                (grid.lengths[1] * grid.lengths[2]) as nat,
                blank,
                out,
            ),
        keeps_size(*segment) ==> {
            &&& gray_size(out).0 == stars_length(star_side, grid.lengths[1])
            &&& gray_size(out).1 == stars_length(star_side, grid.lengths[2])
        },
{
    let cells_wide: usize = grid.lengths[1];
    let cells_high: usize = grid.lengths[2];
    let width: u32 = star_offset(star_side, cells_wide, cells_wide);
    let height: u32 = star_offset(star_side, cells_high, cells_high);
    let mut out: GrayBuffer = GrayBuffer::new(width, height);
    let ghost blank = out;
    assert(is_blank(blank, width as int, height as int));
    assert(0 * cells_wide == 0) by (nonlinear_arith);
    for y in 0..cells_high
        invariant
            grid.wf(),
            cells_wide == grid.lengths[1],
            cells_high == grid.lengths[2],
            stars_placeable(star_side, cells_wide, cells_high),
            forall|entry: T| #[trigger] call_requires(*clamp, (entry,)),
            draws_anything(*segment),
            draws_grid(
                *clamp,
                *segment,
                star_side,
                *grid,
                full_turn,
                (y * cells_wide) as nat,
                blank,
                out,
            ),
    {
        let y_window: u32 = star_offset(star_side, cells_high, y);
        for x in 0..cells_wide
            invariant
                grid.wf(),
                cells_wide == grid.lengths[1],
                cells_high == grid.lengths[2],
                y < cells_high,
                y_window == y * star_side,
                stars_placeable(star_side, cells_wide, cells_high),
                forall|entry: T| #[trigger] call_requires(*clamp, (entry,)),
                draws_anything(*segment),
                draws_grid(
                    *clamp,
                    *segment,
                    star_side,
                    *grid,
                    full_turn,
                    (y * cells_wide + x) as nat,
                    blank,
                    out,
                ),
        {
            let ghost before = out;
            let ghost next = (y * cells_wide + x + 1) as nat;
            let x_window: u32 = star_offset(star_side, cells_wide, x);
            let window = Window { x: x_window, y: y_window, width: star_side, height: star_side };
            let hist = grid.inner_slice(x, y);
            out = draw_star_mut(out, window, hist, full_turn, clamp, segment);
            proof {
                vstd::arithmetic::div_mod::lemma_fundamental_div_mod_converse(
                    next - 1,
                    cells_wide as int,
                    y as int,
                    x as int,
                );
                assert(0 <= y * cells_wide) by (nonlinear_arith);
                let column = (next - 1) % grid.lengths[1] as int;
                let row = (next - 1) / grid.lengths[1] as int;
                assert(column == x && row == y);
                assert(window == star_window(star_side, column, row));
                assert(draws_star(
                    *clamp,
                    *segment,
                    star_window(star_side, column, row),
                    grid.inner(column, row),
                    full_turn,
                    grid.lengths[0] as nat,
                    before,
                    out,
                ));
            }
        }
        assert((y + 1) * cells_wide == y * cells_wide + cells_wide) by (nonlinear_arith);
    }
    assert(cells_high * cells_wide == cells_wide * cells_high) by (nonlinear_arith);
    proof {
        let cells = (cells_wide * cells_high) as nat;
        if keeps_size(*segment) {
            law_grid_keeps_size(*clamp, *segment, star_side, *grid, full_turn, cells, blank, out);
        }
    }
    out
}

} // verus!
