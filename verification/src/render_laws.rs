//! What the stars of a rendered grid depend on.

use crate::buffer::{gray_samples, gray_size, GrayBuffer};
use crate::multiarray::{lemma_flat_index_in_range, lemma_offset_in_rows, Array3d};
use crate::render::{
    draws_bucket, draws_grid, draws_ray, draws_star, is_blank, keeps_size, law_grid_keeps_size,
    law_stars_are_apart, ray_direction, ray_frame, star_window, stars_length, stars_placeable,
    RayDirection, RayFrame, Window,
};
use vstd::prelude::*;

verus! {

/// Whether a pixel is within an image.
pub open spec fn in_image(image: GrayBuffer, x: int, y: int) -> bool {
    &&& 0 <= x < gray_size(image).0
    &&& 0 <= y < gray_size(image).1
}

/// Whether a pixel is within a window.
pub open spec fn in_window(window: Window, x: int, y: int) -> bool {
    &&& window.x <= x < window.x + window.width
    &&& window.y <= y < window.y + window.height
}

/// The sample of a pixel.
pub open spec fn pixel(image: GrayBuffer, x: int, y: int) -> u8 {
    gray_samples(image)[y * gray_size(image).0 + x]
}

/// Two images of the same size have the same pixels within a window.
pub open spec fn agree_inside(one: GrayBuffer, two: GrayBuffer, window: Window) -> bool {
    &&& gray_size(one) == gray_size(two)
    &&& forall|x: int, y: int|
        #![trigger pixel(one, x, y)]
        #![trigger pixel(two, x, y)]
        in_image(one, x, y) && in_window(window, x, y) ==> pixel(one, x, y) == pixel(two, x, y)
}

/// Two images of the same size have the same pixels outside a window.
pub open spec fn agree_outside(one: GrayBuffer, two: GrayBuffer, window: Window) -> bool {
    &&& gray_size(one) == gray_size(two)
    &&& forall|x: int, y: int|
        #![trigger pixel(one, x, y)]
        #![trigger pixel(two, x, y)]
        in_image(one, x, y) && !in_window(window, x, y) ==> pixel(one, x, y) == pixel(two, x, y)
}

/// The line of a ray starts at the centre of its window, to the nearest whole pixel at or before
/// it, and reaches half of the longer side: `frame` says so.
pub proof fn law_rays_start_at_centre<C, S: Fn(C, Window, RayFrame, RayDirection, u8) -> C>(
    segment: S,
    window: Window,
    frame: RayFrame,
    direction: RayDirection,
    intensity: u8,
    before: C,
    after: C,
)
    requires
        draws_ray(segment, window, direction, intensity, before, after),
        2 * frame.start_x <= window.width < 2 * frame.start_x + 2,
        2 * frame.start_y <= window.height < 2 * frame.start_y + 2,
        window.width <= frame.diameter,
        window.height <= frame.diameter,
        frame.diameter == window.width || frame.diameter == window.height,
    ensures
        call_ensures(segment, (before, window, frame, direction, intensity), after),
{
    assert(frame == ray_frame(window));
}

/// The ray that shows bucket `bucket` of a histogram of `orientations` entries has just that
/// direction.
pub proof fn law_rays_point_to_their_buckets(
    bucket: int,
    orientations: int,
    full_turn: bool,
    opposite: bool,
)
    requires
        0 <= bucket < orientations <= usize::MAX,
    ensures
        ray_direction(bucket, orientations, full_turn, opposite).bucket == bucket,
        ray_direction(bucket, orientations, full_turn, opposite).orientations == orientations,
        ray_direction(bucket, orientations, full_turn, opposite).full_turn == full_turn,
        ray_direction(bucket, orientations, full_turn, opposite).opposite == opposite,
{
}

/// Different buckets of a histogram have rays of different directions, and so have a ray and the
/// opposite one.
pub proof fn law_rays_differ(
    bucket: int,
    other: int,
    orientations: int,
    full_turn: bool,
    opposite: bool,
    other_opposite: bool,
)
    requires
        0 <= bucket < orientations <= usize::MAX,
        0 <= other < orientations,
        bucket != other || opposite != other_opposite,
    ensures
        ray_direction(bucket, orientations, full_turn, opposite) != ray_direction(
            other,
            orientations,
            full_turn,
            other_opposite,
        ),
{
}

/// A star shows every bucket of a histogram once, in order: over a full turn with one ray each, and
/// over half a turn with a ray and then the opposite one. The rays of bucket `b` have the direction
/// of `b` among all buckets and the intensity of entry `b`.
pub proof fn law_stars_show_every_bucket<
    T,
    C,
    I: Fn(T) -> u8,
    S: Fn(C, Window, RayFrame, RayDirection, u8) -> C,
>(
    clamp: I,
    segment: S,
    window: Window,
    frame: RayFrame,
    hist: Seq<T>,
    full_turn: bool,
    before: C,
    after: C,
)
    requires
        draws_star(clamp, segment, window, hist, full_turn, hist.len(), before, after),
        2 * frame.start_x <= window.width < 2 * frame.start_x + 2,
        2 * frame.start_y <= window.height < 2 * frame.start_y + 2,
        window.width <= frame.diameter,
        window.height <= frame.diameter,
        frame.diameter == window.width || frame.diameter == window.height,
    ensures
        exists|images: Seq<C>, intensities: Seq<u8>|
            #![trigger images.len(), intensities.len()]
            {
                &&& intensities.len() == hist.len()
                &&& images.first() == before
                &&& images.last() == after
                &&& images.len() == if full_turn {
                    hist.len() + 1
                } else {
                    2 * hist.len() + 1
                }
                &&& forall|b: int|
                    0 <= b < hist.len() ==> call_ensures(
                        clamp,
                        (hist[b],),
                        #[trigger] intensities[b],
                    )
                &&& forall|b: int|
                    full_turn && 0 <= b < hist.len() ==> call_ensures(
                        segment,
                        (
                            images[b],
                            window,
                            frame,
                            RayDirection {
                                bucket: b as usize,
                                orientations: hist.len() as usize,
                                full_turn: true,
                                opposite: false,
                            },
                            #[trigger] intensities[b],
                        ),
                        images[b + 1],
                    )
                &&& forall|b: int|
                    !full_turn && 0 <= b < hist.len() ==> call_ensures(
                        segment,
                        (
                            images[2 * b],
                            window,
                            frame,
                            RayDirection {
                                bucket: b as usize,
                                orientations: hist.len() as usize,
                                full_turn: false,
                                opposite: false,
                            },
                            #[trigger] intensities[b],
                        ),
                        images[2 * b + 1],
                    ) && call_ensures(
                        segment,
                        (
                            images[2 * b + 1],
                            window,
                            frame,
                            RayDirection {
                                bucket: b as usize,
                                orientations: hist.len() as usize,
                                full_turn: false,
                                opposite: true,
                            },
                            intensities[b],
                        ),
                        images[2 * b + 2],
                    )
            },
{
    let run = lemma_star_images(
        clamp,
        segment,
        window,
        hist,
        full_turn,
        hist.len(),
        before,
        after,
    );
    assert(frame == ray_frame(window));
    assert(run.0.len() > 0 && run.1.len() == hist.len());
}

/// The images before and after each ray of the first `n` buckets of a star, and the intensities of
/// these buckets.
proof fn lemma_star_images<
    T,
    C,
    I: Fn(T) -> u8,
    S: Fn(C, Window, RayFrame, RayDirection, u8) -> C,
>(
    clamp: I,
    segment: S,
    window: Window,
    hist: Seq<T>,
    full_turn: bool,
    n: nat,
    before: C,
    after: C,
) -> (run: (Seq<C>, Seq<u8>))
    requires
        draws_star(clamp, segment, window, hist, full_turn, n, before, after),
    ensures
        run.1.len() == n,
        run.0.first() == before,
        run.0.last() == after,
        run.0.len() == if full_turn {
            n + 1
        } else {
            2 * n + 1
        },
        forall|b: int|
            0 <= b < n ==> call_ensures(
                clamp,
                (hist[b],),
                #[trigger] run.1[b],
            ),
        forall|b: int|
            full_turn && 0 <= b < n ==> call_ensures(
                segment,
                (
                    run.0[b],
                    window,
                    ray_frame(window),
                    RayDirection {
                        bucket: b as usize,
                        orientations: hist.len() as usize,
                        full_turn: true,
                        opposite: false,
                    },
                    #[trigger] run.1[b],
                ),
                run.0[b + 1],
            ),
        forall|b: int|
            !full_turn && 0 <= b < n ==> call_ensures(
                segment,
                (
                    run.0[2 * b],
                    window,
                    ray_frame(window),
                    RayDirection {
                        bucket: b as usize,
                        orientations: hist.len() as usize,
                        full_turn: false,
                        opposite: false,
                    },
                    #[trigger] run.1[b],
                ),
                run.0[2 * b + 1],
            ) && call_ensures(
                segment,
                (
                    run.0[2 * b + 1],
                    window,
                    ray_frame(window),
                    RayDirection {
                        bucket: b as usize,
                        orientations: hist.len() as usize,
                        full_turn: false,
                        opposite: true,
                    },
                    run.1[b],
                ),
                run.0[2 * b + 2],
            ),
    decreases n,
{
    if n == 0 {
        (seq![before], Seq::empty())
    } else {
        let m = (n - 1) as nat;
        let (image, intensity) = choose|image: C, intensity: u8|
            {
                &&& draws_star(clamp, segment, window, hist, full_turn, m, before, image)
                &&& call_ensures(clamp, (hist[n - 1],), intensity)
                &&& #[trigger] draws_bucket(
                    segment,
                    window,
                    n - 1,
                    hist.len() as int,
                    full_turn,
                    intensity,
                    image,
                    after,
                )
            };
        let front = lemma_star_images(clamp, segment, window, hist, full_turn, m, before, image);
        let intensities = front.1.push(intensity);
        if full_turn {
            (front.0.push(after), intensities)
        } else {
            let forward = ray_direction(n - 1, hist.len() as int, full_turn, false);
            let backward = ray_direction(n - 1, hist.len() as int, full_turn, true);
            let half = choose|half: C|
                #[trigger] draws_ray(segment, window, forward, intensity, image, half)
                    && draws_ray(segment, window, backward, intensity, half, after);
            (front.0.push(half).push(after), intensities)
        }
    }
}

/// A rendered grid shows every cell once, row by row: each star is drawn from the cell's histogram,
/// in a square window of side `star_side` at the cell's place.
pub proof fn law_grids_show_every_cell<
    T,
    C,
    I: Fn(T) -> u8,
    S: Fn(C, Window, RayFrame, RayDirection, u8) -> C,
>(
    clamp: I,
    segment: S,
    star_side: u32,
    grid: Array3d<T>,
    full_turn: bool,
    before: C,
    after: C,
)
    requires
        grid.wf(),
        draws_grid(
            clamp,
            segment,
            star_side,
            grid,
            full_turn,
            (grid.lengths[1] * grid.lengths[2]) as nat,
            before,
            after,
        ),
    ensures
        exists|images: Seq<C>|
            {
                &&& #[trigger] images.len() == grid.lengths[1] * grid.lengths[2] + 1
                &&& images.first() == before
                &&& images.last() == after
                &&& forall|x: int, y: int|
                    0 <= x < grid.lengths[1] && 0 <= y < grid.lengths[2] ==> draws_star(
                        clamp,
                        segment,
                        Window {
                            x: (x * star_side) as u32,
                            y: (y * star_side) as u32,
                            width: star_side,
                            height: star_side,
                        },
                        #[trigger] grid.inner(x, y),
                        full_turn,
                        grid.inner(x, y).len(),
                        images[y * grid.lengths[1] + x],
                        images[y * grid.lengths[1] + x + 1],
                    )
            },
{
    let wide = grid.lengths[1] as int;
    let high = grid.lengths[2] as int;
    assert(0 <= wide * high) by (nonlinear_arith)
        requires
            0 <= wide,
            0 <= high,
    ;
    let images = lemma_grid_images(
        clamp,
        segment,
        star_side,
        grid,
        full_turn,
        (wide * high) as nat,
        before,
        after,
    );
    assert forall|x: int, y: int| 0 <= x < wide && 0 <= y < high implies draws_star(
        clamp,
        segment,
        Window {
            x: (x * star_side) as u32,
            y: (y * star_side) as u32,
            width: star_side,
            height: star_side,
        },
        #[trigger] grid.inner(x, y),
        full_turn,
        grid.inner(x, y).len(),
        images[y * wide + x],
        images[y * wide + x + 1],
    ) by {
        let i = y * wide + x;
        vstd::arithmetic::div_mod::lemma_fundamental_div_mod_converse(i, wide, y, x);
        assert(0 <= i < wide * high) by (nonlinear_arith)
            requires
                i == y * wide + x,
                0 <= x < wide,
                0 <= y < high,
        ;
        lemma_flat_index_in_range(grid.lengths[0] as int, wide, high, x, y);
        assert(images[i] == images[i]);
    }
}

/// The images before and after each of the first `n` stars of a grid.
proof fn lemma_grid_images<
    T,
    C,
    I: Fn(T) -> u8,
    S: Fn(C, Window, RayFrame, RayDirection, u8) -> C,
>(
    clamp: I,
    segment: S,
    star_side: u32,
    grid: Array3d<T>,
    full_turn: bool,
    n: nat,
    before: C,
    after: C,
) -> (images: Seq<C>)
    requires
        draws_grid(clamp, segment, star_side, grid, full_turn, n, before, after),
    ensures
        images.len() == n + 1,
        images.first() == before,
        images.last() == after,
        forall|i: int|
            0 <= i < n ==> draws_star(
                clamp,
                segment,
                star_window(star_side, i % grid.lengths[1] as int, i / grid.lengths[1] as int),
                grid.inner(i % grid.lengths[1] as int, i / grid.lengths[1] as int),
                full_turn,
                grid.lengths[0] as nat,
                #[trigger] images[i],
                images[i + 1],
            ),
    decreases n,
{
    if n == 0 {
        seq![before]
    } else {
        let m = (n - 1) as nat;
        let x = (n - 1) % grid.lengths[1] as int;
        let y = (n - 1) / grid.lengths[1] as int;
        let image = choose|image: C|
            draws_grid(clamp, segment, star_side, grid, full_turn, m, before, image)
                && #[trigger] draws_star(
                clamp,
                segment,
                star_window(star_side, x, y),
                grid.inner(x, y),
                full_turn,
                grid.lengths[0] as nat,
                image,
                after,
            );
        let front = lemma_grid_images(
            clamp,
            segment,
            star_side,
            grid,
            full_turn,
            m,
            before,
            image,
        );
        front.push(after)
    }
}

/// A visualisation starts out black, and has room for one star beside another for every cell.
pub proof fn law_images_start_black(
    star_side: u32,
    cells_wide: usize,
    cells_high: usize,
    image: GrayBuffer,
    i: int,
)
    requires
        is_blank(image, stars_length(star_side, cells_wide), stars_length(star_side, cells_high)),
    ensures
        gray_size(image).0 == cells_wide * star_side,
        gray_size(image).1 == cells_high * star_side,
        gray_samples(image).len() == gray_size(image).0 * gray_size(image).1,
        0 <= i < gray_samples(image).len() ==> gray_samples(image)[i] == 0,
{
}

/// Stars can be placed whenever the width and height of the image fit in `u32` and its pixels can
/// be allocated.
pub proof fn law_stars_are_placeable(star_side: u32, cells_wide: usize, cells_high: usize)
    requires
        cells_wide * star_side <= u32::MAX,
        cells_high * star_side <= u32::MAX,
        (cells_wide * star_side) * (cells_high * star_side) <= isize::MAX,
    ensures
        stars_placeable(star_side, cells_wide, cells_high),
{
}

/// A line drawer changes pixels only inside its window.
pub open spec fn stays_in_window<
    S: Fn(GrayBuffer, Window, RayFrame, RayDirection, u8) -> GrayBuffer,
>(
    segment: S,
) -> bool {
    forall|
        before: GrayBuffer,
        window: Window,
        frame: RayFrame,
        direction: RayDirection,
        intensity: u8,
        after: GrayBuffer,
    | #[trigger]
        call_ensures(segment, (before, window, frame, direction, intensity), after)
            ==> agree_outside(before, after, window)
}

/// What a line drawer draws inside its window depends only on what was there before.
pub open spec fn depends_on_window<
    S: Fn(GrayBuffer, Window, RayFrame, RayDirection, u8) -> GrayBuffer,
>(
    segment: S,
) -> bool {
    forall|
        one: GrayBuffer,
        two: GrayBuffer,
        window: Window,
        frame: RayFrame,
        direction: RayDirection,
        intensity: u8,
        after_one: GrayBuffer,
        after_two: GrayBuffer,
    |
        agree_inside(one, two, window) && gray_size(after_one) == gray_size(after_two)
            && #[trigger] call_ensures(
            segment,
            (one, window, frame, direction, intensity),
            after_one,
        ) && #[trigger] call_ensures(
            segment,
            (two, window, frame, direction, intensity),
            after_two,
        ) ==> agree_inside(after_one, after_two, window)
}

/// A line drawer sets the pixels that a line passes through to its intensity and leaves the others
/// as they are. Which pixels these are, `passes` says: it does not depend on the image.
pub open spec fn paints_line<
    S: Fn(GrayBuffer, Window, RayFrame, RayDirection, u8) -> GrayBuffer,
>(segment: S, passes: spec_fn(Window, RayFrame, RayDirection, int, int) -> bool) -> bool {
    forall|
        before: GrayBuffer,
        window: Window,
        frame: RayFrame,
        direction: RayDirection,
        intensity: u8,
        after: GrayBuffer,
    | #[trigger]
        call_ensures(segment, (before, window, frame, direction, intensity), after) ==> {
            &&& gray_size(after) == gray_size(before)
            &&& forall|x: int, y: int|
                in_image(before, x, y) ==> #[trigger] pixel(after, x, y) == if passes(
                    window,
                    frame,
                    direction,
                    x,
                    y,
                ) {
                    intensity
                } else {
                    pixel(before, x, y)
                }
        }
}

/// A ray sets pixels to its intensity and changes nothing else, and drawing the same ray a second
/// time changes nothing more. This rests on `segment` painting lines.
pub proof fn law_ray_drawn_twice<
    S: Fn(GrayBuffer, Window, RayFrame, RayDirection, u8) -> GrayBuffer,
>(
    segment: S,
    passes: spec_fn(Window, RayFrame, RayDirection, int, int) -> bool,
    window: Window,
    direction: RayDirection,
    intensity: u8,
    before: GrayBuffer,
    once: GrayBuffer,
    twice: GrayBuffer,
)
    requires
        paints_line(segment, passes),
        draws_ray(segment, window, direction, intensity, before, once),
        draws_ray(segment, window, direction, intensity, once, twice),
    ensures
        gray_size(once) == gray_size(before),
        gray_size(twice) == gray_size(once),
        forall|x: int, y: int|
            in_image(before, x, y) ==> #[trigger] pixel(once, x, y) == if passes(
                window,
                ray_frame(window),
                direction,
                x,
                y,
            ) {
                intensity
            } else {
                pixel(before, x, y)
            },
        forall|x: int, y: int|
            in_image(before, x, y) ==> #[trigger] pixel(twice, x, y) == pixel(once, x, y),
{
}

/// A line drawer that paints lines keeps the size of the image, and one whose lines lie inside
/// their windows meets what the laws of stars ask of it.
pub proof fn law_lines_inside_windows<
    S: Fn(GrayBuffer, Window, RayFrame, RayDirection, u8) -> GrayBuffer,
>(segment: S, passes: spec_fn(Window, RayFrame, RayDirection, int, int) -> bool)
    requires
        paints_line(segment, passes),
        forall|window: Window, frame: RayFrame, direction: RayDirection, x: int, y: int|
            #[trigger] passes(window, frame, direction, x, y) ==> in_window(window, x, y),
    ensures
        keeps_size(segment),
        stays_in_window(segment),
        depends_on_window(segment),
{
}

/// An entry has one intensity.
pub open spec fn clamps_uniquely<T, I: Fn(T) -> u8>(clamp: I) -> bool {
    forall|entry: T, one: u8, two: u8|
        #[trigger] call_ensures(clamp, (entry,), one) && #[trigger] call_ensures(
            clamp,
            (entry,),
            two,
        ) ==> one == two
}

/// Drawing the rays of one bucket changes pixels only inside the star's window.
proof fn lemma_bucket_stays_in_window<
    S: Fn(GrayBuffer, Window, RayFrame, RayDirection, u8) -> GrayBuffer,
>(
    segment: S,
    window: Window,
    bucket: int,
    orientations: int,
    full_turn: bool,
    intensity: u8,
    before: GrayBuffer,
    after: GrayBuffer,
)
    requires
        stays_in_window(segment),
        draws_bucket(segment, window, bucket, orientations, full_turn, intensity, before, after),
    ensures
        agree_outside(before, after, window),
{
    if !full_turn {
        let forward = ray_direction(bucket, orientations, full_turn, false);
        let backward = ray_direction(bucket, orientations, full_turn, true);
        let half = choose|half: GrayBuffer|
            #[trigger] draws_ray(segment, window, forward, intensity, before, half) && draws_ray(
                segment,
                window,
                backward,
                intensity,
                half,
                after,
            );
        assert(agree_outside(before, half, window));
        assert(agree_outside(half, after, window));
        lemma_agree_outside_transitive(before, half, after, window);
    }
}

/// Agreement outside a window is transitive.
proof fn lemma_agree_outside_transitive(
    one: GrayBuffer,
    two: GrayBuffer,
    three: GrayBuffer,
    window: Window,
)
    requires
        agree_outside(one, two, window),
        agree_outside(two, three, window),
    ensures
        agree_outside(one, three, window),
{
    assert forall|x: int, y: int|
        #![trigger pixel(one, x, y)]
        #![trigger pixel(three, x, y)]
        in_image(one, x, y) && !in_window(window, x, y) implies pixel(one, x, y) == pixel(
        three,
        x,
        y,
    ) by {
        assert(pixel(one, x, y) == pixel(two, x, y));
        assert(pixel(two, x, y) == pixel(three, x, y));
    }
}

/// A star changes pixels only inside its window, if each of its lines does.
pub proof fn law_star_stays_in_window<
    T,
    I: Fn(T) -> u8,
    S: Fn(GrayBuffer, Window, RayFrame, RayDirection, u8) -> GrayBuffer,
>(
    clamp: I,
    segment: S,
    window: Window,
    hist: Seq<T>,
    full_turn: bool,
    n: nat,
    before: GrayBuffer,
    after: GrayBuffer,
)
    requires
        stays_in_window(segment),
        draws_star(clamp, segment, window, hist, full_turn, n, before, after),
    ensures
        agree_outside(before, after, window),
    decreases n,
{
    if n > 0 {
        let m = (n - 1) as nat;
        let bins = hist.len() as int;
        let (image, intensity) = choose|image: GrayBuffer, intensity: u8|
            {
                &&& draws_star(clamp, segment, window, hist, full_turn, m, before, image)
                &&& call_ensures(clamp, (hist[n - 1],), intensity)
                &&& #[trigger] draws_bucket(
                    segment,
                    window,
                    n - 1,
                    bins,
                    full_turn,
                    intensity,
                    image,
                    after,
                )
            };
        law_star_stays_in_window(clamp, segment, window, hist, full_turn, m, before, image);
        lemma_bucket_stays_in_window(
            segment,
            window,
            n - 1,
            bins,
            full_turn,
            intensity,
            image,
            after,
        );
        lemma_agree_outside_transitive(before, image, after, window);
    }
}

/// The rays of one bucket look the same on images that agree inside the star's window.
proof fn lemma_bucket_depends_on_window<
    S: Fn(GrayBuffer, Window, RayFrame, RayDirection, u8) -> GrayBuffer,
>(
    segment: S,
    window: Window,
    bucket: int,
    orientations: int,
    full_turn: bool,
    intensity: u8,
    one: GrayBuffer,
    after_one: GrayBuffer,
    two: GrayBuffer,
    after_two: GrayBuffer,
)
    requires
        stays_in_window(segment),
        depends_on_window(segment),
        agree_inside(one, two, window),
        draws_bucket(segment, window, bucket, orientations, full_turn, intensity, one, after_one),
        draws_bucket(segment, window, bucket, orientations, full_turn, intensity, two, after_two),
    ensures
        agree_inside(after_one, after_two, window),
{
    let forward = ray_direction(bucket, orientations, full_turn, false);
    let backward = ray_direction(bucket, orientations, full_turn, true);
    if !full_turn {
        let half_one = choose|half: GrayBuffer|
            #[trigger] draws_ray(segment, window, forward, intensity, one, half) && draws_ray(
                segment,
                window,
                backward,
                intensity,
                half,
                after_one,
            );
        let half_two = choose|half: GrayBuffer|
            #[trigger] draws_ray(segment, window, forward, intensity, two, half) && draws_ray(
                segment,
                window,
                backward,
                intensity,
                half,
                after_two,
            );
        assert(agree_inside(half_one, half_two, window));
    }
}

/// A star depends only on its histogram and on what its window held before.
pub proof fn law_star_depends_on_window<
    T,
    I: Fn(T) -> u8,
    S: Fn(GrayBuffer, Window, RayFrame, RayDirection, u8) -> GrayBuffer,
>(
    clamp: I,
    segment: S,
    window: Window,
    hist: Seq<T>,
    full_turn: bool,
    n: nat,
    one: GrayBuffer,
    after_one: GrayBuffer,
    two: GrayBuffer,
    after_two: GrayBuffer,
)
    requires
        clamps_uniquely(clamp),
        stays_in_window(segment),
        depends_on_window(segment),
        agree_inside(one, two, window),
        draws_star(clamp, segment, window, hist, full_turn, n, one, after_one),
        draws_star(clamp, segment, window, hist, full_turn, n, two, after_two),
    ensures
        agree_inside(after_one, after_two, window),
    decreases n,
{
    if n > 0 {
        let m = (n - 1) as nat;
        let bins = hist.len() as int;
        let (image_one, intensity_one) = choose|image: GrayBuffer, intensity: u8|
            {
                &&& draws_star(clamp, segment, window, hist, full_turn, m, one, image)
                &&& call_ensures(clamp, (hist[n - 1],), intensity)
                &&& #[trigger] draws_bucket(
                    segment,
                    window,
                    n - 1,
                    bins,
                    full_turn,
                    intensity,
                    image,
                    after_one,
                )
            };
        let (image_two, intensity_two) = choose|image: GrayBuffer, intensity: u8|
            {
                &&& draws_star(clamp, segment, window, hist, full_turn, m, two, image)
                &&& call_ensures(clamp, (hist[n - 1],), intensity)
                &&& #[trigger] draws_bucket(
                    segment,
                    window,
                    n - 1,
                    bins,
                    full_turn,
                    intensity,
                    image,
                    after_two,
                )
            };
        law_star_depends_on_window(
            clamp,
            segment,
            window,
            hist,
            full_turn,
            m,
            one,
            image_one,
            two,
            image_two,
        );
        assert(intensity_one == intensity_two);
        lemma_bucket_depends_on_window(
            segment,
            window,
            n - 1,
            bins,
            full_turn,
            intensity_one,
            image_one,
            after_one,
            image_two,
            after_two,
        );
    }
}

/// Pixels of one window are not changed by drawing in another that does not overlap it.
proof fn lemma_agree_elsewhere(
    one: GrayBuffer,
    after_one: GrayBuffer,
    two: GrayBuffer,
    after_two: GrayBuffer,
    window: Window,
    other: Window,
)
    requires
        agree_inside(one, two, window),
        agree_outside(one, after_one, other),
        agree_outside(two, after_two, other),
        forall|x: int, y: int| !(#[trigger] in_window(window, x, y) && in_window(other, x, y)),
    ensures
        agree_inside(after_one, after_two, window),
{
    assert forall|x: int, y: int|
        #![trigger pixel(after_one, x, y)]
        #![trigger pixel(after_two, x, y)]
        in_image(after_one, x, y) && in_window(window, x, y) implies pixel(after_one, x, y)
        == pixel(after_two, x, y) by {
        assert(pixel(one, x, y) == pixel(after_one, x, y));
        assert(pixel(two, x, y) == pixel(after_two, x, y));
        assert(pixel(one, x, y) == pixel(two, x, y));
    }
}

/// The stars of the first `n` cells look the same in the window of one cell, for two grids that
/// have the same histogram there.
proof fn lemma_grid_depends_on_cell<
    T,
    I: Fn(T) -> u8,
    S: Fn(GrayBuffer, Window, RayFrame, RayDirection, u8) -> GrayBuffer,
>(
    clamp: I,
    segment: S,
    star_side: u32,
    grid_one: Array3d<T>,
    grid_two: Array3d<T>,
    full_turn: bool,
    x: int,
    y: int,
    n: nat,
    one: GrayBuffer,
    after_one: GrayBuffer,
    two: GrayBuffer,
    after_two: GrayBuffer,
)
    requires
        clamps_uniquely(clamp),
        stays_in_window(segment),
        depends_on_window(segment),
        grid_one.lengths == grid_two.lengths,
        stars_placeable(star_side, grid_one.lengths[1], grid_one.lengths[2]),
        0 <= x < grid_one.lengths[1],
        0 <= y < grid_one.lengths[2],
        grid_one.inner(x, y) == grid_two.inner(x, y),
        n <= grid_one.lengths[1] * grid_one.lengths[2],
        agree_inside(one, two, star_window(star_side, x, y)),
        draws_grid(clamp, segment, star_side, grid_one, full_turn, n, one, after_one),
        draws_grid(clamp, segment, star_side, grid_two, full_turn, n, two, after_two),
    ensures
        agree_inside(after_one, after_two, star_window(star_side, x, y)),
    decreases n,
{
    if n > 0 {
        let m = (n - 1) as nat;
        let wide = grid_one.lengths[1];
        let high = grid_one.lengths[2];
        let bins = grid_one.lengths[0] as nat;
        let column = (n - 1) % wide as int;
        let row = (n - 1) / wide as int;
        let window = star_window(star_side, x, y);
        let other = star_window(star_side, column, row);
        lemma_offset_in_rows(wide as int, high as int, n - 1);
        let image_one = choose|image: GrayBuffer|
            draws_grid(clamp, segment, star_side, grid_one, full_turn, m, one, image)
                && #[trigger] draws_star(
                clamp,
                segment,
                other,
                grid_one.inner(column, row),
                full_turn,
                bins,
                image,
                after_one,
            );
        let image_two = choose|image: GrayBuffer|
            draws_grid(clamp, segment, star_side, grid_two, full_turn, m, two, image)
                && #[trigger] draws_star(
                clamp,
                segment,
                other,
                grid_two.inner(column, row),
                full_turn,
                bins,
                image,
                after_two,
            );
        lemma_grid_depends_on_cell(
            clamp,
            segment,
            star_side,
            grid_one,
            grid_two,
            full_turn,
            x,
            y,
            m,
            one,
            image_one,
            two,
            image_two,
        );
        if column == x && row == y {
            law_star_depends_on_window(
                clamp,
                segment,
                window,
                grid_one.inner(x, y),
                full_turn,
                bins,
                image_one,
                after_one,
                image_two,
                after_two,
            );
        } else {
            law_stars_are_apart(star_side, wide, high, x, y, column, row);
            law_stars_are_apart(star_side, wide, high, column, row, x, y);
            law_star_stays_in_window(
                clamp,
                segment,
                other,
                grid_one.inner(column, row),
                full_turn,
                bins,
                image_one,
                after_one,
            );
            law_star_stays_in_window(
                clamp,
                segment,
                other,
                grid_two.inner(column, row),
                full_turn,
                bins,
                image_two,
                after_two,
            );
            lemma_agree_elsewhere(image_one, after_one, image_two, after_two, window, other);
        }
    }
}

/// Each star depends on its own cell only: two grids with the same lengths, and the same histogram
/// at one cell, are rendered as images of the documented size that agree on the window of that
/// cell, by a line drawer that keeps to its window.
pub proof fn law_star_depends_on_its_cell<
    T,
    I: Fn(T) -> u8,
    S: Fn(GrayBuffer, Window, RayFrame, RayDirection, u8) -> GrayBuffer,
>(
    clamp: I,
    segment: S,
    star_side: u32,
    grid_one: Array3d<T>,
    grid_two: Array3d<T>,
    full_turn: bool,
    x: int,
    y: int,
    blank_one: GrayBuffer,
    out_one: GrayBuffer,
    blank_two: GrayBuffer,
    out_two: GrayBuffer,
)
    requires
        clamps_uniquely(clamp),
        stays_in_window(segment),
        depends_on_window(segment),
        grid_one.lengths == grid_two.lengths,
        stars_placeable(star_side, grid_one.lengths[1], grid_one.lengths[2]),
        0 <= x < grid_one.lengths[1],
        0 <= y < grid_one.lengths[2],
        grid_one.inner(x, y) == grid_two.inner(x, y),
        is_blank(
            blank_one,
            stars_length(star_side, grid_one.lengths[1]),
            stars_length(star_side, grid_one.lengths[2]),
        ),
        is_blank(
            blank_two,
            stars_length(star_side, grid_one.lengths[1]),
            stars_length(star_side, grid_one.lengths[2]),
        ),
        draws_grid(
            clamp,
            segment,
            star_side,
            grid_one,
            full_turn,
            (grid_one.lengths[1] * grid_one.lengths[2]) as nat,
            blank_one,
            out_one,
        ),
        draws_grid(
            clamp,
            segment,
            star_side,
            grid_two,
            full_turn,
            (grid_one.lengths[1] * grid_one.lengths[2]) as nat,
            blank_two,
            out_two,
        ),
    ensures
        gray_size(out_one).0 == stars_length(star_side, grid_one.lengths[1]),
        gray_size(out_one).1 == stars_length(star_side, grid_one.lengths[2]),
        agree_inside(out_one, out_two, star_window(star_side, x, y)),
{
    let cells = (grid_one.lengths[1] * grid_one.lengths[2]) as nat;
    assert(keeps_size(segment));
    law_grid_keeps_size(
        clamp,
        segment,
        star_side,
        grid_one,
        full_turn,
        cells,
        blank_one,
        out_one,
    );
    assert(gray_samples(blank_one) =~= gray_samples(blank_two));
    assert(agree_inside(blank_one, blank_two, star_window(star_side, x, y)));
    lemma_grid_depends_on_cell(
        clamp,
        segment,
        star_side,
        grid_one,
        grid_two,
        full_turn,
        x,
        y,
        cells,
        blank_one,
        out_one,
        blank_two,
        out_two,
    );
}

} // verus!
