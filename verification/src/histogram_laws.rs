//! What the histograms of an image depend on.

use crate::buffer::Gradients;
use crate::histogram::{tallyable, PixelSample, VoteArithmetic, VoteWeight};
use crate::interpolation::{law_neighbours, law_wrapped_neighbours, Position};
use crate::layout::{law_lengths, HogLayout, HogOptions};
use crate::multiarray::{
    flat_index, law_addressable, law_flat_index_bijective, law_runs_hold_entries,
    lemma_flat_index_in_range, lemma_offset_in_rows, Array3d,
};
use vstd::prelude::*;

verus! {

/// The eight votes of a pixel are for the bin at or below its direction and the next one in
/// increasing order, modulo the number of orientations, in the column of cells at or left of the
/// pixel and the next one, and in the row of cells at or above it and the next one.
pub proof fn law_votes_go_to_neighbours<T>(layout: HogLayout, sample: PixelSample<T>, n: int)
    requires
        sample.direction.whole < layout.options.orientations,
        0 <= n < 8,
    ensures
        sample.vote_bin(layout, n).0 == (sample.direction.whole + n % 2) % (
        layout.options.orientations as int),
        sample.vote_bin(layout, n).1 == sample.column.whole + (n / 2) % 2,
        sample.vote_bin(layout, n).2 == sample.row.whole + n / 4,
{
    law_wrapped_neighbours(sample.direction, n % 2, layout.options.orientations as int);
}

/// The shares of a vote follow from the bin that it is for, each from one of its indices alone: the
/// lower neighbour of a position has its complement as its share and the upper neighbour its
/// fraction. Every vote carries the whole magnitude, and the area of a square cell.
pub proof fn law_shares_follow_from_bins<T>(layout: HogLayout, sample: PixelSample<T>, n: int)
    requires
        2 <= layout.options.orientations,
        sample.direction.whole < layout.options.orientations,
        0 <= n < 8,
    ensures
        ({
            let (o, x, y) = sample.vote_bin(layout, n);
            let weight = sample.vote_weight(layout, n);
            let next = (sample.direction.whole + 1) % (layout.options.orientations as int);
            &&& o == sample.direction.whole ==> weight.direction == sample.direction.complement
            &&& o == next ==> weight.direction == sample.direction.fraction
            &&& x == sample.column.whole ==> weight.column == sample.column.complement
            &&& x == sample.column.whole + 1 ==> weight.column == sample.column.fraction
            &&& y == sample.row.whole ==> weight.row == sample.row.complement
            &&& y == sample.row.whole + 1 ==> weight.row == sample.row.fraction
            &&& weight.magnitude == sample.magnitude
            &&& weight.cell_area == (layout.options.cell_side
                * layout.options.cell_side) as usize
        }),
{
    law_votes_go_to_neighbours(layout, sample, n);
    lemma_neighbours_differ(sample.direction.whole as int, layout.options.orientations as int);
}

/// With two orientations or more, a bin and the next one are different, and both within bounds.
proof fn lemma_neighbours_differ(whole: int, orientations: int)
    requires
        2 <= orientations,
        0 <= whole < orientations,
    ensures
        whole % orientations == whole,
        (whole + 1) % orientations != whole,
        0 <= (whole + 1) % orientations < orientations,
{
    vstd::arithmetic::div_mod::lemma_small_mod(whole as nat, orientations as nat);
    if whole + 1 < orientations {
        vstd::arithmetic::div_mod::lemma_small_mod((whole + 1) as nat, orientations as nat);
    } else {
        vstd::arithmetic::div_mod::lemma_mod_self_0(orientations);
    }
}

/// If one vote alone is for a bin, what the first `m` votes make of an entry of that bin.
proof fn lemma_only_vote<
    T,
    L: Fn(u32, usize) -> Position<T>,
    O: Fn(i16, i16, HogOptions) -> (T, Position<T>),
    A: Fn(T, VoteWeight<T>) -> T,
>(
    arithmetic: VoteArithmetic<T, L, O, A>,
    layout: HogLayout,
    sample: PixelSample<T>,
    bin: (int, int, int),
    n: int,
    m: nat,
    before: T,
    after: T,
)
    requires
        0 <= n < 8,
        m <= 8,
        sample.vote_bin(layout, n) == bin,
        forall|k: int| 0 <= k < 8 && k != n ==> #[trigger] sample.vote_bin(layout, k) != bin,
    ensures
        arithmetic.tallies_votes(layout, sample, bin, m, before, after) <==> if m <= n {
            after == before
        } else {
            call_ensures(arithmetic.tally, (before, sample.vote_weight(layout, n)), after)
        },
    decreases m,
{
    if m > 0 {
        let k = (m - 1) as nat;
        if k == n {
            lemma_only_vote(arithmetic, layout, sample, bin, n, k, before, before);
            if arithmetic.tallies_votes(layout, sample, bin, m, before, after) {
                let entry = choose|entry: T|
                    arithmetic.tallies_votes(layout, sample, bin, k, before, entry)
                        && #[trigger] call_ensures(
                        arithmetic.tally,
                        (entry, sample.vote_weight(layout, m - 1)),
                        after,
                    );
                lemma_only_vote(arithmetic, layout, sample, bin, n, k, before, entry);
            }
        } else {
            assert(sample.vote_bin(layout, m - 1) != bin);
            lemma_only_vote(arithmetic, layout, sample, bin, n, k, before, after);
        }
    }
}

/// What a pixel does to an entry of a histogram, with two orientations or more. Where the entry's
/// bin is next to the pixel's direction, and its cell next to the pixel both horizontally and
/// vertically, one vote is tallied, whose shares are those of the neighbours that bin and cell are.
/// All other entries are kept.
pub proof fn law_pixel_votes<
    T,
    L: Fn(u32, usize) -> Position<T>,
    O: Fn(i16, i16, HogOptions) -> (T, Position<T>),
    A: Fn(T, VoteWeight<T>) -> T,
>(
    arithmetic: VoteArithmetic<T, L, O, A>,
    layout: HogLayout,
    sample: PixelSample<T>,
    o: int,
    cx: int,
    cy: int,
    before: T,
    after: T,
)
    requires
        2 <= layout.options.orientations,
        sample.direction.whole < layout.options.orientations,
    ensures
        arithmetic.tallies_votes(layout, sample, (o, cx, cy), 8, before, after) <==> if (o
            == sample.direction.whole || o == (sample.direction.whole + 1) % (
        layout.options.orientations as int)) && (cx == sample.column.whole || cx
            == sample.column.whole + 1) && (cy == sample.row.whole || cy == sample.row.whole + 1) {
            call_ensures(
                arithmetic.tally,
                (
                    before,
                    VoteWeight {
                        row: if cy == sample.row.whole {
                            sample.row.complement
                        } else {
                            sample.row.fraction
                        },
                        column: if cx == sample.column.whole {
                            sample.column.complement
                        } else {
                            sample.column.fraction
                        },
                        direction: if o == sample.direction.whole {
                            sample.direction.complement
                        } else {
                            sample.direction.fraction
                        },
                        magnitude: sample.magnitude,
                        cell_area: (layout.options.cell_side * layout.options.cell_side) as usize,
                    },
                ),
                after,
            )
        } else {
            after == before
        },
{
    let bin = (o, cx, cy);
    let next = (sample.direction.whole + 1) % (layout.options.orientations as int);
    lemma_neighbours_differ(sample.direction.whole as int, layout.options.orientations as int);
    assert forall|n: int| 0 <= n < 8 implies {
        let b = #[trigger] sample.vote_bin(layout, n);
        &&& b.0 == if n % 2 == 0 {
            sample.direction.whole as int
        } else {
            next
        }
        &&& b.1 == sample.column.whole + (n / 2) % 2
        &&& b.2 == sample.row.whole + n / 4
    } by {
        law_votes_go_to_neighbours(layout, sample, n);
    }
    if (o == sample.direction.whole || o == next) && (cx == sample.column.whole || cx
        == sample.column.whole + 1) && (cy == sample.row.whole || cy == sample.row.whole + 1) {
        let d: int = if o == sample.direction.whole { 0 } else { 1 };
        let dx: int = cx - sample.column.whole;
        let dy: int = cy - sample.row.whole;
        let n: int = 4 * dy + 2 * dx + d;
        assert(0 <= n < 8 && n % 2 == d && (n / 2) % 2 == dx && n / 4 == dy);
        assert(sample.vote_bin(layout, n) == bin);
        law_shares_follow_from_bins(layout, sample, n);
        lemma_only_vote(arithmetic, layout, sample, bin, n, 8, before, after);
        assert(sample.vote_weight(layout, n) == VoteWeight {
            row: if cy == sample.row.whole {
                sample.row.complement
            } else {
                sample.row.fraction
            },
            column: if cx == sample.column.whole {
                sample.column.complement
            } else {
                sample.column.fraction
            },
            direction: if o == sample.direction.whole {
                sample.direction.complement
            } else {
                sample.direction.fraction
            },
            magnitude: sample.magnitude,
            cell_area: (layout.options.cell_side * layout.options.cell_side) as usize,
        });
    } else {
        assert(!sample.votes_for(layout, bin));
        law_unreached_bins_are_kept(arithmetic, layout, sample, bin, before, after);
    }
}

/// With a single orientation, both directions of a pixel are the same bin: an entry of a cell next
/// to the pixel has one vote with the share of the direction below, `lower`, and then one with the
/// share of the direction above, `upper`. All other entries are kept.
pub proof fn law_pixel_votes_for_one_orientation<
    T,
    L: Fn(u32, usize) -> Position<T>,
    O: Fn(i16, i16, HogOptions) -> (T, Position<T>),
    A: Fn(T, VoteWeight<T>) -> T,
>(
    arithmetic: VoteArithmetic<T, L, O, A>,
    layout: HogLayout,
    sample: PixelSample<T>,
    cx: int,
    cy: int,
    lower: VoteWeight<T>,
    upper: VoteWeight<T>,
    before: T,
    after: T,
)
    requires
        layout.options.orientations == 1,
        sample.direction.whole == 0,
        arithmetic.tallies_votes(layout, sample, (0, cx, cy), 8, before, after),
        lower == (VoteWeight {
            row: if cy == sample.row.whole {
                sample.row.complement
            } else {
                sample.row.fraction
            },
            column: if cx == sample.column.whole {
                sample.column.complement
            } else {
                sample.column.fraction
            },
            direction: sample.direction.complement,
            magnitude: sample.magnitude,
            cell_area: (layout.options.cell_side * layout.options.cell_side) as usize,
        }),
        upper == (VoteWeight { direction: sample.direction.fraction, ..lower }),
    ensures
        if (cx == sample.column.whole || cx == sample.column.whole + 1) && (cy == sample.row.whole
            || cy == sample.row.whole + 1) {
            exists|entry: T|
                #[trigger] call_ensures(arithmetic.tally, (before, lower), entry) && call_ensures(
                    arithmetic.tally,
                    (entry, upper),
                    after,
                )
        } else {
            after == before
        },
{
    let bin = (0int, cx, cy);
    assert forall|n: int| 0 <= n < 8 implies #[trigger] sample.vote_bin(layout, n) == (
        0int,
        sample.column.whole + (n / 2) % 2,
        sample.row.whole + n / 4,
    ) by {
        law_votes_go_to_neighbours(layout, sample, n);
        assert((sample.direction.whole + n % 2) % 1 == 0);
    }
    if (cx == sample.column.whole || cx == sample.column.whole + 1) && (cy == sample.row.whole || cy
        == sample.row.whole + 1) {
        let dx: int = cx - sample.column.whole;
        let dy: int = cy - sample.row.whole;
        let n: int = 4 * dy + 2 * dx;
        assert(0 <= n < 7 && n % 2 == 0 && (n / 2) % 2 == dx && n / 4 == dy);
        assert((n + 1) % 2 == 1 && ((n + 1) / 2) % 2 == dx && (n + 1) / 4 == dy);
        assert(sample.vote_bin(layout, n) == bin && sample.vote_bin(layout, n + 1) == bin);
        law_neighbours(sample.row);
        law_neighbours(sample.column);
        law_neighbours(sample.direction);
        assert(sample.vote_weight(layout, n) == lower);
        assert(sample.vote_weight(layout, n + 1) == upper);
        lemma_two_votes(arithmetic, layout, sample, bin, n, 8, before, after);
    } else {
        assert(!sample.votes_for(layout, bin));
        law_unreached_bins_are_kept(arithmetic, layout, sample, bin, before, after);
    }
}

/// If two votes that follow each other are alone for a bin, what the first `m` votes make of an
/// entry of that bin.
proof fn lemma_two_votes<
    T,
    L: Fn(u32, usize) -> Position<T>,
    O: Fn(i16, i16, HogOptions) -> (T, Position<T>),
    A: Fn(T, VoteWeight<T>) -> T,
>(
    arithmetic: VoteArithmetic<T, L, O, A>,
    layout: HogLayout,
    sample: PixelSample<T>,
    bin: (int, int, int),
    n: int,
    m: nat,
    before: T,
    after: T,
)
    requires
        0 <= n < 7,
        m <= 8,
        sample.vote_bin(layout, n) == bin,
        sample.vote_bin(layout, n + 1) == bin,
        forall|k: int|
            0 <= k < 8 && k != n && k != n + 1 ==> #[trigger] sample.vote_bin(layout, k) != bin,
        arithmetic.tallies_votes(layout, sample, bin, m, before, after),
    ensures
        m <= n ==> after == before,
        m == n + 1 ==> call_ensures(
            arithmetic.tally,
            (before, sample.vote_weight(layout, n)),
            after,
        ),
        n + 1 < m ==> exists|entry: T|
            #[trigger] call_ensures(
                arithmetic.tally,
                (before, sample.vote_weight(layout, n)),
                entry,
            ) && call_ensures(
                arithmetic.tally,
                (entry, sample.vote_weight(layout, n + 1)),
                after,
            ),
    decreases m,
{
    if m > 0 {
        let k = (m - 1) as nat;
        if k == n || k == n + 1 {
            assert(sample.vote_bin(layout, m - 1) == bin);
            let entry = choose|entry: T|
                arithmetic.tallies_votes(layout, sample, bin, k, before, entry)
                    && #[trigger] call_ensures(
                    arithmetic.tally,
                    (entry, sample.vote_weight(layout, m - 1)),
                    after,
                );
            lemma_two_votes(arithmetic, layout, sample, bin, n, k, before, entry);
        } else {
            assert(sample.vote_bin(layout, m - 1) != bin);
            lemma_two_votes(arithmetic, layout, sample, bin, n, k, before, after);
        }
    }
}

/// A pixel whose direction lies on a bin has no share of the next one: where a vote without a share
/// of a direction has no effect, the pixel leaves the next bin as it is in every cell.
pub proof fn law_aligned_pixels_keep_next_bin<
    T,
    L: Fn(u32, usize) -> Position<T>,
    O: Fn(i16, i16, HogOptions) -> (T, Position<T>),
    A: Fn(T, VoteWeight<T>) -> T,
>(
    arithmetic: VoteArithmetic<T, L, O, A>,
    layout: HogLayout,
    sample: PixelSample<T>,
    cx: int,
    cy: int,
    before: T,
    after: T,
)
    requires
        2 <= layout.options.orientations,
        sample.direction.whole < layout.options.orientations,
        sample.direction.fraction == arithmetic.zero,
        forall|entry: T, weight: VoteWeight<T>, tallied: T|
            weight.direction == arithmetic.zero && #[trigger] call_ensures(
                arithmetic.tally,
                (entry, weight),
                tallied,
            ) ==> tallied == entry,
        arithmetic.tallies_votes(
            layout,
            sample,
            (
                (sample.direction.whole + 1) % (layout.options.orientations as int),
                cx,
                cy,
            ),
            8,
            before,
            after,
        ),
    ensures
        after == before,
{
    let next = (sample.direction.whole + 1) % (layout.options.orientations as int);
    lemma_neighbours_differ(sample.direction.whole as int, layout.options.orientations as int);
    law_pixel_votes(arithmetic, layout, sample, next, cx, cy, before, after);
}

/// The sample of a pixel is located by its row, its column and its own gradient.
pub proof fn law_samples_are_local<
    T,
    L: Fn(u32, usize) -> Position<T>,
    O: Fn(i16, i16, HogOptions) -> (T, Position<T>),
    A: Fn(T, VoteWeight<T>) -> T,
>(
    arithmetic: VoteArithmetic<T, L, O, A>,
    gradients: Gradients,
    options: HogOptions,
    x: u32,
    y: u32,
    sample: PixelSample<T>,
)
    requires
        arithmetic.samples(gradients, options, x as int, y as int, sample),
    ensures
        call_ensures(arithmetic.locate, (x, options.cell_side), sample.column),
        call_ensures(arithmetic.locate, (y, options.cell_side), sample.row),
        call_ensures(
            arithmetic.orient,
            (
                gradients.horizontal_at(x as int, y as int),
                gradients.vertical_at(x as int, y as int),
                options,
            ),
            (sample.magnitude, sample.direction),
        ),
{
}

/// The entry of a bin is zero, with the votes of every pixel of the image added, row by row: it is
/// the last of a run of entries that starts with zero and of which each comes from the one before
/// by the votes of the next pixel.
pub proof fn law_every_pixel_votes_once<
    T,
    L: Fn(u32, usize) -> Position<T>,
    O: Fn(i16, i16, HogOptions) -> (T, Position<T>),
    A: Fn(T, VoteWeight<T>) -> T,
>(
    arithmetic: VoteArithmetic<T, L, O, A>,
    layout: HogLayout,
    gradients: Gradients,
    grid: Array3d<T>,
    o: int,
    cx: int,
    cy: int,
)
    requires
        arithmetic.histograms(gradients, layout, grid),
        0 <= o < layout.options.orientations,
        0 <= cx < layout.cells_wide,
        0 <= cy < layout.cells_high,
    ensures
        grid.lengths@ == seq![
            layout.options.orientations,
            layout.cells_wide as usize,
            layout.cells_high as usize,
        ],
        grid.data@.len() == layout.options.orientations * layout.cells_wide * layout.cells_high,
        exists|pixels: Seq<PixelSample<T>>, entries: Seq<T>|
            #![trigger pixels.len(), entries.len()]
            {
                &&& pixels.len() == gradients.width() * gradients.height()
                &&& entries.len() == gradients.width() * gradients.height() + 1
                &&& entries.first() == arithmetic.zero
                &&& entries.last() == grid.data@[(cy * layout.cells_wide + cx)
                    * layout.options.orientations + o]
                &&& forall|x: int, y: int|
                    #![trigger gradients.horizontal_at(x, y)]
                    0 <= x < gradients.width() && 0 <= y < gradients.height() ==> {
                        let sample = pixels[y * gradients.width() + x];
                        &&& call_ensures(
                            arithmetic.locate,
                            (x as u32, layout.options.cell_side),
                            sample.column,
                        )
                        &&& call_ensures(
                            arithmetic.locate,
                            (y as u32, layout.options.cell_side),
                            sample.row,
                        )
                        &&& call_ensures(
                            arithmetic.orient,
                            (
                                gradients.horizontal_at(x, y),
                                gradients.vertical_at(x, y),
                                layout.options,
                            ),
                            (sample.magnitude, sample.direction),
                        )
                    }
                &&& forall|i: int|
                    0 <= i < pixels.len() ==> arithmetic.tallies_votes(
                        layout,
                        #[trigger] pixels[i],
                        (o, cx, cy),
                        8,
                        entries[i],
                        entries[i + 1],
                    )
            },
{
    let pixels = choose|pixels: Seq<PixelSample<T>>|
        {
            &&& pixels.len() == gradients.width() * gradients.height()
            &&& #[trigger] arithmetic.samples_pixels(gradients, layout.options, pixels)
            &&& forall|o: int, x: int, y: int|
                grid.contains(o, x, y) ==> arithmetic.tallies_pixels(
                    layout,
                    pixels,
                    (o, x, y),
                    #[trigger] grid.at(o, x, y),
                )
        };
    assert(grid.contains(o, cx, cy));
    law_runs_hold_entries(grid, o, cx, cy);
    let entries = lemma_run_of_entries(
        arithmetic,
        layout,
        pixels,
        (o, cx, cy),
        grid.at(o, cx, cy),
    );
    let width = gradients.width() as int;
    let height = gradients.height() as int;
    assert forall|x: int, y: int|
        #![trigger gradients.horizontal_at(x, y)]
        0 <= x < width && 0 <= y < height implies {
        let sample = pixels[y * width + x];
        &&& call_ensures(
            arithmetic.locate,
            (x as u32, layout.options.cell_side),
            sample.column,
        )
        &&& call_ensures(
            arithmetic.locate,
            (y as u32, layout.options.cell_side),
            sample.row,
        )
        &&& call_ensures(
            arithmetic.orient,
            (
                gradients.horizontal_at(x, y),
                gradients.vertical_at(x, y),
                layout.options,
            ),
            (sample.magnitude, sample.direction),
        )
    } by {
        let i = y * width + x;
        vstd::arithmetic::div_mod::lemma_fundamental_div_mod_converse(i, width, y, x);
        assert(0 <= i < width * height) by (nonlinear_arith)
            requires
                i == y * width + x,
                0 <= x < width,
                0 <= y < height,
        ;
        assert(arithmetic.samples(gradients, layout.options, x, y, pixels[i]));
    }
    assert(pixels.len() + 1 == entries.len());
}

/// The entries of a bin before and after the votes of each of the given pixels.
proof fn lemma_run_of_entries<
    T,
    L: Fn(u32, usize) -> Position<T>,
    O: Fn(i16, i16, HogOptions) -> (T, Position<T>),
    A: Fn(T, VoteWeight<T>) -> T,
>(
    arithmetic: VoteArithmetic<T, L, O, A>,
    layout: HogLayout,
    pixels: Seq<PixelSample<T>>,
    bin: (int, int, int),
    entry: T,
) -> (entries: Seq<T>)
    requires
        arithmetic.tallies_pixels(layout, pixels, bin, entry),
    ensures
        entries.len() == pixels.len() + 1,
        entries.first() == arithmetic.zero,
        entries.last() == entry,
        forall|i: int|
            0 <= i < pixels.len() ==> arithmetic.tallies_votes(
                layout,
                #[trigger] pixels[i],
                bin,
                8,
                entries[i],
                entries[i + 1],
            ),
    decreases pixels.len(),
{
    if pixels.len() == 0 {
        seq![entry]
    } else {
        let before = choose|before: T|
            arithmetic.tallies_pixels(layout, pixels.drop_last(), bin, before)
                && #[trigger] arithmetic.tallies_votes(
                layout,
                pixels.last(),
                bin,
                8,
                before,
                entry,
            );
        let front = lemma_run_of_entries(arithmetic, layout, pixels.drop_last(), bin, before);
        let entries = front.push(entry);
        assert forall|i: int| 0 <= i < pixels.len() implies arithmetic.tallies_votes(
            layout,
            #[trigger] pixels[i],
            bin,
            8,
            entries[i],
            entries[i + 1],
        ) by {
            if i < pixels.len() - 1 {
                assert(pixels.drop_last()[i] == pixels[i]);
            }
        }
        entries
    }
}

/// Histograms can be computed whenever their entries, one plane of them, and the pixels of a cell
/// can be counted in `usize`.
pub proof fn law_histograms_are_tallyable(layout: HogLayout)
    requires
        layout.options.orientations * layout.cells_wide <= usize::MAX,
        layout.options.orientations * layout.cells_wide * layout.cells_high <= usize::MAX,
        layout.options.cell_side * layout.options.cell_side <= usize::MAX,
    ensures
        tallyable(layout),
{
    law_addressable(
        layout.options.orientations as int,
        layout.cells_wide,
        layout.cells_high,
    );
    law_lengths(layout);
}

/// Arithmetic is in range for every image if it finds positions below `usize::MAX` and directions
/// within the number of orientations.
pub proof fn law_bounded_arithmetic_is_in_range<
    T,
    L: Fn(u32, usize) -> Position<T>,
    O: Fn(i16, i16, HogOptions) -> (T, Position<T>),
    A: Fn(T, VoteWeight<T>) -> T,
>(
    arithmetic: VoteArithmetic<T, L, O, A>,
    gradients: Gradients,
    options: HogOptions,
)
    requires
        forall|coordinate: u32, position: Position<T>|
            #[trigger] call_ensures(arithmetic.locate, (coordinate, options.cell_side), position)
                ==> position.whole < usize::MAX,
        forall|h: i16, v: i16, r: (T, Position<T>)|
            #[trigger] call_ensures(arithmetic.orient, (h, v, options), r) ==> r.1.whole
                < options.orientations,
    ensures
        arithmetic.in_range(gradients, options),
{
}

/// A pixel none of whose votes is for a bin leaves the entries of that bin as they are.
pub proof fn law_unreached_bins_are_kept<
    T,
    L: Fn(u32, usize) -> Position<T>,
    O: Fn(i16, i16, HogOptions) -> (T, Position<T>),
    A: Fn(T, VoteWeight<T>) -> T,
>(
    arithmetic: VoteArithmetic<T, L, O, A>,
    layout: HogLayout,
    sample: PixelSample<T>,
    bin: (int, int, int),
    before: T,
    after: T,
)
    requires
        !sample.votes_for(layout, bin),
    ensures
        arithmetic.tallies_votes(layout, sample, bin, 8, before, after) <==> after == before,
{
    lemma_unreached_by(arithmetic, layout, sample, bin, 8, before, after);
}

/// `law_unreached_bins_are_kept` for the first `n` votes.
proof fn lemma_unreached_by<
    T,
    L: Fn(u32, usize) -> Position<T>,
    O: Fn(i16, i16, HogOptions) -> (T, Position<T>),
    A: Fn(T, VoteWeight<T>) -> T,
>(
    arithmetic: VoteArithmetic<T, L, O, A>,
    layout: HogLayout,
    sample: PixelSample<T>,
    bin: (int, int, int),
    n: nat,
    before: T,
    after: T,
)
    requires
        n <= 8,
        !sample.votes_for(layout, bin),
    ensures
        arithmetic.tallies_votes(layout, sample, bin, n, before, after) <==> after == before,
    decreases n,
{
    if n > 0 {
        assert(sample.vote_bin(layout, n - 1) != bin);
        lemma_unreached_by(arithmetic, layout, sample, bin, (n - 1) as nat, before, after);
    }
}

/// The tally of a bin depends only on the pixels that vote for it: samples that agree on those
/// admit the same entries.
pub proof fn law_tally_depends_on_voters<
    T,
    L: Fn(u32, usize) -> Position<T>,
    O: Fn(i16, i16, HogOptions) -> (T, Position<T>),
    A: Fn(T, VoteWeight<T>) -> T,
>(
    arithmetic: VoteArithmetic<T, L, O, A>,
    layout: HogLayout,
    pixels: Seq<PixelSample<T>>,
    others: Seq<PixelSample<T>>,
    bin: (int, int, int),
    entry: T,
)
    requires
        pixels.len() == others.len(),
        forall|i: int|
            #![trigger pixels[i]]
            #![trigger others[i]]
            0 <= i < pixels.len() ==> pixels[i] == others[i] || (!pixels[i].votes_for(layout, bin)
                && !others[i].votes_for(layout, bin)),
    ensures
        arithmetic.tallies_pixels(layout, pixels, bin, entry) <==> arithmetic.tallies_pixels(
            layout,
            others,
            bin,
            entry,
        ),
{
    lemma_tally_carries_over(arithmetic, layout, pixels, others, bin, entry);
    lemma_tally_carries_over(arithmetic, layout, others, pixels, bin, entry);
}

/// One direction of `law_tally_depends_on_voters`.
proof fn lemma_tally_carries_over<
    T,
    L: Fn(u32, usize) -> Position<T>,
    O: Fn(i16, i16, HogOptions) -> (T, Position<T>),
    A: Fn(T, VoteWeight<T>) -> T,
>(
    arithmetic: VoteArithmetic<T, L, O, A>,
    layout: HogLayout,
    pixels: Seq<PixelSample<T>>,
    others: Seq<PixelSample<T>>,
    bin: (int, int, int),
    entry: T,
)
    requires
        pixels.len() == others.len(),
        forall|i: int|
            #![trigger pixels[i]]
            #![trigger others[i]]
            0 <= i < pixels.len() ==> pixels[i] == others[i] || (!pixels[i].votes_for(layout, bin)
                && !others[i].votes_for(layout, bin)),
    ensures
        arithmetic.tallies_pixels(layout, pixels, bin, entry) ==> arithmetic.tallies_pixels(
            layout,
            others,
            bin,
            entry,
        ),
    decreases pixels.len(),
{
    if pixels.len() > 0 && arithmetic.tallies_pixels(layout, pixels, bin, entry) {
        let sample = pixels.last();
        let other = others.last();
        let before = choose|before: T|
            arithmetic.tallies_pixels(layout, pixels.drop_last(), bin, before)
                && #[trigger] arithmetic.tallies_votes(layout, sample, bin, 8, before, entry);
        lemma_tally_carries_over(
            arithmetic,
            layout,
            pixels.drop_last(),
            others.drop_last(),
            bin,
            before,
        );
        let last = pixels.len() - 1;
        assert(pixels[last] == sample && others[last] == other);
        if sample != other {
            law_unreached_bins_are_kept(arithmetic, layout, sample, bin, before, entry);
            law_unreached_bins_are_kept(arithmetic, layout, other, bin, before, entry);
        }
        assert(arithmetic.tallies_votes(layout, other, bin, 8, before, entry));
    }
}

/// Deterministic operations give one entry after the votes of a pixel.
proof fn lemma_votes_unique<
    T,
    L: Fn(u32, usize) -> Position<T>,
    O: Fn(i16, i16, HogOptions) -> (T, Position<T>),
    A: Fn(T, VoteWeight<T>) -> T,
>(
    arithmetic: VoteArithmetic<T, L, O, A>,
    layout: HogLayout,
    sample: PixelSample<T>,
    bin: (int, int, int),
    n: nat,
    before: T,
    one: T,
    two: T,
)
    requires
        arithmetic.deterministic(),
        arithmetic.tallies_votes(layout, sample, bin, n, before, one),
        arithmetic.tallies_votes(layout, sample, bin, n, before, two),
    ensures
        one == two,
    decreases n,
{
    if n > 0 {
        let m = (n - 1) as nat;
        let weight = sample.vote_weight(layout, n - 1);
        if sample.vote_bin(layout, n - 1) == bin {
            let a = choose|entry: T|
                arithmetic.tallies_votes(layout, sample, bin, m, before, entry)
                    && #[trigger] call_ensures(arithmetic.tally, (entry, weight), one);
            let b = choose|entry: T|
                arithmetic.tallies_votes(layout, sample, bin, m, before, entry)
                    && #[trigger] call_ensures(arithmetic.tally, (entry, weight), two);
            lemma_votes_unique(arithmetic, layout, sample, bin, m, before, a, b);
        } else {
            lemma_votes_unique(arithmetic, layout, sample, bin, m, before, one, two);
        }
    }
}

/// Deterministic operations give one tally of the same samples.
pub proof fn law_tally_is_unique<
    T,
    L: Fn(u32, usize) -> Position<T>,
    O: Fn(i16, i16, HogOptions) -> (T, Position<T>),
    A: Fn(T, VoteWeight<T>) -> T,
>(
    arithmetic: VoteArithmetic<T, L, O, A>,
    layout: HogLayout,
    pixels: Seq<PixelSample<T>>,
    bin: (int, int, int),
    one: T,
    two: T,
)
    requires
        arithmetic.deterministic(),
        arithmetic.tallies_pixels(layout, pixels, bin, one),
        arithmetic.tallies_pixels(layout, pixels, bin, two),
    ensures
        one == two,
    decreases pixels.len(),
{
    if pixels.len() > 0 {
        let sample = pixels.last();
        let a = choose|before: T|
            arithmetic.tallies_pixels(layout, pixels.drop_last(), bin, before)
                && #[trigger] arithmetic.tallies_votes(layout, sample, bin, 8, before, one);
        let b = choose|before: T|
            arithmetic.tallies_pixels(layout, pixels.drop_last(), bin, before)
                && #[trigger] arithmetic.tallies_votes(layout, sample, bin, 8, before, two);
        law_tally_is_unique(arithmetic, layout, pixels.drop_last(), bin, a, b);
        lemma_votes_unique(arithmetic, layout, sample, bin, 8, a, one, two);
    }
}

/// The votes of a sample keep ordinary entries ordinary.
spec fn keeps_ordinary<
    T,
    L: Fn(u32, usize) -> Position<T>,
    O: Fn(i16, i16, HogOptions) -> (T, Position<T>),
    A: Fn(T, VoteWeight<T>) -> T,
>(
    arithmetic: VoteArithmetic<T, L, O, A>,
    layout: HogLayout,
    ordinary: spec_fn(T) -> bool,
    sample: PixelSample<T>,
) -> bool {
    forall|n: int, entry: T, after: T|
        0 <= n < 8 && ordinary(entry) && #[trigger] call_ensures(
            arithmetic.tally,
            (entry, sample.vote_weight(layout, n)),
            after,
        ) ==> ordinary(after)
}

/// The votes of a sample for the given bin have no effect on ordinary entries.
spec fn without_effect<
    T,
    L: Fn(u32, usize) -> Position<T>,
    O: Fn(i16, i16, HogOptions) -> (T, Position<T>),
    A: Fn(T, VoteWeight<T>) -> T,
>(
    arithmetic: VoteArithmetic<T, L, O, A>,
    layout: HogLayout,
    ordinary: spec_fn(T) -> bool,
    sample: PixelSample<T>,
    bin: (int, int, int),
) -> bool {
    forall|n: int, entry: T, after: T|
        0 <= n < 8 && sample.vote_bin(layout, n) == bin && ordinary(entry)
            && #[trigger] call_ensures(
            arithmetic.tally,
            (entry, sample.vote_weight(layout, n)),
            after,
        ) ==> after == entry
}

/// What the first `n` votes of a sample make of an ordinary entry.
proof fn lemma_votes_on_ordinary<
    T,
    L: Fn(u32, usize) -> Position<T>,
    O: Fn(i16, i16, HogOptions) -> (T, Position<T>),
    A: Fn(T, VoteWeight<T>) -> T,
>(
    arithmetic: VoteArithmetic<T, L, O, A>,
    layout: HogLayout,
    ordinary: spec_fn(T) -> bool,
    sample: PixelSample<T>,
    bin: (int, int, int),
    n: nat,
    before: T,
    after: T,
)
    requires
        n <= 8,
        ordinary(before),
        keeps_ordinary(arithmetic, layout, ordinary, sample),
        arithmetic.tallies_votes(layout, sample, bin, n, before, after),
    ensures
        ordinary(after),
        without_effect(arithmetic, layout, ordinary, sample, bin) ==> after == before,
    decreases n,
{
    if n > 0 {
        let m = (n - 1) as nat;
        if sample.vote_bin(layout, n - 1) == bin {
            let entry = choose|entry: T|
                arithmetic.tallies_votes(layout, sample, bin, m, before, entry)
                    && #[trigger] call_ensures(
                    arithmetic.tally,
                    (entry, sample.vote_weight(layout, n - 1)),
                    after,
                );
            lemma_votes_on_ordinary(
                arithmetic,
                layout,
                ordinary,
                sample,
                bin,
                m,
                before,
                entry,
            );
        } else {
            lemma_votes_on_ordinary(
                arithmetic,
                layout,
                ordinary,
                sample,
                bin,
                m,
                before,
                after,
            );
        }
    }
}

/// Samples that differ only where their votes for a bin have no effect give the bin one entry.
proof fn lemma_tallies_equal<
    T,
    L: Fn(u32, usize) -> Position<T>,
    O: Fn(i16, i16, HogOptions) -> (T, Position<T>),
    A: Fn(T, VoteWeight<T>) -> T,
>(
    arithmetic: VoteArithmetic<T, L, O, A>,
    layout: HogLayout,
    ordinary: spec_fn(T) -> bool,
    pixels: Seq<PixelSample<T>>,
    others: Seq<PixelSample<T>>,
    bin: (int, int, int),
    one: T,
    two: T,
)
    requires
        arithmetic.deterministic(),
        ordinary(arithmetic.zero),
        pixels.len() == others.len(),
        forall|i: int|
            #![trigger pixels[i]]
            #![trigger others[i]]
            0 <= i < pixels.len() ==> {
                &&& keeps_ordinary(arithmetic, layout, ordinary, pixels[i])
                &&& keeps_ordinary(arithmetic, layout, ordinary, others[i])
                &&& pixels[i] == others[i] || (without_effect(
                    arithmetic,
                    layout,
                    ordinary,
                    pixels[i],
                    bin,
                ) && without_effect(arithmetic, layout, ordinary, others[i], bin))
            },
        arithmetic.tallies_pixels(layout, pixels, bin, one),
        arithmetic.tallies_pixels(layout, others, bin, two),
    ensures
        one == two,
        ordinary(one),
    decreases pixels.len(),
{
    if pixels.len() > 0 {
        let last = pixels.len() - 1;
        let sample = pixels.last();
        let other = others.last();
        assert(pixels[last] == sample && others[last] == other);
        let a = choose|before: T|
            arithmetic.tallies_pixels(layout, pixels.drop_last(), bin, before)
                && #[trigger] arithmetic.tallies_votes(layout, sample, bin, 8, before, one);
        let b = choose|before: T|
            arithmetic.tallies_pixels(layout, others.drop_last(), bin, before)
                && #[trigger] arithmetic.tallies_votes(layout, other, bin, 8, before, two);
        lemma_tallies_equal(
            arithmetic,
            layout,
            ordinary,
            pixels.drop_last(),
            others.drop_last(),
            bin,
            a,
            b,
        );
        lemma_votes_on_ordinary(arithmetic, layout, ordinary, sample, bin, 8, a, one);
        lemma_votes_on_ordinary(arithmetic, layout, ordinary, other, bin, 8, b, two);
        if sample == other {
            lemma_votes_unique(arithmetic, layout, sample, bin, 8, a, one, two);
        }
    }
}

/// Whatever the sample of a pixel, its votes for a cell have no effect on ordinary entries.
spec fn pixel_without_effect<
    T,
    L: Fn(u32, usize) -> Position<T>,
    O: Fn(i16, i16, HogOptions) -> (T, Position<T>),
    A: Fn(T, VoteWeight<T>) -> T,
>(
    arithmetic: VoteArithmetic<T, L, O, A>,
    layout: HogLayout,
    ordinary: spec_fn(T) -> bool,
    gradients: Gradients,
    x: int,
    y: int,
    cx: int,
    cy: int,
) -> bool {
    forall|sample: PixelSample<T>, o: int|
        #[trigger] arithmetic.samples(gradients, layout.options, x, y, sample) ==>
            #[trigger] without_effect(arithmetic, layout, ordinary, sample, (o, cx, cy))
}

/// The samples of an image are those of its pixels, and keep ordinary entries ordinary.
proof fn lemma_sample_of_pixel<
    T,
    L: Fn(u32, usize) -> Position<T>,
    O: Fn(i16, i16, HogOptions) -> (T, Position<T>),
    A: Fn(T, VoteWeight<T>) -> T,
>(
    arithmetic: VoteArithmetic<T, L, O, A>,
    layout: HogLayout,
    ordinary: spec_fn(T) -> bool,
    gradients: Gradients,
    pixels: Seq<PixelSample<T>>,
    i: int,
)
    requires
        arithmetic.stays_ordinary(gradients, layout, ordinary),
        arithmetic.samples_pixels(gradients, layout.options, pixels),
        pixels.len() == gradients.width() * gradients.height(),
        0 <= i < pixels.len(),
    ensures
        ({
            let x = i % gradients.width() as int;
            let y = i / gradients.width() as int;
            &&& 0 <= x < gradients.width()
            &&& 0 <= y < gradients.height()
            &&& arithmetic.samples(gradients, layout.options, x, y, pixels[i])
        }),
        keeps_ordinary(arithmetic, layout, ordinary, pixels[i]),
{
    lemma_offset_in_rows(gradients.width() as int, gradients.height() as int, i);
    let x = i % gradients.width() as int;
    let y = i / gradients.width() as int;
    assert(arithmetic.samples(gradients, layout.options, x, y, pixels[i]));
    assert(arithmetic.occurs(gradients, layout.options, pixels[i]));
}

/// Two images have the same histogram at a cell if they differ only at pixels whose votes for that
/// cell have no effect.
proof fn lemma_cells_equal<
    T,
    L: Fn(u32, usize) -> Position<T>,
    O: Fn(i16, i16, HogOptions) -> (T, Position<T>),
    A: Fn(T, VoteWeight<T>) -> T,
>(
    arithmetic: VoteArithmetic<T, L, O, A>,
    layout: HogLayout,
    one: Gradients,
    two: Gradients,
    grid_one: Array3d<T>,
    grid_two: Array3d<T>,
    cx: int,
    cy: int,
    ordinary: spec_fn(T) -> bool,
)
    requires
        arithmetic.deterministic(),
        arithmetic.stays_ordinary(one, layout, ordinary),
        arithmetic.stays_ordinary(two, layout, ordinary),
        one.width() == two.width(),
        one.height() == two.height(),
        arithmetic.histograms(one, layout, grid_one),
        arithmetic.histograms(two, layout, grid_two),
        0 <= cx < layout.cells_wide,
        0 <= cy < layout.cells_high,
        forall|x: int, y: int|
            #![trigger one.horizontal_at(x, y)]
            #![trigger two.horizontal_at(x, y)]
            0 <= x < one.width() && 0 <= y < one.height() ==> {
                ||| one.horizontal_at(x, y) == two.horizontal_at(x, y) && one.vertical_at(x, y)
                    == two.vertical_at(x, y)
                ||| pixel_without_effect(arithmetic, layout, ordinary, one, x, y, cx, cy)
                    && pixel_without_effect(arithmetic, layout, ordinary, two, x, y, cx, cy)
            },
    ensures
        grid_one.inner(cx, cy) == grid_two.inner(cx, cy),
{
    let pixels = choose|pixels: Seq<PixelSample<T>>|
        {
            &&& pixels.len() == one.width() * one.height()
            &&& #[trigger] arithmetic.samples_pixels(one, layout.options, pixels)
            &&& forall|o: int, x: int, y: int|
                grid_one.contains(o, x, y) ==> arithmetic.tallies_pixels(
                    layout,
                    pixels,
                    (o, x, y),
                    #[trigger] grid_one.at(o, x, y),
                )
        };
    let others = choose|pixels: Seq<PixelSample<T>>|
        {
            &&& pixels.len() == two.width() * two.height()
            &&& #[trigger] arithmetic.samples_pixels(two, layout.options, pixels)
            &&& forall|o: int, x: int, y: int|
                grid_two.contains(o, x, y) ==> arithmetic.tallies_pixels(
                    layout,
                    pixels,
                    (o, x, y),
                    #[trigger] grid_two.at(o, x, y),
                )
        };
    let l0 = grid_one.lengths[0] as int;
    let l1 = grid_one.lengths[1] as int;
    let l2 = grid_one.lengths[2] as int;
    lemma_flat_index_in_range(l0, l1, l2, cx, cy);
    assert forall|o: int| 0 <= o < l0 implies grid_one.inner(cx, cy)[o] == grid_two.inner(
        cx,
        cy,
    )[o] by {
        let bin = (o, cx, cy);
        assert forall|i: int|
            #![trigger pixels[i]]
            #![trigger others[i]]
            0 <= i < pixels.len() implies {
            &&& keeps_ordinary(arithmetic, layout, ordinary, pixels[i])
            &&& keeps_ordinary(arithmetic, layout, ordinary, others[i])
            &&& pixels[i] == others[i] || (without_effect(
                arithmetic,
                layout,
                ordinary,
                pixels[i],
                bin,
            ) && without_effect(arithmetic, layout, ordinary, others[i], bin))
        } by {
            lemma_sample_of_pixel(arithmetic, layout, ordinary, one, pixels, i);
            lemma_sample_of_pixel(arithmetic, layout, ordinary, two, others, i);
            let x = i % one.width() as int;
            let y = i / one.width() as int;
            if one.horizontal_at(x, y) == two.horizontal_at(x, y) && one.vertical_at(x, y)
                == two.vertical_at(x, y) {
                let a = (pixels[i].magnitude, pixels[i].direction);
                let b = (others[i].magnitude, others[i].direction);
                assert(a == b);
            }
        }
        assert(grid_one.contains(o, cx, cy) && grid_two.contains(o, cx, cy));
        lemma_tallies_equal(
            arithmetic,
            layout,
            ordinary,
            pixels,
            others,
            bin,
            grid_one.at(o, cx, cy),
            grid_two.at(o, cx, cy),
        );
    }
    assert(grid_one.inner(cx, cy) =~= grid_two.inner(cx, cy));
}

/// The histogram of a cell depends only on the gradients of the pixels that vote for it: two
/// images of the same size have the same histogram there if they differ only at pixels that do not
/// vote for the cell.
pub proof fn law_cell_depends_on_voters<
    T,
    L: Fn(u32, usize) -> Position<T>,
    O: Fn(i16, i16, HogOptions) -> (T, Position<T>),
    A: Fn(T, VoteWeight<T>) -> T,
>(
    arithmetic: VoteArithmetic<T, L, O, A>,
    layout: HogLayout,
    one: Gradients,
    two: Gradients,
    grid_one: Array3d<T>,
    grid_two: Array3d<T>,
    cx: int,
    cy: int,
)
    requires
        arithmetic.deterministic(),
        one.width() == two.width(),
        one.height() == two.height(),
        arithmetic.histograms(one, layout, grid_one),
        arithmetic.histograms(two, layout, grid_two),
        0 <= cx < layout.cells_wide,
        0 <= cy < layout.cells_high,
        forall|x: int, y: int|
            #![trigger one.horizontal_at(x, y)]
            #![trigger two.horizontal_at(x, y)]
            0 <= x < one.width() && 0 <= y < one.height() ==> {
                ||| one.horizontal_at(x, y) == two.horizontal_at(x, y) && one.vertical_at(x, y)
                    == two.vertical_at(x, y)
                ||| arithmetic.passes_over_cell(one, layout, x, y, cx, cy)
                    && arithmetic.passes_over_cell(two, layout, x, y, cx, cy)
            },
    ensures
        grid_one.inner(cx, cy) == grid_two.inner(cx, cy),
{
    let any = |entry: T| true;
    assert forall|x: int, y: int|
        #![trigger one.horizontal_at(x, y)]
        #![trigger two.horizontal_at(x, y)]
        0 <= x < one.width() && 0 <= y < one.height() implies {
        ||| one.horizontal_at(x, y) == two.horizontal_at(x, y) && one.vertical_at(x, y)
            == two.vertical_at(x, y)
        ||| pixel_without_effect(arithmetic, layout, any, one, x, y, cx, cy)
            && pixel_without_effect(arithmetic, layout, any, two, x, y, cx, cy)
    } by {
        if arithmetic.passes_over_cell(one, layout, x, y, cx, cy) && arithmetic.passes_over_cell(
            two,
            layout,
            x,
            y,
            cx,
            cy,
        ) {
            lemma_passed_over_cell(arithmetic, layout, any, one, x, y, cx, cy);
            lemma_passed_over_cell(arithmetic, layout, any, two, x, y, cx, cy);
        }
    }
    lemma_cells_equal(arithmetic, layout, one, two, grid_one, grid_two, cx, cy, any);
}

/// A pixel that does not vote for a cell is without effect on it.
proof fn lemma_passed_over_cell<
    T,
    L: Fn(u32, usize) -> Position<T>,
    O: Fn(i16, i16, HogOptions) -> (T, Position<T>),
    A: Fn(T, VoteWeight<T>) -> T,
>(
    arithmetic: VoteArithmetic<T, L, O, A>,
    layout: HogLayout,
    ordinary: spec_fn(T) -> bool,
    gradients: Gradients,
    x: int,
    y: int,
    cx: int,
    cy: int,
)
    requires
        arithmetic.passes_over_cell(gradients, layout, x, y, cx, cy),
    ensures
        pixel_without_effect(arithmetic, layout, ordinary, gradients, x, y, cx, cy),
{
    assert forall|sample: PixelSample<T>, o: int|
        #[trigger] arithmetic.samples(gradients, layout.options, x, y, sample) implies
        #[trigger] without_effect(arithmetic, layout, ordinary, sample, (o, cx, cy)) by {
        assert(!sample.votes_for(layout, (o, cx, cy)));
    }
}

/// Where a pixel is a cell's side or more away from the corner of a cell, in either direction, its
/// position has no share of that cell.
proof fn lemma_far_position<T>(coordinate: int, side: int, cell: int, p: Position<T>, i: int, zero: T)
    requires
        0 < side,
        0 <= coordinate,
        0 <= i < 2,
        p.whole == coordinate / side,
        coordinate % side == 0 ==> p.fraction == zero,
        p.index(i) == cell,
        coordinate - cell * side >= side || cell * side - coordinate >= side,
    ensures
        p.weight(i) == zero,
{
    let whole = coordinate / side;
    assert(coordinate == side * whole + coordinate % side && 0 <= coordinate % side < side)
        by (nonlinear_arith)
        requires
            0 < side,
            whole == coordinate / side,
    ;
    if i == 0 {
        assert(cell * side == side * whole) by (nonlinear_arith)
            requires
                cell == whole,
        ;
    } else {
        assert(cell * side == side * whole + side) by (nonlinear_arith)
            requires
                cell == whole + 1,
        ;
    }
}

/// The histogram of a cell depends only on gradients less than one cell away from its corner: two
/// images of the same size have the same histogram there if their gradients agree at all pixels
/// that are less than a cell's side away, horizontally and vertically. This rests on positions
/// being found in the right cell, and on votes without a share of a cell having no effect on the
/// entries that can come up: `ordinary` tells those, starts with zero and is kept by every vote.
pub proof fn law_cell_depends_on_nearby_pixels<
    T,
    L: Fn(u32, usize) -> Position<T>,
    O: Fn(i16, i16, HogOptions) -> (T, Position<T>),
    A: Fn(T, VoteWeight<T>) -> T,
>(
    arithmetic: VoteArithmetic<T, L, O, A>,
    layout: HogLayout,
    one: Gradients,
    two: Gradients,
    grid_one: Array3d<T>,
    grid_two: Array3d<T>,
    cx: int,
    cy: int,
    ordinary: spec_fn(T) -> bool,
)
    requires
        arithmetic.deterministic(),
        arithmetic.locates_cells(one, layout.options.cell_side),
        arithmetic.stays_ordinary(one, layout, ordinary),
        arithmetic.stays_ordinary(two, layout, ordinary),
        arithmetic.ignores_zero_shares(one, layout, ordinary),
        arithmetic.ignores_zero_shares(two, layout, ordinary),
        0 < layout.options.cell_side,
        one.width() == two.width(),
        one.height() == two.height(),
        arithmetic.histograms(one, layout, grid_one),
        arithmetic.histograms(two, layout, grid_two),
        0 <= cx < layout.cells_wide,
        0 <= cy < layout.cells_high,
        forall|x: int, y: int|
            #![trigger one.horizontal_at(x, y)]
            #![trigger two.horizontal_at(x, y)]
            0 <= x < one.width() && 0 <= y < one.height() && -layout.options.cell_side < x - cx
                * layout.options.cell_side < layout.options.cell_side
                && -layout.options.cell_side < y - cy * layout.options.cell_side
                < layout.options.cell_side ==> one.horizontal_at(x, y) == two.horizontal_at(x, y)
                && one.vertical_at(x, y) == two.vertical_at(x, y),
    ensures
        grid_one.inner(cx, cy) == grid_two.inner(cx, cy),
{
    let side = layout.options.cell_side as int;
    assert forall|x: int, y: int|
        #![trigger one.horizontal_at(x, y)]
        #![trigger two.horizontal_at(x, y)]
        0 <= x < one.width() && 0 <= y < one.height() implies {
        ||| one.horizontal_at(x, y) == two.horizontal_at(x, y) && one.vertical_at(x, y)
            == two.vertical_at(x, y)
        ||| pixel_without_effect(arithmetic, layout, ordinary, one, x, y, cx, cy)
            && pixel_without_effect(arithmetic, layout, ordinary, two, x, y, cx, cy)
    } by {
        if !(-side < x - cx * side < side && -side < y - cy * side < side) {
            lemma_far_pixel(arithmetic, layout, ordinary, one, x, y, cx, cy);
            lemma_far_pixel(arithmetic, layout, ordinary, two, x, y, cx, cy);
        }
    }
    lemma_cells_equal(arithmetic, layout, one, two, grid_one, grid_two, cx, cy, ordinary);
}

/// A pixel that is a cell's side or more away from the corner of a cell is without effect on it.
proof fn lemma_far_pixel<
    T,
    L: Fn(u32, usize) -> Position<T>,
    O: Fn(i16, i16, HogOptions) -> (T, Position<T>),
    A: Fn(T, VoteWeight<T>) -> T,
>(
    arithmetic: VoteArithmetic<T, L, O, A>,
    layout: HogLayout,
    ordinary: spec_fn(T) -> bool,
    gradients: Gradients,
    x: int,
    y: int,
    cx: int,
    cy: int,
)
    requires
        arithmetic.locates_cells(gradients, layout.options.cell_side),
        arithmetic.ignores_zero_shares(gradients, layout, ordinary),
        0 < layout.options.cell_side,
        0 <= x < gradients.width(),
        0 <= y < gradients.height(),
        ({
            let side = layout.options.cell_side as int;
            !(-side < x - cx * side < side && -side < y - cy * side < side)
        }),
    ensures
        pixel_without_effect(arithmetic, layout, ordinary, gradients, x, y, cx, cy),
{
    let side = layout.options.cell_side as int;
    assert forall|sample: PixelSample<T>, o: int|
        #[trigger] arithmetic.samples(gradients, layout.options, x, y, sample) implies
        #[trigger] without_effect(arithmetic, layout, ordinary, sample, (o, cx, cy)) by {
        let bin = (o, cx, cy);
        let zero = arithmetic.zero;
        assert(arithmetic.occurs(gradients, layout.options, sample));
        assert forall|n: int, entry: T, after: T|
            0 <= n < 8 && sample.vote_bin(layout, n) == bin && ordinary(entry)
                && #[trigger] call_ensures(
                arithmetic.tally,
                (entry, sample.vote_weight(layout, n)),
                after,
            ) implies after == entry by {
            if -side < x - cx * side < side {
                lemma_far_position(y, side, cy, sample.row, n / 4, zero);
            } else {
                lemma_far_position(x, side, cx, sample.column, (n / 2) % 2, zero);
            }
        }
    }
}

/// Histograms depend on gradients only through their magnitude and direction: two images of the
/// same size whose gradients have the same magnitudes and directions have the same histograms.
pub proof fn law_histograms_depend_on_orientations<
    T,
    L: Fn(u32, usize) -> Position<T>,
    O: Fn(i16, i16, HogOptions) -> (T, Position<T>),
    A: Fn(T, VoteWeight<T>) -> T,
>(
    arithmetic: VoteArithmetic<T, L, O, A>,
    layout: HogLayout,
    one: Gradients,
    two: Gradients,
    grid_one: Array3d<T>,
    grid_two: Array3d<T>,
)
    requires
        arithmetic.deterministic(),
        one.width() == two.width(),
        one.height() == two.height(),
        arithmetic.histograms(one, layout, grid_one),
        arithmetic.histograms(two, layout, grid_two),
        forall|x: int, y: int, p: (T, Position<T>), q: (T, Position<T>)|
            0 <= x < one.width() && 0 <= y < one.height() && #[trigger] call_ensures(
                arithmetic.orient,
                (one.horizontal_at(x, y), one.vertical_at(x, y), layout.options),
                p,
            ) && #[trigger] call_ensures(
                arithmetic.orient,
                (two.horizontal_at(x, y), two.vertical_at(x, y), layout.options),
                q,
            ) ==> p == q,
    ensures
        grid_one.data@ == grid_two.data@,
        grid_one.lengths@ == grid_two.lengths@,
{
    let pixels = choose|pixels: Seq<PixelSample<T>>|
        {
            &&& pixels.len() == one.width() * one.height()
            &&& #[trigger] arithmetic.samples_pixels(one, layout.options, pixels)
            &&& forall|o: int, x: int, y: int|
                grid_one.contains(o, x, y) ==> arithmetic.tallies_pixels(
                    layout,
                    pixels,
                    (o, x, y),
                    #[trigger] grid_one.at(o, x, y),
                )
        };
    let others = choose|pixels: Seq<PixelSample<T>>|
        {
            &&& pixels.len() == two.width() * two.height()
            &&& #[trigger] arithmetic.samples_pixels(two, layout.options, pixels)
            &&& forall|o: int, x: int, y: int|
                grid_two.contains(o, x, y) ==> arithmetic.tallies_pixels(
                    layout,
                    pixels,
                    (o, x, y),
                    #[trigger] grid_two.at(o, x, y),
                )
        };
    let any = |entry: T| true;
    assert forall|i: int| 0 <= i < pixels.len() implies pixels[i] == others[i] by {
        lemma_sample_of_pixel(arithmetic, layout, any, one, pixels, i);
        lemma_sample_of_pixel(arithmetic, layout, any, two, others, i);
        let x = i % one.width() as int;
        let y = i / one.width() as int;
        let p = (pixels[i].magnitude, pixels[i].direction);
        let q = (others[i].magnitude, others[i].direction);
        assert(call_ensures(
            arithmetic.orient,
            (one.horizontal_at(x, y), one.vertical_at(x, y), layout.options),
            p,
        ));
        assert(call_ensures(
            arithmetic.orient,
            (two.horizontal_at(x, y), two.vertical_at(x, y), layout.options),
            q,
        ));
        assert(p == q);
    }
    assert(pixels =~= others);
    let l0 = grid_one.lengths[0] as int;
    let l1 = grid_one.lengths[1] as int;
    let l2 = grid_one.lengths[2] as int;
    assert forall|position: int| 0 <= position < grid_one.data@.len() implies #[trigger]
        grid_one.data@[position] == grid_two.data@[position] by {
        assert(0 < l0 && 0 < l1 && 0 < l2) by (nonlinear_arith)
            requires
                0 <= position < (l0 * l1) * l2,
                0 <= l0,
                0 <= l1,
                0 <= l2,
        ;
        law_flat_index_bijective(l0, l1, l2, position);
        let (o, x, y) = choose|i0: int, i1: int, i2: int|
            0 <= i0 < l0 && 0 <= i1 < l1 && 0 <= i2 < l2 && #[trigger] flat_index(
                l0,
                l1,
                i0,
                i1,
                i2,
            ) == position;
        assert(grid_one.contains(o, x, y) && grid_two.contains(o, x, y));
        law_tally_is_unique(
            arithmetic,
            layout,
            pixels,
            (o, x, y),
            grid_one.at(o, x, y),
            grid_two.at(o, x, y),
        );
    }
    assert(grid_one.data@ =~= grid_two.data@);
    assert(grid_one.lengths@ =~= grid_two.lengths@);
}

/// Where the `signed` option is set, and the supplied arithmetic honours it, turning every gradient
/// of an image around leaves its histograms the same.
pub proof fn law_opposite_gradients_have_same_histograms<
    T,
    L: Fn(u32, usize) -> Position<T>,
    O: Fn(i16, i16, HogOptions) -> (T, Position<T>),
    A: Fn(T, VoteWeight<T>) -> T,
>(
    arithmetic: VoteArithmetic<T, L, O, A>,
    layout: HogLayout,
    one: Gradients,
    two: Gradients,
    grid_one: Array3d<T>,
    grid_two: Array3d<T>,
)
    requires
        arithmetic.deterministic(),
        arithmetic.honours_signed(layout.options),
        layout.options.signed,
        one.width() == two.width(),
        one.height() == two.height(),
        arithmetic.histograms(one, layout, grid_one),
        arithmetic.histograms(two, layout, grid_two),
        forall|x: int, y: int|
            #![trigger one.horizontal_at(x, y)]
            #![trigger two.horizontal_at(x, y)]
            0 <= x < one.width() && 0 <= y < one.height() ==> two.horizontal_at(x, y)
                == -one.horizontal_at(x, y) && two.vertical_at(x, y) == -one.vertical_at(x, y),
    ensures
        grid_one.data@ == grid_two.data@,
        grid_one.lengths@ == grid_two.lengths@,
{
    law_histograms_depend_on_orientations(arithmetic, layout, one, two, grid_one, grid_two);
}

} // verus!
