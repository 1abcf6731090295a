//! Orientation histograms of the cells of an image.

use crate::buffer::Gradients;
use crate::interpolation::{law_wrapping_stays_in_bounds, Interpolation, Position};
use crate::layout::{HogLayout, HogOptions, HogSpec};
use crate::multiarray::{addressable, can_address, flat_index, lemma_flat_index_in_range, Array3d};
use vstd::prelude::*;

verus! {

/// What a vote of a pixel for a bin weighs.
#[derive(Debug, Copy, Clone, PartialEq)]
pub struct VoteWeight<T> {
    /// The share of the bin's row of cells.
    pub row: T,
    /// The share of the bin's column of cells.
    pub column: T,
    /// The share of the bin's orientation.
    pub direction: T,
    /// The magnitude of the pixel's gradient.
    pub magnitude: T,
    /// The area of a cell in pixels.
    pub cell_area: usize,
}

/// Where a pixel lies in the grid of cells, and its gradient.
#[derive(Debug, Copy, Clone, PartialEq)]
pub struct PixelSample<T> {
    /// The pixel's vertical position, in cells.
    pub row: Position<T>,
    /// The pixel's horizontal position, in cells.
    pub column: Position<T>,
    /// The magnitude of the gradient.
    pub magnitude: T,
    /// The direction of the gradient, in orientation bins.
    pub direction: Position<T>,
}

impl<T> PixelSample<T> {
    /// The bin that vote `n` of the eight votes of a pixel is for: orientation, column of cells,
    /// row of cells. The orientation varies fastest and the row slowest; of each, the left or
    /// upper neighbour comes first.
    pub open spec fn vote_bin(self, layout: HogLayout, n: int) -> (int, int, int) {
        (
            self.direction.wrapped_index(n % 2, layout.options.orientations as int),
            self.column.index((n / 2) % 2),
            self.row.index(n / 4),
        )
    }

    /// The weight of vote `n` of the eight votes of a pixel.
    pub open spec fn vote_weight(self, layout: HogLayout, n: int) -> VoteWeight<T> {
        VoteWeight {
            row: self.row.weight(n / 4),
            column: self.column.weight((n / 2) % 2),
            direction: self.direction.weight(n % 2),
            magnitude: self.magnitude,
            cell_area: layout.cell_area() as usize,
        }
    }

    /// Whether one of the eight votes of a pixel is for the given bin.
    pub open spec fn votes_for(self, layout: HogLayout, bin: (int, int, int)) -> bool {
        exists|n: int| 0 <= n < 8 && #[trigger] self.vote_bin(layout, n) == bin
    }
}

/// With two orientation bins or more, the eight votes of a pixel are for eight different bins.
pub proof fn law_votes_are_distinct<T>(
    layout: HogLayout,
    sample: PixelSample<T>,
    n: int,
    m: int,
)
    requires
        2 <= layout.options.orientations,
        sample.direction.whole < layout.options.orientations,
        0 <= n < m < 8,
    ensures
        sample.vote_bin(layout, n) != sample.vote_bin(layout, m),
{
}

/// The arithmetic on histogram entries that voting rests on.
pub struct VoteArithmetic<T, L, O, A> {
    /// The additive identity.
    pub zero: T,
    /// The position of a pixel coordinate, in cells of the given side.
    pub locate: L,
    /// The magnitude of a gradient with the given horizontal and vertical components, and its
    /// direction in orientation bins. Where the `signed` option is set, gradients in opposite
    /// directions are treated as equal: see `honours_signed`.
    pub orient: O,
    /// A histogram entry with the given vote added to it.
    pub tally: A,
}

impl<
    T,
    L: Fn(u32, usize) -> Position<T>,
    O: Fn(i16, i16, HogOptions) -> (T, Position<T>),
    A: Fn(T, VoteWeight<T>) -> T,
> VoteArithmetic<T, L, O, A> {
    /// Every operation may be called on every argument.
    pub open spec fn total(self) -> bool {
        &&& forall|coordinate: u32, side: usize| #[trigger]
            call_requires(self.locate, (coordinate, side))
        &&& forall|h: i16, v: i16, options: HogOptions| #[trigger]
            call_requires(self.orient, (h, v, options))
        &&& forall|entry: T, weight: VoteWeight<T>| #[trigger]
            call_requires(self.tally, (entry, weight))
    }

    /// Positions found in an image leave room for the grid point above them, and directions are
    /// positions on the axis of orientation bins.
    pub open spec fn in_range(self, gradients: Gradients, options: HogOptions) -> bool {
        &&& forall|coordinate: u32, position: Position<T>|
            (coordinate < gradients.width() || coordinate < gradients.height())
                && #[trigger] call_ensures(self.locate, (coordinate, options.cell_side), position)
                ==> position.whole < usize::MAX
        &&& forall|x: int, y: int, r: (T, Position<T>)|
            0 <= x < gradients.width() && 0 <= y < gradients.height() && #[trigger] call_ensures(
                self.orient,
                (gradients.horizontal_at(x, y), gradients.vertical_at(x, y), options),
                r,
            ) ==> r.1.whole < options.orientations
    }

    /// `sample` is that of the pixel at `(x, y)`.
    pub open spec fn samples(
        self,
        gradients: Gradients,
        options: HogOptions,
        x: int,
        y: int,
        sample: PixelSample<T>,
    ) -> bool {
        &&& call_ensures(self.locate, (y as u32, options.cell_side), sample.row)
        &&& call_ensures(self.locate, (x as u32, options.cell_side), sample.column)
        &&& call_ensures(
            self.orient,
            (gradients.horizontal_at(x, y), gradients.vertical_at(x, y), options),
            (sample.magnitude, sample.direction),
        )
    }

    /// `after` is what becomes of an entry `before` of the given bin when the first `n` votes of
    /// a pixel are added: those that are for this bin are tallied in turn, the others leave it as
    /// it is.
    pub open spec fn tallies_votes(
        self,
        layout: HogLayout,
        sample: PixelSample<T>,
        bin: (int, int, int),
        n: nat,
        before: T,
        after: T,
    ) -> bool
        decreases n,
    {
        if n == 0 {
            after == before
        } else if sample.vote_bin(layout, n - 1) == bin {
            exists|entry: T|
                self.tallies_votes(layout, sample, bin, (n - 1) as nat, before, entry)
                    && #[trigger] call_ensures(
                    self.tally,
                    (entry, sample.vote_weight(layout, n - 1)),
                    after,
                )
        } else {
            self.tallies_votes(layout, sample, bin, (n - 1) as nat, before, after)
        }
    }

    /// Every operation gives one result for the same arguments.
    pub open spec fn deterministic(self) -> bool {
        &&& forall|coordinate: u32, side: usize, p: Position<T>, q: Position<T>|
            #[trigger] call_ensures(self.locate, (coordinate, side), p) && #[trigger] call_ensures(
                self.locate,
                (coordinate, side),
                q,
            ) ==> p == q
        &&& forall|h: i16, v: i16, options: HogOptions, p: (T, Position<T>), q: (T, Position<T>)|
            #[trigger] call_ensures(self.orient, (h, v, options), p) && #[trigger] call_ensures(
                self.orient,
                (h, v, options),
                q,
            ) ==> p == q
        &&& forall|entry: T, weight: VoteWeight<T>, p: T, q: T|
            #[trigger] call_ensures(self.tally, (entry, weight), p) && #[trigger] call_ensures(
                self.tally,
                (entry, weight),
                q,
            ) ==> p == q
    }

    /// `sample` is that of some pixel of the image.
    pub open spec fn occurs(
        self,
        gradients: Gradients,
        options: HogOptions,
        sample: PixelSample<T>,
    ) -> bool {
        exists|x: int, y: int|
            0 <= x < gradients.width() && 0 <= y < gradients.height() && #[trigger] self.samples(
                gradients,
                options,
                x,
                y,
                sample,
            )
    }

    /// Whatever the sample of the pixel at `(x, y)`, it does not vote for the cell at `(cx, cy)`.
    pub open spec fn passes_over_cell(
        self,
        gradients: Gradients,
        layout: HogLayout,
        x: int,
        y: int,
        cx: int,
        cy: int,
    ) -> bool {
        forall|sample: PixelSample<T>, o: int|
            #[trigger] self.samples(gradients, layout.options, x, y, sample) ==>
                !#[trigger] sample.votes_for(layout, (o, cx, cy))
    }

    /// The position of a pixel of the image is found in the cell that holds it, and a pixel on the
    /// edge of a cell has no share of the next.
    pub open spec fn locates_cells(self, gradients: Gradients, side: usize) -> bool {
        forall|coordinate: u32, p: Position<T>|
            (coordinate < gradients.width() || coordinate < gradients.height())
                && #[trigger] call_ensures(self.locate, (coordinate, side), p) ==> {
                &&& p.whole == coordinate as int / side as int
                &&& coordinate as int % side as int == 0 ==> p.fraction == self.zero
            }
    }

    /// Entries are ordinary to begin with, and stay so when a vote of a pixel of the image is
    /// tallied.
    pub open spec fn stays_ordinary(
        self,
        gradients: Gradients,
        layout: HogLayout,
        ordinary: spec_fn(T) -> bool,
    ) -> bool {
        &&& ordinary(self.zero)
        &&& forall|sample: PixelSample<T>, n: int, entry: T, after: T|
            self.occurs(gradients, layout.options, sample) && 0 <= n < 8 && ordinary(entry)
                && #[trigger] call_ensures(
                self.tally,
                (entry, sample.vote_weight(layout, n)),
                after,
            ) ==> ordinary(after)
    }

    /// Votes of a pixel of the image with no share of the bin's row or column of cells leave
    /// ordinary entries as they are.
    pub open spec fn ignores_zero_shares(
        self,
        gradients: Gradients,
        layout: HogLayout,
        ordinary: spec_fn(T) -> bool,
    ) -> bool {
        forall|sample: PixelSample<T>, n: int, entry: T, after: T|
            {
                &&& self.occurs(gradients, layout.options, sample)
                &&& 0 <= n < 8
                &&& sample.vote_weight(layout, n).row == self.zero || sample.vote_weight(
                    layout,
                    n,
                ).column == self.zero
                &&& ordinary(entry)
                &&& #[trigger] call_ensures(
                    self.tally,
                    (entry, sample.vote_weight(layout, n)),
                    after,
                )
            } ==> after == entry
    }

    /// Gradients in opposite directions have the same magnitude and direction.
    pub open spec fn treats_opposites_as_equal(self, options: HogOptions) -> bool {
        forall|
            h: i16,
            v: i16,
            minus_h: i16,
            minus_v: i16,
            p: (T, Position<T>),
            q: (T, Position<T>),
        |
            minus_h == -h && minus_v == -v && #[trigger] call_ensures(
                self.orient,
                (h, v, options),
                p,
            ) && #[trigger] call_ensures(self.orient, (minus_h, minus_v, options), q) ==> p == q
    }

    /// Gradients in opposite directions are treated as equal where the options say so.
    pub open spec fn honours_signed(self, options: HogOptions) -> bool {
        options.signed ==> self.treats_opposites_as_equal(options)
    }

    /// `entry` is the entry of the given bin after all votes of the given pixels, starting from
    /// zero.
    pub open spec fn tallies_pixels(
        self,
        layout: HogLayout,
        pixels: Seq<PixelSample<T>>,
        bin: (int, int, int),
        entry: T,
    ) -> bool
        decreases pixels.len(),
    {
        if pixels.len() == 0 {
            entry == self.zero
        } else {
            exists|before: T|
                self.tallies_pixels(layout, pixels.drop_last(), bin, before)
                    && #[trigger] self.tallies_votes(layout, pixels.last(), bin, 8, before, entry)
        }
    }

    /// `pixels` are the samples of the first pixels of an image, row by row.
    pub open spec fn samples_pixels(
        self,
        gradients: Gradients,
        options: HogOptions,
        pixels: Seq<PixelSample<T>>,
    ) -> bool {
        forall|i: int|
            0 <= i < pixels.len() ==> self.samples(
                gradients,
                options,
                i % gradients.width() as int,
                i / gradients.width() as int,
                #[trigger] pixels[i],
            )
    }

    /// `grid` holds the histogram of each cell of the layout: every bin has the votes of all
    /// pixels of the image, taken row by row.
    pub open spec fn histograms(
        self,
        gradients: Gradients,
        layout: HogLayout,
        grid: Array3d<T>,
    ) -> bool {
        &&& grid.wf()
        &&& grid.lengths[0] == layout.options.orientations
        &&& grid.lengths[1] == layout.cells_wide
        &&& grid.lengths[2] == layout.cells_high
        &&& exists|pixels: Seq<PixelSample<T>>|
            {
                &&& pixels.len() == gradients.width() * gradients.height()
                &&& #[trigger] self.samples_pixels(gradients, layout.options, pixels)
                &&& forall|o: int, x: int, y: int|
                    grid.contains(o, x, y) ==> self.tallies_pixels(
                        layout,
                        pixels,
                        (o, x, y),
                        #[trigger] grid.at(o, x, y),
                    )
            }
    }
}

/// Whether the histograms of the layout can be computed in `usize` arithmetic.
pub open spec fn tallyable(layout: HogLayout) -> bool {
    &&& addressable(
        layout.options.orientations as int,
        layout.cells_wide,
        layout.cells_high,
    )
    &&& layout.cell_area() <= usize::MAX
}

/// Tests whether the histograms of the spec's cells can be computed in `usize` arithmetic.
pub fn can_tally(spec: HogSpec) -> (possible: bool)
    ensures
        possible == tallyable(spec@),
{
    let options = spec.options();
    can_address(spec.cell_grid_lengths()) && options.cell_side.checked_mul(
        options.cell_side,
    ).is_some()
}

/// True if the given outer two indices into an array are within bounds.
pub fn contains_outer<T>(array: &Array3d<T>, u: usize, v: usize) -> (contained: bool)
    ensures
        contained == (u < array.lengths[1] && v < array.lengths[2]),
{
    u < array.lengths[1] && v < array.lengths[2]
}

/// Adds the votes of one pixel to the histograms of the cells around it. Votes for cells outside
/// the grid are dropped.
fn cast_votes<
    T: Copy,
    L: Fn(u32, usize) -> Position<T>,
    O: Fn(i16, i16, HogOptions) -> (T, Position<T>),
    A: Fn(T, VoteWeight<T>) -> T,
>(
    grid: &mut Array3d<T>,
    spec: HogSpec,
    sample: PixelSample<T>,
    arithmetic: &VoteArithmetic<T, L, O, A>,
)
    requires
        old(grid).wf(),
        old(grid).lengths[0] == spec@.options.orientations,
        spec@.cell_area() <= usize::MAX,
        sample.row.whole < usize::MAX,
        sample.column.whole < usize::MAX,
        sample.direction.whole < spec@.options.orientations,
        arithmetic.total(),
    ensures
        final(grid).wf(),
        final(grid).lengths == old(grid).lengths,
        forall|o: int, x: int, y: int|
            old(grid).contains(o, x, y) ==> arithmetic.tallies_votes(
                spec@,
                sample,
                (o, x, y),
                8,
                old(grid).at(o, x, y),
                #[trigger] final(grid).at(o, x, y),
            ),
{
    let options = spec.options();
    let cell_area: usize = spec.cell_area();
    let y_inter = Interpolation::from_position(sample.row);
    let x_inter = Interpolation::from_position(sample.column);
    let o_inter = Interpolation::from_position_wrapping(sample.direction, options.orientations);
    proof {
        law_wrapping_stays_in_bounds(sample.direction, options.orientations as int);
    }
    let ghost before = *grid;
    for iy in 0..2usize
        invariant
            grid.wf(),
            grid.lengths == before.lengths,
            before.lengths[0] == spec@.options.orientations,
            options == spec@.options,
            cell_area == spec@.cell_area(),
            arithmetic.total(),
            forall|side: int|
                0 <= side < 2 ==> #[trigger] y_inter.indices[side] == sample.row.index(side),
            forall|side: int|
                0 <= side < 2 ==> #[trigger] y_inter.weights[side] == sample.row.weight(side),
            forall|side: int|
                0 <= side < 2 ==> #[trigger] x_inter.indices[side] == sample.column.index(side),
            forall|side: int|
                0 <= side < 2 ==> #[trigger] x_inter.weights[side] == sample.column.weight(side),
            forall|side: int|
                0 <= side < 2 ==> 0 <= (#[trigger] o_inter.indices[side]) < before.lengths[0]
                    && o_inter.indices[side] == sample.direction.wrapped_index(
                    side,
                    options.orientations as int,
                ),
            forall|side: int|
                0 <= side < 2 ==> #[trigger] o_inter.weights[side] == sample.direction.weight(side),
            forall|o: int, x: int, y: int|
                before.contains(o, x, y) ==> arithmetic.tallies_votes(
                    spec@,
                    sample,
                    (o, x, y),
                    (4 * iy) as nat,
                    before.at(o, x, y),
                    #[trigger] grid.at(o, x, y),
                ),
    {
        let py: usize = y_inter.indices[iy];
        for ix in 0..2usize
            invariant
                grid.wf(),
                grid.lengths == before.lengths,
                before.lengths[0] == spec@.options.orientations,
                options == spec@.options,
                cell_area == spec@.cell_area(),
                arithmetic.total(),
                iy < 2,
                py == sample.row.index(iy as int),
                y_inter.weights[iy as int] == sample.row.weight(iy as int),
                forall|side: int|
                    0 <= side < 2 ==> #[trigger] x_inter.indices[side] == sample.column.index(side),
                forall|side: int|
                    0 <= side < 2 ==> #[trigger] x_inter.weights[side] == sample.column.weight(
                        side,
                    ),
                forall|side: int|
                    0 <= side < 2 ==> 0 <= (#[trigger] o_inter.indices[side]) < before.lengths[0]
                        && o_inter.indices[side] == sample.direction.wrapped_index(
                        side,
                        options.orientations as int,
                    ),
                forall|side: int|
                    0 <= side < 2 ==> #[trigger] o_inter.weights[side] == sample.direction.weight(
                        side,
                    ),
                forall|o: int, x: int, y: int|
                    before.contains(o, x, y) ==> arithmetic.tallies_votes(
                        spec@,
                        sample,
                        (o, x, y),
                        (4 * iy + 2 * ix) as nat,
                        before.at(o, x, y),
                        #[trigger] grid.at(o, x, y),
                    ),
        {
            let px: usize = x_inter.indices[ix];
            for io in 0..2usize
                invariant
                    grid.wf(),
                    grid.lengths == before.lengths,
                    before.lengths[0] == spec@.options.orientations,
                    options == spec@.options,
                    cell_area == spec@.cell_area(),
                    arithmetic.total(),
                    iy < 2,
                    ix < 2,
                    py == sample.row.index(iy as int),
                    y_inter.weights[iy as int] == sample.row.weight(iy as int),
                    px == sample.column.index(ix as int),
                    x_inter.weights[ix as int] == sample.column.weight(ix as int),
                    forall|side: int|
                        0 <= side < 2 ==> 0 <= (#[trigger] o_inter.indices[side])
                            < before.lengths[0] && o_inter.indices[side]
                            == sample.direction.wrapped_index(side, options.orientations as int),
                    forall|side: int|
                        0 <= side < 2 ==> #[trigger] o_inter.weights[side]
                            == sample.direction.weight(side),
                    forall|o: int, x: int, y: int|
                        before.contains(o, x, y) ==> arithmetic.tallies_votes(
                            spec@,
                            sample,
                            (o, x, y),
                            (4 * iy + 2 * ix + io) as nat,
                            before.at(o, x, y),
                            #[trigger] grid.at(o, x, y),
                        ),
            {
                let po: usize = o_inter.indices[io];
                let ghost n = 4 * iy + 2 * ix + io;
                let ghost entries = *grid;
                if contains_outer(grid, px, py) {
                    let weight = VoteWeight {
                        row: y_inter.weights[iy],
                        column: x_inter.weights[ix],
                        direction: o_inter.weights[io],
                        magnitude: sample.magnitude,
                        cell_area,
                    };
                    let current: T = *grid.at_mut([po, px, py]);
                    *grid.at_mut([po, px, py]) = (arithmetic.tally)(current, weight);
                    assert(weight == sample.vote_weight(spec@, n));
                }
                assert(sample.vote_bin(spec@, n) == (po as int, px as int, py as int));
                assert forall|o: int, x: int, y: int| before.contains(o, x, y) implies
                    arithmetic.tallies_votes(
                    spec@,
                    sample,
                    (o, x, y),
                    (n + 1) as nat,
                    before.at(o, x, y),
                    #[trigger] grid.at(o, x, y),
                ) by {
                    let entry = entries.at(o, x, y);
                    let m = (n + 1) as nat;
                    assert(arithmetic.tallies_votes(
                        spec@,
                        sample,
                        (o, x, y),
                        (m - 1) as nat,
                        before.at(o, x, y),
                        entry,
                    ));
                }
            }
        }
    }
}

/// Offsets along the rows of an image: the pixel at `(x, y)` has offset `y * width + x`.
proof fn lemma_row_offset(width: int, x: int, y: int)
    requires
        0 <= x < width,
        0 <= y,
    ensures
        (y * width + x) % width == x,
        (y * width + x) / width == y,
{
    vstd::arithmetic::div_mod::lemma_fundamental_div_mod_converse(y * width + x, width, y, x);
}

/// Computes orientation histograms for each cell of an image. Assumes that
/// the provided dimensions are valid.
pub fn cell_histograms<
    T: Copy,
    L: Fn(u32, usize) -> Position<T>,
    O: Fn(i16, i16, HogOptions) -> (T, Position<T>),
    A: Fn(T, VoteWeight<T>) -> T,
>(gradients: &Gradients, spec: HogSpec, arithmetic: &VoteArithmetic<T, L, O, A>) -> (grid: Array3d<
    T,
>)
    requires
        tallyable(spec@),
        arithmetic.total(),
        arithmetic.in_range(*gradients, spec@.options),
    ensures
        arithmetic.histograms(*gradients, spec@, grid),
{
    let (width, height) = gradients.dimensions();
    let options = spec.options();
    let mut grid: Array3d<T> = Array3d::new(spec.cell_grid_lengths(), arithmetic.zero);
    let ghost mut pixels: Seq<PixelSample<T>> = Seq::empty();
    proof {
        assert forall|o: int, x: int, y: int| grid.contains(o, x, y) implies
            arithmetic.tallies_pixels(spec@, pixels, (o, x, y), #[trigger] grid.at(o, x, y)) by {
            let l0 = grid.lengths[0] as int;
            let l1 = grid.lengths[1] as int;
            lemma_flat_index_in_range(l0, l1, grid.lengths[2] as int, x, y);
            assert(grid.data@[flat_index(l0, l1, o, x, y)] == arithmetic.zero);
        }
        assert(0 * width == 0) by (nonlinear_arith);
    }
    for y in 0..height
        invariant
            width == gradients.width(),
            height == gradients.height(),
            options == spec@.options,
            tallyable(spec@),
            arithmetic.total(),
            arithmetic.in_range(*gradients, spec@.options),
            grid.wf(),
            grid.lengths[0] == options.orientations,
            grid.lengths[1] == spec@.cells_wide,
            grid.lengths[2] == spec@.cells_high,
            pixels.len() == y * width,
            arithmetic.samples_pixels(*gradients, options, pixels),
            forall|o: int, cx: int, cy: int|
                grid.contains(o, cx, cy) ==> arithmetic.tallies_pixels(
                    spec@,
                    pixels,
                    (o, cx, cy),
                    #[trigger] grid.at(o, cx, cy),
                ),
    {
        let row: Position<T> = (arithmetic.locate)(y, options.cell_side);
        for x in 0..width
            invariant
                width == gradients.width(),
                height == gradients.height(),
                y < height,
                options == spec@.options,
                tallyable(spec@),
                arithmetic.total(),
                arithmetic.in_range(*gradients, spec@.options),
                call_ensures(arithmetic.locate, (y, options.cell_side), row),
                grid.wf(),
                grid.lengths[0] == options.orientations,
                grid.lengths[1] == spec@.cells_wide,
                grid.lengths[2] == spec@.cells_high,
                pixels.len() == y * width + x,
                arithmetic.samples_pixels(*gradients, options, pixels),
                forall|o: int, cx: int, cy: int|
                    grid.contains(o, cx, cy) ==> arithmetic.tallies_pixels(
                        spec@,
                        pixels,
                        (o, cx, cy),
                        #[trigger] grid.at(o, cx, cy),
                    ),
        {
            let column: Position<T> = (arithmetic.locate)(x, options.cell_side);
            let (h, v) = gradients.get_pixel(x, y);
            let (magnitude, direction) = (arithmetic.orient)(h, v, options);
            let sample = PixelSample { row, column, magnitude, direction };
            let ghost entries = grid;
            let ghost before = pixels;
            cast_votes(&mut grid, spec, sample, arithmetic);
            proof {
                pixels = before.push(sample);
                lemma_row_offset(width as int, x as int, y as int);
                assert forall|o: int, cx: int, cy: int| grid.contains(o, cx, cy) implies
                    arithmetic.tallies_pixels(
                    spec@,
                    pixels,
                    (o, cx, cy),
                    #[trigger] grid.at(o, cx, cy),
                ) by {
                    assert(pixels.drop_last() =~= before);
                    let entry = entries.at(o, cx, cy);
                    assert(arithmetic.tallies_pixels(
                        spec@,
                        pixels.drop_last(),
                        (o, cx, cy),
                        entry,
                    ));
                    assert(pixels.last() == sample);
                    assert(entries.contains(o, cx, cy));
                }
            }
        }
        assert((y + 1) * width == y * width + width) by (nonlinear_arith);
    }
    assert(pixels.len() == gradients.width() * gradients.height()) by (nonlinear_arith)
        requires
            pixels.len() == gradients.height() * gradients.width(),
    ;
    grid
}

} // verus!
