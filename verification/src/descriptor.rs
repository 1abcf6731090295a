//! Collecting a grid of cell histograms into blocks, and normalising each block.

use crate::layout::{
    law_blocks_are_measurable, law_blocks_within_cells, law_lengths, HogLayout, HogSpec,
};
use crate::multiarray::{
    addressable, can_address, copy, flat_index, inner_run, inner_slice_mut,
    law_first_dimension_varies_fastest, law_flat_index_bijective, lemma_flat_index_in_range,
    lemma_with_run, with_run, Array3d,
};
use vstd::prelude::*;

verus! {

/// The arithmetic on histogram entries that normalising a block rests on.
pub struct BlockArithmetic<T, N, P, D> {
    /// The additive identity.
    pub zero: T,
    /// The norm of the entries of a block.
    pub norm: N,
    /// Whether a norm is greater than zero.
    pub is_positive: P,
    /// The quotient of an entry and a norm.
    pub divide: D,
}

impl<T, N: Fn(&[T]) -> T, P: Fn(T) -> bool, D: Fn(T, T) -> T> BlockArithmetic<T, N, P, D> {
    /// Every operation may be called on every argument.
    pub open spec fn total(self) -> bool {
        &&& forall|block: &[T]| #[trigger] call_requires(self.norm, (block,))
        &&& forall|norm: T| #[trigger] call_requires(self.is_positive, (norm,))
        &&& forall|entry: T, norm: T| #[trigger] call_requires(self.divide, (entry, norm))
    }

    /// `norm` is a norm of a block with these entries.
    pub open spec fn has_norm(self, entries: Seq<T>, norm: T) -> bool {
        exists|block: &[T]| block@ == entries && #[trigger] call_ensures(self.norm, (block,), norm)
    }

    /// `after` is `before` normalised: if the norm of the block is positive every entry is divided
    /// by it, and otherwise all entries are kept.
    pub open spec fn normalises(self, before: Seq<T>, after: Seq<T>) -> bool {
        exists|norm: T, positive: bool|
            {
                &&& #[trigger] self.has_norm(before, norm)
                &&& #[trigger] call_ensures(self.is_positive, (norm,), positive)
                &&& if positive {
                    self.divides(before, norm, after)
                } else {
                    after == before
                }
            }
    }

    /// `after` holds the entries of `before`, each divided by `norm`.
    pub open spec fn divides(self, before: Seq<T>, norm: T, after: Seq<T>) -> bool {
        &&& after.len() == before.len()
        &&& forall|i: int|
            0 <= i < before.len() ==> call_ensures(
                self.divide,
                (before[i], norm),
                #[trigger] after[i],
            )
    }

    /// Normalising a block of usual entries gives entries in the given range.
    pub open spec fn brings_into_range(
        self,
        usual: spec_fn(T) -> bool,
        range: spec_fn(T) -> bool,
    ) -> bool {
        forall|before: Seq<T>, after: Seq<T>, i: int|
            (forall|k: int| 0 <= k < before.len() ==> usual(#[trigger] before[k]))
                && #[trigger] self.normalises(before, after) && 0 <= i < after.len() ==> range(
                #[trigger] after[i],
            )
    }

    /// `descriptor` is made up of the blocks of `layout`, row by row, each holding the normalised
    /// histograms of the cells of `grid` that it covers.
    pub open spec fn describes(
        self,
        layout: HogLayout,
        grid: Array3d<T>,
        descriptor: Seq<T>,
    ) -> bool {
        &&& descriptor.len() == layout.descriptor_length()
        &&& forall|bx: int, by: int|
            0 <= bx < layout.blocks_wide && 0 <= by < layout.blocks_high ==> self.normalises(
                block_contents(layout, grid, bx, by),
                #[trigger] block_of(layout, descriptor, bx, by),
            )
    }
}

/// The histograms of the cells that the block at `(bx, by)` covers, row by row.
pub open spec fn block_contents<T>(
    layout: HogLayout,
    grid: Array3d<T>,
    bx: int,
    by: int,
) -> Seq<T> {
    let bins = layout.options.orientations as int;
    let side = layout.options.block_side as int;
    let stride = layout.options.block_stride as int;
    Seq::new(
        layout.block_descriptor_length() as nat,
        |p: int|
            grid.at(p % bins, bx * stride + (p / bins) % side, by * stride + (p / bins) / side),
    )
}

/// The part of a descriptor that belongs to the block at `(bx, by)`.
pub open spec fn block_of<T>(
    layout: HogLayout,
    descriptor: Seq<T>,
    bx: int,
    by: int,
) -> Seq<T> {
    inner_run(descriptor, layout.block_descriptor_length(), layout.blocks_wide, bx, by)
}

/// Whether the cells that the block at `(bx, by)` covers are within the grid, and their histograms
/// have the bins that the layout asks for.
pub open spec fn block_readable<T>(
    layout: HogLayout,
    grid: Array3d<T>,
    bx: int,
    by: int,
) -> bool {
    let side = layout.options.block_side;
    let stride = layout.options.block_stride;
    0 < side ==> {
        &&& layout.options.orientations <= grid.lengths[0]
        &&& bx * stride + side <= grid.lengths[1]
        &&& by * stride + side <= grid.lengths[2]
    }
}

/// Whether the grid holds the histograms of all cells that the blocks of the layout cover.
pub open spec fn grid_readable<T>(layout: HogLayout, grid: Array3d<T>) -> bool {
    forall|bx: int, by: int|
        0 <= bx < layout.blocks_wide && 0 <= by < layout.blocks_high ==> #[trigger] block_readable(
            layout,
            grid,
            bx,
            by,
        )
}

/// Whether the descriptor can be addressed by `usize` offsets.
pub open spec fn describable(layout: HogLayout) -> bool {
    &&& layout.block_measurable()
    &&& layout.block_descriptor_length() * layout.blocks_wide <= usize::MAX
    &&& layout.descriptor_length() <= usize::MAX
}

/// Tests whether the spec's descriptor can be addressed by `usize` offsets.
pub fn can_describe(spec: HogSpec) -> (possible: bool)
    ensures
        possible == describable(spec@),
{
    proof {
        law_descriptor_fills_block_grid(spec@);
    }
    let options = spec.options();
    match options.block_side.checked_mul(options.block_side) {
        Some(area) => options.orientations.checked_mul(area).is_some() && can_address(
            spec.block_grid_lengths(),
        ),
        None => false,
    }
}

/// The descriptor is exactly as long as a three-dimensional array with one entry per block
/// descriptor position, horizontal block location and vertical block location.
pub proof fn law_descriptor_fills_block_grid(layout: HogLayout)
    ensures
        layout.descriptor_length() == (layout.block_descriptor_length() * layout.blocks_wide)
            * layout.blocks_high,
{
    let length = layout.block_descriptor_length();
    let wide = layout.blocks_wide;
    let high = layout.blocks_high;
    assert((wide * high) * length == (length * wide) * high) by (nonlinear_arith);
}

/// A block descriptor can be viewed as an array of histogram bins by horizontal and vertical cell
/// location.
proof fn lemma_block_internal(bins: int, side: int)
    requires
        0 <= bins,
        0 < side,
        bins * (side * side) <= usize::MAX,
    ensures
        addressable(bins, side, side),
        (bins * side) * side == bins * (side * side),
{
    assert((bins * side) * side == bins * (side * side)) by (nonlinear_arith);
    assert(bins * side <= (bins * side) * side) by (nonlinear_arith)
        requires
            0 <= bins,
            0 < side,
    ;
}

/// Position `p` of a block descriptor is that of bin `p % bins` of the cell with index
/// `p / bins`.
proof fn lemma_block_position(bins: int, side: int, p: int)
    requires
        0 < side,
        0 <= p < bins * (side * side),
    ensures
        0 < bins,
        0 <= p % bins < bins,
        0 <= (p / bins) % side < side,
        0 <= (p / bins) / side < side,
        flat_index(bins, side, p % bins, (p / bins) % side, (p / bins) / side) == p,
{
    assert(0 < bins) by (nonlinear_arith)
        requires
            0 <= p < bins * (side * side),
            0 < side,
    ;
    let o = p % bins;
    let cell = p / bins;
    let ix = cell % side;
    let iy = cell / side;
    assert(p == bins * cell + o && 0 <= o < bins && 0 <= cell) by (nonlinear_arith)
        requires
            0 < bins,
            0 <= p,
            o == p % bins,
            cell == p / bins,
    ;
    assert(cell < side * side) by (nonlinear_arith)
        requires
            0 < bins,
            p < bins * (side * side),
            p == bins * cell + o,
            0 <= o,
    ;
    assert(cell == side * iy + ix && 0 <= ix < side && 0 <= iy) by (nonlinear_arith)
        requires
            0 < side,
            0 <= cell,
            ix == cell % side,
            iy == cell / side,
    ;
    assert(iy < side) by (nonlinear_arith)
        requires
            0 < side,
            cell < side * side,
            cell == side * iy + ix,
            0 <= ix,
    ;
    assert(iy * (bins * side) + ix * bins + o == p) by (nonlinear_arith)
        requires
            p == bins * cell + o,
            cell == side * iy + ix,
    ;
}

/// A grid with the dimensions of the layout's cells holds the histograms of all cells that the
/// blocks cover.
pub proof fn law_cell_grid_readable<T>(layout: HogLayout, grid: Array3d<T>)
    requires
        layout.valid(),
        grid.lengths[0] == layout.options.orientations,
        grid.lengths[1] == layout.cells_wide,
        grid.lengths[2] == layout.cells_high,
    ensures
        grid_readable(layout, grid),
{
    law_blocks_within_cells(layout);
}

/// A block holds bin `o` of its cell at column `ix` and row `iy` where an array of histogram bins
/// by horizontal and vertical cell location has it.
pub proof fn law_block_entry<T>(
    layout: HogLayout,
    grid: Array3d<T>,
    bx: int,
    by: int,
    o: int,
    ix: int,
    iy: int,
)
    requires
        0 <= o < layout.options.orientations,
        0 <= ix < layout.options.block_side,
        0 <= iy < layout.options.block_side,
    ensures
        ({
            let p = flat_index(
                layout.options.orientations as int,
                layout.options.block_side as int,
                o,
                ix,
                iy,
            );
            &&& 0 <= p < layout.block_descriptor_length()
            &&& block_contents(layout, grid, bx, by)[p] == grid.at(
                o,
                bx * layout.options.block_stride + ix,
                by * layout.options.block_stride + iy,
            )
        }),
{
    let bins = layout.options.orientations as int;
    let side = layout.options.block_side as int;
    let p = flat_index(bins, side, o, ix, iy);
    lemma_flat_index_in_range(bins, side, side, ix, iy);
    assert((bins * side) * side == bins * (side * side)) by (nonlinear_arith);
    let cell = iy * side + ix;
    assert(p == bins * cell + o) by (nonlinear_arith)
        requires
            p == iy * (bins * side) + ix * bins + o,
            cell == iy * side + ix,
    ;
    assert(p % bins == o && p / bins == cell) by {
        vstd::arithmetic::div_mod::lemma_fundamental_div_mod_converse(p, bins, cell, o);
    }
    assert(cell % side == ix && cell / side == iy) by {
        vstd::arithmetic::div_mod::lemma_fundamental_div_mod_converse(cell, side, iy, ix);
    }
}

/// Neighbouring blocks that overlap hold the same histograms, before normalisation, for the cells
/// that they share: a cell `block_stride` columns further right in one block is the cell in the
/// next block to the right, and likewise for rows.
pub proof fn law_overlapping_blocks_share_cells<T>(
    layout: HogLayout,
    grid: Array3d<T>,
    bx: int,
    by: int,
    o: int,
    ix: int,
    iy: int,
)
    requires
        0 <= o < layout.options.orientations,
        0 <= ix < layout.options.block_side,
        0 <= iy < layout.options.block_side,
    ensures
        ({
            let bins = layout.options.orientations as int;
            let side = layout.options.block_side as int;
            let stride = layout.options.block_stride as int;
            &&& ix + stride < side ==> block_contents(layout, grid, bx, by)[flat_index(
                bins,
                side,
                o,
                ix + stride,
                iy,
            )] == block_contents(layout, grid, bx + 1, by)[flat_index(bins, side, o, ix, iy)]
            &&& iy + stride < side ==> block_contents(layout, grid, bx, by)[flat_index(
                bins,
                side,
                o,
                ix,
                iy + stride,
            )] == block_contents(layout, grid, bx, by + 1)[flat_index(bins, side, o, ix, iy)]
        }),
{
    let side = layout.options.block_side as int;
    let stride = layout.options.block_stride as int;
    assert((bx + 1) * stride == bx * stride + stride) by (nonlinear_arith);
    assert((by + 1) * stride == by * stride + stride) by (nonlinear_arith);
    if ix + stride < side {
        law_block_entry(layout, grid, bx, by, o, ix + stride, iy);
        law_block_entry(layout, grid, bx + 1, by, o, ix, iy);
    }
    if iy + stride < side {
        law_block_entry(layout, grid, bx, by, o, ix, iy + stride);
        law_block_entry(layout, grid, bx, by + 1, o, ix, iy);
    }
}

/// A norm of some entries is what the supplied norm gives for a slice of exactly these entries.
pub proof fn law_norm_is_of_all_entries<
    T,
    N: Fn(&[T]) -> T,
    P: Fn(T) -> bool,
    D: Fn(T, T) -> T,
>(arithmetic: BlockArithmetic<T, N, P, D>, entries: Seq<T>, norm: T)
    requires
        arithmetic.has_norm(entries, norm),
    ensures
        exists|block: &[T]|
            block@ == entries && #[trigger] call_ensures(arithmetic.norm, (block,), norm),
{
}

/// What a block of a descriptor holds. It was filled, cell by cell and row by row, with the
/// histograms of the cells from `block_stride` times its own place on, the norm was taken of all
/// of that, and every entry was divided by the norm if this was positive and kept if not.
pub proof fn law_blocks_are_normalised_histograms<
    T,
    N: Fn(&[T]) -> T,
    P: Fn(T) -> bool,
    D: Fn(T, T) -> T,
>(
    arithmetic: BlockArithmetic<T, N, P, D>,
    layout: HogLayout,
    grid: Array3d<T>,
    descriptor: Seq<T>,
    bx: int,
    by: int,
)
    requires
        arithmetic.describes(layout, grid, descriptor),
        0 <= bx < layout.blocks_wide,
        0 <= by < layout.blocks_high,
    ensures
        ({
            let bins = layout.options.orientations as int;
            let side = layout.options.block_side as int;
            let stride = layout.options.block_stride as int;
            let length = bins * side * side;
            &&& descriptor.len() == layout.blocks_wide * layout.blocks_high * length
            &&& exists|block: &[T], norm: T, positive: bool|
                {
                    &&& #[trigger] call_ensures(arithmetic.norm, (block,), norm)
                    &&& #[trigger] call_ensures(arithmetic.is_positive, (norm,), positive)
                    &&& block@.len() == length
                    &&& forall|p: int|
                        0 <= p < length ==> #[trigger] block@[p] == grid.data@[((by * stride + (p
                            / bins) / side) * grid.lengths[1] + bx * stride + (p / bins) % side)
                            * grid.lengths[0] + p % bins]
                    &&& forall|p: int|
                        0 <= p < length ==> {
                            let entry = descriptor[(by * layout.blocks_wide + bx) * length + p];
                            if positive {
                                call_ensures(
                                    arithmetic.divide,
                                    (#[trigger] block@[p], norm),
                                    entry,
                                )
                            } else {
                                entry == block@[p]
                            }
                        }
                }
        }),
{
    let bins = layout.options.orientations as int;
    let side = layout.options.block_side as int;
    let stride = layout.options.block_stride as int;
    let length = bins * side * side;
    law_lengths(layout);
    assert(layout.blocks_wide * layout.blocks_high * bins * side * side == layout.blocks_wide
        * layout.blocks_high * length) by (nonlinear_arith)
        requires
            length == bins * side * side,
    ;
    let contents = block_contents(layout, grid, bx, by);
    let run = block_of(layout, descriptor, bx, by);
    assert(arithmetic.normalises(contents, run));
    let (norm, positive) = choose|norm: T, positive: bool|
        {
            &&& #[trigger] arithmetic.has_norm(contents, norm)
            &&& #[trigger] call_ensures(arithmetic.is_positive, (norm,), positive)
            &&& if positive {
                arithmetic.divides(contents, norm, run)
            } else {
                run == contents
            }
        };
    law_norm_is_of_all_entries(arithmetic, contents, norm);
    let block = choose|block: &[T]|
        block@ == contents && #[trigger] call_ensures(arithmetic.norm, (block,), norm);
    lemma_block_position_in_descriptor(layout, bx, by);
    assert forall|p: int| 0 <= p < length implies #[trigger] block@[p] == grid.data@[((by * stride
        + (p / bins) / side) * grid.lengths[1] + bx * stride + (p / bins) % side) * grid.lengths[0]
        + p % bins] by {
        law_first_dimension_varies_fastest(
            grid.lengths[0] as int,
            grid.lengths[1] as int,
            p % bins,
            bx * stride + (p / bins) % side,
            by * stride + (p / bins) / side,
        );
    }
    assert forall|p: int| 0 <= p < length implies {
        let entry = descriptor[(by * layout.blocks_wide + bx) * length + p];
        if positive {
            call_ensures(arithmetic.divide, (#[trigger] block@[p], norm), entry)
        } else {
            entry == block@[p]
        }
    } by {
        assert(run[p] == descriptor[(by * layout.blocks_wide + bx) * length + p]);
    }
}

/// Blocks follow each other row by row, and lie within the descriptor.
proof fn lemma_block_position_in_descriptor(layout: HogLayout, bx: int, by: int)
    requires
        0 <= bx < layout.blocks_wide,
        0 <= by < layout.blocks_high,
    ensures
        ({
            let length = layout.block_descriptor_length();
            let start = flat_index(length, layout.blocks_wide, 0, bx, by);
            &&& start == (by * layout.blocks_wide + bx) * length
            &&& 0 <= start
            &&& start + length <= layout.descriptor_length()
        }),
{
    let bins = layout.options.orientations as int;
    let side = layout.options.block_side as int;
    let length = layout.block_descriptor_length();
    assert(0 <= bins * (side * side)) by (nonlinear_arith)
        requires
            0 <= bins,
    ;
    law_descriptor_fills_block_grid(layout);
    lemma_flat_index_in_range(length, layout.blocks_wide, layout.blocks_high, bx, by);
    law_first_dimension_varies_fastest(length, layout.blocks_wide, 0, bx, by);
}

/// Where dividing all entries of a block by their norm makes it a unit, every block of a descriptor
/// is a unit, unless its norm is not positive.
pub proof fn law_blocks_are_units<
    T,
    N: Fn(&[T]) -> T,
    P: Fn(T) -> bool,
    D: Fn(T, T) -> T,
>(
    arithmetic: BlockArithmetic<T, N, P, D>,
    layout: HogLayout,
    grid: Array3d<T>,
    descriptor: Seq<T>,
    unit: spec_fn(Seq<T>) -> bool,
    bx: int,
    by: int,
)
    requires
        arithmetic.describes(layout, grid, descriptor),
        forall|block: &[T], norm: T, divided: Seq<T>|
            {
                &&& #[trigger] call_ensures(arithmetic.norm, (block,), norm)
                &&& call_ensures(arithmetic.is_positive, (norm,), true)
                &&& divided.len() == block@.len()
                &&& forall|i: int|
                    0 <= i < divided.len() ==> call_ensures(
                        arithmetic.divide,
                        (block@[i], norm),
                        #[trigger] divided[i],
                    )
            } ==> #[trigger] unit(divided),
        0 <= bx < layout.blocks_wide,
        0 <= by < layout.blocks_high,
    ensures
        ({
            let length = layout.options.orientations * layout.options.block_side
                * layout.options.block_side;
            let start = (by * layout.blocks_wide + bx) * length;
            let block = descriptor.subrange(start, start + length);
            ||| unit(block)
            ||| exists|kept: &[T], norm: T|
                {
                    &&& kept@ == block
                    &&& #[trigger] call_ensures(arithmetic.norm, (kept,), norm)
                    &&& call_ensures(arithmetic.is_positive, (norm,), false)
                }
        }),
{
    law_blocks_are_normalised_histograms(arithmetic, layout, grid, descriptor, bx, by);
    lemma_block_position_in_descriptor(layout, bx, by);
    law_lengths(layout);
    let bins = layout.options.orientations as int;
    let side = layout.options.block_side as int;
    let stride = layout.options.block_stride as int;
    let length = bins * side * side;
    let start = (by * layout.blocks_wide + bx) * length;
    let divided = descriptor.subrange(start, start + length);
    let (block, norm, positive) = choose|block: &[T], norm: T, positive: bool|
        {
            &&& #[trigger] call_ensures(arithmetic.norm, (block,), norm)
            &&& #[trigger] call_ensures(arithmetic.is_positive, (norm,), positive)
            &&& block@.len() == length
            &&& forall|p: int|
                0 <= p < length ==> #[trigger] block@[p] == grid.data@[((by * stride + (p / bins)
                    / side) * grid.lengths[1] + bx * stride + (p / bins) % side) * grid.lengths[0]
                    + p % bins]
            &&& forall|p: int|
                0 <= p < length ==> {
                    let entry = descriptor[(by * layout.blocks_wide + bx) * length + p];
                    if positive {
                        call_ensures(arithmetic.divide, (#[trigger] block@[p], norm), entry)
                    } else {
                        entry == block@[p]
                    }
                }
        };
    assert forall|i: int| 0 <= i < length implies if positive {
        call_ensures(arithmetic.divide, (block@[i], norm), #[trigger] divided[i])
    } else {
        divided[i] == block@[i]
    } by {
        assert(divided[i] == descriptor[start + i]);
        assert(block@[i] == block@[i]);
    }
    if positive {
        assert(unit(divided));
    } else {
        assert(block@ =~= divided);
    }
}

/// A grid is readable whenever every cell that a block covers is within it, with all its bins.
pub proof fn law_covering_grids_are_readable<T>(layout: HogLayout, grid: Array3d<T>)
    requires
        layout.options.orientations <= grid.lengths[0],
        forall|bx: int|
            0 <= bx < layout.blocks_wide ==> #[trigger] (bx * layout.options.block_stride)
                + layout.options.block_side <= grid.lengths[1],
        forall|by: int|
            0 <= by < layout.blocks_high ==> #[trigger] (by * layout.options.block_stride)
                + layout.options.block_side <= grid.lengths[2],
    ensures
        grid_readable(layout, grid),
{
    assert forall|bx: int, by: int|
        0 <= bx < layout.blocks_wide && 0 <= by < layout.blocks_high implies #[trigger]
        block_readable(layout, grid, bx, by) by {
        assert((bx * layout.options.block_stride) + layout.options.block_side <= grid.lengths[1]);
        assert((by * layout.options.block_stride) + layout.options.block_side <= grid.lengths[2]);
    }
}

/// A descriptor can be computed whenever its entries, those of one row of blocks and of one block,
/// and the cells of a block can be counted in `usize`.
pub proof fn law_descriptors_are_describable(layout: HogLayout)
    requires
        layout.options.block_side * layout.options.block_side <= usize::MAX,
        layout.options.orientations * layout.options.block_side * layout.options.block_side
            <= usize::MAX,
        layout.options.orientations * layout.options.block_side * layout.options.block_side
            * layout.blocks_wide <= usize::MAX,
        layout.options.orientations * layout.options.block_side * layout.options.block_side
            * layout.blocks_wide * layout.blocks_high <= usize::MAX,
    ensures
        describable(layout),
{
    law_lengths(layout);
    law_descriptor_fills_block_grid(layout);
    law_blocks_are_measurable(layout);
}

/// Where normalising brings usual entries into a range, all entries of the descriptor of a grid of
/// usual entries are in that range.
pub proof fn law_descriptor_in_range<
    T,
    N: Fn(&[T]) -> T,
    P: Fn(T) -> bool,
    D: Fn(T, T) -> T,
>(
    arithmetic: BlockArithmetic<T, N, P, D>,
    layout: HogLayout,
    grid: Array3d<T>,
    descriptor: Seq<T>,
    usual: spec_fn(T) -> bool,
    range: spec_fn(T) -> bool,
    position: int,
)
    requires
        arithmetic.describes(layout, grid, descriptor),
        arithmetic.brings_into_range(usual, range),
        grid_readable(layout, grid),
        forall|o: int, x: int, y: int|
            grid.contains(o, x, y) ==> usual(#[trigger] grid.at(o, x, y)),
        0 <= layout.blocks_wide,
        0 <= layout.blocks_high,
        0 <= position < descriptor.len(),
    ensures
        range(descriptor[position]),
{
    let l0 = layout.block_descriptor_length();
    let l1 = layout.blocks_wide;
    let l2 = layout.blocks_high;
    law_descriptor_fills_block_grid(layout);
    let bins = layout.options.orientations as int;
    let side = layout.options.block_side as int;
    let stride = layout.options.block_stride as int;
    assert(0 <= bins * (side * side)) by (nonlinear_arith)
        requires
            0 <= bins,
    ;
    assert(0 < l0 && 0 < l1 && 0 < l2) by (nonlinear_arith)
        requires
            0 <= position < (l0 * l1) * l2,
            0 <= l0,
            0 <= l1,
            0 <= l2,
    ;
    law_flat_index_bijective(l0, l1, l2, position);
    let (i, bx, by) = choose|i0: int, i1: int, i2: int|
        0 <= i0 < l0 && 0 <= i1 < l1 && 0 <= i2 < l2 && #[trigger] flat_index(l0, l1, i0, i1, i2)
            == position;
    lemma_flat_index_in_range(l0, l1, l2, bx, by);
    let contents = block_contents(layout, grid, bx, by);
    let block = block_of(layout, descriptor, bx, by);
    assert(0 < side) by (nonlinear_arith)
        requires
            0 < bins * (side * side),
            0 <= side,
    ;
    assert(block_readable(layout, grid, bx, by));
    assert forall|k: int| 0 <= k < contents.len() implies usual(#[trigger] contents[k]) by {
        lemma_block_position(bins, side, k);
        assert(0 <= bx * stride && 0 <= by * stride) by (nonlinear_arith)
            requires
                0 <= bx,
                0 <= by,
                0 <= stride,
        ;
        assert(grid.contains(
            k % bins,
            bx * stride + (k / bins) % side,
            by * stride + (k / bins) / side,
        ));
    }
    assert(arithmetic.normalises(contents, block));
    assert(block[i] == descriptor[position]);
}

/// The histogram of a cell, cut to the bins that the layout asks for.
spec fn cell_bins<T>(layout: HogLayout, grid: Array3d<T>, cx: int, cy: int) -> Seq<T> {
    grid.inner(cx, cy).subrange(0, layout.options.orientations as int)
}

/// A block descriptor that holds the histogram of each of its cells holds the block's contents.
proof fn lemma_block_gathered<T>(
    layout: HogLayout,
    grid: Array3d<T>,
    bx: int,
    by: int,
    block: Seq<T>,
)
    requires
        grid.wf(),
        0 <= bx,
        0 <= by,
        block_readable(layout, grid, bx, by),
        block.len() == layout.block_descriptor_length(),
        forall|ix: int, iy: int|
            0 <= ix < layout.options.block_side && 0 <= iy < layout.options.block_side
                ==> #[trigger] inner_run(
                block,
                layout.options.orientations as int,
                layout.options.block_side as int,
                ix,
                iy,
            ) == cell_bins(
                layout,
                grid,
                bx * layout.options.block_stride + ix,
                by * layout.options.block_stride + iy,
            ),
    ensures
        block == block_contents(layout, grid, bx, by),
{
    let bins = layout.options.orientations as int;
    let side = layout.options.block_side as int;
    let stride = layout.options.block_stride as int;
    let contents = block_contents(layout, grid, bx, by);
    assert forall|p: int| 0 <= p < block.len() implies block[p] == contents[p] by {
        if side == 0 {
            assert(bins * (side * side) == 0) by (nonlinear_arith)
                requires
                    side == 0,
            ;
        }
        lemma_block_position(bins, side, p);
        let o = p % bins;
        let ix = (p / bins) % side;
        let iy = (p / bins) / side;
        let cx = bx * stride + ix;
        let cy = by * stride + iy;
        assert(0 <= bx * stride && 0 <= by * stride) by (nonlinear_arith)
            requires
                0 <= bx,
                0 <= by,
                0 <= stride,
        ;
        assert((bins * side) * side == bins * (side * side)) by (nonlinear_arith);
        lemma_flat_index_in_range(bins, side, side, ix, iy);
        lemma_flat_index_in_range(
            grid.lengths[0] as int,
            grid.lengths[1] as int,
            grid.lengths[2] as int,
            cx,
            cy,
        );
        assert(block[p] == inner_run(block, bins, side, ix, iy)[o]);
        assert(grid.at(o, cx, cy) == grid.inner(cx, cy)[o]);
        assert(grid.inner(cx, cy)[o] == cell_bins(layout, grid, cx, cy)[o]);
    }
    assert(block =~= contents);
}

/// Copies the histograms of the cells that the block at `(bx, by)` covers to `block`.
fn gather_block<T: Copy>(
    grid: &Array3d<T>,
    spec: HogSpec,
    bx: usize,
    by: usize,
    block: &mut [T],
)
    requires
        grid.wf(),
        spec@.block_measurable(),
        block_readable(spec@, *grid, bx as int, by as int),
        old(block)@.len() == spec@.block_descriptor_length(),
    ensures
        final(block)@ == block_contents(spec@, *grid, bx as int, by as int),
{
    let options = spec.options();
    let lengths = spec.block_internal_lengths();
    let ghost bins = lengths[0] as int;
    let ghost side = lengths[1] as int;
    for iy in 0..options.block_side
        invariant
            grid.wf(),
            spec@.block_measurable(),
            block_readable(spec@, *grid, bx as int, by as int),
            options == spec@.options,
            lengths[0] == options.orientations,
            lengths[1] == options.block_side,
            lengths[2] == options.block_side,
            bins == lengths[0],
            side == lengths[1],
            block@.len() == spec@.block_descriptor_length(),
            forall|jx: int, jy: int|
                0 <= jx < side && 0 <= jy < iy ==> #[trigger] inner_run(
                    block@,
                    bins,
                    side,
                    jx,
                    jy,
                ) == cell_bins(
                    spec@,
                    *grid,
                    bx * options.block_stride + jx,
                    by * options.block_stride + jy,
                ),
    {
        assert(0 <= by * options.block_stride && 0 <= bx * options.block_stride)
            by (nonlinear_arith);
        let cy: usize = by * options.block_stride + iy;
        for ix in 0..options.block_side
            invariant
                grid.wf(),
                spec@.block_measurable(),
                block_readable(spec@, *grid, bx as int, by as int),
                options == spec@.options,
                lengths[0] == options.orientations,
                lengths[1] == options.block_side,
                lengths[2] == options.block_side,
                bins == lengths[0],
                side == lengths[1],
                0 <= bx * options.block_stride,
                iy < side,
                cy == by * options.block_stride + iy,
                block@.len() == spec@.block_descriptor_length(),
                forall|jx: int, jy: int|
                    0 <= jx < side && 0 <= jy < side && (jy < iy || (jy == iy && jx < ix))
                        ==> #[trigger] inner_run(block@, bins, side, jx, jy) == cell_bins(
                        spec@,
                        *grid,
                        bx * options.block_stride + jx,
                        by * options.block_stride + jy,
                    ),
        {
            let cx: usize = bx * options.block_stride + ix;
            proof {
                lemma_block_internal(bins, side);
            }
            let ghost before = block@;
            let hist = grid.inner_slice(cx, cy);
            let slice = inner_slice_mut(block, lengths, ix, iy);
            copy(hist, slice);
            proof {
                let run = hist@.subrange(0, bins);
                assert(block@ == with_run(before, run, bins, side, ix as int, iy as int));
                lemma_with_run(before, run, bins, side, side, ix as int, iy as int);
            }
        }
    }
    proof {
        lemma_block_gathered(spec@, *grid, bx as int, by as int, block@);
    }
}

/// Divides every entry of `block` by `norm`.
fn divide_block<T: Copy, N: Fn(&[T]) -> T, P: Fn(T) -> bool, D: Fn(T, T) -> T>(
    block: &mut [T],
    norm: T,
    arithmetic: &BlockArithmetic<T, N, P, D>,
)
    requires
        arithmetic.total(),
    ensures
        arithmetic.divides(old(block)@, norm, final(block)@),
{
    let length: usize = block.len();
    let ghost before = block@;
    for i in 0..length
        invariant
            arithmetic.total(),
            length == before.len(),
            block@.len() == before.len(),
            forall|k: int|
                0 <= k < i ==> call_ensures(
                    arithmetic.divide,
                    (before[k], norm),
                    #[trigger] block@[k],
                ),
            forall|k: int| i <= k < length ==> #[trigger] block@[k] == before[k],
    {
        let entry: T = block[i];
        block[i] = (arithmetic.divide)(entry, norm);
    }
}

/// Norm of the block descriptor at given location within an image descriptor.
pub fn block_norm<T: Copy, N: Fn(&[T]) -> T, P: Fn(T) -> bool, D: Fn(T, T) -> T>(
    blocks: &Array3d<T>,
    bx: usize,
    by: usize,
    arithmetic: &BlockArithmetic<T, N, P, D>,
) -> (norm: T)
    requires
        blocks.wf(),
        bx < blocks.lengths[1],
        by < blocks.lengths[2],
        arithmetic.total(),
    ensures
        arithmetic.has_norm(blocks.inner(bx as int, by as int), norm),
        exists|block: &[T]|
            {
                &&& #[trigger] call_ensures(arithmetic.norm, (block,), norm)
                &&& block@.len() == blocks.lengths[0]
                &&& forall|i: int|
                    0 <= i < block@.len() ==> #[trigger] block@[i] == blocks.at(
                        i,
                        bx as int,
                        by as int,
                    )
            },
{
    let block = blocks.inner_slice(bx, by);
    (arithmetic.norm)(block)
}

/// Computes the HoG descriptor of an image. Assumes that the spec and grid
/// dimensions are consistent.
pub fn hog_descriptor_from_hist_grid<
    T: Copy,
    N: Fn(&[T]) -> T,
    P: Fn(T) -> bool,
    D: Fn(T, T) -> T,
>(grid: &Array3d<T>, spec: HogSpec, arithmetic: &BlockArithmetic<T, N, P, D>) -> (descriptor: Vec<
    T,
>)
    requires
        grid.wf(),
        grid_readable(spec@, *grid),
        describable(spec@),
        arithmetic.total(),
    ensures
        arithmetic.describes(spec@, *grid, descriptor@),
{
    proof {
        law_descriptor_fills_block_grid(spec@);
    }
    let lengths = spec.block_grid_lengths();
    let mut descriptor: Array3d<T> = Array3d::new(lengths, arithmetic.zero);
    let blocks_wide: usize = lengths[1];
    let blocks_high: usize = lengths[2];
    let ghost length = lengths[0] as int;
    let ghost wide = lengths[1] as int;
    let ghost high = lengths[2] as int;

    for by in 0..blocks_high
        invariant
            grid.wf(),
            grid_readable(spec@, *grid),
            describable(spec@),
            lengths[0] == spec@.block_descriptor_length(),
            lengths[1] == spec@.blocks_wide,
            lengths[2] == spec@.blocks_high,
            length == lengths[0],
            wide == lengths[1] == blocks_wide,
            high == lengths[2] == blocks_high,
            descriptor.wf(),
            descriptor.lengths == lengths,
            forall|x: int, y: int|
                0 <= x < wide && 0 <= y < by ==> #[trigger] inner_run(
                    descriptor.data@,
                    length,
                    wide,
                    x,
                    y,
                ) == block_contents(spec@, *grid, x, y),
    {
        for bx in 0..blocks_wide
            invariant
                grid.wf(),
                grid_readable(spec@, *grid),
                describable(spec@),
                by < lengths[2],
                lengths[0] == spec@.block_descriptor_length(),
                lengths[1] == spec@.blocks_wide,
                lengths[2] == spec@.blocks_high,
                length == lengths[0],
                wide == lengths[1] == blocks_wide,
                high == lengths[2] == blocks_high,
                descriptor.wf(),
                descriptor.lengths == lengths,
                forall|x: int, y: int|
                    0 <= x < wide && 0 <= y < high && (y < by || (y == by && x < bx))
                        ==> #[trigger] inner_run(descriptor.data@, length, wide, x, y)
                        == block_contents(spec@, *grid, x, y),
        {
            assert(block_readable(spec@, *grid, bx as int, by as int));
            let ghost before = descriptor.data@;
            let block = descriptor.inner_slice_mut(bx, by);
            gather_block(grid, spec, bx, by, block);
            proof {
                let contents = block_contents(spec@, *grid, bx as int, by as int);
                lemma_with_run(before, contents, length, wide, high, bx as int, by as int);
            }
        }
    }

    for by in 0..blocks_high
        invariant
            lengths[0] == spec@.block_descriptor_length(),
            lengths[1] == spec@.blocks_wide,
            lengths[2] == spec@.blocks_high,
            length == lengths[0],
            wide == lengths[1] == blocks_wide,
            high == lengths[2] == blocks_high,
            descriptor.wf(),
            descriptor.lengths == lengths,
            arithmetic.total(),
            forall|x: int, y: int|
                0 <= x < wide && 0 <= y < by ==> arithmetic.normalises(
                    block_contents(spec@, *grid, x, y),
                    #[trigger] inner_run(descriptor.data@, length, wide, x, y),
                ),
            forall|x: int, y: int|
                0 <= x < wide && by <= y < high ==> #[trigger] inner_run(
                    descriptor.data@,
                    length,
                    wide,
                    x,
                    y,
                ) == block_contents(spec@, *grid, x, y),
    {
        for bx in 0..blocks_wide
            invariant
                by < lengths[2],
                lengths[0] == spec@.block_descriptor_length(),
                lengths[1] == spec@.blocks_wide,
                lengths[2] == spec@.blocks_high,
                length == lengths[0],
                wide == lengths[1] == blocks_wide,
                high == lengths[2] == blocks_high,
                descriptor.wf(),
                descriptor.lengths == lengths,
                arithmetic.total(),
                forall|x: int, y: int|
                    0 <= x < wide && 0 <= y < high && (y < by || (y == by && x < bx))
                        ==> arithmetic.normalises(
                        block_contents(spec@, *grid, x, y),
                        #[trigger] inner_run(descriptor.data@, length, wide, x, y),
                    ),
                forall|x: int, y: int|
                    0 <= x < wide && 0 <= y < high && (by < y || (y == by && bx <= x))
                        ==> #[trigger] inner_run(descriptor.data@, length, wide, x, y)
                        == block_contents(spec@, *grid, x, y),
        {
            let ghost before = descriptor.data@;
            let ghost contents = inner_run(before, length, wide, bx as int, by as int);
            let norm: T = block_norm(&descriptor, bx, by, arithmetic);
            if (arithmetic.is_positive)(norm) {
                let block = descriptor.inner_slice_mut(bx, by);
                divide_block(block, norm, arithmetic);
                let ghost after = block@;
                proof {
                    lemma_with_run(before, after, length, wide, high, bx as int, by as int);
                }
            }
            assert(arithmetic.normalises(
                contents,
                inner_run(descriptor.data@, length, wide, bx as int, by as int),
            ));
        }
    }
    descriptor.data
}

} // verus!
