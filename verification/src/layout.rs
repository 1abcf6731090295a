//! The parameters of a descriptor, and the grids of cells and blocks that follow from them for an
//! image of given size.

use vstd::prelude::*;

verus! {

/// Parameters for HoG descriptors.
#[derive(Debug, Copy, Clone, PartialEq, Eq, Structural)]
pub struct HogOptions {
    /// Number of gradient orientation bins.
    pub orientations: usize,
    /// Whether gradients in opposite directions are treated as equal: they are where this is set.
    pub signed: bool,
    /// Width and height of cell in pixels.
    pub cell_side: usize,
    /// Width and height of block in cells.
    pub block_side: usize,
    /// Offset of the start of one block from the next in cells.
    pub block_stride: usize,
}

impl HogOptions {
    /// Options with the given parameters.
    pub fn new(
        orientations: usize,
        signed: bool,
        cell_side: usize,
        block_side: usize,
        block_stride: usize,
    ) -> (options: HogOptions)
        ensures
            options == (HogOptions { orientations, signed, cell_side, block_side, block_stride }),
    {
        HogOptions { orientations, signed, cell_side, block_side, block_stride }
    }
}

/// Number of blocks of `side` cells that fit in a row of `cells` cells when each starts `stride`
/// cells after the one before it.
pub open spec fn block_count(cells: int, side: int, stride: int) -> int {
    (cells + stride - side) / stride
}

/// Whether the blocks along a row of cells can be counted in `usize` arithmetic.
pub open spec fn countable(cells: int, side: int, stride: int) -> bool {
    &&& 0 < stride
    &&& cells + stride <= usize::MAX
    &&& side <= cells + stride
}

/// Number of blocks required to cover `num_cells` cells when each block is `block_side` long and
/// blocks are staggered by `block_stride`. Assumes that options are compatible.
pub fn num_blocks(num_cells: usize, block_side: usize, block_stride: usize) -> (count: usize)
    requires
        countable(num_cells as int, block_side as int, block_stride as int),
    ensures
        count == block_count(num_cells as int, block_side as int, block_stride as int),
        forall|k: int|
            0 <= k ==> (k < count <==> #[trigger] (k * block_stride) + block_side <= num_cells),
{
    proof {
        law_block_count(num_cells as int, block_side as int, block_stride as int);
    }
    (num_cells + block_stride - block_side) / block_stride
}

/// The blocks counted are exactly those that end within the row of cells: the block with index
/// `k` starts at cell `k * stride`, and it is counted if and only if it fits.
pub proof fn law_block_count(cells: int, side: int, stride: int)
    requires
        0 <= cells,
        0 <= side <= cells + stride,
        0 < stride,
    ensures
        0 <= block_count(cells, side, stride) <= cells + stride,
        forall|k: int|
            0 <= k ==> (k < block_count(cells, side, stride) <==> #[trigger] (k * stride) + side
                <= cells),
{
    let total = cells + stride - side;
    let count = block_count(cells, side, stride);
    assert(count * stride <= total < (count + 1) * stride && 0 <= count <= total)
        by (nonlinear_arith)
        requires
            count == total / stride,
            0 < stride,
            0 <= total,
    ;
    assert forall|k: int| 0 <= k implies (k < count <==> #[trigger] (k * stride) + side
        <= cells) by {
        if k < count {
            assert(k * stride + stride <= count * stride) by (nonlinear_arith)
                requires
                    k < count,
                    0 < stride,
            ;
        } else {
            assert((count + 1) * stride <= k * stride + stride) by (nonlinear_arith)
                requires
                    count <= k,
                    0 < stride,
            ;
        }
    }
}

/// Whether block `k` of a row covers cell `c`.
pub open spec fn block_covers(side: int, stride: int, k: int, c: int) -> bool {
    k * stride <= c < k * stride + side
}

/// Whether one of the first `count` blocks of a row covers cell `c`.
pub open spec fn cell_covered(side: int, stride: int, count: int, c: int) -> bool {
    exists|k: int| 0 <= k < count && #[trigger] block_covers(side, stride, k, c)
}

/// The counted blocks cover every cell exactly when there is nothing to cover, or the cells beyond
/// the first block split evenly into strides and consecutive blocks leave no gap.
pub proof fn law_blocks_cover_cells(cells: int, side: int, stride: int)
    requires
        0 <= cells,
        0 <= side <= cells + stride,
        0 < stride,
    ensures
        (forall|c: int|
            0 <= c < cells ==> #[trigger] cell_covered(
                side,
                stride,
                block_count(cells, side, stride),
                c,
            )) <==> cells == 0 || {
            &&& side <= cells
            &&& (cells - side) % stride == 0
            &&& stride <= side || cells == side
        },
{
    let count = block_count(cells, side, stride);
    law_block_count(cells, side, stride);
    if side <= cells && (cells - side) % stride == 0 && (stride <= side || cells == side) {
        law_blocks_end_with_cells(cells, side, stride);
        let last = count - 1;
        assert forall|c: int| 0 <= c < cells implies #[trigger] cell_covered(
            side,
            stride,
            count,
            c,
        ) by {
            if c < last * stride {
                let k = c / stride;
                assert(k * stride <= c < k * stride + stride && 0 <= k < last)
                    by (nonlinear_arith)
                    requires
                        k == c / stride,
                        0 < stride,
                        0 <= c < last * stride,
                ;
                assert(block_covers(side, stride, k, c));
            } else {
                assert(block_covers(side, stride, last, c));
            }
        }
    }
    if cells > 0 && forall|c: int|
        0 <= c < cells ==> #[trigger] cell_covered(side, stride, count, c) {
        assert(cell_covered(side, stride, count, cells - 1));
        let last = choose|k: int|
            0 <= k < count && #[trigger] block_covers(side, stride, k, cells - 1);
        assert(last * stride + side == cells);
        assert((cells - side) % stride == 0 && 0 <= last * stride) by (nonlinear_arith)
            requires
                cells - side == last * stride,
                0 <= last,
                0 < stride,
        ;
        if side < cells && side < stride {
            assert(cell_covered(side, stride, count, side));
            let k = choose|k: int| 0 <= k < count && block_covers(side, stride, k, side);
            assert(k * stride == 0 || stride <= k * stride) by (nonlinear_arith)
                requires
                    0 <= k,
                    0 < stride,
            ;
        }
    }
}

/// When the cells beyond the first block split evenly into strides, the last block ends with the
/// last cell, and it cannot be spared: no earlier block covers that cell.
pub proof fn law_blocks_end_with_cells(cells: int, side: int, stride: int)
    requires
        0 < stride,
        0 <= side <= cells,
        (cells - side) % stride == 0,
    ensures
        0 < block_count(cells, side, stride),
        (block_count(cells, side, stride) - 1) * stride + side == cells,
        !cell_covered(side, stride, block_count(cells, side, stride) - 1, cells - 1),
{
    let count = block_count(cells, side, stride);
    let steps = (cells - side) / stride;
    assert(cells - side == steps * stride && 0 <= steps) by (nonlinear_arith)
        requires
            steps == (cells - side) / stride,
            (cells - side) % stride == 0,
            0 < stride,
            0 <= side <= cells,
    ;
    assert(count == steps + 1) by (nonlinear_arith)
        requires
            count == (steps * stride + stride) / stride,
            0 < stride,
    ;
    assert forall|k: int| 0 <= k < count - 1 implies !#[trigger] block_covers(
        side,
        stride,
        k,
        cells - 1,
    ) by {
        assert(k * stride + stride <= steps * stride) by (nonlinear_arith)
            requires
                k < steps,
                0 < stride,
        ;
    }
}

/// The grids of cells and blocks of a descriptor, in mathematical integers.
pub struct HogLayout {
    /// The options that the grids follow from.
    pub options: HogOptions,
    /// Number of cells along the image's width.
    pub cells_wide: int,
    /// Number of cells along the image's height.
    pub cells_high: int,
    /// Number of blocks along the image's width.
    pub blocks_wide: int,
    /// Number of blocks along the image's height.
    pub blocks_high: int,
}

impl HogLayout {
    /// The layout for an image of `width` by `height` pixels: as many whole cells as fit each
    /// side, and as many blocks as fit each row and column of cells.
    pub open spec fn of_image(width: int, height: int, options: HogOptions) -> HogLayout {
        let cells_wide = width / options.cell_side as int;
        let cells_high = height / options.cell_side as int;
        HogLayout {
            options,
            cells_wide,
            cells_high,
            blocks_wide: block_count(
                cells_wide,
                options.block_side as int,
                options.block_stride as int,
            ),
            blocks_high: block_count(
                cells_high,
                options.block_side as int,
                options.block_stride as int,
            ),
        }
    }

    /// The numbers of blocks are those that fit the grid of cells. There is at least one block
    /// along each side, and the last one ends with the last cell.
    pub open spec fn valid(self) -> bool {
        let side = self.options.block_side as int;
        let stride = self.options.block_stride as int;
        &&& 0 <= self.cells_wide
        &&& 0 <= self.cells_high
        &&& countable(self.cells_wide, side, stride)
        &&& countable(self.cells_high, side, stride)
        &&& self.blocks_wide == block_count(self.cells_wide, side, stride)
        &&& self.blocks_high == block_count(self.cells_high, side, stride)
        &&& 0 < self.blocks_wide
        &&& 0 < self.blocks_high
        &&& (self.blocks_wide - 1) * stride + side == self.cells_wide
        &&& (self.blocks_high - 1) * stride + side == self.cells_high
    }

    /// The size of the descriptor of a single block: one histogram for each of its cells.
    pub open spec fn block_descriptor_length(self) -> int {
        self.options.orientations * (self.options.block_side * self.options.block_side)
    }

    /// The size of the whole descriptor.
    pub open spec fn descriptor_length(self) -> int {
        (self.blocks_wide * self.blocks_high) * self.block_descriptor_length()
    }

    /// Area of a cell in pixels.
    pub open spec fn cell_area(self) -> int {
        self.options.cell_side * self.options.cell_side
    }

    /// Whether the size of a block's descriptor can be computed in `usize` arithmetic.
    pub open spec fn block_measurable(self) -> bool {
        &&& self.options.block_side * self.options.block_side <= usize::MAX
        &&& self.block_descriptor_length() <= usize::MAX
    }
}

/// Every block of a valid layout lies within the grid of cells.
pub proof fn law_blocks_within_cells(layout: HogLayout)
    requires
        layout.valid(),
    ensures
        0 <= layout.blocks_wide,
        0 <= layout.blocks_high,
        forall|bx: int|
            0 <= bx < layout.blocks_wide ==> #[trigger] (bx * layout.options.block_stride)
                + layout.options.block_side <= layout.cells_wide,
        forall|by: int|
            0 <= by < layout.blocks_high ==> #[trigger] (by * layout.options.block_stride)
                + layout.options.block_side <= layout.cells_high,
{
    let side = layout.options.block_side as int;
    let stride = layout.options.block_stride as int;
    law_block_count(layout.cells_wide, side, stride);
    law_block_count(layout.cells_high, side, stride);
}

/// The cells of a compatible image cover it exactly: no pixel is left over on either side.
pub proof fn law_cells_cover_image(width: u32, height: u32, options: HogOptions)
    requires
        0 < options.cell_side,
        HogSpec::compatible(width, height, options),
    ensures
        HogLayout::of_image(width as int, height as int, options).cells_wide * options.cell_side
            == width,
        HogLayout::of_image(width as int, height as int, options).cells_high * options.cell_side
            == height,
{
    let side = options.cell_side as int;
    assert((width as int / side) * side == width) by (nonlinear_arith)
        requires
            0 < side,
            width as int % side == 0,
    ;
    assert((height as int / side) * side == height) by (nonlinear_arith)
        requires
            0 < side,
            height as int % side == 0,
    ;
}

/// A length holds a number of cells if and only if it is no shorter than all of them together.
proof fn lemma_cells_of_length(length: int, cell: int, cells: int)
    requires
        0 < cell,
    ensures
        cells <= length / cell <==> cell * cells <= length,
        length % cell == 0 ==> (length / cell) * cell == length,
{
    let fit = length / cell;
    assert(cell * fit <= length < cell * fit + cell) by (nonlinear_arith)
        requires
            0 < cell,
            fit == length / cell,
    ;
    if cells <= fit {
        assert(cell * cells <= cell * fit) by (nonlinear_arith)
            requires
                0 < cell,
                cells <= fit,
        ;
    } else {
        assert(cell * fit + cell <= cell * cells) by (nonlinear_arith)
            requires
                0 < cell,
                fit < cells,
        ;
    }
    assert(length % cell == 0 ==> fit * cell == length) by (nonlinear_arith)
        requires
            0 < cell,
            fit == length / cell,
    ;
}

/// Every image that can be tiled is compatible: one whose sides are a block, and any number of
/// block strides beyond it, of whole cells.
pub proof fn law_tiled_images_are_compatible(
    width: u32,
    height: u32,
    options: HogOptions,
    steps_right: int,
    steps_down: int,
)
    requires
        0 < options.cell_side,
        0 < options.block_stride,
        0 <= steps_right,
        0 <= steps_down,
        width == options.cell_side * (options.block_side + steps_right * options.block_stride),
        height == options.cell_side * (options.block_side + steps_down * options.block_stride),
    ensures
        HogSpec::compatible(width, height, options),
        HogLayout::of_image(width as int, height as int, options).blocks_wide == steps_right + 1,
        HogLayout::of_image(width as int, height as int, options).blocks_high == steps_down + 1,
{
    lemma_tiled_side(
        width as int,
        options.cell_side as int,
        options.block_side as int,
        options.block_stride as int,
        steps_right,
    );
    lemma_tiled_side(
        height as int,
        options.cell_side as int,
        options.block_side as int,
        options.block_stride as int,
        steps_down,
    );
}

/// The cells and blocks along a side of an image that consists of a block and `steps` strides.
proof fn lemma_tiled_side(length: int, cell: int, side: int, stride: int, steps: int)
    requires
        0 < cell,
        0 <= side,
        0 < stride,
        0 <= steps,
        length == cell * (side + steps * stride),
    ensures
        length % cell == 0,
        length / cell == side + steps * stride,
        side <= length / cell,
        (length / cell - side) % stride == 0,
        block_count(length / cell, side, stride) == steps + 1,
{
    let cells = side + steps * stride;
    assert(cell * cells == cells * cell) by (nonlinear_arith);
    vstd::arithmetic::div_mod::lemma_fundamental_div_mod_converse(length, cell, cells, 0);
    assert(0 <= steps * stride && (steps + 1) * stride == steps * stride + stride)
        by (nonlinear_arith)
        requires
            0 <= steps,
            0 < stride,
    ;
    vstd::arithmetic::div_mod::lemma_fundamental_div_mod_converse(
        cells - side,
        stride,
        steps,
        0,
    );
    vstd::arithmetic::div_mod::lemma_fundamental_div_mod_converse(
        cells + stride - side,
        stride,
        steps + 1,
        0,
    );
}

/// Every compatible image can be tiled: its sides are as many whole cells as the layout says, and
/// these are a block and one block stride for each further block of the layout.
pub proof fn law_compatible_images_are_tiled(width: u32, height: u32, options: HogOptions)
    requires
        0 < options.cell_side,
        0 < options.block_stride,
        HogSpec::compatible(width, height, options),
    ensures
        ({
            let layout = HogLayout::of_image(width as int, height as int, options);
            let side = options.block_side as int;
            let stride = options.block_stride as int;
            &&& layout.options == options
            &&& width == options.cell_side * layout.cells_wide
            &&& height == options.cell_side * layout.cells_high
            &&& 1 <= layout.blocks_wide
            &&& 1 <= layout.blocks_high
            &&& layout.cells_wide == side + (layout.blocks_wide - 1) * stride
            &&& layout.cells_high == side + (layout.blocks_high - 1) * stride
        }),
{
    let layout = HogLayout::of_image(width as int, height as int, options);
    law_cells_cover_image(width, height, options);
    law_blocks_end_with_cells(
        layout.cells_wide,
        options.block_side as int,
        options.block_stride as int,
    );
    law_blocks_end_with_cells(
        layout.cells_high,
        options.block_side as int,
        options.block_stride as int,
    );
    assert(layout.cells_wide * options.cell_side == options.cell_side * layout.cells_wide)
        by (nonlinear_arith);
    assert(layout.cells_high * options.cell_side == options.cell_side * layout.cells_high)
        by (nonlinear_arith);
}

/// Compatibility is decided for every image as long as cells and strides are not empty and a
/// stride can be added to each side, counted in cells.
pub proof fn law_images_are_decidable(width: u32, height: u32, options: HogOptions)
    requires
        0 < options.cell_side,
        0 < options.block_stride,
        width as int / options.cell_side as int + options.block_stride <= usize::MAX,
        height as int / options.cell_side as int + options.block_stride <= usize::MAX,
    ensures
        HogSpec::decidable(width, height, options),
{
}

/// An image with a side that is not a whole number of cells, or too short for a block, is found
/// incompatible, whatever the stride.
pub proof fn law_misfits_are_refused(width: u32, height: u32, options: HogOptions)
    requires
        0 < options.cell_side,
        width as int % options.cell_side as int != 0 || height as int % options.cell_side as int
            != 0 || width < options.cell_side * options.block_side || height < options.cell_side
            * options.block_side,
    ensures
        HogSpec::decidable(width, height, options),
        !HogSpec::compatible(width, height, options),
{
    let cell = options.cell_side as int;
    let side = options.block_side as int;
    if width < cell * side {
        assert(width as int / cell < side) by (nonlinear_arith)
            requires
                0 < cell,
                0 <= width < cell * side,
        ;
    }
    if height < cell * side {
        assert(height as int / cell < side) by (nonlinear_arith)
            requires
                0 < cell,
                0 <= height < cell * side,
        ;
    }
}

/// A block has an entry for each orientation of each of its cells, the descriptor has one such
/// block for each place in the grid of blocks, and a cell is a square of pixels.
pub proof fn law_lengths(layout: HogLayout)
    ensures
        layout.block_descriptor_length() == layout.options.orientations * layout.options.block_side
            * layout.options.block_side,
        layout.descriptor_length() == layout.blocks_wide * layout.blocks_high
            * layout.options.orientations * layout.options.block_side * layout.options.block_side,
        layout.cell_area() == layout.options.cell_side * layout.options.cell_side,
{
    let bins = layout.options.orientations as int;
    let side = layout.options.block_side as int;
    let blocks = layout.blocks_wide * layout.blocks_high;
    assert(bins * (side * side) == bins * side * side) by (nonlinear_arith);
    assert(blocks * (bins * (side * side)) == blocks * bins * side * side) by (nonlinear_arith);
}

/// The size of a block's descriptor can be computed whenever it, and the number of cells in a
/// block, fit in `usize`.
pub proof fn law_blocks_are_measurable(layout: HogLayout)
    requires
        layout.options.block_side * layout.options.block_side <= usize::MAX,
        layout.options.orientations * layout.options.block_side * layout.options.block_side
            <= usize::MAX,
    ensures
        layout.block_measurable(),
{
    law_lengths(layout);
}

/// Where consecutive blocks leave no gap, the blocks of a compatible image cover all of it: every
/// column and every row of cells is in one of them.
pub proof fn law_blocks_cover_image(width: u32, height: u32, options: HogOptions)
    requires
        0 < options.cell_side,
        0 < options.block_stride <= options.block_side,
        HogSpec::compatible(width, height, options),
    ensures
        ({
            let layout = HogLayout::of_image(width as int, height as int, options);
            let side = options.block_side as int;
            let stride = options.block_stride as int;
            &&& forall|c: int|
                0 <= c < layout.cells_wide ==> #[trigger] cell_covered(
                    side,
                    stride,
                    layout.blocks_wide,
                    c,
                )
            &&& forall|c: int|
                0 <= c < layout.cells_high ==> #[trigger] cell_covered(
                    side,
                    stride,
                    layout.blocks_high,
                    c,
                )
        }),
{
    let layout = HogLayout::of_image(width as int, height as int, options);
    let side = options.block_side as int;
    let stride = options.block_stride as int;
    law_blocks_cover_cells(layout.cells_wide, side, stride);
    law_blocks_cover_cells(layout.cells_high, side, stride);
}

/// HoG options plus values calculated from these options and the desired image dimensions.
/// Validation occurs when instances of this struct are created - functions receiving a spec
/// assume that it is valid.
#[derive(Debug, Copy, Clone, PartialEq, Eq, Structural)]
pub struct HogSpec {
    /// The options that the grids follow from.
    options: HogOptions,
    /// Number of non-overlapping cells required to cover the image's width.
    cells_wide: usize,
    /// Number of non-overlapping cells required to cover the image height.
    cells_high: usize,
    /// Number of (possibly overlapping) blocks required to cover the image's width.
    blocks_wide: usize,
    /// Number of (possibly overlapping) blocks required to cover the image's height.
    blocks_high: usize,
}

impl View for HogSpec {
    type V = HogLayout;

    closed spec fn view(&self) -> HogLayout {
        HogLayout {
            options: self.options,
            cells_wide: self.cells_wide as int,
            cells_high: self.cells_high as int,
            blocks_wide: self.blocks_wide as int,
            blocks_high: self.blocks_high as int,
        }
    }
}

impl HogSpec {
    /// Whether an image of `width` by `height` pixels is compatible with the options: each side
    /// is a whole number of cells, a block fits along each side, and the cells beyond it are a
    /// whole number of block strides.
    pub open spec fn compatible(width: u32, height: u32, options: HogOptions) -> bool {
        let side = options.block_side as int;
        let stride = options.block_stride as int;
        let cells_wide = width as int / options.cell_side as int;
        let cells_high = height as int / options.cell_side as int;
        &&& HogSpec::block_fits(width, height, options)
        &&& (cells_wide - side) % stride == 0
        &&& (cells_high - side) % stride == 0
    }

    /// Whether an image of `width` by `height` pixels is made up of whole cells, and has room for
    /// a block along each side.
    pub open spec fn block_fits(width: u32, height: u32, options: HogOptions) -> bool {
        let cell = options.cell_side as int;
        let side = options.block_side as int;
        &&& width as int % cell == 0
        &&& height as int % cell == 0
        &&& side <= width as int / cell
        &&& side <= height as int / cell
    }

    /// Whether compatibility can be decided, and the blocks of a compatible image counted, in
    /// `usize` arithmetic.
    pub open spec fn decidable(width: u32, height: u32, options: HogOptions) -> bool {
        let stride = options.block_stride as int;
        &&& 0 < options.cell_side
        &&& HogSpec::block_fits(width, height, options) ==> 0 < stride
        &&& HogSpec::compatible(width, height, options) ==> {
            &&& width as int / options.cell_side as int + stride <= usize::MAX
            &&& height as int / options.cell_side as int + stride <= usize::MAX
        }
    }

    /// Tests whether `from_options` may be called: whether cells have pixels, strides have cells,
    /// and the blocks can be counted in `usize` arithmetic.
    pub fn can_decide(width: u32, height: u32, options: HogOptions) -> (decidable: bool)
        ensures
            decidable == HogSpec::decidable(width, height, options),
    {
        let w: usize = width as usize;
        let h: usize = height as usize;
        if options.cell_side == 0 {
            return false;
        }
        if w % options.cell_side != 0 || h % options.cell_side != 0 {
            return true;
        }
        let cells_wide: usize = w / options.cell_side;
        let cells_high: usize = h / options.cell_side;
        if cells_wide < options.block_side || cells_high < options.block_side {
            return true;
        }
        if options.block_stride == 0 {
            return false;
        }
        if (cells_wide - options.block_side) % options.block_stride != 0 || (cells_high
            - options.block_side) % options.block_stride != 0 {
            return true;
        }
        cells_wide <= usize::MAX - options.block_stride && cells_high <= usize::MAX
            - options.block_stride
    }

    /// Returns None if image dimensions aren't compatible with the provided options.
    pub fn from_options(width: u32, height: u32, options: HogOptions) -> (spec: Option<HogSpec>)
        requires
            HogSpec::decidable(width, height, options),
        ensures
            spec is Some <==> HogSpec::compatible(width, height, options),
            spec is Some <==> {
                let cell = options.cell_side as int;
                let side = options.block_side as int;
                let stride = options.block_stride as int;
                &&& width as int % cell == 0
                &&& height as int % cell == 0
                &&& cell * side <= width
                &&& cell * side <= height
                &&& (width as int / cell - side) % stride == 0
                &&& (height as int / cell - side) % stride == 0
            },
            spec matches Some(s) ==> {
                &&& s@.options == options
                &&& s@.cells_wide * options.cell_side == width
                &&& s@.cells_high * options.cell_side == height
                &&& (s@.blocks_wide - 1) * options.block_stride + options.block_side
                    == s@.cells_wide
                &&& (s@.blocks_high - 1) * options.block_stride + options.block_side
                    == s@.cells_high
                &&& s@ == HogLayout::of_image(width as int, height as int, options)
                &&& s@.valid()
            },
    {
        let w: usize = width as usize;
        let h: usize = height as usize;
        proof {
            let cell = options.cell_side as int;
            lemma_cells_of_length(width as int, cell, options.block_side as int);
            lemma_cells_of_length(height as int, cell, options.block_side as int);
        }
        if w % options.cell_side != 0 || h % options.cell_side != 0 {
            return None;
        }
        let cells_wide: usize = w / options.cell_side;
        let cells_high: usize = h / options.cell_side;
        if cells_wide < options.block_side || cells_high < options.block_side {
            return None;
        }
        if (cells_wide - options.block_side) % options.block_stride != 0 || (cells_high
            - options.block_side) % options.block_stride != 0 {
            return None;
        }
        proof {
            let side = options.block_side as int;
            let stride = options.block_stride as int;
            law_blocks_end_with_cells(cells_wide as int, side, stride);
            law_blocks_end_with_cells(cells_high as int, side, stride);
        }
        Some(
            HogSpec {
                options,
                cells_wide,
                cells_high,
                blocks_wide: num_blocks(cells_wide, options.block_side, options.block_stride),
                blocks_high: num_blocks(cells_high, options.block_side, options.block_stride),
            },
        )
    }

    /// The options that this spec was made from.
    pub fn options(&self) -> (options: HogOptions)
        ensures
            options == self@.options,
    {
        self.options
    }

    /// The total size in entries of the HoG descriptor with these dimensions.
    pub fn descriptor_length(&self) -> (length: usize)
        requires
            self@.block_measurable(),
            self@.blocks_wide * self@.blocks_high <= usize::MAX,
            self@.descriptor_length() <= usize::MAX,
        ensures
            length == self@.descriptor_length(),
    {
        self.blocks_wide * self.blocks_high * self.block_descriptor_length()
    }

    /// The size in entries of the descriptor for a single block.
    pub fn block_descriptor_length(&self) -> (length: usize)
        requires
            self@.block_measurable(),
        ensures
            length == self@.block_descriptor_length(),
    {
        self.options.orientations * (self.options.block_side * self.options.block_side)
    }

    /// Dimensions of a grid of cell histograms, viewed as a 3d array.
    /// Innermost dimension is orientation bin, then horizontal cell location,
    /// then vertical cell location.
    pub fn cell_grid_lengths(&self) -> (lengths: [usize; 3])
        ensures
            lengths[0] == self@.options.orientations,
            lengths[1] == self@.cells_wide,
            lengths[2] == self@.cells_high,
    {
        [self.options.orientations, self.cells_wide, self.cells_high]
    }

    /// Dimensions of a grid of block descriptors, viewed as a 3d array.
    /// Innermost dimension is block descriptor position, then horizontal block location,
    /// then vertical block location.
    pub fn block_grid_lengths(&self) -> (lengths: [usize; 3])
        requires
            self@.block_measurable(),
        ensures
            lengths[0] == self@.block_descriptor_length(),
            lengths[1] == self@.blocks_wide,
            lengths[2] == self@.blocks_high,
    {
        [self.block_descriptor_length(), self.blocks_wide, self.blocks_high]
    }

    /// Dimensions of a single block descriptor, viewed as a 3d array.
    /// Innermost dimension is histogram bin, then horizontal cell location, then
    /// vertical cell location.
    pub fn block_internal_lengths(&self) -> (lengths: [usize; 3])
        ensures
            lengths[0] == self@.options.orientations,
            lengths[1] == self@.options.block_side,
            lengths[2] == self@.options.block_side,
    {
        [self.options.orientations, self.options.block_side, self.options.block_side]
    }

    /// Area of an image cell in pixels.
    pub fn cell_area(&self) -> (area: usize)
        requires
            self@.cell_area() <= usize::MAX,
        ensures
            area == self@.cell_area(),
    {
        self.options.cell_side * self.options.cell_side
    }
}

} // verus!
