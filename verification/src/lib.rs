//! [HoG features](https://en.wikipedia.org/wiki/Histogram_of_oriented_gradients)
//! and helpers for visualizing them.
//!
//! An image is divided into cells, each pixel votes for the orientation of its gradient in the
//! histograms of the cells around it, and the histograms of neighbouring cells are collected into
//! blocks, each of which is normalised. The library is generic in the type of histogram entries:
//! callers supply the arithmetic on them, and the contracts say which operations are applied to
//! what.

pub mod buffer;
pub mod descriptor;
pub mod histogram;
pub mod histogram_laws;
pub mod interpolation;
pub mod layout;
pub mod multiarray;
pub mod render;
pub mod render_laws;

use buffer::Gradients;
use descriptor::{
    describable, hog_descriptor_from_hist_grid, law_cell_grid_readable, BlockArithmetic,
};
use histogram::{cell_histograms, tallyable, VoteArithmetic, VoteWeight};
use interpolation::Position;
use layout::{HogLayout, HogOptions, HogSpec};
use multiarray::Array3d;
use vstd::prelude::*;

verus! {

/// Computes the HoG descriptor of an image, or None if the provided
/// options are incompatible with the image size.
pub fn hog<
    T: Copy,
    L: Fn(u32, usize) -> Position<T>,
    O: Fn(i16, i16, HogOptions) -> (T, Position<T>),
    A: Fn(T, VoteWeight<T>) -> T,
    N: Fn(&[T]) -> T,
    P: Fn(T) -> bool,
    D: Fn(T, T) -> T,
>(
    gradients: &Gradients,
    options: HogOptions,
    votes: &VoteArithmetic<T, L, O, A>,
    blocks: &BlockArithmetic<T, N, P, D>,
) -> (descriptor: Option<Vec<T>>)
    requires
        HogSpec::decidable(gradients.width(), gradients.height(), options),
        HogSpec::compatible(gradients.width(), gradients.height(), options) ==> {
            let layout = HogLayout::of_image(
                gradients.width() as int,
                gradients.height() as int,
                options,
            );
            tallyable(layout) && describable(layout) && votes.in_range(*gradients, options)
        },
        votes.total(),
        blocks.total(),
    ensures
        descriptor is Some <==> HogSpec::compatible(
            gradients.width(),
            gradients.height(),
            options,
        ),
        descriptor is Some <==> {
            let cell = options.cell_side as int;
            let side = options.block_side as int;
            let stride = options.block_stride as int;
            &&& gradients.width() as int % cell == 0
            &&& gradients.height() as int % cell == 0
            &&& cell * side <= gradients.width()
            &&& cell * side <= gradients.height()
            &&& (gradients.width() as int / cell - side) % stride == 0
            &&& (gradients.height() as int / cell - side) % stride == 0
        },
        descriptor matches Some(d) ==> {
            let layout = HogLayout::of_image(
                gradients.width() as int,
                gradients.height() as int,
                options,
            );
            &&& d@.len() == layout.descriptor_length()
            &&& exists|grid: Array3d<T>|
                #[trigger] votes.histograms(*gradients, layout, grid) && blocks.describes(
                    layout,
                    grid,
                    d@,
                )
        },
{
    let (width, height) = gradients.dimensions();
    match HogSpec::from_options(width, height, options) {
        None => None,
        Some(spec) => {
            let grid: Array3d<T> = cell_histograms(gradients, spec, votes);
            proof {
                law_cell_grid_readable(spec@, grid);
            }
            let descriptor: Vec<T> = hog_descriptor_from_hist_grid(&grid, spec, blocks);
            Some(descriptor)
        },
    }
}

} // verus!
