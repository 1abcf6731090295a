# hog

Histograms of oriented gradients, verified with Verus.

- `src/layout.rs`: options, and the grids of cells and blocks that follow from them
- `src/multiarray.rs`: three-dimensional arrays in one contiguous buffer
- `src/interpolation.rs`: sharing a value between two grid points
- `src/buffer.rs`: gradient and grayscale buffers, on top of the `image` crate
- `src/histogram.rs`: the votes of pixels, and the histograms of cells
- `src/histogram_laws.rs`: what the histograms depend on
- `src/descriptor.rs`: collecting histograms into blocks, and normalising them
- `src/render.rs`: drawing histograms as stars of rays
- `src/render_laws.rs`: what the stars depend on
- `src/lib.rs`: the descriptor of an image

The library does no floating-point arithmetic of its own: histogram entries are of any type, and
callers hand in the operations on them. `app/` does so for `f32` and connects the library to images.
