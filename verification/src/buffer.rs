//! The pixel buffers that gradients are read from and visualisations are drawn on.
//!
//! Both are `ImageBuffer`s of the `image` crate. What that crate does is not proved here: the
//! functions marked `external_body` state what is relied on.

use image::{ImageBuffer, Luma};
use vstd::prelude::*;

verus! {

/// A single-channel buffer of signed gradient samples.
#[verifier::external_body]
pub struct GradientBuffer {
    inner: ImageBuffer<Luma<i16>, Vec<i16>>,
}

/// The width and height in pixels of a gradient buffer.
pub uninterp spec fn gradient_size(buffer: GradientBuffer) -> (u32, u32);

/// The samples of a gradient buffer, row by row.
pub uninterp spec fn gradient_samples(buffer: GradientBuffer) -> Seq<i16>;

/// `ImageBuffer::from_raw` for a single channel: takes over a vector of samples if it holds at
/// least one for each pixel, and returns nothing if it is shorter. The buffer has the size asked
/// for and the vector's samples.
#[verifier::external_body]
fn gradient_from_raw(width: u32, height: u32, samples: Vec<i16>) -> (buffer: Option<GradientBuffer>)
    requires
        width * height <= usize::MAX,
    ensures
        buffer is Some <==> width * height <= samples@.len(),
        buffer matches Some(b) ==> gradient_size(b) == (width, height) && gradient_samples(b)
            == samples@,
{
    match ImageBuffer::from_raw(width, height, samples) {
        Some(inner) => Some(GradientBuffer { inner }),
        None => None,
    }
}

/// `ImageBuffer::get_pixel` for a single channel: the sample at column `x` of row `y`, which
/// stands at offset `y * width + x`. The offset is computed in `u32` arithmetic.
#[verifier::external_body]
fn gradient_get_pixel(buffer: &GradientBuffer, x: u32, y: u32) -> (sample: i16)
    requires
        x < gradient_size(*buffer).0,
        y < gradient_size(*buffer).1,
        y * gradient_size(*buffer).0 + x <= u32::MAX,
        y * gradient_size(*buffer).0 + x < gradient_samples(*buffer).len(),
    ensures
        sample == gradient_samples(*buffer)[y * gradient_size(*buffer).0 + x],
{
    buffer.inner.get_pixel(x, y).data[0]
}

/// Horizontal and vertical gradients of one image, of the same size as the image.
pub struct Gradients {
    width: u32,
    height: u32,
    horizontal: GradientBuffer,
    vertical: GradientBuffer,
}

/// A pixel of an image has an offset below the number of the image's pixels.
proof fn lemma_pixel_offset(width: int, height: int, x: int, y: int)
    requires
        0 <= x < width,
        0 <= y < height,
    ensures
        0 <= y * width + x < width * height,
{
    assert(0 <= y * width && y * width + width <= width * height) by (nonlinear_arith)
        requires
            0 <= y < height,
            0 < width,
    ;
}

impl Gradients {
    /// Both buffers have the stated size and a sample for every pixel, and every pixel has an
    /// offset in `u32` arithmetic.
    #[verifier::type_invariant]
    closed spec fn complete(self) -> bool {
        &&& gradient_size(self.horizontal) == (self.width, self.height)
        &&& gradient_size(self.vertical) == (self.width, self.height)
        &&& self.width * self.height <= gradient_samples(self.horizontal).len()
        &&& self.width * self.height <= gradient_samples(self.vertical).len()
        &&& self.width * self.height <= u32::MAX + 1
    }

    /// The width of the image.
    pub closed spec fn width(self) -> u32 {
        self.width
    }

    /// The height of the image.
    pub closed spec fn height(self) -> u32 {
        self.height
    }

    /// The horizontal gradient at a pixel.
    pub closed spec fn horizontal_at(self, x: int, y: int) -> i16 {
        gradient_samples(self.horizontal)[y * self.width + x]
    }

    /// The vertical gradient at a pixel.
    pub closed spec fn vertical_at(self, x: int, y: int) -> i16 {
        gradient_samples(self.vertical)[y * self.width + x]
    }

    /// Gradients of an image of the given size from their samples, row by row. Returns None if
    /// either vector is too short for the image, or the image has more pixels than `u32` offsets
    /// can tell apart.
    pub fn from_raw(width: u32, height: u32, horizontal: Vec<i16>, vertical: Vec<i16>) -> (gradients:
        Option<Gradients>)
        ensures
            gradients is Some <==> {
                &&& width * height <= u32::MAX + 1
                &&& width * height <= horizontal@.len()
                &&& width * height <= vertical@.len()
            },
            gradients matches Some(g) ==> {
                &&& g.width() == width
                &&& g.height() == height
                &&& forall|x: int, y: int|
                    0 <= x < width && 0 <= y < height ==> #[trigger] g.horizontal_at(x, y)
                        == horizontal@[y * width + x]
                &&& forall|x: int, y: int|
                    0 <= x < width && 0 <= y < height ==> #[trigger] g.vertical_at(x, y)
                        == vertical@[y * width + x]
            },
    {
        assert(width * height <= u64::MAX) by (nonlinear_arith)
            requires
                0 <= width <= u32::MAX,
                0 <= height <= u32::MAX,
        ;
        let pixels: u64 = width as u64 * height as u64;
        assert(horizontal@.len() == horizontal.len());
        if pixels > u32::MAX as u64 + 1 || pixels > usize::MAX as u64 {
            return None;
        }
        match (
            gradient_from_raw(width, height, horizontal),
            gradient_from_raw(width, height, vertical),
        ) {
            (Some(horizontal), Some(vertical)) => Some(
                Gradients { width, height, horizontal, vertical },
            ),
            _ => None,
        }
    }

    /// The width and height of the image.
    pub fn dimensions(&self) -> (size: (u32, u32))
        ensures
            size == (self.width(), self.height()),
    {
        (self.width, self.height)
    }

    /// The horizontal and vertical gradients at a pixel.
    pub fn get_pixel(&self, x: u32, y: u32) -> (gradient: (i16, i16))
        requires
            x < self.width(),
            y < self.height(),
        ensures
            gradient == (
                self.horizontal_at(x as int, y as int),
                self.vertical_at(x as int, y as int),
            ),
    {
        proof {
            use_type_invariant(self);
            lemma_pixel_offset(self.width as int, self.height as int, x as int, y as int);
        }
        (
            gradient_get_pixel(&self.horizontal, x, y),
            gradient_get_pixel(&self.vertical, x, y),
        )
    }
}

/// An 8 bits per pixel grayscale buffer.
#[verifier::external_body]
pub struct GrayBuffer {
    inner: ImageBuffer<Luma<u8>, Vec<u8>>,
}

/// The width and height in pixels of a grayscale buffer.
pub uninterp spec fn gray_size(buffer: GrayBuffer) -> (u32, u32);

/// The samples of a grayscale buffer, row by row.
pub uninterp spec fn gray_samples(buffer: GrayBuffer) -> Seq<u8>;

/// `ImageBuffer::new` for a single channel: a buffer of the size asked for that holds one zero
/// sample for each pixel. It allocates a vector, whose size must not exceed `isize::MAX` bytes.
#[verifier::external_body]
fn gray_new(width: u32, height: u32) -> (buffer: GrayBuffer)
    requires
        width * height <= isize::MAX,
    ensures
        gray_size(buffer) == (width, height),
        gray_samples(buffer) == Seq::new((width * height) as nat, |i: int| 0u8),
{
    GrayBuffer { inner: ImageBuffer::new(width, height) }
}

/// `ImageBuffer::from_raw` for a single channel: takes over a vector of samples if it holds at
/// least one for each pixel, and returns nothing if it is shorter. The buffer has the size asked
/// for and the vector's samples.
#[verifier::external_body]
fn gray_from_raw(width: u32, height: u32, samples: Vec<u8>) -> (buffer: Option<GrayBuffer>)
    requires
        width * height <= usize::MAX,
    ensures
        buffer is Some <==> width * height <= samples@.len(),
        buffer matches Some(b) ==> gray_size(b) == (width, height) && gray_samples(b) == samples@,
{
    match ImageBuffer::from_raw(width, height, samples) {
        Some(inner) => Some(GrayBuffer { inner }),
        None => None,
    }
}

/// `ImageBuffer::dimensions`: the width and height of the buffer.
#[verifier::external_body]
fn gray_dimensions(buffer: &GrayBuffer) -> (size: (u32, u32))
    ensures
        size == gray_size(*buffer),
{
    buffer.inner.dimensions()
}

/// `ImageBuffer::into_raw`: the samples of the buffer.
#[verifier::external_body]
fn gray_into_raw(buffer: GrayBuffer) -> (samples: Vec<u8>)
    ensures
        samples@ == gray_samples(buffer),
{
    buffer.inner.into_raw()
}

impl GrayBuffer {
    /// A black image of the given size.
    pub fn new(width: u32, height: u32) -> (buffer: GrayBuffer)
        requires
            width * height <= isize::MAX,
        ensures
            gray_size(buffer) == (width, height),
            gray_samples(buffer) == Seq::new((width * height) as nat, |i: int| 0u8),
    {
        gray_new(width, height)
    }

    /// An image of the given size from its samples, row by row. Returns None if there are too few
    /// of them.
    pub fn from_raw(width: u32, height: u32, samples: Vec<u8>) -> (buffer: Option<GrayBuffer>)
        ensures
            buffer is Some <==> width * height <= samples@.len(),
            buffer matches Some(b) ==> gray_size(b) == (width, height) && gray_samples(b)
                == samples@,
    {
        assert(width * height <= u64::MAX) by (nonlinear_arith)
            requires
                0 <= width <= u32::MAX,
                0 <= height <= u32::MAX,
        ;
        let pixels: u64 = width as u64 * height as u64;
        assert(samples@.len() == samples.len());
        if pixels > usize::MAX as u64 {
            return None;
        }
        gray_from_raw(width, height, samples)
    }

    /// The width and height of the image.
    pub fn dimensions(&self) -> (size: (u32, u32))
        ensures
            size == gray_size(*self),
    {
        gray_dimensions(self)
    }

    /// The samples of the image, row by row.
    pub fn into_raw(self) -> (samples: Vec<u8>)
        ensures
            samples@ == gray_samples(self),
    {
        gray_into_raw(self)
    }
}

} // verus!
