//! The pixel buffer the effect reads and paints: an `image::ImageBuffer` of
//! RGBA bytes, modelled by its dimensions and its raw bytes.

use crate::color::Color;
use vstd::arithmetic::div_mod::lemma_fundamental_div_mod_converse;
use vstd::prelude::*;

verus! {

/// What a canvas is to the contracts: its dimensions and the bytes of its
/// container, four per pixel, rows from the top, each row from the left.
pub struct Raster {
    pub width: nat,
    pub height: nat,
    pub bytes: Seq<u8>,
}

impl Raster {
    /// Every pixel inside the dimensions has its four bytes.
    pub open spec fn wf(self) -> bool {
        4 * self.width * self.height <= self.bytes.len()
    }

    /// `(x, y)` lies inside the dimensions.
    pub open spec fn contains(self, x: int, y: int) -> bool {
        0 <= x < self.width && 0 <= y < self.height
    }

    /// The window of `w` by `h` pixels with top-left corner `(x, y)` lies
    /// inside the dimensions.
    pub open spec fn holds_window(self, x: int, y: int, w: int, h: int) -> bool {
        0 <= x && 0 <= y && x + w <= self.width && y + h <= self.height
    }

    /// The position of the first byte of pixel `(x, y)`.
    pub open spec fn offset(self, x: int, y: int) -> int {
        4 * (y * self.width + x)
    }

    /// The pixel at `(x, y)`.
    pub open spec fn color_at(self, x: int, y: int) -> Color {
        let at = self.offset(x, y);
        Color {
            red: self.bytes[at],
            green: self.bytes[at + 1],
            blue: self.bytes[at + 2],
            alpha: self.bytes[at + 3],
        }
    }

    /// This raster with the pixel at `(x, y)` replaced.
    pub open spec fn with_color(self, x: int, y: int, color: Color) -> Raster {
        let at = self.offset(x, y);
        Raster {
            bytes: self.bytes.update(at, color.red).update(at + 1, color.green).update(
                at + 2,
                color.blue,
            ).update(at + 3, color.alpha),
            ..self
        }
    }
}

/// The raster of `width` by `height` pixels over `bytes`.
pub open spec fn raster_of(width: u32, height: u32, bytes: Seq<u8>) -> Raster {
    Raster { width: width as nat, height: height as nat, bytes }
}

/// The four bytes of a pixel inside the dimensions lie inside the bytes.
pub proof fn lemma_offset_in_bytes(raster: Raster, x: int, y: int)
    requires
        raster.wf(),
        raster.contains(x, y),
    ensures
        0 <= raster.offset(x, y),
        raster.offset(x, y) + 4 <= 4 * raster.width * raster.height,
        raster.offset(x, y) + 4 <= raster.bytes.len(),
{
    let w = raster.width as int;
    let h = raster.height as int;
    assert(0 <= y * w && y * w + x + 1 <= w * h && 4 * w * h == 4 * (w * h)) by (nonlinear_arith)
        requires
            0 <= x < w,
            0 <= y < h,
    ;
}

/// A pixel's position in the row-major order gives back its coordinates.
pub proof fn lemma_position_splits(width: int, x: int, y: int)
    requires
        0 <= x < width,
    ensures
        (y * width + x) / width == y,
        (y * width + x) % width == x,
{
    lemma_fundamental_div_mod_converse(y * width + x, width, y, x);
}

/// An image with 8-bit RGBA pixels over a byte vector: `image::ImageBuffer`
/// behind this library's own name.
#[verifier::external_body]
pub struct Canvas {
    buffer: image::ImageBuffer<image::Rgba<u8>, Vec<u8>>,
}

/// The bytes of the container a canvas was built over, in order.
pub uninterp spec fn canvas_bytes(canvas: Canvas) -> Seq<u8>;

/// The width and the height a canvas was built with.
pub uninterp spec fn canvas_size(canvas: Canvas) -> (u32, u32);

impl View for Canvas {
    type V = Raster;

    open spec fn view(&self) -> Raster {
        Raster {
            width: canvas_size(*self).0 as nat,
            height: canvas_size(*self).1 as nat,
            bytes: canvas_bytes(*self),
        }
    }
}

/// `ImageBuffer::from_raw`: a buffer over `bytes` with the given dimensions,
/// or `None` when four bytes per pixel do not fit into `bytes` or the number
/// of bytes in a row does not fit a `usize`.
#[verifier::external_body]
fn buffer_from_raw(width: u32, height: u32, bytes: Vec<u8>) -> (made: Option<Canvas>)
    ensures
        match made {
            Some(canvas) => 4 * width <= usize::MAX && 4 * width * height <= bytes.len()
                && canvas_bytes(canvas) == bytes@ && canvas_size(canvas) == (width, height),
            None => 4 * width > usize::MAX || 4 * width * height > bytes.len(),
        },
{
    match image::ImageBuffer::from_raw(width, height, bytes) {
        Some(buffer) => Some(Canvas { buffer }),
        None => None,
    }
}

/// `ImageBuffer::into_raw`: the container the buffer was built over.
#[verifier::external_body]
fn buffer_into_raw(canvas: Canvas) -> (bytes: Vec<u8>)
    ensures
        bytes@ == canvas_bytes(canvas),
{
    canvas.buffer.into_raw()
}

/// `ImageBuffer::dimensions`: the width and height the buffer was built
/// with. Every constructor of the buffer makes sure that the container holds
/// four bytes for each pixel inside them.
#[verifier::external_body]
fn buffer_dimensions(canvas: &Canvas) -> (size: (u32, u32))
    ensures
        size == canvas_size(*canvas),
        4 * size.0 * size.1 <= canvas_bytes(*canvas).len(),
{
    canvas.buffer.dimensions()
}

/// `ImageBuffer::get_pixel`: the four bytes at position `4 * (y * width + x)`
/// of the container. It panics outside the dimensions.
#[verifier::external_body]
fn buffer_get_pixel(canvas: &Canvas, x: u32, y: u32) -> (color: Color)
    requires
        x < canvas_size(*canvas).0,
        y < canvas_size(*canvas).1,
    ensures
        color.red == canvas_bytes(*canvas)[4 * (y * canvas_size(*canvas).0 + x)],
        color.green == canvas_bytes(*canvas)[4 * (y * canvas_size(*canvas).0 + x) + 1],
        color.blue == canvas_bytes(*canvas)[4 * (y * canvas_size(*canvas).0 + x) + 2],
        color.alpha == canvas_bytes(*canvas)[4 * (y * canvas_size(*canvas).0 + x) + 3],
{
    let pixel = canvas.buffer.get_pixel(x, y);
    Color { red: pixel.0[0], green: pixel.0[1], blue: pixel.0[2], alpha: pixel.0[3] }
}

/// `ImageBuffer::put_pixel`: overwrites the four bytes at position
/// `4 * (y * width + x)` of the container and nothing else. It panics
/// outside the dimensions.
#[verifier::external_body]
fn buffer_put_pixel(canvas: &mut Canvas, x: u32, y: u32, color: Color)
    requires
        x < canvas_size(*old(canvas)).0,
        y < canvas_size(*old(canvas)).1,
    ensures
        canvas_size(*final(canvas)) == canvas_size(*old(canvas)),
        canvas_bytes(*final(canvas)) == canvas_bytes(*old(canvas)).update(
            4 * (y * canvas_size(*old(canvas)).0 + x),
            color.red,
        ).update(4 * (y * canvas_size(*old(canvas)).0 + x) + 1, color.green).update(
            4 * (y * canvas_size(*old(canvas)).0 + x) + 2,
            color.blue,
        ).update(4 * (y * canvas_size(*old(canvas)).0 + x) + 3, color.alpha),
{
    canvas.buffer.put_pixel(x, y, image::Rgba([color.red, color.green, color.blue, color.alpha]));
}

/// `ImageBuffer::clone`: a buffer with the same dimensions over a copy of
/// the container.
#[verifier::external_body]
fn buffer_clone(canvas: &Canvas) -> (copy: Canvas)
    ensures
        canvas_size(copy) == canvas_size(*canvas),
        canvas_bytes(copy) == canvas_bytes(*canvas),
{
    Canvas { buffer: canvas.buffer.clone() }
}

impl Canvas {
    /// A canvas of `width` by `height` pixels over `bytes`, which must hold
    /// four bytes for each pixel; bytes beyond those are kept and never read.
    pub fn from_raw(width: u32, height: u32, bytes: Vec<u8>) -> (made: Option<Canvas>)
        ensures
            made.is_some() <==> 4 * width <= usize::MAX && 4 * width * height <= bytes.len(),
            made matches Some(canvas) ==> canvas@ == raster_of(width, height, bytes@),
    {
        buffer_from_raw(width, height, bytes)
    }

    /// The bytes of the canvas.
    pub fn into_raw(self) -> (bytes: Vec<u8>)
        ensures
            bytes@ == self@.bytes,
    {
        buffer_into_raw(self)
    }

    /// The width in pixels.
    pub fn width(&self) -> (width: u32)
        ensures
            width == self@.width,
            self@.wf(),
    {
        buffer_dimensions(self).0
    }

    /// The height in pixels.
    pub fn height(&self) -> (height: u32)
        ensures
            height == self@.height,
            self@.wf(),
    {
        buffer_dimensions(self).1
    }

    /// The pixel at `(x, y)`.
    pub fn get_pixel(&self, x: u32, y: u32) -> (color: Color)
        requires
            self@.contains(x as int, y as int),
        ensures
            color == self@.color_at(x as int, y as int),
    {
        buffer_get_pixel(self, x, y)
    }

    /// Replaces the pixel at `(x, y)`.
    pub fn put_pixel(&mut self, x: u32, y: u32, color: Color)
        requires
            old(self)@.contains(x as int, y as int),
        ensures
            final(self)@ == old(self)@.with_color(x as int, y as int, color),
    {
        buffer_put_pixel(self, x, y, color)
    }

    /// A canvas of its own with the same pixels.
    pub fn duplicate(&self) -> (copy: Canvas)
        ensures
            copy@ == self@,
    {
        buffer_clone(self)
    }
}

} // verus!
