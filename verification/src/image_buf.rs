//! The frame buffer and the material maps.
//!
//! Each is an `image::ImageBuffer` of the `image` crate, held opaquely in
//! `RasterImage`; the pipeline reads and writes it only through the
//! trusted wrappers below.  Their contracts speak of the pixel grid
//! `image_pixels` and of the construction size `image_dims`; values cross
//! the boundary as plain widths, heights and byte vectors.

use vstd::prelude::*;
use crate::rgb::Color;

verus! {

/// An RGB image with 8-bit channels, stored row by row.
#[verifier::external_body]
pub struct RasterImage {
    inner: image::ImageBuffer<image::Rgb<u8>, Vec<u8>>,
}

/// The pixel grid of an image: one channel triple per `(x, y)` coordinate
/// pair.
pub uninterp spec fn image_pixels(img: RasterImage) -> Map<(int, int), (u8, u8, u8)>;

/// The `(width, height)` an image was made with.
pub uninterp spec fn image_dims(img: RasterImage) -> (int, int);

impl RasterImage {
    /// Relies on `image::ImageBuffer::new`: a buffer of the given size
    /// with every pixel zeroed.  It panics when the byte length overflows
    /// `usize`, which the precondition rules out.
    #[verifier::external_body]
    pub fn new(w: u32, h: u32) -> (r: RasterImage)
        requires
            (w as int) * (h as int) * 3 <= usize::MAX,
        ensures
            image_dims(r) == (w as int, h as int),
            forall|x: int, y: int|
                0 <= x < w as int && 0 <= y < h as int ==> image_pixels(r)[(x, y)] == (
                0u8,
                0u8,
                0u8,
                ),
    {
        RasterImage { inner: image::ImageBuffer::new(w, h) }
    }

    /// Relies on `image::ImageBuffer::from_raw`: the buffer adopts the
    /// bytes row by row, three channels per pixel, and refuses a vector
    /// shorter than `w * h * 3`.
    #[verifier::external_body]
    pub fn from_raw(w: u32, h: u32, data: Vec<u8>) -> (r: Option<RasterImage>)
        ensures
            r is Some <==> data@.len() >= (w as int) * (h as int) * 3,
            r is Some ==> image_dims(r->0) == (w as int, h as int),
            r is Some ==> forall|x: int, y: int|
                0 <= x < w as int && 0 <= y < h as int ==> image_pixels(r->0)[(x, y)] == (
                data@[3 * (y * (w as int) + x)],
                data@[3 * (y * (w as int) + x) + 1],
                data@[3 * (y * (w as int) + x) + 2],
                ),
    {
        match image::ImageBuffer::from_raw(w, h, data) {
            Some(inner) => Some(RasterImage { inner }),
            None => None,
        }
    }

    /// Relies on `image::ImageBuffer::into_raw`: the container the
    /// buffer was made over — at least `w * h * 3` bytes, the pixels
    /// within them row by row, three channels each.
    #[verifier::external_body]
    pub fn into_raw(self) -> (r: Vec<u8>)
        ensures
            r@.len() >= image_dims(self).0 * image_dims(self).1 * 3,
            forall|x: int, y: int|
                0 <= x < image_dims(self).0 && 0 <= y < image_dims(self).1 ==> image_pixels(self)[
                    (x, y)
                ] == (
                r@[3 * (y * image_dims(self).0 + x)],
                r@[3 * (y * image_dims(self).0 + x) + 1],
                r@[3 * (y * image_dims(self).0 + x) + 2],
                ),
    {
        self.inner.into_raw()
    }

    /// Relies on `image::ImageBuffer::width`: the width the buffer was
    /// made with.
    #[verifier::external_body]
    pub fn width(&self) -> (r: u32)
        ensures
            r as int == image_dims(*self).0,
    {
        self.inner.width()
    }

    /// Relies on `image::ImageBuffer::height`: the height the buffer was
    /// made with.
    #[verifier::external_body]
    pub fn height(&self) -> (r: u32)
        ensures
            r as int == image_dims(*self).1,
    {
        self.inner.height()
    }

    /// Relies on `image::ImageBuffer::get_pixel`, which returns the
    /// stored pixel and panics outside the bounds, which the precondition
    /// rules out.
    #[verifier::external_body]
    pub fn get(&self, x: u32, y: u32) -> (r: (u8, u8, u8))
        requires
            (x as int) < image_dims(*self).0,
            (y as int) < image_dims(*self).1,
        ensures
            r == image_pixels(*self)[(x as int, y as int)],
    {
        let p = self.inner.get_pixel(x, y);
        (p.0[0], p.0[1], p.0[2])
    }

    /// Relies on `image::ImageBuffer::put_pixel`, which overwrites the
    /// stored pixel and panics outside the bounds, which the precondition
    /// rules out.
    #[verifier::external_body]
    pub fn put(&mut self, x: u32, y: u32, c: Color)
        requires
            (x as int) < image_dims(*old(self)).0,
            (y as int) < image_dims(*old(self)).1,
        ensures
            image_dims(*final(self)) == image_dims(*old(self)),
            image_pixels(*final(self)) == image_pixels(*old(self)).insert(
                (x as int, y as int),
                (c.r, c.g, c.b),
            ),
    {
        self.inner.put_pixel(x, y, image::Rgb([c.r, c.g, c.b]));
    }
}

} // verus!
