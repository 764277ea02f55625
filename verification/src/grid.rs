//! The pixel grid: an RGBA raster backed by `image::ImageBuffer`.
//!
//! The buffer itself is an outside collection; Verus sees it through two
//! uninterpreted names, its dimensions and its pixel contents, and through
//! trusted wrappers around the handful of `image` methods the rasterizers
//! call. Everything above those wrappers is verified: `PixelGrid` keeps its
//! stored dimensions in step with the buffer's and exposes exact pointwise
//! contracts for reading, writing, filling, cloning and flattening.

use vstd::prelude::*;

use crate::color::Color;

verus! {

/// Holds the backing RGBA `image::ImageBuffer`. Declaring that type to Verus
/// directly fails on the outside trait bound of its definition, so the buffer
/// lives behind this opaque holder and is reached only through the trusted
/// wrappers below.
#[verifier::external_body]
pub struct Raster {
    buf: image::ImageBuffer<image::Rgba<u8>, Vec<u8>>,
}

/// The dimensions `(width, height)` that the backing `image::ImageBuffer`
/// was created with.
pub uninterp spec fn raster_dims(img: Raster) -> (int, int);

/// The pixel contents of the backing `image::ImageBuffer`: the
/// `(r, g, b, a)` channel values at each in-range `(x, y)` position.
pub uninterp spec fn raster_pixels(img: Raster) -> Map<(int, int), (u8, u8, u8, u8)>;

/// Relies on `image::ImageBuffer::from_pixel`: the buffer has the given
/// dimensions and holds the given pixel at every position. The dimension cap
/// keeps the allocation far below the length at which `from_pixel` panics.
#[verifier::external_body]
fn raster_fill(width: u32, height: u32, c: (u8, u8, u8, u8)) -> (img: Raster)
    requires
        1 <= width <= 4096,
        1 <= height <= 4096,
    ensures
        raster_dims(img) == (width as int, height as int),
        forall|x: int, y: int|
            0 <= x < width && 0 <= y < height ==> #[trigger] raster_pixels(img)[(x, y)] == c,
{
    Raster { buf: image::ImageBuffer::from_pixel(width, height, image::Rgba([c.0, c.1, c.2, c.3])) }
}

/// Relies on `image::ImageBuffer::get_pixel`: returns the channel values at
/// `(x, y)`. The bounds precondition rules out its out-of-range panic.
#[verifier::external_body]
fn raster_get(img: &Raster, x: u32, y: u32) -> (c: (u8, u8, u8, u8))
    requires
        0 <= x < raster_dims(*img).0,
        0 <= y < raster_dims(*img).1,
    ensures
        c == raster_pixels(*img)[(x as int, y as int)],
{
    let p = img.buf.get_pixel(x, y);
    (p.0[0], p.0[1], p.0[2], p.0[3])
}

/// Relies on `image::ImageBuffer::put_pixel`: replaces the pixel at `(x, y)`
/// and leaves every other pixel and the dimensions unchanged. The bounds
/// precondition rules out its out-of-range panic.
#[verifier::external_body]
fn raster_put(img: &mut Raster, x: u32, y: u32, c: (u8, u8, u8, u8))
    requires
        0 <= x < raster_dims(*old(img)).0,
        0 <= y < raster_dims(*old(img)).1,
    ensures
        raster_dims(*final(img)) == raster_dims(*old(img)),
        raster_pixels(*final(img)) == raster_pixels(*old(img)).insert((x as int, y as int), c),
{
    img.buf.put_pixel(x, y, image::Rgba([c.0, c.1, c.2, c.3]));
}

/// Relies on `image::ImageBuffer`'s `Clone`: the copy has the same
/// dimensions and the same pixel contents.
#[verifier::external_body]
fn raster_clone(img: &Raster) -> (r: Raster)
    ensures
        raster_dims(r) == raster_dims(*img),
        raster_pixels(r) == raster_pixels(*img),
{
    Raster { buf: img.buf.clone() }
}

/// A well-formed grid has positive dimensions within the accepted cap.
pub proof fn lemma_wf_dims(g: PixelGrid)
    requires
        g.wf(),
    ensures
        1 <= g.spec_width() <= 4096,
        1 <= g.spec_height() <= 4096,
{
}

/// A 2D grid of RGBA pixels with fixed positive dimensions, row-major,
/// top-left origin.
pub struct PixelGrid {
    width: usize,
    height: usize,
    img: Raster,
}

impl PixelGrid {
    /// Well-formed: positive capped dimensions that agree with the backing
    /// buffer's.
    pub closed spec fn wf(self) -> bool {
        &&& 1 <= self.width <= 4096
        &&& 1 <= self.height <= 4096
        &&& raster_dims(self.img) == (self.width as int, self.height as int)
    }

    pub closed spec fn spec_width(self) -> int {
        self.width as int
    }

    pub closed spec fn spec_height(self) -> int {
        self.height as int
    }

    /// The color held at position `(x, y)`.
    pub closed spec fn color_at(self, x: int, y: int) -> Color {
        let c = raster_pixels(self.img)[(x, y)];
        Color { r: c.0, g: c.1, b: c.2, a: c.3 }
    }

    /// Create a grid with every pixel set to `c`.
    pub fn new_filled(width: usize, height: usize, c: Color) -> (g: PixelGrid)
        requires
            1 <= width <= 4096,
            1 <= height <= 4096,
        ensures
            g.wf(),
            g.spec_width() == width,
            g.spec_height() == height,
            forall|x: int, y: int|
                0 <= x < width && 0 <= y < height ==> #[trigger] g.color_at(x, y) == c,
    {
        let img = raster_fill(width as u32, height as u32, (c.r, c.g, c.b, c.a));
        PixelGrid { width, height, img }
    }

    pub fn width(&self) -> (w: usize)
        ensures
            w == self.spec_width(),
    {
        self.width
    }

    pub fn height(&self) -> (h: usize)
        ensures
            h == self.spec_height(),
    {
        self.height
    }

    /// Read the pixel at `(x, y)`.
    pub fn pixel(&self, x: usize, y: usize) -> (c: Color)
        requires
            self.wf(),
            x < self.spec_width(),
            y < self.spec_height(),
        ensures
            c == self.color_at(x as int, y as int),
    {
        let t = raster_get(&self.img, x as u32, y as u32);
        Color { r: t.0, g: t.1, b: t.2, a: t.3 }
    }

    /// Overwrite the pixel at `(x, y)`; every other pixel is unchanged.
    pub fn set_pixel(&mut self, x: usize, y: usize, c: Color)
        requires
            old(self).wf(),
            x < old(self).spec_width(),
            y < old(self).spec_height(),
        ensures
            final(self).wf(),
            final(self).spec_width() == old(self).spec_width(),
            final(self).spec_height() == old(self).spec_height(),
            final(self).color_at(x as int, y as int) == c,
            forall|i: int, j: int|
                !(i == x && j == y) ==> #[trigger] final(self).color_at(i, j) == old(self).color_at(
                    i,
                    j,
                ),
    {
        raster_put(&mut self.img, x as u32, y as u32, (c.r, c.g, c.b, c.a));
    }

    /// An independent copy with the same dimensions and contents.
    pub fn clone_grid(&self) -> (g: PixelGrid)
        ensures
            g.spec_width() == self.spec_width(),
            g.spec_height() == self.spec_height(),
            self.wf() ==> g.wf(),
            forall|i: int, j: int| #[trigger] g.color_at(i, j) == self.color_at(i, j),
    {
        PixelGrid { width: self.width, height: self.height, img: raster_clone(&self.img) }
    }

    /// Flatten the grid to non-premultiplied RGBA bytes, row-major from the
    /// top-left: pixel `(x, y)` occupies the four bytes starting at
    /// `4 * (y * width + x)`.
    pub fn to_rgba_bytes(&self) -> (bytes: Vec<u8>)
        requires
            self.wf(),
        ensures
            bytes@.len() == 4 * self.spec_width() * self.spec_height(),
            forall|x: int, y: int|
                0 <= x < self.spec_width() && 0 <= y < self.spec_height() ==> {
                    let base = 4 * (y * self.spec_width() + x);
                    &&& bytes@[base] == #[trigger] self.color_at(x, y).r
                    &&& bytes@[base + 1] == self.color_at(x, y).g
                    &&& bytes@[base + 2] == self.color_at(x, y).b
                    &&& bytes@[base + 3] == self.color_at(x, y).a
                },
    {
        let w = self.width;
        let h = self.height;
        let mut bytes: Vec<u8> = Vec::new();
        let mut y: usize = 0;
        while y < h
            invariant
                self.wf(),
                w == self.spec_width(),
                h == self.spec_height(),
                y <= h,
                bytes@.len() == 4 * (y * w),
                forall|i: int, j: int|
                    0 <= i < w && 0 <= j < y ==> {
                        let base = 4 * (j * w + i);
                        &&& bytes@[base] == #[trigger] self.color_at(i, j).r
                        &&& bytes@[base + 1] == self.color_at(i, j).g
                        &&& bytes@[base + 2] == self.color_at(i, j).b
                        &&& bytes@[base + 3] == self.color_at(i, j).a
                    },
            decreases h - y,
        {
            let mut x: usize = 0;
            while x < w
                invariant
                    self.wf(),
                    w == self.spec_width(),
                    h == self.spec_height(),
                    y < h,
                    x <= w,
                    bytes@.len() == 4 * (y * w) + 4 * x,
                    forall|i: int, j: int|
                        0 <= i < w && 0 <= j < y ==> {
                            let base = 4 * (j * w + i);
                            &&& bytes@[base] == #[trigger] self.color_at(i, j).r
                            &&& bytes@[base + 1] == self.color_at(i, j).g
                            &&& bytes@[base + 2] == self.color_at(i, j).b
                            &&& bytes@[base + 3] == self.color_at(i, j).a
                        },
                    forall|i: int|
                        0 <= i < x ==> {
                            let base = 4 * (y * w + i);
                            &&& bytes@[base] == #[trigger] self.color_at(i, y as int).r
                            &&& bytes@[base + 1] == self.color_at(i, y as int).g
                            &&& bytes@[base + 2] == self.color_at(i, y as int).b
                            &&& bytes@[base + 3] == self.color_at(i, y as int).a
                        },
                decreases w - x,
            {
                let ghost bytes0 = bytes@;
                let c = self.pixel(x, y);
                bytes.push(c.r);
                bytes.push(c.g);
                bytes.push(c.b);
                bytes.push(c.a);
                proof {
                    assert(bytes@ == bytes0.push(c.r).push(c.g).push(c.b).push(c.a));
                }
                proof {
                    assert forall|i2: int, j2: int| 0 <= i2 < w && 0 <= j2 < y implies {
                        let base = 4 * (j2 * w + i2);
                        &&& bytes@[base] == #[trigger] self.color_at(i2, j2).r
                        &&& bytes@[base + 1] == self.color_at(i2, j2).g
                        &&& bytes@[base + 2] == self.color_at(i2, j2).b
                        &&& bytes@[base + 3] == self.color_at(i2, j2).a
                    } by {
                        assert(0 <= j2 * w + i2 && j2 * w + i2 < y * w) by (nonlinear_arith)
                            requires
                                0 <= i2 < w as int,
                                0 <= j2 < y as int,
                        ;
                    }
                    assert forall|i2: int| 0 <= i2 < x + 1 implies {
                        let base = 4 * ((y as int) * w + i2);
                        &&& bytes@[base] == #[trigger] self.color_at(i2, y as int).r
                        &&& bytes@[base + 1] == self.color_at(i2, y as int).g
                        &&& bytes@[base + 2] == self.color_at(i2, y as int).b
                        &&& bytes@[base + 3] == self.color_at(i2, y as int).a
                    } by {
                        let base = 4 * ((y as int) * w + i2);
                        assert(base == 4 * ((y as int) * w) + 4 * i2);
                        if i2 < x {
                            assert(base + 3 < bytes0.len());
                            assert(bytes@[base] == bytes0[base]);
                            assert(bytes@[base + 1] == bytes0[base + 1]);
                            assert(bytes@[base + 2] == bytes0[base + 2]);
                            assert(bytes@[base + 3] == bytes0[base + 3]);
                        } else {
                            assert(base == bytes0.len());
                            assert(bytes@[base] == c.r);
                            assert(bytes@[base + 1] == c.g);
                            assert(bytes@[base + 2] == c.b);
                            assert(bytes@[base + 3] == c.a);
                        }
                    }
                }
                x = x + 1;
            }
            y = y + 1;
            proof {
                assert(4 * ((y - 1) * w) + 4 * w == 4 * (y * w)) by (nonlinear_arith);
            }
        }
        proof {
            assert(4 * (h * w) == 4 * w * h) by (nonlinear_arith);
        }
        bytes
    }
}

} // verus!
