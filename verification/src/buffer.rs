//! RGB images, held by the `image` crate and seen through a row-major pixel sequence.

use crate::arith::lemma_mul_bound_nonneg;
use vstd::prelude::*;

verus! {

/// One RGB pixel, eight bits per channel.
#[derive(Clone, Copy, Debug, PartialEq, Eq, Structural)]
pub struct Color {
    pub r: u8,
    pub g: u8,
    pub b: u8,
}

/// An owned RGB image.
///
/// The pixels live in an `image::RgbImage`, which Verus cannot look into.  What
/// an image holds is given by [`image_width`], [`image_height`] and
/// [`image_pixels`]; everything the library proves about images rests on the
/// contracts of the six private functions below that touch the field.
#[verifier::external_body]
pub struct Image {
    inner: image::RgbImage,
}

/// The number of pixel columns: what `ImageBuffer::width` returns.
pub uninterp spec fn image_width(img: Image) -> nat;

/// The number of pixel rows: what `ImageBuffer::height` returns.
pub uninterp spec fn image_height(img: Image) -> nat;

/// The pixels in row-major order: pixel `(x, y)` stands at index `x + y * width`.
pub uninterp spec fn image_pixels(img: Image) -> Seq<Color>;

/// The mathematical content of an [`Image`].
pub struct ImageView {
    pub width: nat,
    pub height: nat,
    pub pixels: Seq<Color>,
}

impl ImageView {
    /// Index of pixel `(x, y)` in the row-major pixel sequence.
    pub open spec fn index(self, x: int, y: int) -> int {
        x + y * self.width
    }

    /// Whether `(x, y)` names a pixel of the image.
    pub open spec fn contains(self, x: int, y: int) -> bool {
        0 <= x < self.width && 0 <= y < self.height
    }

    /// The pixel at `(x, y)`.
    pub open spec fn pixel(self, x: int, y: int) -> Color {
        self.pixels[self.index(x, y)]
    }

    /// There is exactly one entry per pixel.
    pub open spec fn wf(self) -> bool {
        self.pixels.len() == self.width * self.height
    }

    /// The image with the pixel at `(x, y)` replaced by `c`.
    pub open spec fn with_pixel(self, x: int, y: int, c: Color) -> ImageView {
        ImageView {
            width: self.width,
            height: self.height,
            pixels: self.pixels.update(self.index(x, y), c),
        }
    }

    /// The image turned by half a turn: pixel `(x, y)` of the result is pixel
    /// `(width - 1 - x, height - 1 - y)` of `self`.
    pub open spec fn rotated180(self) -> ImageView {
        ImageView {
            width: self.width,
            height: self.height,
            pixels: Seq::new(
                self.pixels.len(),
                |i: int| self.pixels[self.pixels.len() - 1 - i],
            ),
        }
    }
}

impl View for Image {
    type V = ImageView;

    open spec fn view(&self) -> ImageView {
        ImageView {
            width: image_width(*self),
            height: image_height(*self),
            pixels: image_pixels(*self),
        }
    }
}

/// Calls `ImageBuffer::width`.  The contract also records that the pixel
/// sequence has one entry for each of the `width * height` pixels.
#[verifier::external_body]
fn raw_width(img: &Image) -> (w: u32)
    ensures
        w == image_width(*img),
        image_pixels(*img).len() == w * image_height(*img),
{
    img.inner.width()
}

/// Calls `ImageBuffer::height`.
#[verifier::external_body]
fn raw_height(img: &Image) -> (h: u32)
    ensures
        h == image_height(*img),
{
    img.inner.height()
}

/// Calls `ImageBuffer::get_pixel`, which panics outside the image: the
/// coordinates must lie inside.  It returns the pixel stored at `(x, y)`.
#[verifier::external_body]
fn raw_get_pixel(img: &Image, x: u32, y: u32) -> (c: Color)
    requires
        x < image_width(*img),
        y < image_height(*img),
    ensures
        c == image_pixels(*img)[x + y * image_width(*img)],
{
    let p = img.inner.get_pixel(x, y);
    Color { r: p.0[0], g: p.0[1], b: p.0[2] }
}

/// Calls `ImageBuffer::put_pixel`, which panics outside the image: the
/// coordinates must lie inside.  It overwrites the pixel at `(x, y)` and
/// leaves the size and every other pixel as they were.
#[verifier::external_body]
fn raw_put_pixel(img: &mut Image, x: u32, y: u32, c: Color)
    requires
        x < image_width(*old(img)),
        y < image_height(*old(img)),
    ensures
        image_width(*final(img)) == image_width(*old(img)),
        image_height(*final(img)) == image_height(*old(img)),
        image_pixels(*final(img)) == image_pixels(*old(img)).update(
            x + y * image_width(*old(img)),
            c,
        ),
{
    img.inner.put_pixel(x, y, image::Rgb([c.r, c.g, c.b]));
}

/// Whether an image of `width` by `height` pixels can be made: the three
/// bytes of each pixel of one row can be counted in a `usize`, and the bytes
/// of all rows fit in a vector.
pub open spec fn image_fits(width: int, height: int) -> bool {
    3 * width <= usize::MAX && 3 * (width * height) <= isize::MAX
}

/// Calls `ImageBuffer::from_fn` with a function that returns `c` everywhere.
/// The call panics when the byte count of one row overflows a `usize`,
/// whatever the height, and when the bytes of all rows do not fit in a
/// vector; [`image_fits`] leaves both out.
#[verifier::external_body]
fn raw_filled(width: u32, height: u32, c: Color) -> (img: Image)
    requires
        image_fits(width as int, height as int),
    ensures
        image_width(img) == width,
        image_height(img) == height,
        image_pixels(img) == Seq::new((width * height) as nat, |i: int| c),
{
    let pixel = image::Rgb([c.r, c.g, c.b]);
    Image { inner: image::ImageBuffer::from_fn(width, height, |_x, _y| pixel) }
}

/// Calls `imageops::rotate180`: the result has the size of `img`, and each
/// pixel `(x, y)` of `img` is found at `(width - 1 - x, height - 1 - y)`.
#[verifier::external_body]
fn raw_rotate180(img: &Image) -> (out: Image)
    ensures
        image_width(out) == image_width(*img),
        image_height(out) == image_height(*img),
        image_pixels(out).len() == image_pixels(*img).len(),
        forall|x: int, y: int|
            0 <= x < image_width(*img) && 0 <= y < image_height(*img) ==> #[trigger] image_pixels(
                out,
            )[(image_width(*img) - 1 - x) + (image_height(*img) - 1 - y) * image_width(*img)]
                == image_pixels(*img)[x + y * image_width(*img)],
{
    Image { inner: image::imageops::rotate180(&img.inner) }
}

impl Image {
    /// A `width` by `height` image with every pixel set to `fill`, or `None`
    /// when an image of that size cannot be made (see [`image_fits`]).
    pub fn new(width: u32, height: u32, fill: Color) -> (r: Option<Image>)
        ensures
            r is Some <==> image_fits(width as int, height as int),
            r matches Some(img) ==> {
                &&& img@.width == width
                &&& img@.height == height
                &&& img@.wf()
                &&& img@.pixels == Seq::new((width * height) as nat, |i: int| fill)
                &&& forall|x: int, y: int| img@.contains(x, y) ==> img@.pixel(x, y) == fill
            },
    {
        proof {
            lemma_mul_bound_nonneg(width as int, height as int, 0xffff_ffff, 0xffff_ffff);
        }
        let area: u128 = width as u128 * (height as u128);
        let bytes: u128 = 3 * area;
        if 3 * (width as u128) > usize::MAX as u128 || bytes > isize::MAX as u128 {
            return None;
        }
        let img = raw_filled(width, height, fill);
        proof {
            assert forall|x: int, y: int| img@.contains(x, y) implies img@.pixel(x, y) == fill by {
                lemma_index_in_range(width as int, height as int, x, y);
            }
        }
        Some(img)
    }

    /// The number of pixel columns.
    pub fn width(&self) -> (w: u32)
        ensures
            w == self@.width,
            self@.wf(),
    {
        raw_width(self)
    }

    /// The number of pixel rows.
    pub fn height(&self) -> (h: u32)
        ensures
            h == self@.height,
    {
        raw_height(self)
    }

    /// The pixel at `(x, y)`, or `None` outside the image.
    pub fn get_pixel(&self, x: u32, y: u32) -> (r: Option<Color>)
        ensures
            r is Some <==> self@.contains(x as int, y as int),
            r matches Some(c) ==> c == self@.pixel(x as int, y as int),
    {
        if x < raw_width(self) && y < raw_height(self) {
            Some(raw_get_pixel(self, x, y))
        } else {
            None
        }
    }

    /// Sets the pixel at `(x, y)` to `c` and returns `true`; outside the image
    /// it changes nothing and returns `false`.
    pub fn put_pixel(&mut self, x: u32, y: u32, c: Color) -> (written: bool)
        ensures
            written == old(self)@.contains(x as int, y as int),
            written ==> final(self)@ == old(self)@.with_pixel(x as int, y as int, c),
            !written ==> final(self)@ == old(self)@,
            old(self)@.wf(),
            final(self)@.wf(),
    {
        if x < raw_width(self) && y < raw_height(self) {
            proof {
                lemma_index_in_range(self@.width as int, self@.height as int, x as int, y as int);
            }
            raw_put_pixel(self, x, y, c);
            true
        } else {
            false
        }
    }

    /// The image turned by half a turn.
    pub fn rotate180(&self) -> (out: Image)
        ensures
            out@ == self@.rotated180(),
            out@.wf(),
    {
        let w: u32 = raw_width(self);
        let out = raw_rotate180(self);
        proof {
            let width = self@.width as int;
            let height = self@.height as int;
            let len = self@.pixels.len() as int;
            assert forall|i: int| 0 <= i < len implies out@.pixels[i] == self@.pixels[len - 1
                - i] by {
                let j = len - 1 - i;
                lemma_index_split(width, height, j);
                let x = j % width;
                let y = j / width;
                assert(image_pixels(out)[(width - 1 - x) + (height - 1 - y) * width]
                    == image_pixels(*self)[x + y * width]);
                assert((width - 1 - x) + (height - 1 - y) * width == i) by (nonlinear_arith)
                    requires
                        j == x + y * width,
                        j == len - 1 - i,
                        len == width * height,
                ;
            }
            assert(out@.pixels =~= self@.rotated180().pixels);
        }
        out
    }
}

/// An index below `width * height` is the row-major index of the pixel in
/// column `i % width` and row `i / width`.
pub proof fn lemma_index_split(width: int, height: int, i: int)
    requires
        0 <= i < width * height,
        0 <= height,
        0 <= width,
    ensures
        0 <= i % width < width,
        0 <= i / width < height,
        i == i % width + (i / width) * width,
{
    assert(width > 0) by (nonlinear_arith)
        requires
            0 <= i < width * height,
            0 <= width,
    ;
    vstd::arithmetic::div_mod::lemma_fundamental_div_mod(i, width);
    vstd::arithmetic::div_mod::lemma_mod_bound(i, width);
    let q = i / width;
    assert(width * q == q * width) by (nonlinear_arith);
    assert(0 <= q < height) by (nonlinear_arith)
        requires
            i == q * width + i % width,
            0 <= i % width < width,
            0 <= i < width * height,
            width > 0,
    ;
}

/// Two pixels of a grid with the same row-major index are the same pixel.
pub proof fn lemma_index_injective(width: int, x1: int, y1: int, x2: int, y2: int)
    by (nonlinear_arith)
    requires
        0 <= x1 < width,
        0 <= x2 < width,
        x1 + y1 * width == x2 + y2 * width,
    ensures
        x1 == x2,
        y1 == y2,
{
    if y1 < y2 {
        assert((y1 + 1) * width <= y2 * width);
    } else if y2 < y1 {
        assert((y2 + 1) * width <= y1 * width);
    }
}

/// A pixel inside a `width` by `height` grid has a row-major index below `width * height`.
pub proof fn lemma_index_in_range(width: int, height: int, x: int, y: int)
    requires
        0 <= x < width,
        0 <= y < height,
    ensures
        0 <= x + y * width < width * height,
        0 <= y * width,
{
    assert(y * width >= 0) by (nonlinear_arith)
        requires
            y >= 0,
            width >= 0,
    ;
    assert(x + y * width < width * height) by (nonlinear_arith)
        requires
            0 <= x < width,
            0 <= y < height,
    {
        assert((y + 1) * width <= height * width);
    }
}

} // verus!
