//! The decoded image: dimensions and a row-major RGBA buffer.

use vstd::prelude::*;
use crate::color::Pixel;
use crate::error::RenderError;

verus! {

/// The mathematical content of a [`RasterImage`].
pub struct RasterView {
    pub width: nat,
    pub height: nat,
    pub pixels: Seq<u8>,
}

/// Where the four bytes of the pixel in column `x` of row `y` start, in a
/// row-major buffer of an image `width` pixels wide.
pub open spec fn pixel_offset(width: nat, x: int, y: int) -> int {
    (y * width + x) * 4
}

impl RasterView {
    /// The buffer has one pixel of four bytes for every position.
    pub open spec fn wf(self) -> bool {
        self.pixels.len() == self.width * self.height * 4
    }

    /// The pixel in column `x` of row `y`, counted from the top-left corner.
    pub open spec fn pixel(self, x: int, y: int) -> Pixel {
        let base = pixel_offset(self.width, x, y);
        Pixel {
            r: self.pixels[base],
            g: self.pixels[base + 1],
            b: self.pixels[base + 2],
            a: self.pixels[base + 3],
        }
    }

    /// The square of side `size` whose top-left corner is `(x, y)` holds at
    /// least one pixel and lies inside the image.
    pub open spec fn holds_square(self, x: int, y: int, size: int) -> bool {
        &&& size >= 1
        &&& 0 <= x && x + size <= self.width
        &&& 0 <= y && y + size <= self.height
    }

    /// Every pixel of the square of side `size` at `(x, y)` is `p`.
    pub open spec fn square_is(self, x: int, y: int, size: int, p: Pixel) -> bool {
        forall|i: int, j: int|
            x <= i < x + size && y <= j < y + size ==> #[trigger] self.pixel(i, j) == p
    }

    /// Every pixel of the square of side `size` at `(x, y)` has alpha 0.
    pub open spec fn square_is_transparent(self, x: int, y: int, size: int) -> bool {
        forall|i: int, j: int|
            x <= i < x + size && y <= j < y + size ==> (#[trigger] self.pixel(i, j)).a == 0
    }
}

/// The pixels of column `x`, row `y` lie inside a buffer of
/// `width * height` pixels.
pub proof fn lemma_pixel_offset_in_bounds(width: nat, height: nat, x: int, y: int)
    requires
        0 <= x < width,
        0 <= y < height,
    ensures
        0 <= pixel_offset(width, x, y),
        pixel_offset(width, x, y) + 4 <= width * height * 4,
        0 <= y * width <= y * width + x < width * height,
{
    assert(0 <= y * width) by (nonlinear_arith)
        requires
            0 <= y,
            0 <= width,
    ;
    assert(y * width + width <= height * width) by (nonlinear_arith)
        requires
            y + 1 <= height,
            0 <= width,
    ;
    assert(height * width == width * height) by (nonlinear_arith);
}

/// An image of `width` by `height` pixels. Its buffer holds exactly
/// `width * height * 4` bytes: the rows from top to bottom, each row from
/// left to right, each pixel as red, green, blue, alpha.
#[derive(Debug)]
pub struct RasterImage {
    width: u32,
    height: u32,
    pixels: Vec<u8>,
}

impl View for RasterImage {
    type V = RasterView;

    closed spec fn view(&self) -> RasterView {
        RasterView { width: self.width as nat, height: self.height as nat, pixels: self.pixels@ }
    }
}

impl RasterImage {
    #[verifier::type_invariant]
    spec fn inv(self) -> bool {
        self.pixels@.len() == self.width as nat * self.height as nat * 4
    }

    /// Takes a decoded buffer. A buffer whose length is not
    /// `width * height * 4` is refused as a decode failure.
    pub fn new(width: u32, height: u32, pixels: Vec<u8>) -> (r: Result<RasterImage, RenderError>)
        ensures
            match r {
                Ok(image) => {
                    &&& pixels@.len() == width as nat * height as nat * 4
                    &&& image@ == (RasterView {
                        width: width as nat,
                        height: height as nat,
                        pixels: pixels@,
                    })
                },
                Err(e) => {
                    &&& pixels@.len() != width as nat * height as nat * 4
                    &&& e == RenderError::Decode
                },
            },
    {
        assert(width as nat * height as nat <= 0xffff_ffff * 0xffff_ffff) by (nonlinear_arith)
            requires
                width <= 0xffff_ffff,
                height <= 0xffff_ffff,
        ;
        let expected: u128 = (width as u128) * (height as u128) * 4;
        if pixels.len() as u128 == expected {
            Ok(RasterImage { width, height, pixels })
        } else {
            Err(RenderError::Decode)
        }
    }

    /// Takes what decoding the image file gave: width, height and buffer,
    /// or nothing if the file could not be opened or decoded. Nothing, and a
    /// buffer that does not match the dimensions, are decode failures.
    pub fn from_decoded(decoded: Option<(u32, u32, Vec<u8>)>) -> (r: Result<
        RasterImage,
        RenderError,
    >)
        ensures
            match r {
                Ok(image) => {
                    &&& decoded matches Some((width, height, pixels))
                    &&& pixels@.len() == width as nat * height as nat * 4
                    &&& image@ == (RasterView {
                        width: width as nat,
                        height: height as nat,
                        pixels: pixels@,
                    })
                },
                Err(e) => {
                    &&& e == RenderError::Decode
                    &&& decoded matches Some((width, height, pixels)) ==> pixels@.len() != width as nat
                        * height as nat * 4
                },
            },
    {
        match decoded {
            Some((width, height, pixels)) => RasterImage::new(width, height, pixels),
            None => Err(RenderError::Decode),
        }
    }

    /// Width and height of an image fit in 32 bits.
    pub proof fn lemma_dimensions_fit(&self)
        ensures
            self@.width <= u32::MAX,
            self@.height <= u32::MAX,
    {
    }

    /// The width in pixels.
    pub fn width(&self) -> (w: u32)
        ensures
            w == self@.width,
    {
        self.width
    }

    /// The height in pixels.
    pub fn height(&self) -> (h: u32)
        ensures
            h == self@.height,
    {
        self.height
    }

    /// The buffer, which always matches the dimensions.
    pub fn pixels(&self) -> (p: &Vec<u8>)
        ensures
            p@ == self@.pixels,
            self@.wf(),
    {
        proof {
            use_type_invariant(self);
        }
        &self.pixels
    }
}

/// The pixel in column `x` of row `y`, counted from the top-left corner.
pub fn get_pixel(image: &RasterImage, x: u32, y: u32) -> (p: Pixel)
    requires
        x < image@.width,
        y < image@.height,
    ensures
        p == image@.pixel(x as int, y as int),
{
    let width: u32 = image.width();
    let buf: &Vec<u8> = image.pixels();
    proof {
        lemma_pixel_offset_in_bounds(image@.width, image@.height, x as int, y as int);
        assert(buf@.len() == buf.len());
    }
    let base: usize = (y as usize * width as usize + x as usize) * 4;
    Pixel { r: buf[base], g: buf[base + 1], b: buf[base + 2], a: buf[base + 3] }
}

} // verus!
