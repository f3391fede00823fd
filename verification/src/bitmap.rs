//! The decoded bitmap: RGBA8 pixels in row-major order, four bytes per pixel
//! in the order red, green, blue, alpha.

use vstd::prelude::*;

verus! {

/// Number of bytes per pixel.
pub const BYTES_PER_PIXEL: usize = 4;

/// The mathematical content of an [`Image`].
pub struct ImageView {
    pub width: u32,
    pub height: u32,
    pub pixels: Seq<u8>,
}

impl ImageView {
    /// The buffer holds exactly four bytes for each pixel.
    pub open spec fn well_formed(self) -> bool {
        self.pixels.len() == 4 * (self.width * self.height)
    }

    /// Component `c` (0 red, 1 green, 2 blue, 3 alpha) of the pixel in
    /// column `x` of row `y`.
    pub open spec fn component(self, x: int, y: int, c: int) -> u8 {
        self.pixels[4 * (y * self.width + x) + c]
    }
}

/// An RGBA8 bitmap whose buffer always holds `4 * width * height` bytes.
#[derive(Debug)]
pub struct Image {
    width: u32,
    height: u32,
    pixels: Vec<u8>,
}

impl View for Image {
    type V = ImageView;

    closed spec fn view(&self) -> ImageView {
        ImageView { width: self.width, height: self.height, pixels: self.pixels@ }
    }
}

impl Image {
    #[verifier::type_invariant]
    spec fn buffer_matches_dimensions(self) -> bool {
        self.pixels@.len() == 4 * (self.width * self.height)
    }

    /// Makes an image of a buffer, provided the buffer holds exactly four
    /// bytes for each pixel.
    pub fn from_raw(width: u32, height: u32, pixels: Vec<u8>) -> (r: Option<Image>)
        ensures
            r is Some <==> pixels@.len() == 4 * (width * height),
            r matches Some(img) ==> img@ == (ImageView { width, height, pixels: pixels@ }),
    {
        assert(width * height <= 0xFFFF_FFFF * 0xFFFF_FFFF) by (nonlinear_arith)
            requires
                width <= 0xFFFF_FFFF,
                height <= 0xFFFF_FFFF,
        ;
        let area: u64 = width as u64 * height as u64;
        let len = pixels.len();
        if len % 4 == 0 && (len / 4) as u64 == area {
            Some(Image { width, height, pixels })
        } else {
            None
        }
    }

    /// Width in pixels.
    pub fn width(&self) -> (w: u32)
        ensures
            w == self@.width,
    {
        self.width
    }

    /// Height in pixels.
    pub fn height(&self) -> (h: u32)
        ensures
            h == self@.height,
    {
        self.height
    }

    /// The pixel buffer. Its length is four times the number of pixels.
    pub fn as_raw(&self) -> (p: &[u8])
        ensures
            p@ == self@.pixels,
            self@.well_formed(),
    {
        proof {
            use_type_invariant(self);
        }
        self.pixels.as_slice()
    }

    /// Gives up the pixel buffer.
    pub fn into_raw(self) -> (p: Vec<u8>)
        ensures
            p@ == self@.pixels,
            self@.well_formed(),
    {
        proof {
            use_type_invariant(&self);
        }
        self.pixels
    }

    /// The four components of the pixel in column `x` of row `y`.
    pub fn get_pixel(&self, x: u32, y: u32) -> (p: [u8; 4])
        requires
            x < self@.width,
            y < self@.height,
        ensures
            forall|c: int| 0 <= c < 4 ==> p[c] == self@.component(x as int, y as int, c),
    {
        let len = self.pixels.len();
        proof {
            use_type_invariant(self);
            lemma_pixel_in_bounds(self.width as int, self.height as int, x as int, y as int);
        }
        let at: usize = 4 * (y as usize * self.width as usize + x as usize);
        assert(at + 4 <= len);
        [self.pixels[at], self.pixels[at + 1], self.pixels[at + 2], self.pixels[at + 3]]
    }
}

/// The four bytes of a pixel inside the image lie inside the buffer.
pub proof fn lemma_pixel_in_bounds(width: int, height: int, x: int, y: int)
    requires
        0 <= x < width,
        0 <= y < height,
    ensures
        0 <= y * width,
        0 <= 4 * (y * width + x),
        4 * (y * width + x) + 4 <= 4 * (width * height),
{
    assert(0 <= y * width && y * width + width <= height * width && height * width == width
        * height) by (nonlinear_arith)
        requires
            0 <= x < width,
            0 <= y < height,
    ;
}

} // verus!
