//! Raster images as plain values, and the one operation on them that is
//! left to the `image` crate: resampling.
use crate::color::Color;
use vstd::prelude::*;

verus! {

/// The most pixels an image may have, before or after scaling, for it to be
/// resampled: the resampler holds sixteen bytes for each pixel, and its
/// buffers must fit the address space of a 32-bit machine too.
pub const MAX_RESAMPLED_PIXELS: u64 = 0x0400_0000;

/// The longest side an image may have, before or after scaling, for it to be
/// resampled: the resampler finds its positions in single-precision floating
/// point, which tells neighbouring columns and rows apart up to this length
/// and not for every length beyond it.
pub const MAX_RESAMPLED_SIDE: u32 = 65_535;

/// An image of 8-bit RGBA pixels, row by row from the top, each pixel as its
/// red, green, blue and alpha samples.
#[derive(Debug)]
pub struct RasterImage {
    pub width: u32,
    pub height: u32,
    pub data: Vec<u8>,
}

/// The position in the sample data of channel `ch` of the pixel in column
/// `x` of row `y`, in an image `width` pixels wide.
pub open spec fn sample_index(width: int, x: int, y: int, ch: int) -> int {
    4 * (y * width + x) + ch
}

/// A pixel inside an image has its four samples inside the image's data, and
/// two different pixels have different positions there.
pub proof fn lemma_sample_index(width: int, height: int, x: int, y: int)
    requires
        0 <= x < width,
        0 <= y < height,
    ensures
        0 <= y * width <= y * width + x < width * height,
        0 <= sample_index(width, x, y, 0),
        sample_index(width, x, y, 3) < 4 * (width * height),
        (y * width + x) / width == y,
        (y * width + x) % width == x,
{
    assert(0 <= y * width <= y * width + x < width * height) by (nonlinear_arith)
        requires
            0 <= x < width,
            0 <= y < height,
    ;
    vstd::arithmetic::div_mod::lemma_fundamental_div_mod_converse(y * width + x, width, y, x);
}

impl RasterImage {
    /// The data holds four samples for each pixel and nothing more.
    pub open spec fn well_formed(&self) -> bool {
        self.data@.len() == 4 * (self.width as int * self.height as int)
    }

    /// One sample of the pixel in column `x` of row `y`.
    pub open spec fn sample(&self, x: int, y: int, ch: int) -> u8 {
        self.data@[sample_index(self.width as int, x, y, ch)]
    }

    /// The color of the pixel in column `x` of row `y`, its alpha left out.
    pub open spec fn color_at(&self, x: int, y: int) -> Color {
        Color { r: self.sample(x, y, 0), g: self.sample(x, y, 1), b: self.sample(x, y, 2) }
    }

    /// A pixel is transparent when its alpha is zero, and opaque otherwise.
    pub open spec fn opaque_at(&self, x: int, y: int) -> bool {
        self.sample(x, y, 3) != 0
    }

    /// The colors of the pixels in the order of the data, alpha left out.
    pub open spec fn colors(&self) -> Seq<Color> {
        Seq::new(
            self.data@.len() / 4,
            |i: int| Color { r: self.data@[4 * i], g: self.data@[4 * i + 1], b: self.data@[4 * i + 2] },
        )
    }

    /// An image over the given samples, if there are four for each pixel.
    pub fn new(width: u32, height: u32, data: Vec<u8>) -> (image: Option<RasterImage>)
        ensures
            image is Some <==> data@.len() == 4 * (width as int * height as int),
            image matches Some(i) ==> i.width == width && i.height == height && i.data == data
                && i.well_formed(),
    {
        assert(width as u64 * height as u64 == width as int * height as int && width as u64
            * height as u64 <= 0xFFFF_FFFE_0000_0001) by (nonlinear_arith)
            requires
                width <= 0xFFFF_FFFF,
                height <= 0xFFFF_FFFF,
        ;
        let pixels: u64 = width as u64 * height as u64;
        if data.len() % 4 == 0 && (data.len() / 4) as u64 == pixels {
            Some(RasterImage { width, height, data })
        } else {
            None
        }
    }

    /// Whether the data holds four samples for each pixel and nothing more.
    pub fn is_well_formed(&self) -> (well_formed: bool)
        ensures
            well_formed == self.well_formed(),
    {
        assert(self.width as u64 * self.height as u64 == self.width as int * self.height as int
            && self.width as u64 * self.height as u64 <= 0xFFFF_FFFE_0000_0001) by (nonlinear_arith)
            requires
                self.width <= 0xFFFF_FFFF,
                self.height <= 0xFFFF_FFFF,
        ;
        let pixels: u64 = self.width as u64 * self.height as u64;
        self.data.len() % 4 == 0 && (self.data.len() / 4) as u64 == pixels
    }

    /// The four samples of the pixel in column `x` of row `y`.
    pub fn get_pixel(&self, x: u32, y: u32) -> (rgba: [u8; 4])
        requires
            self.well_formed(),
            x < self.width,
            y < self.height,
        ensures
            forall|ch: int| 0 <= ch < 4 ==> rgba[ch] == self.sample(x as int, y as int, ch),
    {
        proof {
            lemma_sample_index(self.width as int, self.height as int, x as int, y as int);
            assert(self.data.len() == self.data@.len());
        }
        let at: usize = (y as usize * self.width as usize + x as usize) * 4;
        [self.data[at], self.data[at + 1], self.data[at + 2], self.data[at + 3]]
    }
}

/// `image::imageops::resize` with the `Lanczos3` filter, on 8-bit RGBA: the
/// image resampled to `width` by `height` pixels. The result has the size
/// asked for, and where that is the size of the image it is a copy of the
/// image. What the pixels of any other result hold is left open: the filter
/// weighs the samples in floating point, with a sine whose last digits the
/// platform decides. Left out are the inputs on which the crate would find
/// nothing to sample, could not allocate its buffers, or could lose a
/// column or a row between two floating-point positions.
#[verifier::external_body]
pub(crate) fn resample(image: &RasterImage, width: u32, height: u32) -> (scaled: RasterImage)
    requires
        image.well_formed(),
        0 < image.width <= MAX_RESAMPLED_SIDE,
        0 < image.height <= MAX_RESAMPLED_SIDE,
        0 < width <= MAX_RESAMPLED_SIDE,
        0 < height <= MAX_RESAMPLED_SIDE,
        image.width * image.height <= MAX_RESAMPLED_PIXELS,
        image.width * height <= MAX_RESAMPLED_PIXELS,
        width * height <= MAX_RESAMPLED_PIXELS,
    ensures
        scaled.width == width,
        scaled.height == height,
        scaled.well_formed(),
        width == image.width && height == image.height ==> scaled.data@ == image.data@,
{
    let source = image::RgbaImage::from_raw(image.width, image.height, image.data.clone()).unwrap();
    let scaled = image::imageops::resize(
        &source,
        width,
        height,
        image::imageops::FilterType::Lanczos3,
    );
    RasterImage { width, height, data: scaled.into_raw() }
}

} // verus!
