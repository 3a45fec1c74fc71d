//! Source rasters — decoded images held as plain packed-pixel grids — and the
//! aspect-ratio-preserving scaling that fits them to a target region.
//!
//! The pixel resampling itself is done by the `image` crate; everything that
//! decides the scaled dimensions is computed and verified here.

use vstd::arithmetic::div_mod::{
    lemma_div_multiples_vanish, lemma_fundamental_div_mod, lemma_multiply_divide_le,
    lemma_multiply_divide_lt,
};
use vstd::prelude::*;

use crate::pixel::{spec_alpha, spec_blue, spec_green, spec_red};

verus! {

/// A decoded image: packed 32-bit pixels in row-major order.
pub struct Raster {
    pub pixels: Vec<u32>,
    pub width: u32,
    pub height: u32,
}

impl Raster {
    /// One pixel per cell of a `width` x `height` grid.
    pub open spec fn wf(&self) -> bool {
        self.pixels@.len() == self.width * self.height
    }
}

/// Whether scaling may enlarge a raster or only shrink it.
pub enum ScaleMode {
    UpscaleAllowed,
    DownscaleOnly,
}

/// The RGBA byte stream of a row-major packed pixel sequence: four bytes per
/// pixel, in red, green, blue, alpha order.
pub open spec fn spec_rgba_bytes_of(pixels: Seq<u32>) -> Seq<u8> {
    Seq::new(
        pixels.len() * 4,
        |i: int|
            if i % 4 == 0 {
                spec_red(pixels[i / 4])
            } else if i % 4 == 1 {
                spec_green(pixels[i / 4])
            } else if i % 4 == 2 {
                spec_blue(pixels[i / 4])
            } else {
                spec_alpha(pixels[i / 4])
            },
    )
}

/// The packed pixels of an RGBA byte stream; a trailing fragment of fewer
/// than four bytes is dropped.
pub open spec fn spec_packed_pixels_of(bytes: Seq<u8>) -> Seq<u32> {
    Seq::new(
        bytes.len() / 4,
        |i: int|
            crate::pixel::spec_pack_pixel(
                bytes[4 * i],
                bytes[4 * i + 1],
                bytes[4 * i + 2],
                bytes[4 * i + 3],
            ),
    )
}

/// Flattens packed pixels into the RGBA byte stream that image codecs use.
pub fn rgba_bytes_of_pixels(pixels: &Vec<u32>) -> (bytes: Vec<u8>)
    requires
        4 * pixels@.len() <= usize::MAX,
    ensures
        bytes@ == spec_rgba_bytes_of(pixels@),
{
    let mut bytes: Vec<u8> = Vec::new();
    let mut i: usize = 0;
    while i < pixels.len()
        invariant
            i <= pixels@.len(),
            4 * pixels@.len() <= usize::MAX,
            bytes@.len() == 4 * i,
            forall|j: int| 0 <= j < 4 * i ==> bytes@[j] == spec_rgba_bytes_of(pixels@)[j],
        decreases pixels@.len() - i,
    {
        let channels = crate::draw::Buffer::buffer_pixel_to_rgba(pixels[i]);
        bytes.push(channels.0);
        bytes.push(channels.1);
        bytes.push(channels.2);
        bytes.push(channels.3);
        i = i + 1;
    }
    assert(bytes@ =~= spec_rgba_bytes_of(pixels@));
    bytes
}

/// Packs an RGBA byte stream back into row-major pixels.
pub fn pixels_of_rgba_bytes(bytes: &Vec<u8>) -> (pixels: Vec<u32>)
    ensures
        pixels@ == spec_packed_pixels_of(bytes@),
{
    proof {
        lemma_fundamental_div_mod(bytes@.len() as int, 4);
    }
    let count = bytes.len() / 4;
    let mut pixels: Vec<u32> = Vec::new();
    let mut i: usize = 0;
    while i < count
        invariant
            i <= count,
            count == bytes@.len() / 4,
            4 * count <= bytes@.len(),
            bytes@.len() <= usize::MAX,
            pixels@.len() == i,
            forall|j: int| 0 <= j < i ==> pixels@[j] == spec_packed_pixels_of(bytes@)[j],
        decreases count - i,
    {
        let pixel = crate::draw::Buffer::rgba_to_buffer_pixel(
            bytes[4 * i],
            bytes[4 * i + 1],
            bytes[4 * i + 2],
            bytes[4 * i + 3],
        );
        pixels.push(pixel);
        i = i + 1;
    }
    assert(pixels@ =~= spec_packed_pixels_of(bytes@));
    pixels
}

/// What nearest-neighbour resampling of an RGBA byte stream to new dimensions
/// returns; the result depends on the source bytes and the two dimension
/// pairs alone.
pub uninterp spec fn spec_resampled(
    bytes: Seq<u8>,
    src_width: int,
    src_height: int,
    dst_width: int,
    dst_height: int,
) -> Seq<u8>;

/// Relies on `image::imageops::resize` with the nearest-neighbour filter:
/// the result is a `dst_width` x `dst_height` RGBA image whose raw form
/// (`ImageBuffer::into_raw`) holds four bytes per pixel, computed from the
/// source pixels and the dimensions alone; and on
/// `image::RgbaImage::from_raw`, which returns `Some` whenever the container
/// holds at least `4 * width * height` bytes. The size bounds keep `resize`
/// below the allocation limits it checks (its intermediate image is
/// `src_width` columns by `dst_height` rows).
#[verifier::external_body]
fn resample_rgba_bytes(
    bytes: Vec<u8>,
    src_width: u32,
    src_height: u32,
    dst_width: u32,
    dst_height: u32,
) -> (resampled: Vec<u8>)
    requires
        1 <= src_width,
        1 <= src_height,
        bytes@.len() == 4 * (src_width * src_height),
        4 * (src_width * dst_height) <= usize::MAX,
        4 * (dst_width * dst_height) <= usize::MAX,
    ensures
        resampled@.len() == 4 * (dst_width * dst_height),
        resampled@ == spec_resampled(
            bytes@,
            src_width as int,
            src_height as int,
            dst_width as int,
            dst_height as int,
        ),
{
    let source = image::RgbaImage::from_raw(src_width, src_height, bytes)
        .expect("byte count matches the dimensions");
    image::imageops::resize(&source, dst_width, dst_height, image::imageops::FilterType::Nearest)
        .into_raw()
}

/// The width of a raster fitted inside a target box with its aspect ratio
/// kept: the limiting axis is scaled exactly to the target, the other axis is
/// rounded down.
pub open spec fn spec_fit_width(
    src_width: int,
    src_height: int,
    target_width: int,
    target_height: int,
) -> int {
    if target_width * src_height <= target_height * src_width {
        target_width
    } else {
        src_width * target_height / src_height
    }
}

/// The height of a raster fitted inside a target box; see [`spec_fit_width`].
pub open spec fn spec_fit_height(
    src_width: int,
    src_height: int,
    target_width: int,
    target_height: int,
) -> int {
    if target_width * src_height <= target_height * src_width {
        src_height * target_width / src_width
    } else {
        target_height
    }
}

/// Whether [`Raster::scale_to_fit`] leaves the raster at its native size:
/// only in downscale-only mode, and only when the limiting scale factor
/// strictly exceeds one.
pub open spec fn spec_keeps_native_size(
    src_width: int,
    src_height: int,
    target_width: int,
    target_height: int,
    mode: ScaleMode,
) -> bool {
    mode is DownscaleOnly && src_width < target_width && src_height < target_height
}

/// The height that scaling a raster to exactly `slot_width` columns gives,
/// with the height following the source aspect ratio, rounded down.
pub open spec fn spec_width_fit_height(src_width: int, src_height: int, slot_width: int) -> int {
    src_height * slot_width / src_width
}

impl Raster {
    /// Resamples the raster to exactly the given dimensions through the image
    /// crate, converting to and from its RGBA byte layout.
    fn resample(&self, dst_width: u32, dst_height: u32) -> (scaled: Raster)
        requires
            self.wf(),
            1 <= self.width,
            1 <= self.height,
            4 * (self.width * self.height) <= usize::MAX,
            4 * (self.width * dst_height) <= usize::MAX,
            4 * (dst_width * dst_height) <= usize::MAX,
        ensures
            scaled.wf(),
            scaled.width == dst_width,
            scaled.height == dst_height,
            scaled.pixels@ == spec_packed_pixels_of(
                spec_resampled(
                    spec_rgba_bytes_of(self.pixels@),
                    self.width as int,
                    self.height as int,
                    dst_width as int,
                    dst_height as int,
                ),
            ),
    {
        let bytes = rgba_bytes_of_pixels(&self.pixels);
        assert(bytes@.len() == 4 * (self.width * self.height));
        let resampled = resample_rgba_bytes(bytes, self.width, self.height, dst_width, dst_height);
        let pixels = pixels_of_rgba_bytes(&resampled);
        proof {
            lemma_div_multiples_vanish(dst_width as int * dst_height as int, 4);
        }
        assert(pixels@.len() == dst_width * dst_height);
        Raster { pixels, width: dst_width, height: dst_height }
    }

    /// Scales the raster to fit entirely inside a `target_width` x
    /// `target_height` box without distortion: both axes shrink or grow by the
    /// limiting scale factor, and dimensions round down to whole pixels. In
    /// downscale-only mode a raster strictly smaller than the box is returned
    /// at its native size, pixels untouched, and is never upscaled.
    pub fn scale_to_fit(&self, target_width: u32, target_height: u32, mode: ScaleMode) -> (scaled:
        Raster)
        requires
            self.wf(),
            1 <= self.width,
            1 <= self.height,
            4 * (self.width * self.height) <= usize::MAX,
            4 * (self.width * target_height) <= usize::MAX,
            4 * (target_width * target_height) <= usize::MAX,
        ensures
            scaled.wf(),
            spec_keeps_native_size(
                self.width as int,
                self.height as int,
                target_width as int,
                target_height as int,
                mode,
            ) ==> scaled.width == self.width && scaled.height == self.height && scaled.pixels@
                == self.pixels@,
            !spec_keeps_native_size(
                self.width as int,
                self.height as int,
                target_width as int,
                target_height as int,
                mode,
            ) ==> {
                &&& scaled.width == spec_fit_width(
                    self.width as int,
                    self.height as int,
                    target_width as int,
                    target_height as int,
                )
                &&& scaled.height == spec_fit_height(
                    self.width as int,
                    self.height as int,
                    target_width as int,
                    target_height as int,
                )
                &&& scaled.pixels@ == spec_packed_pixels_of(
                    spec_resampled(
                        spec_rgba_bytes_of(self.pixels@),
                        self.width as int,
                        self.height as int,
                        scaled.width as int,
                        scaled.height as int,
                    ),
                )
            },
    {
        let native = match mode {
            ScaleMode::DownscaleOnly => self.width < target_width && self.height < target_height,
            ScaleMode::UpscaleAllowed => false,
        };
        if native {
            return Raster { pixels: self.pixels.clone(), width: self.width, height: self.height };
        }
        proof {
            lemma_u32_product_fits_u64(target_width as int, self.height as int);
            lemma_u32_product_fits_u64(target_height as int, self.width as int);
            lemma_u32_product_fits_u64(self.height as int, target_width as int);
        }
        let cross_width = target_width as u64 * self.height as u64;
        let cross_height = target_height as u64 * self.width as u64;
        if cross_width <= cross_height {
            let fit_height = (self.height as u64 * target_width as u64) / (self.width as u64);
            proof {
                assert((self.height as int) * (target_width as int) <= (self.width as int) * (
                target_height as int)) by (nonlinear_arith)
                    requires
                        (target_width as int) * (self.height as int) <= (target_height as int) * (
                        self.width as int),
                ;
                lemma_multiply_divide_le(
                    self.height * target_width,
                    self.width as int,
                    target_height as int,
                );
                lemma_mul_le_mono(
                    self.width as int,
                    fit_height as int,
                    self.width as int,
                    target_height as int,
                );
                lemma_mul_le_mono(
                    target_width as int,
                    fit_height as int,
                    target_width as int,
                    target_height as int,
                );
            }
            self.resample(target_width, fit_height as u32)
        } else {
            let fit_width = (self.width as u64 * target_height as u64) / (self.height as u64);
            proof {
                assert((self.width as int) * (target_height as int) < (self.height as int) * (
                target_width as int)) by (nonlinear_arith)
                    requires
                        (target_height as int) * (self.width as int) < (target_width as int) * (
                        self.height as int),
                ;
                lemma_multiply_divide_lt(
                    self.width * target_height,
                    self.height as int,
                    target_width as int,
                );
                lemma_mul_le_mono(
                    fit_width as int,
                    target_height as int,
                    target_width as int,
                    target_height as int,
                );
            }
            self.resample(fit_width as u32, target_height)
        }
    }

    /// Scales the raster so its width becomes exactly `slot_width`, upscaling
    /// or downscaling as needed; the height follows the source aspect ratio,
    /// rounded down, and is not capped.
    pub fn scale_to_width(&self, slot_width: u32) -> (scaled: Raster)
        requires
            self.wf(),
            1 <= self.width,
            1 <= self.height,
            4 * (self.width * self.height) <= usize::MAX,
            spec_width_fit_height(self.width as int, self.height as int, slot_width as int)
                <= u32::MAX,
            4 * (self.width * spec_width_fit_height(
                self.width as int,
                self.height as int,
                slot_width as int,
            )) <= usize::MAX,
            4 * (slot_width * spec_width_fit_height(
                self.width as int,
                self.height as int,
                slot_width as int,
            )) <= usize::MAX,
        ensures
            scaled.wf(),
            scaled.width == slot_width,
            scaled.height == spec_width_fit_height(
                self.width as int,
                self.height as int,
                slot_width as int,
            ),
            scaled.pixels@ == spec_packed_pixels_of(
                spec_resampled(
                    spec_rgba_bytes_of(self.pixels@),
                    self.width as int,
                    self.height as int,
                    slot_width as int,
                    scaled.height as int,
                ),
            ),
    {
        proof {
            lemma_u32_product_fits_u64(self.height as int, slot_width as int);
        }
        let fit_height = (self.height as u64 * slot_width as u64) / (self.width as u64);
        self.resample(slot_width, fit_height as u32)
    }
}

/// Multiplication of non-negative values is monotone in both factors.
proof fn lemma_mul_le_mono(a: int, b: int, x: int, y: int)
    by (nonlinear_arith)
    requires
        0 <= a <= x,
        0 <= b <= y,
    ensures
        a * b <= x * y,
{
}

/// The product of two values that each fit in 32 bits fits in 64 bits.
proof fn lemma_u32_product_fits_u64(x: int, y: int)
    by (nonlinear_arith)
    requires
        0 <= x <= u32::MAX,
        0 <= y <= u32::MAX,
    ensures
        0 <= x * y <= u64::MAX,
{
}

} // verus!
