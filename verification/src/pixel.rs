//! The packed-pixel encoding shared by rasters and framebuffers, and the
//! saturating per-channel arithmetic used when layers are combined.
//!
//! A pixel is one 32-bit value laid out as
//! `(alpha << 24) | (red << 16) | (green << 8) | blue`.

use vstd::prelude::*;

verus! {

/// The packed form of the four 8-bit channels.
pub open spec fn spec_pack_pixel(red: u8, green: u8, blue: u8, alpha: u8) -> u32 {
    ((alpha as u32) << 24) | ((red as u32) << 16) | ((green as u32) << 8) | (blue as u32)
}

/// The red channel of a packed pixel.
pub open spec fn spec_red(pixel: u32) -> u8 {
    (((pixel >> 16) & 0xff) as u8)
}

/// The green channel of a packed pixel.
pub open spec fn spec_green(pixel: u32) -> u8 {
    (((pixel >> 8) & 0xff) as u8)
}

/// The blue channel of a packed pixel.
pub open spec fn spec_blue(pixel: u32) -> u8 {
    ((pixel & 0xff) as u8)
}

/// The alpha channel of a packed pixel.
pub open spec fn spec_alpha(pixel: u32) -> u8 {
    (((pixel >> 24) & 0xff) as u8)
}

/// Channel addition clamped at 255: the sum never wraps.
pub open spec fn spec_sat_add(a: u8, b: u8) -> u8 {
    if a + b > 255 {
        255u8
    } else {
        ((a + b) as u8)
    }
}

/// The channel totals of a stack of packed pixels, accumulated front to back
/// with saturating addition, starting from fully transparent black.
pub open spec fn spec_channel_totals(pixels: Seq<u32>) -> (u8, u8, u8, u8)
    decreases pixels.len(),
{
    if pixels.len() == 0 {
        (0u8, 0u8, 0u8, 0u8)
    } else {
        let acc = spec_channel_totals(pixels.drop_last());
        let p = pixels.last();
        (
            spec_sat_add(acc.0, spec_red(p)),
            spec_sat_add(acc.1, spec_green(p)),
            spec_sat_add(acc.2, spec_blue(p)),
            spec_sat_add(acc.3, spec_alpha(p)),
        )
    }
}

/// The additive combination of a stack of packed pixels: each channel summed
/// with saturation, then repacked.
pub open spec fn spec_combined_pixel(pixels: Seq<u32>) -> u32 {
    let acc = spec_channel_totals(pixels);
    spec_pack_pixel(acc.0, acc.1, acc.2, acc.3)
}

/// Law: packing four channels and unpacking them again returns the original
/// channels, for all channel values.
pub proof fn lemma_pack_then_unpack(red: u8, green: u8, blue: u8, alpha: u8)
    ensures
        spec_red(spec_pack_pixel(red, green, blue, alpha)) == red,
        spec_green(spec_pack_pixel(red, green, blue, alpha)) == green,
        spec_blue(spec_pack_pixel(red, green, blue, alpha)) == blue,
        spec_alpha(spec_pack_pixel(red, green, blue, alpha)) == alpha,
{
    assert(((((alpha as u32) << 24) | ((red as u32) << 16) | ((green as u32) << 8) | (blue
        as u32)) >> 16) & 0xff == red) by (bit_vector);
    assert(((((alpha as u32) << 24) | ((red as u32) << 16) | ((green as u32) << 8) | (blue
        as u32)) >> 8) & 0xff == green) by (bit_vector);
    assert((((alpha as u32) << 24) | ((red as u32) << 16) | ((green as u32) << 8) | (blue as u32))
        & 0xff == blue) by (bit_vector);
    assert(((((alpha as u32) << 24) | ((red as u32) << 16) | ((green as u32) << 8) | (blue
        as u32)) >> 24) & 0xff == alpha) by (bit_vector);
}

/// Law: unpacking a packed pixel into its four channels and packing them again
/// returns the original value, for every 32-bit value.
pub proof fn lemma_unpack_then_pack(pixel: u32)
    ensures
        spec_pack_pixel(spec_red(pixel), spec_green(pixel), spec_blue(pixel), spec_alpha(pixel))
            == pixel,
{
    assert(((((pixel >> 24) & 0xff) as u8 as u32) << 24) | ((((pixel >> 16) & 0xff) as u8 as u32)
        << 16) | ((((pixel >> 8) & 0xff) as u8 as u32) << 8) | (((pixel & 0xff) as u8 as u32))
        == pixel) by (bit_vector);
}

/// Law: combining two fully opaque white pixels saturates every channel at
/// 255; the sums do not wrap and are not halved.
pub proof fn lemma_combine_white_saturates()
    ensures
        spec_combined_pixel(seq![0xffff_ffffu32, 0xffff_ffffu32]) == 0xffff_ffffu32,
{
    let white = 0xffff_ffffu32;
    let stack = seq![white, white];
    assert((0xffff_ffffu32 >> 16) & 0xff == 255) by (bit_vector);
    assert((0xffff_ffffu32 >> 8) & 0xff == 255) by (bit_vector);
    assert(0xffff_ffffu32 & 0xff == 255) by (bit_vector);
    assert((0xffff_ffffu32 >> 24) & 0xff == 255) by (bit_vector);
    assert(stack.drop_last() =~= seq![white]);
    assert(seq![white].drop_last() =~= Seq::<u32>::empty());
    assert(spec_channel_totals(stack) == (255u8, 255u8, 255u8, 255u8));
    assert((255u32 << 24) | (255u32 << 16) | (255u32 << 8) | 255u32 == 0xffff_ffffu32)
        by (bit_vector);
}

} // verus!
