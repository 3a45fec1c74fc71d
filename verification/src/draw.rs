//! The compositor: paints placed rasters into canvas-sized layers and
//! combines layers into a framebuffer by per-channel saturating addition.

use vstd::prelude::*;

use crate::pixel::{
    spec_alpha, spec_blue, spec_channel_totals, spec_combined_pixel, spec_green, spec_pack_pixel,
    spec_red, spec_sat_add,
};
use crate::raster::{
    spec_fit_height, spec_fit_width, spec_keeps_native_size, spec_packed_pixels_of,
    spec_resampled, spec_rgba_bytes_of, spec_width_fit_height, Raster, ScaleMode,
};

verus! {

/// Blank border kept around the placed images, in pixels.
pub const MARGIN: u32 = 15;

/// Fixed height of every framebuffer.
pub const BUFFER_HEIGHT: u32 = 800;

/// Fixed width of every framebuffer.
pub const BUFFER_WIDTH: u32 = 1000;

/// Width of one image slot in the two-image side-by-side view.
pub const IMG_WIDTH: u32 = (BUFFER_WIDTH - MARGIN * 3) / 2;

/// A position on the canvas grid.
pub struct Coord {
    pub column: u32,
    pub row: u32,
}

/// A rectangular placement of one source raster on a fixed-size canvas.
/// The rectangle may reach outside the canvas (it clips at paint time) and
/// may be larger than the raster (the slack renders transparent).
pub struct Layer {
    pub width: u32,
    pub height: u32,
    pub corner_top_left: Coord,
    pub rect_width: u32,
    pub rect_height: u32,
    pub image: Raster,
}

/// The pixel painted at a canvas cell by a raster of the given dimensions
/// placed with its top-left corner at (`top`, `left`) in a rectangle of
/// `rect_width` x `rect_height` cells: the corresponding source pixel where
/// the cell lies inside the rectangle and the raster extends that far, and
/// fully transparent black everywhere else.
pub open spec fn spec_painted_at(
    pixels: Seq<u32>,
    img_width: int,
    img_height: int,
    top: int,
    left: int,
    rect_width: int,
    rect_height: int,
    row: int,
    column: int,
) -> u32 {
    if top <= row < top + rect_height && left <= column < left + rect_width && row - top
        < img_height && column - left < img_width {
        pixels[(row - top) * img_width + (column - left)]
    } else {
        0u32
    }
}

impl Layer {
    /// The layer's raster holds one pixel per cell, and the canvas grid fits
    /// in memory.
    pub open spec fn wf(&self) -> bool {
        &&& self.image.wf()
        &&& self.width * self.height <= usize::MAX
    }

    /// The pixel this layer paints at a canvas cell.
    pub open spec fn spec_painted_pixel(&self, row: int, column: int) -> u32 {
        spec_painted_at(
            self.image.pixels@,
            self.image.width as int,
            self.image.height as int,
            self.corner_top_left.row as int,
            self.corner_top_left.column as int,
            self.rect_width as int,
            self.rect_height as int,
            row,
            column,
        )
    }

    /// Paints the layer's raster into a canvas-sized pixel array. Cells
    /// outside the placement rectangle, and cells inside it that lie beyond
    /// the raster's own extent, are fully transparent black.
    pub fn paint_layer(&self) -> (painted: Vec<u32>)
        requires
            self.wf(),
        ensures
            painted@.len() == self.width * self.height,
            forall|row: int, column: int|
                0 <= row < self.height && 0 <= column < self.width ==> painted@[row * self.width
                    + column] == self.spec_painted_pixel(row, column),
    {
        let total = self.width as usize * self.height as usize;
        let mut painted: Vec<u32> = Vec::new();
        while painted.len() < total
            invariant
                total == self.width * self.height,
                painted@.len() <= total,
                forall|i: int| 0 <= i < painted@.len() ==> painted@[i] == 0u32,
            decreases total - painted@.len(),
        {
            painted.push(0u32);
        }
        let mut row: u32 = 0;
        while row < self.height
            invariant
                self.wf(),
                row <= self.height,
                painted@.len() == self.width * self.height,
                forall|r: int, c: int|
                    0 <= r < row && 0 <= c < self.width ==> painted@[r * self.width + c]
                        == self.spec_painted_pixel(r, c),
                forall|i: int| row * self.width <= i < painted@.len() ==> painted@[i] == 0u32,
            decreases self.height - row,
        {
            let mut column: u32 = 0;
            while column < self.width
                invariant
                    self.wf(),
                    row < self.height,
                    column <= self.width,
                    painted@.len() == self.width * self.height,
                    forall|r: int, c: int|
                        0 <= r < row && 0 <= c < self.width ==> painted@[r * self.width + c]
                            == self.spec_painted_pixel(r, c),
                    forall|c: int|
                        0 <= c < column ==> painted@[row * self.width + c]
                            == self.spec_painted_pixel(row as int, c),
                    forall|i: int|
                        row * self.width + column <= i < painted@.len() ==> painted@[i] == 0u32,
                decreases self.width - column,
            {
                proof {
                    lemma_grid_cell_index(
                        self.height as int,
                        self.width as int,
                        row as int,
                        column as int,
                    );
                }
                let index = row as usize * self.width as usize + column as usize;
                let top = self.corner_top_left.row;
                let left = self.corner_top_left.column;
                let inside_rect = row as u64 >= top as u64 && (row as u64) < top as u64
                    + self.rect_height as u64 && column as u64 >= left as u64 && (column as u64)
                    < left as u64 + self.rect_width as u64;
                if inside_rect {
                    let image_pixel_row = row - top;
                    let image_pixel_column = column - left;
                    if image_pixel_row < self.image.height && image_pixel_column
                        < self.image.width {
                        proof {
                            assert(self.image.pixels.len() <= usize::MAX);
                            lemma_grid_cell_index(
                                self.image.height as int,
                                self.image.width as int,
                                image_pixel_row as int,
                                image_pixel_column as int,
                            );
                        }
                        let image_index = image_pixel_row as usize * self.image.width as usize
                            + image_pixel_column as usize;
                        painted[index] = self.image.pixels[image_index];
                    } else {
                        painted[index] = 0;
                    }
                }
                proof {
                    assert forall|r: int, c: int| 0 <= r < row && 0 <= c < self.width implies #[trigger] (
                    r * (self.width as int) + c) < (row as int) * (self.width as int) + column by {
                        lemma_earlier_row_cell_below(
                            self.width as int,
                            r,
                            c,
                            row as int,
                            column as int,
                        );
                    }
                }
                column = column + 1;
            }
            proof {
                assert((row + 1) * (self.width as int) == row * (self.width as int)
                    + self.width) by (nonlinear_arith);
            }
            row = row + 1;
        }
        painted
    }
}

/// Every cell of an `rows` x `cols` grid has a row-major index inside the
/// grid's pixel count.
proof fn lemma_grid_cell_index(rows: int, cols: int, r: int, c: int)
    by (nonlinear_arith)
    requires
        0 <= r < rows,
        0 <= c < cols,
    ensures
        0 <= r * cols + c < rows * cols,
        r * cols + c < cols * rows,
{
}

/// A cell of an earlier row has a strictly smaller row-major index than any
/// cell of the current row.
proof fn lemma_earlier_row_cell_below(cols: int, r: int, c: int, row: int, column: int)
    by (nonlinear_arith)
    requires
        0 <= r < row,
        0 <= c < cols,
        0 <= column,
    ensures
        r * cols + c < row * cols + column,
{
}

/// The pixels that a stack of painted layers holds at one canvas position,
/// front to back.
pub open spec fn spec_layer_stack(layers: Seq<Seq<u32>>, pos: int) -> Seq<u32> {
    Seq::new(layers.len(), |k: int| layers[k][pos])
}

/// A fixed-size framebuffer of packed 32-bit pixels, row-major.
pub struct Buffer {
    pub bytes: Vec<u32>,
    pub height: u32,
    pub width: u32,
}

impl Buffer {
    /// One pixel per cell of the framebuffer grid.
    pub open spec fn wf(&self) -> bool {
        self.bytes@.len() == self.width * self.height
    }

    /// A fresh, fully transparent framebuffer.
    pub fn new(width: u32, height: u32) -> (buffer: Buffer)
        requires
            width * height <= usize::MAX,
        ensures
            buffer.wf(),
            buffer.width == width,
            buffer.height == height,
            forall|i: int| 0 <= i < buffer.bytes@.len() ==> buffer.bytes@[i] == 0u32,
    {
        let total = width as usize * height as usize;
        let mut bytes: Vec<u32> = Vec::new();
        while bytes.len() < total
            invariant
                total == width * height,
                bytes@.len() <= total,
                forall|i: int| 0 <= i < bytes@.len() ==> bytes@[i] == 0u32,
            decreases total - bytes@.len(),
        {
            bytes.push(0u32);
        }
        Buffer { bytes, width, height }
    }

    /// Splits a packed pixel into its (red, green, blue, alpha) channels.
    pub fn buffer_pixel_to_rgba(rgba: u32) -> (channels: (u8, u8, u8, u8))
        ensures
            channels.0 == spec_red(rgba),
            channels.1 == spec_green(rgba),
            channels.2 == spec_blue(rgba),
            channels.3 == spec_alpha(rgba),
    {
        let r: u8 = ((rgba >> 16) & 0xff) as u8;
        let g: u8 = ((rgba >> 8) & 0xff) as u8;
        let b: u8 = (rgba & 0xff) as u8;
        let a: u8 = ((rgba >> 24) & 0xff) as u8;
        (r, g, b, a)
    }

    /// Packs four channels into one 32-bit pixel.
    pub fn rgba_to_buffer_pixel(red: u8, green: u8, blue: u8, alpha: u8) -> (pixel: u32)
        ensures
            pixel == spec_pack_pixel(red, green, blue, alpha),
    {
        let mut argb: u32 = 0;
        argb |= (alpha as u32) << 24;
        argb |= (red as u32) << 16;
        argb |= (green as u32) << 8;
        argb |= blue as u32;
        proof {
            lemma_or_zero_left(
                ((alpha as u32) << 24),
                ((red as u32) << 16),
                ((green as u32) << 8),
                (blue as u32),
            );
        }
        argb
    }

    /// Adds two channel values with the sum clamped at 255.
    pub fn add_single_channel(channel1: u8, channel2: u8) -> (sum: u8)
        ensures
            sum == spec_sat_add(channel1, channel2),
    {
        if (channel1 as u32 + channel2 as u32) > 255 {
            return 255;
        }
        channel1 + channel2
    }

    /// Combines the given painted layers into this framebuffer: at every
    /// position, each of the four channels is summed over the stack with
    /// saturating addition and the totals are repacked.
    pub fn write_buffer(self, layers: &[Vec<u32>]) -> (written: Buffer)
        requires
            self.wf(),
            forall|k: int|
                0 <= k < layers@.len() ==> (#[trigger] layers@[k])@.len() == self.bytes@.len(),
        ensures
            written.wf(),
            written.width == self.width,
            written.height == self.height,
            written.bytes@.len() == self.bytes@.len(),
            forall|pos: int|
                0 <= pos < written.bytes@.len() ==> written.bytes@[pos] == spec_combined_pixel(
                    spec_layer_stack(layers@.map_values(|l: Vec<u32>| l@), pos),
                ),
    {
        let ghost stacks = layers@.map_values(|l: Vec<u32>| l@);
        let mut buffer = self;
        let total = buffer.bytes.len();
        let mut pos: usize = 0;
        while pos < total
            invariant
                pos <= total,
                total == buffer.bytes@.len(),
                buffer.bytes@.len() == self.bytes@.len(),
                buffer.width == self.width,
                buffer.height == self.height,
                stacks == layers@.map_values(|l: Vec<u32>| l@),
                forall|k: int|
                    0 <= k < layers@.len() ==> (#[trigger] layers@[k])@.len() == total,
                forall|j: int|
                    0 <= j < pos ==> buffer.bytes@[j] == spec_combined_pixel(
                        spec_layer_stack(stacks, j),
                    ),
            decreases total - pos,
        {
            let ghost stack = spec_layer_stack(stacks, pos as int);
            let mut red: u8 = 0;
            let mut green: u8 = 0;
            let mut blue: u8 = 0;
            let mut alpha: u8 = 0;
            let mut k: usize = 0;
            assert(stack.take(0) =~= Seq::<u32>::empty());
            while k < layers.len()
                invariant
                    pos < total,
                    k <= layers@.len(),
                    stacks == layers@.map_values(|l: Vec<u32>| l@),
                    stack == spec_layer_stack(stacks, pos as int),
                    forall|kk: int|
                        0 <= kk < layers@.len() ==> (#[trigger] layers@[kk])@.len() == total,
                    (red, green, blue, alpha) == spec_channel_totals(stack.take(k as int)),
                decreases layers@.len() - k,
            {
                let channels = Buffer::buffer_pixel_to_rgba(layers[k][pos]);
                red = Buffer::add_single_channel(red, channels.0);
                green = Buffer::add_single_channel(green, channels.1);
                blue = Buffer::add_single_channel(blue, channels.2);
                alpha = Buffer::add_single_channel(alpha, channels.3);
                proof {
                    assert(stack.take(k + 1).drop_last() =~= stack.take(k as int));
                    assert(stack.take(k + 1).last() == layers@[k as int]@[pos as int]);
                }
                k = k + 1;
            }
            proof {
                assert(stack.take(layers@.len() as int) =~= stack);
            }
            let pixel = Buffer::rgba_to_buffer_pixel(red, green, blue, alpha);
            buffer.bytes[pos] = pixel;
            pos = pos + 1;
        }
        buffer
    }
}

/// Folding four shifted channel fields into an accumulator that starts at
/// zero equals the one-step packing of the fields.
proof fn lemma_or_zero_left(a: u32, r: u32, g: u32, b: u32)
    by (bit_vector)
    ensures
        ((((0u32 | a) | r) | g) | b) == (a | r | g | b),
{
}

/// The width of the single-image view's raster after downscale-only fitting
/// into the canvas box left inside the margins.
pub open spec fn spec_single_scaled_width(raster: Raster) -> int {
    if spec_keeps_native_size(
        raster.width as int,
        raster.height as int,
        (BUFFER_WIDTH - 2 * MARGIN) as int,
        (BUFFER_HEIGHT - 2 * MARGIN) as int,
        ScaleMode::DownscaleOnly,
    ) {
        raster.width as int
    } else {
        spec_fit_width(
            raster.width as int,
            raster.height as int,
            (BUFFER_WIDTH - 2 * MARGIN) as int,
            (BUFFER_HEIGHT - 2 * MARGIN) as int,
        )
    }
}

/// The height of the single-image view's raster; see
/// [`spec_single_scaled_width`].
pub open spec fn spec_single_scaled_height(raster: Raster) -> int {
    if spec_keeps_native_size(
        raster.width as int,
        raster.height as int,
        (BUFFER_WIDTH - 2 * MARGIN) as int,
        (BUFFER_HEIGHT - 2 * MARGIN) as int,
        ScaleMode::DownscaleOnly,
    ) {
        raster.height as int
    } else {
        spec_fit_height(
            raster.width as int,
            raster.height as int,
            (BUFFER_WIDTH - 2 * MARGIN) as int,
            (BUFFER_HEIGHT - 2 * MARGIN) as int,
        )
    }
}

/// The pixels of the single-image view's raster: untouched when the raster
/// is kept at native size, resampled to the fitted dimensions otherwise.
pub open spec fn spec_single_scaled_pixels(raster: Raster) -> Seq<u32> {
    if spec_keeps_native_size(
        raster.width as int,
        raster.height as int,
        (BUFFER_WIDTH - 2 * MARGIN) as int,
        (BUFFER_HEIGHT - 2 * MARGIN) as int,
        ScaleMode::DownscaleOnly,
    ) {
        raster.pixels@
    } else {
        spec_packed_pixels_of(
            spec_resampled(
                spec_rgba_bytes_of(raster.pixels@),
                raster.width as int,
                raster.height as int,
                spec_single_scaled_width(raster),
                spec_single_scaled_height(raster),
            ),
        )
    }
}

/// The pixel that the single-image view paints at a canvas cell: the scaled
/// raster anchored at (margin, margin) in a rectangle spanning the full width
/// inside the margins.
pub open spec fn spec_single_view_pixel(raster: Raster, row: int, column: int) -> u32 {
    spec_painted_at(
        spec_single_scaled_pixels(raster),
        spec_single_scaled_width(raster),
        spec_single_scaled_height(raster),
        MARGIN as int,
        MARGIN as int,
        (BUFFER_WIDTH - 2 * MARGIN) as int,
        spec_single_scaled_height(raster),
        row,
        column,
    )
}

/// The height of a pair-view raster after scaling to the fixed slot width.
pub open spec fn spec_slot_scaled_height(raster: Raster) -> int {
    spec_width_fit_height(raster.width as int, raster.height as int, IMG_WIDTH as int)
}

/// The pixels of a pair-view raster, resampled to the slot width with the
/// height following the aspect ratio.
pub open spec fn spec_slot_scaled_pixels(raster: Raster) -> Seq<u32> {
    spec_packed_pixels_of(
        spec_resampled(
            spec_rgba_bytes_of(raster.pixels@),
            raster.width as int,
            raster.height as int,
            IMG_WIDTH as int,
            spec_slot_scaled_height(raster),
        ),
    )
}

/// The pixel that one slot of the two-image view paints at a canvas cell:
/// the slot-scaled raster anchored at (margin, `slot_left`) in a
/// slot-width-wide rectangle, clipped by the canvas at paint time.
pub open spec fn spec_slot_view_pixel(raster: Raster, slot_left: int, row: int, column: int) -> u32 {
    spec_painted_at(
        spec_slot_scaled_pixels(raster),
        IMG_WIDTH as int,
        spec_slot_scaled_height(raster),
        MARGIN as int,
        slot_left,
        IMG_WIDTH as int,
        spec_slot_scaled_height(raster),
        row,
        column,
    )
}

/// The machine-size conditions under which [`buffer_from_image`] may be
/// called on a raster.
pub open spec fn spec_fits_single_view(raster: Raster) -> bool {
    &&& 4 * (raster.width * raster.height) <= usize::MAX
    &&& 4 * (raster.width * (BUFFER_HEIGHT - 2 * MARGIN)) <= usize::MAX
}

/// The machine-size conditions under which a raster can take one slot of
/// [`buffer_from_two_images`].
pub open spec fn spec_fits_slot_view(raster: Raster) -> bool {
    &&& 4 * (raster.width * raster.height) <= usize::MAX
    &&& spec_slot_scaled_height(raster) <= u32::MAX
    &&& 4 * (raster.width * spec_slot_scaled_height(raster)) <= usize::MAX
    &&& 4 * (IMG_WIDTH * spec_slot_scaled_height(raster)) <= usize::MAX
}

/// Decides whether the machine-size limits admit the single-image view of
/// this raster, so a caller can test before asking for the framebuffer.
pub fn fits_single_view(raster: &Raster) -> (fits: bool)
    ensures
        fits == spec_fits_single_view(*raster),
{
    proof {
        lemma_u32_product_bound(raster.width as int, raster.height as int);
        lemma_u32_product_bound(raster.width as int, (BUFFER_HEIGHT - 2 * MARGIN) as int);
    }
    let area = raster.width as u128 * raster.height as u128;
    let stripe = raster.width as u128 * (BUFFER_HEIGHT - 2 * MARGIN) as u128;
    4 * area <= usize::MAX as u128 && 4 * stripe <= usize::MAX as u128
}

/// Decides whether the machine-size limits admit the two-image view of these
/// rasters, so a caller can test before asking for the framebuffer.
pub fn fits_pair_view(left: &Raster, right: &Raster) -> (fits: bool)
    requires
        1 <= left.width,
        1 <= right.width,
    ensures
        fits == (spec_fits_slot_view(*left) && spec_fits_slot_view(*right)),
{
    fits_slot_view(left) && fits_slot_view(right)
}

/// Decides the machine-size conditions of one slot of the two-image view.
fn fits_slot_view(raster: &Raster) -> (fits: bool)
    requires
        1 <= raster.width,
    ensures
        fits == spec_fits_slot_view(*raster),
{
    proof {
        lemma_u32_product_bound(raster.width as int, raster.height as int);
        lemma_u32_product_bound(raster.height as int, IMG_WIDTH as int);
    }
    let area = raster.width as u128 * raster.height as u128;
    let slot_height = (raster.height as u128 * IMG_WIDTH as u128) / (raster.width as u128);
    proof {
        vstd::arithmetic::div_mod::lemma_div_nonincreasing(
            raster.height * (IMG_WIDTH as int),
            raster.width as int,
        );
        lemma_u32_u64_product_bound(raster.width as int, slot_height as int);
        lemma_u32_u64_product_bound(IMG_WIDTH as int, slot_height as int);
    }
    let source_stripe = raster.width as u128 * slot_height;
    let slot_stripe = IMG_WIDTH as u128 * slot_height;
    4 * area <= usize::MAX as u128 && slot_height <= u32::MAX as u128 && 4 * source_stripe
        <= usize::MAX as u128 && 4 * slot_stripe <= usize::MAX as u128
}

/// The product of two values that fit in 32 bits fits in 64 bits.
proof fn lemma_u32_product_bound(x: int, y: int)
    by (nonlinear_arith)
    requires
        0 <= x <= u32::MAX,
        0 <= y <= u32::MAX,
    ensures
        0 <= x * y <= u64::MAX,
{
}

/// Four times the product of a 32-bit value and a 64-bit value fits in 128
/// bits.
proof fn lemma_u32_u64_product_bound(x: int, y: int)
    by (nonlinear_arith)
    requires
        0 <= x <= u32::MAX,
        0 <= y <= u64::MAX,
    ensures
        0 <= 4 * (x * y) <= u128::MAX,
{
}

/// Composes the single-image view: the raster scaled down (never up) to fit
/// inside the canvas margins, anchored at (margin, margin), painted as one
/// layer and written into a fresh framebuffer.
pub fn buffer_from_image(raster: &Raster) -> (framebuffer: Buffer)
    requires
        raster.wf(),
        1 <= raster.width,
        1 <= raster.height,
        spec_fits_single_view(*raster),
    ensures
        framebuffer.wf(),
        framebuffer.width == BUFFER_WIDTH,
        framebuffer.height == BUFFER_HEIGHT,
        forall|row: int, column: int|
            0 <= row < BUFFER_HEIGHT && 0 <= column < BUFFER_WIDTH ==> framebuffer.bytes@[row
                * BUFFER_WIDTH + column] == spec_combined_pixel(
                seq![spec_single_view_pixel(*raster, row, column)],
            ),
{
    proof {
        assert(4 * (((BUFFER_WIDTH - 2 * MARGIN) as int) * ((BUFFER_HEIGHT - 2 * MARGIN) as int))
            <= usize::MAX) by (nonlinear_arith)
            requires
                usize::MAX >= u32::MAX,
        ;
    }
    let scaled = raster.scale_to_fit(
        BUFFER_WIDTH - 2 * MARGIN,
        BUFFER_HEIGHT - 2 * MARGIN,
        ScaleMode::DownscaleOnly,
    );
    let layer = Layer {
        width: BUFFER_WIDTH,
        height: BUFFER_HEIGHT,
        corner_top_left: Coord { column: MARGIN, row: MARGIN },
        rect_width: BUFFER_WIDTH - 2 * MARGIN,
        rect_height: scaled.height,
        image: scaled,
    };
    let painted = layer.paint_layer();
    let ghost painted_view = painted@;
    let mut layer_list: Vec<Vec<u32>> = Vec::new();
    layer_list.push(painted);
    let buffer = Buffer::new(BUFFER_WIDTH, BUFFER_HEIGHT);
    let framebuffer = buffer.write_buffer(layer_list.as_slice());
    proof {
        let stacks = layer_list@.map_values(|l: Vec<u32>| l@);
        assert forall|row: int, column: int|
            0 <= row < BUFFER_HEIGHT && 0 <= column < BUFFER_WIDTH implies framebuffer.bytes@[row
            * BUFFER_WIDTH + column] == spec_combined_pixel(
            seq![spec_single_view_pixel(*raster, row, column)],
        ) by {
            lemma_grid_cell_index(BUFFER_HEIGHT as int, BUFFER_WIDTH as int, row, column);
            let pos = row * BUFFER_WIDTH + column;
            assert(spec_layer_stack(stacks, pos) =~= seq![painted_view[pos]]);
            assert(painted_view[pos] == layer.spec_painted_pixel(row, column));
            assert(layer.spec_painted_pixel(row, column) == spec_single_view_pixel(
                *raster,
                row,
                column,
            ));
        }
    }
    framebuffer
}

/// Composes the two-image side-by-side view: each raster scaled to the fixed
/// slot width, the left slot anchored at (margin, margin) and the right slot
/// one slot and two margins in, both painted as layers and combined into a
/// fresh framebuffer.
pub fn buffer_from_two_images(image_left: &Raster, image_right: &Raster) -> (framebuffer: Buffer)
    requires
        image_left.wf(),
        image_right.wf(),
        1 <= image_left.width,
        1 <= image_left.height,
        1 <= image_right.width,
        1 <= image_right.height,
        spec_fits_slot_view(*image_left),
        spec_fits_slot_view(*image_right),
    ensures
        framebuffer.wf(),
        framebuffer.width == BUFFER_WIDTH,
        framebuffer.height == BUFFER_HEIGHT,
        forall|row: int, column: int|
            0 <= row < BUFFER_HEIGHT && 0 <= column < BUFFER_WIDTH ==> framebuffer.bytes@[row
                * BUFFER_WIDTH + column] == spec_combined_pixel(
                seq![
                    spec_slot_view_pixel(*image_left, MARGIN as int, row, column),
                    spec_slot_view_pixel(*image_right, (MARGIN * 2 + IMG_WIDTH) as int, row, column),
                ],
            ),
{
    let scaled_left = image_left.scale_to_width(IMG_WIDTH);
    let scaled_right = image_right.scale_to_width(IMG_WIDTH);
    let layer_left = Layer {
        width: BUFFER_WIDTH,
        height: BUFFER_HEIGHT,
        corner_top_left: Coord { column: MARGIN, row: MARGIN },
        rect_width: IMG_WIDTH,
        rect_height: scaled_left.height,
        image: scaled_left,
    };
    let layer_right = Layer {
        width: BUFFER_WIDTH,
        height: BUFFER_HEIGHT,
        corner_top_left: Coord { column: MARGIN * 2 + IMG_WIDTH, row: MARGIN },
        rect_width: IMG_WIDTH,
        rect_height: scaled_right.height,
        image: scaled_right,
    };
    let painted_left = layer_left.paint_layer();
    let painted_right = layer_right.paint_layer();
    let ghost left_view = painted_left@;
    let ghost right_view = painted_right@;
    let mut layer_list: Vec<Vec<u32>> = Vec::new();
    layer_list.push(painted_left);
    layer_list.push(painted_right);
    let buffer = Buffer::new(BUFFER_WIDTH, BUFFER_HEIGHT);
    let framebuffer = buffer.write_buffer(layer_list.as_slice());
    proof {
        let stacks = layer_list@.map_values(|l: Vec<u32>| l@);
        assert forall|row: int, column: int|
            0 <= row < BUFFER_HEIGHT && 0 <= column < BUFFER_WIDTH implies framebuffer.bytes@[row
            * BUFFER_WIDTH + column] == spec_combined_pixel(
            seq![
                spec_slot_view_pixel(*image_left, MARGIN as int, row, column),
                spec_slot_view_pixel(*image_right, (MARGIN * 2 + IMG_WIDTH) as int, row, column),
            ],
        ) by {
            lemma_grid_cell_index(BUFFER_HEIGHT as int, BUFFER_WIDTH as int, row, column);
            let pos = row * BUFFER_WIDTH + column;
            assert(spec_layer_stack(stacks, pos) =~= seq![left_view[pos], right_view[pos]]);
            assert(left_view[pos] == layer_left.spec_painted_pixel(row, column));
            assert(right_view[pos] == layer_right.spec_painted_pixel(row, column));
        }
    }
    framebuffer
}

} // verus!
