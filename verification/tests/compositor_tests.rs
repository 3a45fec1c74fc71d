use uwufufu::draw::{
    buffer_from_image, buffer_from_two_images, fits_pair_view, fits_single_view, Buffer, Coord,
    Layer, BUFFER_HEIGHT, BUFFER_WIDTH, IMG_WIDTH, MARGIN,
};
use uwufufu::raster::{pixels_of_rgba_bytes, rgba_bytes_of_pixels, Raster, ScaleMode};

const OPAQUE_RED: u32 = 0xffff_0000;
const OPAQUE_BLUE: u32 = 0xff00_00ff;
const OPAQUE_WHITE: u32 = 0xffff_ffff;

fn solid_raster(width: u32, height: u32, pixel: u32) -> Raster {
    Raster { pixels: vec![pixel; (width * height) as usize], width, height }
}

#[test]
fn paint_layer_smaller_raster_leaves_slack_transparent() {
    // A 2x2 opaque raster placed in a 5x5 rectangle: 4 painted cells, the
    // remaining 21 fully transparent.
    let layer = Layer {
        width: 5,
        height: 5,
        corner_top_left: Coord { column: 0, row: 0 },
        rect_width: 5,
        rect_height: 5,
        image: solid_raster(2, 2, OPAQUE_WHITE),
    };
    let painted = layer.paint_layer();
    assert_eq!(painted.len(), 25);
    let mut transparent = 0;
    for row in 0..5u32 {
        for column in 0..5u32 {
            let value = painted[(row * 5 + column) as usize];
            if row < 2 && column < 2 {
                assert_eq!(value, OPAQUE_WHITE);
            } else {
                assert_eq!(value, 0);
                transparent += 1;
            }
        }
    }
    assert_eq!(transparent, 21);
}

#[test]
fn paint_layer_respects_placement_corner() {
    let layer = Layer {
        width: 4,
        height: 4,
        corner_top_left: Coord { column: 2, row: 1 },
        rect_width: 2,
        rect_height: 2,
        image: solid_raster(1, 1, OPAQUE_RED),
    };
    let painted = layer.paint_layer();
    for row in 0..4u32 {
        for column in 0..4u32 {
            let value = painted[(row * 4 + column) as usize];
            if row == 1 && column == 2 {
                assert_eq!(value, OPAQUE_RED);
            } else {
                assert_eq!(value, 0);
            }
        }
    }
}

#[test]
fn paint_layer_clips_rectangle_at_canvas_edge() {
    // The rectangle nominally extends past the 3x3 canvas; painting stops at
    // the canvas edge without error.
    let layer = Layer {
        width: 3,
        height: 3,
        corner_top_left: Coord { column: 2, row: 2 },
        rect_width: 4,
        rect_height: 4,
        image: solid_raster(4, 4, OPAQUE_BLUE),
    };
    let painted = layer.paint_layer();
    assert_eq!(painted.len(), 9);
    assert_eq!(painted[2 * 3 + 2], OPAQUE_BLUE);
    assert_eq!(painted[0], 0);
    assert_eq!(painted[4], 0);
}

#[test]
fn scale_to_fit_downscale_only_keeps_smaller_raster_unchanged() {
    let raster = solid_raster(3, 2, OPAQUE_RED);
    let scaled = raster.scale_to_fit(10, 10, ScaleMode::DownscaleOnly);
    assert_eq!(scaled.width, 3);
    assert_eq!(scaled.height, 2);
    assert_eq!(scaled.pixels, raster.pixels);
}

#[test]
fn scale_to_fit_upscale_allowed_resamples_to_the_box() {
    // Would fail if the resampling wrapper handed its input back unchanged:
    // the pixel count quadruples and every new pixel carries the source
    // colour.
    let raster = solid_raster(1, 1, OPAQUE_RED);
    let scaled = raster.scale_to_fit(2, 2, ScaleMode::UpscaleAllowed);
    assert_eq!(scaled.width, 2);
    assert_eq!(scaled.height, 2);
    assert_eq!(scaled.pixels, vec![OPAQUE_RED; 4]);
}

#[test]
fn scale_to_fit_downscales_and_keeps_aspect() {
    // 4x2 into a 2x2 box: the limiting factor is 1/2, so the result is 2x1.
    let raster = solid_raster(4, 2, OPAQUE_BLUE);
    let scaled = raster.scale_to_fit(2, 2, ScaleMode::DownscaleOnly);
    assert_eq!(scaled.width, 2);
    assert_eq!(scaled.height, 1);
    assert_eq!(scaled.pixels, vec![OPAQUE_BLUE; 2]);
}

#[test]
fn scale_to_width_fixes_width_and_follows_aspect() {
    let raster = solid_raster(2, 4, OPAQUE_RED);
    let scaled = raster.scale_to_width(6);
    assert_eq!(scaled.width, 6);
    assert_eq!(scaled.height, 12);
    assert_eq!(scaled.pixels, vec![OPAQUE_RED; 72]);
}

#[test]
fn rgba_byte_conversion_round_trips() {
    let pixels = vec![0x0401_0203u32, 0, OPAQUE_WHITE, 0xdead_beef];
    let bytes = rgba_bytes_of_pixels(&pixels);
    assert_eq!(bytes.len(), 16);
    assert_eq!(&bytes[0..4], &[1, 2, 3, 4]);
    assert_eq!(pixels_of_rgba_bytes(&bytes), pixels);
}

#[test]
fn single_view_anchors_at_margin() {
    let raster = solid_raster(2, 1, OPAQUE_RED);
    assert!(fits_single_view(&raster));
    let framebuffer = buffer_from_image(&raster);
    assert_eq!(framebuffer.width, BUFFER_WIDTH);
    assert_eq!(framebuffer.height, BUFFER_HEIGHT);
    assert_eq!(framebuffer.bytes.len(), (BUFFER_WIDTH * BUFFER_HEIGHT) as usize);
    let at = |row: u32, column: u32| framebuffer.bytes[(row * BUFFER_WIDTH + column) as usize];
    // Raster smaller than the box stays native: two red pixels at the anchor.
    assert_eq!(at(MARGIN, MARGIN), OPAQUE_RED);
    assert_eq!(at(MARGIN, MARGIN + 1), OPAQUE_RED);
    // Margin stays transparent; rectangle slack beyond the raster too.
    assert_eq!(at(0, 0), 0);
    assert_eq!(at(MARGIN - 1, MARGIN), 0);
    assert_eq!(at(MARGIN, MARGIN + 2), 0);
    assert_eq!(at(MARGIN + 1, MARGIN), 0);
}

#[test]
fn pair_view_fills_both_slots() {
    let left = solid_raster(1, 1, OPAQUE_RED);
    let right = solid_raster(1, 1, OPAQUE_BLUE);
    assert!(fits_pair_view(&left, &right));
    let framebuffer = buffer_from_two_images(&left, &right);
    assert_eq!(framebuffer.width, BUFFER_WIDTH);
    assert_eq!(framebuffer.height, BUFFER_HEIGHT);
    let at = |row: u32, column: u32| framebuffer.bytes[(row * BUFFER_WIDTH + column) as usize];
    // Each 1x1 source is scaled to a full square slot of the fixed width.
    assert_eq!(at(MARGIN, MARGIN), OPAQUE_RED);
    assert_eq!(at(MARGIN, MARGIN + IMG_WIDTH - 1), OPAQUE_RED);
    let right_left_edge = MARGIN * 2 + IMG_WIDTH;
    assert_eq!(at(MARGIN, right_left_edge), OPAQUE_BLUE);
    assert_eq!(at(MARGIN, right_left_edge + IMG_WIDTH - 1), OPAQUE_BLUE);
    // The gap between the slots and the outer margins stay transparent.
    assert_eq!(at(MARGIN, MARGIN + IMG_WIDTH), 0);
    assert_eq!(at(0, 0), 0);
    // Below the scaled heights everything is transparent.
    assert_eq!(at(MARGIN + IMG_WIDTH, MARGIN), 0);
}

#[test]
fn buffer_new_is_transparent() {
    let buffer = Buffer::new(3, 2);
    assert_eq!(buffer.width, 3);
    assert_eq!(buffer.height, 2);
    assert_eq!(buffer.bytes, vec![0u32; 6]);
}

#[test]
fn scale_to_fit_extreme_aspect_can_collapse_to_zero_width() {
    // A 1x10000 strip fitted into the single-view box rounds its width down
    // to zero pixels; the result is an empty raster, not an error.
    let raster = solid_raster(1, 10000, OPAQUE_RED);
    let scaled = raster.scale_to_fit(970, 770, ScaleMode::DownscaleOnly);
    assert_eq!(scaled.width, 0);
    assert_eq!(scaled.height, 770);
    assert_eq!(scaled.pixels.len(), 0);
}
