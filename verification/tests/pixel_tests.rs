use uwufufu::draw::Buffer;

#[test]
fn pack_layout_is_argb() {
    assert_eq!(Buffer::rgba_to_buffer_pixel(1, 2, 3, 4), 0x0401_0203u32);
    assert_eq!(Buffer::rgba_to_buffer_pixel(0, 0, 0, 0), 0);
    assert_eq!(Buffer::rgba_to_buffer_pixel(255, 255, 255, 255), 0xffff_ffffu32);
}

#[test]
fn unpack_layout_is_argb() {
    assert_eq!(Buffer::buffer_pixel_to_rgba(0x0401_0203), (1, 2, 3, 4));
    assert_eq!(Buffer::buffer_pixel_to_rgba(0), (0, 0, 0, 0));
    assert_eq!(Buffer::buffer_pixel_to_rgba(0xffff_ffff), (255, 255, 255, 255));
}

#[test]
fn pack_unpack_round_trip_over_channel_samples() {
    let samples = [0u8, 1, 2, 63, 64, 127, 128, 200, 254, 255];
    for &r in &samples {
        for &g in &samples {
            for &b in &samples {
                for &a in &samples {
                    let packed = Buffer::rgba_to_buffer_pixel(r, g, b, a);
                    assert_eq!(Buffer::buffer_pixel_to_rgba(packed), (r, g, b, a));
                }
            }
        }
    }
}

#[test]
fn unpack_pack_round_trip_over_pixel_samples() {
    let samples = [
        0u32,
        1,
        0xff,
        0x100,
        0x1234_5678,
        0x8000_0000,
        0xdead_beef,
        0xffff_fffe,
        0xffff_ffff,
    ];
    for &pixel in &samples {
        let (r, g, b, a) = Buffer::buffer_pixel_to_rgba(pixel);
        assert_eq!(Buffer::rgba_to_buffer_pixel(r, g, b, a), pixel);
    }
}

#[test]
fn channel_addition_saturates_at_255() {
    assert_eq!(Buffer::add_single_channel(255, 255), 255);
    assert_eq!(Buffer::add_single_channel(200, 100), 255);
    assert_eq!(Buffer::add_single_channel(128, 127), 255);
    assert_eq!(Buffer::add_single_channel(128, 128), 255);
    assert_eq!(Buffer::add_single_channel(100, 100), 200);
    assert_eq!(Buffer::add_single_channel(0, 0), 0);
    assert_eq!(Buffer::add_single_channel(0, 255), 255);
}

#[test]
fn combining_two_opaque_white_layers_saturates() {
    let white = 0xffff_ffffu32;
    let buffer = Buffer::new(2, 1);
    let combined = buffer.write_buffer(&[vec![white, white], vec![white, 0]]);
    assert_eq!(combined.bytes[0], white);
    assert_eq!(combined.bytes[1], white);
}

#[test]
fn combining_layers_adds_channels() {
    let a = Buffer::rgba_to_buffer_pixel(10, 20, 30, 40);
    let b = Buffer::rgba_to_buffer_pixel(1, 2, 3, 4);
    let buffer = Buffer::new(1, 1);
    let combined = buffer.write_buffer(&[vec![a], vec![b]]);
    assert_eq!(combined.bytes[0], Buffer::rgba_to_buffer_pixel(11, 22, 33, 44));
}

#[test]
fn combining_no_layers_gives_transparent_black() {
    let buffer = Buffer::new(2, 2);
    let combined = buffer.write_buffer(&[]);
    assert_eq!(combined.bytes, vec![0u32; 4]);
}
