use asterctl::aoo_screen::{
    convert_rgb, init_response_ok, should_retry_write, to_rgb565_le, AooScreenBuilder,
    IMG_CHUNK_SIZE,
};
use asterctl::img::{Image, Pixel};

fn solid_image(w: u32, h: u32, p: Pixel) -> Image {
    let pixels = vec![p; (w * h) as usize];
    Image::from_pixels(w, h, pixels)
}

#[test]
fn convert_rgb_packs_565() {
    assert_eq!(convert_rgb(0, 0, 0), 0x0000);
    assert_eq!(convert_rgb(255, 255, 255), 0xFFFF);
    assert_eq!(convert_rgb(255, 0, 0), 0xF800);
    assert_eq!(convert_rgb(0, 255, 0), 0x07E0);
    assert_eq!(convert_rgb(0, 0, 255), 0x001F);
}

#[test]
fn rgb565_bytes_are_little_endian() {
    let img = solid_image(2, 1, Pixel { r: 255, g: 0, b: 0, a: 255 });
    let bytes = to_rgb565_le(&img);
    assert_eq!(bytes, vec![0x00, 0xF8, 0x00, 0xF8]);
}

// Diff-cache idempotence: the second transmission of an identical frame
// carries no chunk message, only the frame-start and frame-end headers.
#[test]
fn resend_identical_frame_transmits_no_chunks() {
    let builder = AooScreenBuilder::new();
    let mut screen = builder.build();
    // a frame of exactly two chunks: 47 bytes per chunk, 2 bytes per pixel
    let img = solid_image(47, 1, Pixel { r: 10, g: 20, b: 30, a: 255 });
    assert_eq!((47u32 * 2) as usize % IMG_CHUNK_SIZE, 0);

    let first = screen.send_image(&img);
    // frame-start, two chunks, frame-end
    assert_eq!(first.len(), 4);

    let second = screen.send_image(&img);
    assert_eq!(second.len(), 2);
    assert_eq!(second[0], vec![0xAA, 0x55, 0xAA, 0x55, 0x05, 0, 0, 0, 0x04, 0, 0x0F, 0x2F, 0, 0x04, 0x0B, 0]);
    assert_eq!(second[1], vec![0xAA, 0x55, 0xAA, 0x55, 0x06, 0, 0, 0]);
}

// Disabling the cache clears prior state: the next frame is transmitted in
// full even though its content is unchanged.
#[test]
fn disabling_cache_resends_every_chunk() {
    let builder = AooScreenBuilder::new();
    let mut screen = builder.build();
    let img = solid_image(47, 1, Pixel { r: 10, g: 20, b: 30, a: 255 });

    let first = screen.send_image(&img);
    assert_eq!(first.len(), 4);

    screen.enable_cache(false);
    assert!(!screen.is_cache_enabled());
    let second = screen.send_image(&img);
    assert_eq!(second.len(), 4);
    // chunk messages carry the chunk header and the little-endian offset
    assert_eq!(&second[1][0..8], &[0xAA, 0x55, 0xAA, 0x55, 0x08, 0, 0, 0]);
    assert_eq!(&second[1][8..12], &[0, 0, 0, 0]);
    assert_eq!(&second[2][8..12], &[47, 0, 0, 0]);
}

#[test]
fn partial_frame_update_sends_changed_chunks_only() {
    let builder = AooScreenBuilder::new();
    let mut screen = builder.build();
    let img = solid_image(47, 1, Pixel { r: 10, g: 20, b: 30, a: 255 });
    screen.send_image(&img);

    // change one pixel in the second chunk
    let mut img2 = img.clone();
    img2.set_px(40, 0, Pixel { r: 1, g: 2, b: 3, a: 255 });
    let msgs = screen.send_image(&img2);
    // frame-start, the one changed chunk, frame-end
    assert_eq!(msgs.len(), 3);
    assert_eq!(&msgs[1][8..12], &[47, 0, 0, 0]);
}

#[test]
fn display_commands_have_fixed_bytes() {
    let builder = AooScreenBuilder::new();
    let screen = builder.build();
    assert_eq!(screen.on(), vec![0xAA, 0x55, 0xAA, 0x55, 0x0B, 0, 0, 0]);
    assert_eq!(screen.off(), vec![0xAA, 0x55, 0xAA, 0x55, 0x0A, 0, 0, 0]);
}

#[test]
fn builder_applies_defaults_and_overrides() {
    let mut builder = AooScreenBuilder::new();
    builder.no_init_check(true);
    builder.enable_cache(false);
    let screen = builder.build();
    assert!(!screen.is_cache_enabled());
    assert!(!screen.needs_init_check());

    let screen2 = AooScreenBuilder::new().build();
    assert!(screen2.is_cache_enabled());
    assert!(screen2.needs_init_check());
}

#[test]
fn init_response_needs_marker_byte() {
    assert!(init_response_ok(&vec![b'A']));
    assert!(init_response_ok(&vec![0, 1, b'A', 7]));
    assert!(!init_response_ok(&vec![]));
    assert!(!init_response_ok(&vec![b'B', b'C']));
}

#[test]
fn write_retries_are_bounded() {
    assert!(should_retry_write(0));
    assert!(should_retry_write(2));
    assert!(!should_retry_write(3));
}
