use asterctl::cfg::{FontColor, Sensor, SensorDirection, SensorMode, TextAlign};
use asterctl::img::{rotate_180_degrees, rotate_90_degrees, rotate_image, Image, ImageCache, Pixel};
use asterctl::render::{
    fan_angles, progress_scaled, text_origin, text_spec, PanelRenderer, PROGRESS_SCALE,
};

fn px(r: u8, g: u8, b: u8, a: u8) -> Pixel {
    Pixel { r, g, b, a }
}

fn sample_image() -> Image {
    // a 2x3 image with distinct pixels
    let pixels = vec![
        px(1, 0, 0, 255),
        px(2, 0, 0, 255),
        px(3, 0, 0, 255),
        px(4, 0, 0, 255),
        px(5, 0, 0, 255),
        px(6, 0, 0, 255),
    ];
    Image::from_pixels(2, 3, pixels)
}

fn pixels_of(img: &Image) -> Vec<Pixel> {
    let mut out = Vec::new();
    for y in 0..img.height() {
        for x in 0..img.width() {
            out.push(img.px(x, y));
        }
    }
    out
}

// Rotating by 90 degrees and then by 270 degrees reproduces the original
// pixel buffer exactly, in either order.
#[test]
fn rotate_90_then_270_round_trips() {
    let img = sample_image();
    let back = rotate_image(&rotate_image(&img, 90), 270);
    assert_eq!(back.width(), img.width());
    assert_eq!(back.height(), img.height());
    assert_eq!(pixels_of(&back), pixels_of(&img));

    let back2 = rotate_image(&rotate_image(&img, 270), 90);
    assert_eq!(pixels_of(&back2), pixels_of(&img));
}

// Rotating by 180 degrees twice reproduces the original exactly.
#[test]
fn rotate_180_twice_round_trips() {
    let img = sample_image();
    let back = rotate_180_degrees(&rotate_180_degrees(&img));
    assert_eq!(pixels_of(&back), pixels_of(&img));
}

#[test]
fn rotate_90_transposes_pixels() {
    let img = sample_image();
    let cw = rotate_90_degrees(&img, true);
    assert_eq!(cw.width(), 3);
    assert_eq!(cw.height(), 2);
    // the bottom-left source pixel becomes the top-left pixel
    assert_eq!(cw.px(0, 0), img.px(0, 2));
    assert_eq!(cw.px(2, 0), img.px(0, 0));
}

// Progress is clamped: at or below the minimum it is 0, at or above the
// maximum it is full scale, and it never leaves that range.
#[test]
fn progress_is_clamped_and_monotonic() {
    let min = 0i64;
    let max = 100_000i64; // the value 100, in milli-units
    assert_eq!(progress_scaled(-5_000, min, max), 0);
    assert_eq!(progress_scaled(0, min, max), 0);
    assert_eq!(progress_scaled(50_000, min, max), PROGRESS_SCALE / 2);
    assert_eq!(progress_scaled(100_000, min, max), PROGRESS_SCALE);
    assert_eq!(progress_scaled(250_000, min, max), PROGRESS_SCALE);
    let mut last = 0;
    for v in [-10_000, 0, 10_000, 30_000, 99_000, 100_000, 200_000] {
        let p = progress_scaled(v, min, max);
        assert!(p >= last);
        assert!((0..=PROGRESS_SCALE).contains(&p));
        last = p;
    }
}

// A fan sensor with range 0..100 at value 50 and angles 0..180 sweeping
// clockwise yields a sector from -90 degrees to 0 degrees.
#[test]
fn fan_sector_at_half_progress() {
    let progress = progress_scaled(50_000, 0, 100_000);
    let (start, end) = fan_angles(0, 180, progress, SensorDirection::LeftToRight);
    assert_eq!(start, -90_000);
    assert_eq!(end, 0);
}

fn text_sensor() -> Sensor {
    Sensor {
        mode: SensorMode::Text,
        sensor_type: 3,
        name: None,
        item_name: None,
        label: "cpu_temp".to_string(),
        value: None,
        min_value: None,
        max_value: None,
        unit: Some("\u{b0}C".to_string()),
        x: 100,
        y: 50,
        width: Some(120),
        height: Some(40),
        direction: None,
        font_family: None,
        font_size: Some(24),
        font_color: None,
        font_weight: None,
        text_align: Some(TextAlign::Center),
        integer_digits: Some(3),
        decimal_digits: Some(1),
        pic: None,
        min_angle: None,
        max_angle: None,
        xz_x: None,
        xz_y: None,
    }
}

// A text sensor with value 47.8, unit \u{b0}C, three fixed integer digits and
// one decimal digit renders the string 047.8\u{b0}C with its layout data.
#[test]
fn text_sensor_formats_value_with_unit() {
    let sensor = text_sensor();
    let spec = text_spec(&sensor, "47.8", "\u{b0}C");
    assert_eq!(spec.text, "047.8\u{b0}C");
    assert_eq!(spec.font_size, 24);
    assert_eq!(spec.align, TextAlign::Center);
    assert_eq!(spec.color, FontColor { r: 255, g: 255, b: 255 });
    assert_eq!(spec.x, 100);
    assert_eq!(spec.y, 50);
}

#[test]
fn text_origin_respects_alignment() {
    // centered: x + width/2 - text_w/2
    let (ox, oy) = text_origin(TextAlign::Center, 100, 120, 50, 40, 60, 30);
    assert_eq!(ox, 100 + 60 - 30);
    assert_eq!(oy, 50 + 20 - (30 * 13333) / 20000);
    let (left, _) = text_origin(TextAlign::Left, 100, 120, 50, 40, 60, 30);
    assert_eq!(left, 100);
    let (right, _) = text_origin(TextAlign::Right, 100, 120, 50, 40, 60, 30);
    assert_eq!(right, 100 + 120 - 60);
}

fn gauge_sensor(mode: SensorMode, direction: SensorDirection) -> Sensor {
    let mut s = text_sensor();
    s.mode = mode;
    s.direction = Some(direction);
    s.pic = Some("gauge.png".to_string());
    s.min_value = Some(0);
    s.max_value = Some(100_000);
    s.min_angle = Some(0);
    s.max_angle = Some(180);
    s.x = 0;
    s.y = 0;
    s
}

#[test]
fn fan_sensor_at_minimum_draws_nothing() {
    let mut renderer = PanelRenderer::new((8, 8));
    let mut assets = ImageCache::new();
    assets.insert("gauge.png", None, Image::new(4, 4));
    let sensor = gauge_sensor(SensorMode::Fan, SensorDirection::LeftToRight);
    let r = renderer.render_fan(&sensor, "0", SensorDirection::LeftToRight, &assets);
    assert!(r.is_ok());
    let mut background = Image::new(8, 8);
    renderer.composite_layers(&mut background);
    assert_eq!(background.px(2, 2).a, 0);
}

#[test]
fn fan_sensor_rejects_vertical_direction() {
    let mut renderer = PanelRenderer::new((8, 8));
    let assets = ImageCache::new();
    let sensor = gauge_sensor(SensorMode::Fan, SensorDirection::TopToBottom);
    let r = renderer.render_fan(&sensor, "50", SensorDirection::TopToBottom, &assets);
    assert!(r.is_err());
}

#[test]
fn fan_sensor_needs_cached_picture() {
    let mut renderer = PanelRenderer::new((8, 8));
    let assets = ImageCache::new();
    let sensor = gauge_sensor(SensorMode::Fan, SensorDirection::LeftToRight);
    let r = renderer.render_fan(&sensor, "50", SensorDirection::LeftToRight, &assets);
    assert!(r.is_err());
}

#[test]
fn fan_sensor_rejects_unparsable_value() {
    let mut renderer = PanelRenderer::new((8, 8));
    let mut assets = ImageCache::new();
    assets.insert("gauge.png", None, Image::new(4, 4));
    let sensor = gauge_sensor(SensorMode::Fan, SensorDirection::LeftToRight);
    let r = renderer.render_fan(&sensor, "oops", SensorDirection::LeftToRight, &assets);
    assert!(r.is_err());
}

// A full progress bar pastes every opaque source pixel; an empty one
// pastes none.
#[test]
fn progress_bar_full_and_empty() {
    let mut renderer = PanelRenderer::new((4, 4));
    let mut assets = ImageCache::new();
    let bar = Image::from_pixels(2, 2, vec![px(9, 9, 9, 255); 4]);
    assets.insert("bar.png", None, bar);
    let mut sensor = gauge_sensor(SensorMode::Progress, SensorDirection::LeftToRight);
    sensor.pic = Some("bar.png".to_string());

    let r = renderer.render_progress(&sensor, "100", SensorDirection::LeftToRight, &assets);
    assert!(r.is_ok());
    let mut background = Image::new(4, 4);
    renderer.composite_layers(&mut background);
    assert_eq!(background.px(0, 0).r, 9);
    assert_eq!(background.px(1, 1).r, 9);
    assert_eq!(background.px(2, 0).a, 0);

    let mut renderer2 = PanelRenderer::new((4, 4));
    let r2 = renderer2.render_progress(&sensor, "0", SensorDirection::LeftToRight, &assets);
    assert!(r2.is_ok());
    let mut background2 = Image::new(4, 4);
    renderer2.composite_layers(&mut background2);
    assert_eq!(background2.px(0, 0).a, 0);
}
