use asterctl::cfg::{Panel, Sensor, SensorDirection, SensorMode, TextAlign};
use asterctl::img::{Image, ImageCache, Pixel};
use asterctl::render::PanelRenderer;
use asterctl::sensors::{add_sensor, DateTime, SensorValues};

fn base_sensor(label: &str, mode: SensorMode) -> Sensor {
    Sensor {
        mode,
        sensor_type: 3,
        name: None,
        item_name: None,
        label: label.to_string(),
        value: None,
        min_value: Some(0),
        max_value: Some(100_000),
        unit: None,
        x: 0,
        y: 0,
        width: None,
        height: None,
        direction: Some(SensorDirection::LeftToRight),
        font_family: None,
        font_size: None,
        font_color: None,
        font_weight: None,
        text_align: None,
        integer_digits: None,
        decimal_digits: None,
        pic: None,
        min_angle: Some(0),
        max_angle: Some(180),
        xz_x: None,
        xz_y: None,
    }
}

fn now() -> DateTime {
    DateTime { year: 2024, month: 7, day: 5, hour: 9, minute: 3, second: 40 }
}

// End-to-end text scenario: a text sensor with three fixed integer digits
// and one decimal digit renders 047.8 with the unit appended.
#[test]
fn panel_text_sensor_renders_formatted_run() {
    let mut sensor = base_sensor("cpu_temp", SensorMode::Text);
    sensor.integer_digits = Some(3);
    sensor.decimal_digits = Some(1);
    sensor.text_align = Some(TextAlign::Center);
    sensor.x = 10;
    sensor.y = 20;
    let panel = Panel { id: None, name: Some("main".to_string()), img: None, sensor: vec![sensor] };

    let mut values = SensorValues::new();
    add_sensor(&mut values, "cpu_temp", "47.8");
    add_sensor(&mut values, "cpu_temp#unit", "\u{b0}C");

    let mut renderer = PanelRenderer::new((32, 32));
    let assets = ImageCache::new();
    let (texts, errors) = renderer.render_all_sensors(&panel, &values, &assets, &now());
    assert!(errors.is_empty());
    assert_eq!(texts.len(), 1);
    assert_eq!(texts[0].text, "047.8\u{b0}C");
    assert_eq!(texts[0].align, TextAlign::Center);
    assert_eq!((texts[0].x, texts[0].y), (10, 20));
}

// End-to-end fan scenario: range 0..100 at value 50 with angles 0..180
// sweeping clockwise covers the sector from -90 to 0 degrees, the upper
// right quadrant of the gauge picture.
#[test]
fn panel_fan_sensor_draws_upper_right_quadrant() {
    let mut sensor = base_sensor("fan", SensorMode::Fan);
    sensor.pic = Some("gauge.png".to_string());
    sensor.x = 2;
    sensor.y = 2;
    let panel = Panel { id: None, name: None, img: None, sensor: vec![sensor] };

    let mut values = SensorValues::new();
    add_sensor(&mut values, "fan", "50");

    let mut assets = ImageCache::new();
    let gauge = Image::from_pixels(4, 4, vec![Pixel { r: 200, g: 0, b: 0, a: 255 }; 16]);
    assets.insert("gauge.png", None, gauge);

    let mut renderer = PanelRenderer::new((8, 8));
    let (texts, errors) = renderer.render_all_sensors(&panel, &values, &assets, &now());
    assert!(texts.is_empty());
    assert!(errors.is_empty());

    let mut background = Image::new(8, 8);
    renderer.composite_layers(&mut background);
    // a pixel at 315 degrees from the gauge center is inside the sector
    assert_eq!(background.px(3, 1).r, 200);
    // the opposite quadrant stays transparent
    assert_eq!(background.px(1, 3).a, 0);
}

#[test]
fn panel_missing_value_skips_sensor_silently() {
    let sensor = base_sensor("absent", SensorMode::Text);
    let panel = Panel { id: None, name: None, img: None, sensor: vec![sensor] };
    let values = SensorValues::new();
    let mut renderer = PanelRenderer::new((8, 8));
    let assets = ImageCache::new();
    let (texts, errors) = renderer.render_all_sensors(&panel, &values, &assets, &now());
    assert!(texts.is_empty());
    assert!(errors.is_empty());
}

#[test]
fn panel_date_time_sensor_needs_no_snapshot_value() {
    let sensor = base_sensor("DATE_h_m_3", SensorMode::Text);
    let panel = Panel { id: None, name: None, img: None, sensor: vec![sensor] };
    let values = SensorValues::new();
    let mut renderer = PanelRenderer::new((8, 8));
    let assets = ImageCache::new();
    let (texts, errors) = renderer.render_all_sensors(&panel, &values, &assets, &now());
    assert!(errors.is_empty());
    assert_eq!(texts.len(), 1);
    assert_eq!(texts[0].text, "09:03");
}

#[test]
fn panel_failing_sensor_does_not_abort_siblings() {
    let mut bad = base_sensor("fan", SensorMode::Fan);
    bad.pic = None;  // missing picture
    let good = base_sensor("cpu", SensorMode::Text);
    let panel = Panel { id: None, name: None, img: None, sensor: vec![bad, good] };

    let mut values = SensorValues::new();
    add_sensor(&mut values, "fan", "50");
    add_sensor(&mut values, "cpu", "42");

    let mut renderer = PanelRenderer::new((8, 8));
    let assets = ImageCache::new();
    let (texts, errors) = renderer.render_all_sensors(&panel, &values, &assets, &now());
    assert_eq!(errors.len(), 1);
    assert_eq!(errors[0].index, 0);
    assert_eq!(texts.len(), 1);
    assert_eq!(texts[0].text, "42");
}
