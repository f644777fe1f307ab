use asterctl::cfg::{FontColor, MonitorConfig, Panel, Setup};

fn panel(name: Option<&str>, id: Option<&str>, img: Option<&str>) -> Panel {
    Panel {
        id: id.map(|s| s.to_string()),
        name: name.map(|s| s.to_string()),
        img: img.map(|s| s.to_string()),
        sensor: Vec::new(),
    }
}

#[test]
fn friendly_name_prefers_name_then_id_then_image_stem() {
    assert_eq!(panel(Some("Main"), Some("p1"), None).friendly_name(), "Main");
    assert_eq!(panel(None, Some("p1"), None).friendly_name(), "p1");
    assert_eq!(panel(None, None, Some("bg/main.png")).friendly_name(), "main");
    assert_eq!(panel(None, None, Some("plain")).friendly_name(), "plain");
    assert_eq!(panel(None, None, None).friendly_name(), "panel");
}

#[test]
fn font_color_parses_hex_and_falls_back_to_white() {
    assert_eq!(FontColor::from_hex("#ff0000"), FontColor { r: 255, g: 0, b: 0 });
    assert_eq!(FontColor::from_hex("#00Ff7f"), FontColor { r: 0, g: 255, b: 127 });
    assert_eq!(FontColor::from_hex("ff0000"), FontColor { r: 255, g: 255, b: 255 });
    assert_eq!(FontColor::from_hex("#ff00"), FontColor { r: 255, g: 255, b: 255 });
    assert_eq!(FontColor::from_hex("#ff00zz"), FontColor { r: 255, g: 255, b: 255 });
    assert_eq!(FontColor::default(), FontColor { r: 255, g: 255, b: 255 });
}

fn config(active: Vec<u32>, n_panels: usize) -> MonitorConfig {
    let panels = (0..n_panels).map(|i| panel(Some(&format!("p{i}")), None, None)).collect();
    MonitorConfig::new(
        Setup { switch_time: None, refresh_ms: 1000 },
        active,
        panels,
    )
}

#[test]
fn panel_rotation_steps_through_active_panels() {
    let mut cfg = config(vec![2, 1], 2);
    assert_eq!(cfg.get_next_active_panel(), Some(1));
    assert_eq!(cfg.get_next_active_panel(), Some(0));
    assert_eq!(cfg.get_next_active_panel(), Some(1));
}

#[test]
fn panel_rotation_stalls_when_cursor_passes_the_active_list() {
    // the cursor wraps at the panel count, not at the number of active
    // entries, so a shorter active list runs dry
    let mut cfg = config(vec![2, 1], 3);
    assert_eq!(cfg.get_next_active_panel(), Some(1));
    assert_eq!(cfg.get_next_active_panel(), Some(0));
    assert_eq!(cfg.get_next_active_panel(), None);
}

#[test]
fn panel_rotation_skips_zero_entries() {
    let mut cfg = config(vec![0, 3, 0, 1], 3);
    assert_eq!(cfg.get_next_active_panel(), Some(2));
    assert_eq!(cfg.get_next_active_panel(), Some(0));
}

#[test]
fn panel_rotation_rejects_out_of_range_entries() {
    let mut cfg = config(vec![7], 3);
    assert_eq!(cfg.get_next_active_panel(), None);
}
