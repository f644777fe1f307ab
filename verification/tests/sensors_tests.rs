use asterctl::sensors::{
    add_sensor, filter_pattern_line, get_date_time_value, is_filtered, parse_key_value_line,
    DateTime, SensorFilter, SensorValues,
};

fn noon() -> DateTime {
    DateTime { year: 2024, month: 7, day: 5, hour: 9, minute: 3, second: 40 }
}

#[test]
fn date_time_components_are_zero_padded() {
    let now = noon();
    assert_eq!(get_date_time_value("DATE_year", &now), Some("2024".to_string()));
    assert_eq!(get_date_time_value("DATE_month", &now), Some("07".to_string()));
    assert_eq!(get_date_time_value("DATE_day", &now), Some("05".to_string()));
    assert_eq!(get_date_time_value("DATE_hour", &now), Some("09".to_string()));
    assert_eq!(get_date_time_value("DATE_minute", &now), Some("03".to_string()));
    assert_eq!(get_date_time_value("DATE_second", &now), Some("40".to_string()));
}

#[test]
fn date_time_compound_formats() {
    let now = noon();
    assert_eq!(get_date_time_value("DATE_y_m_d_2", &now), Some("2024-07-05".to_string()));
    assert_eq!(get_date_time_value("DATE_y_m_d_3", &now), Some("2024/07/05".to_string()));
    assert_eq!(get_date_time_value("DATE_h_m_s_1", &now), Some("09:03:40".to_string()));
    assert_eq!(get_date_time_value("DATE_h_m_3", &now), Some("09:03".to_string()));
    assert_eq!(get_date_time_value("DATE_h_m_2", &now), Some("09 : 03".to_string()));
    assert_eq!(
        get_date_time_value("DATE_m_d_h_m_2", &now),
        Some("07/05  09:03".to_string())
    );
    assert_eq!(get_date_time_value("DATE_m_d_1", &now), Some("07\u{6708}05\u{65e5}".to_string()));
}

#[test]
fn date_time_rejects_other_labels() {
    let now = noon();
    assert_eq!(get_date_time_value("cpu_temp", &now), None);
    assert_eq!(get_date_time_value("DATE_unknown", &now), None);
}

#[test]
fn key_value_lines_are_trimmed_and_split() {
    assert_eq!(
        parse_key_value_line("  cpu_temp :  47.8  "),
        Some(("cpu_temp".to_string(), "47.8".to_string()))
    );
    assert_eq!(
        parse_key_value_line("a:b:c"),
        Some(("a".to_string(), "b:c".to_string()))
    );
    assert_eq!(parse_key_value_line(""), None);
    assert_eq!(parse_key_value_line("   "), None);
    assert_eq!(parse_key_value_line("# comment: yes"), None);
    assert_eq!(parse_key_value_line("no separator"), None);
}

#[test]
fn filter_lines_skip_blanks_and_comments() {
    assert_eq!(filter_pattern_line(" ^temp.* "), Some("^temp.*".to_string()));
    assert_eq!(filter_pattern_line("# note"), None);
    assert_eq!(filter_pattern_line("   "), None);
}

#[test]
fn is_filtered_does_not_filter_without_filters() {
    let key = "foobar";
    let filters = Vec::new();
    assert!(!is_filtered(key, &filters));
}

#[test]
fn test_unit_extension_filter() {
    let key = "temperature_cpu#unit";
    let filters = vec![SensorFilter::compile("^temperature_.*#unit").unwrap()];
    assert!(is_filtered(key, &filters));
}

#[test]
fn is_filtered_does_not_filter_without_a_match() {
    let key = "foobar";
    for patterns in [vec!["^foo$"], vec!["^bar"], vec!["other"], vec!["123", "bla", "other"]] {
        let filters: Vec<SensorFilter> = patterns
            .iter()
            .map(|p| SensorFilter::compile(p).expect("Invalid regex"))
            .collect();
        assert!(!is_filtered(key, &filters));
    }
}

#[test]
fn is_filtered_matches_filters() {
    let key = "foobar";
    for patterns in [
        vec!["foo"],
        vec!["bar"],
        vec!["^.+bar"],
        vec!["123", "foo", "other"],
        vec!["bar", "123"],
        vec!["^.+bar", "other"],
    ] {
        let filters: Vec<SensorFilter> = patterns
            .iter()
            .map(|p| SensorFilter::compile(p).expect("Invalid regex"))
            .collect();
        assert!(is_filtered(key, &filters));
    }
}

#[test]
fn invalid_filter_pattern_fails_to_compile() {
    assert!(SensorFilter::compile("unclosed(").is_none());
}

#[test]
fn sensor_values_store_and_replace() {
    let mut values = SensorValues::new();
    assert_eq!(values.get("cpu"), None);
    add_sensor(&mut values, "cpu", "47.8");
    add_sensor(&mut values, "mem", "12");
    assert_eq!(values.get("cpu"), Some("47.8".to_string()));
    assert_eq!(values.get("mem"), Some("12".to_string()));
    add_sensor(&mut values, "cpu", "48.1");
    assert_eq!(values.get("cpu"), Some("48.1".to_string()));
    assert_eq!(values.get("gpu"), None);
}
