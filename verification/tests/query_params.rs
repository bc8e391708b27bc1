use sinan_backend::query::{
    active_alerts_limit, device_status_query, latest_sensor_query, parse_u32, sensor_data_query,
    simulation_results_query, QueryError, QueryParams,
};

fn params(pairs: &[(&str, &str)]) -> QueryParams {
    let mut p = QueryParams::new();
    for (k, v) in pairs {
        p.push(k.to_string(), v.to_string());
    }
    p
}

#[test]
fn decimal_numbers_parse_as_std_parses_them() {
    let samples = [
        "0", "7", "100", "+7", "007", "4294967295", "4294967296", "99999999999999999999", "", "+",
        "-", "-1", "-0", "++1", "1a", "a1", " 1", "1 ", "1.0", "１", "+0", "00000000000000004294967295",
    ];
    for s in samples {
        assert_eq!(parse_u32(s), s.parse::<u32>().ok(), "text {:?}", s);
    }
    assert_eq!(parse_u32("100"), Some(100));
    assert_eq!(parse_u32("+7"), Some(7));
    assert_eq!(parse_u32("4294967295"), Some(u32::MAX));
    assert_eq!(parse_u32("4294967296"), None);
    assert_eq!(parse_u32("-1"), None);
    assert_eq!(parse_u32(""), None);
    assert_eq!(parse_u32("+"), None);
}

#[test]
fn decimal_text_of_a_number_reads_back() {
    for n in [0u32, 1, 9, 10, 99, 100, 65535, 1_000_000, u32::MAX - 1, u32::MAX] {
        assert_eq!(parse_u32(&n.to_string()), Some(n));
        assert_eq!(parse_u32(&format!("+{}", n)), Some(n));
    }
}

#[test]
fn the_last_value_of_a_repeated_parameter_wins() {
    let mut p = params(&[("limit", "10"), ("device_id", "SINAN-001"), ("limit", "20")]);
    assert_eq!(p.get(&"limit".to_string()), Some("20".to_string()));
    assert_eq!(p.get(&"device_id".to_string()), Some("SINAN-001".to_string()));
    assert_eq!(p.get(&"offset".to_string()), None);
    p.push("device_id".to_string(), "SINAN-002".to_string());
    assert_eq!(p.get(&"device_id".to_string()), Some("SINAN-002".to_string()));
    assert_eq!(p.get(&"limit".to_string()), Some("20".to_string()));
}

#[test]
fn sensor_query_defaults_to_100_rows_from_offset_0() {
    let q = sensor_data_query(&QueryParams::new());
    assert_eq!(q.device_id, None);
    assert_eq!(q.limit, 100);
    assert_eq!(q.offset, 0);
    assert_eq!(q.start_time, None);
    assert_eq!(q.end_time, None);
}

#[test]
fn sensor_query_reads_every_parameter() {
    let q = sensor_data_query(&params(&[
        ("device_id", "SINAN-001"),
        ("limit", "25"),
        ("offset", "50"),
        ("start_time", "2024-01-15T10:30:00Z"),
        ("end_time", "2024-01-15T10:30:00+08:00"),
    ]));
    assert_eq!(q.device_id, Some("SINAN-001".to_string()));
    assert_eq!(q.limit, 25);
    assert_eq!(q.offset, 50);
    assert_eq!(q.start_time, Some((1705314600, 0)));
    assert_eq!(q.end_time, Some((1705285800, 0)));
}

#[test]
fn malformed_numbers_and_times_fall_back_to_defaults() {
    let q = sensor_data_query(&params(&[
        ("limit", "-5"),
        ("offset", "ten"),
        ("start_time", "2024-01-15 10:30"),
        ("end_time", "yesterday"),
    ]));
    assert_eq!(q.limit, 100);
    assert_eq!(q.offset, 0);
    assert_eq!(q.start_time, None);
    assert_eq!(q.end_time, None);
}

#[test]
fn fractional_seconds_are_kept() {
    let q = sensor_data_query(&params(&[("start_time", "1970-01-01T00:00:01.5Z")]));
    assert_eq!(q.start_time, Some((1, 500_000_000)));
}

#[test]
fn latest_query_names_an_optional_device() {
    assert_eq!(latest_sensor_query(&QueryParams::new()), None);
    assert_eq!(
        latest_sensor_query(&params(&[("device_id", "SINAN-003")])),
        Some("SINAN-003".to_string())
    );
}

#[test]
fn device_status_requires_a_device() {
    match device_status_query(&QueryParams::new()) {
        Err(QueryError::MissingParameter { name }) => assert_eq!(name, "device_id"),
        Ok(_) => panic!("a query without device_id was accepted"),
    }
    match device_status_query(&params(&[("device_id", "SINAN-001")])) {
        Ok(id) => assert_eq!(id, "SINAN-001"),
        Err(e) => panic!("refused: {:?}", e),
    }
}

#[test]
fn simulation_results_query_defaults_to_100() {
    let q = simulation_results_query(&QueryParams::new());
    assert_eq!(q.device_id, None);
    assert_eq!(q.simulation_id, None);
    assert_eq!(q.limit, 100);
    let q = simulation_results_query(&params(&[
        ("device_id", "SINAN-002"),
        ("simulation_id", "run-7"),
        ("limit", "3"),
    ]));
    assert_eq!(q.device_id, Some("SINAN-002".to_string()));
    assert_eq!(q.simulation_id, Some("run-7".to_string()));
    assert_eq!(q.limit, 3);
}

#[test]
fn active_alerts_default_to_50() {
    assert_eq!(active_alerts_limit(&QueryParams::new()), 50);
    assert_eq!(active_alerts_limit(&params(&[("limit", "10")])), 10);
    assert_eq!(active_alerts_limit(&params(&[("limit", "abc")])), 50);
}

#[test]
fn required_parameter_is_returned_or_named_as_missing() {
    let p = params(&[("lat", "34.2")]);
    match p.require(&"lat".to_string()) {
        Ok(v) => assert_eq!(v, "34.2"),
        Err(e) => panic!("refused: {:?}", e),
    }
    match p.require(&"lon".to_string()) {
        Err(QueryError::MissingParameter { name }) => assert_eq!(name, "lon"),
        Ok(_) => panic!("missing lon accepted"),
    }
}

#[test]
fn numbers_with_defaults_read_back_what_was_written() {
    let p = params(&[("limit", "7")]);
    assert_eq!(p.number_or(&"limit".to_string(), 100), 7);
    assert_eq!(p.number_or(&"offset".to_string(), 0), 0);
    assert_eq!(p.instant(&"start_time".to_string()), None);
}
