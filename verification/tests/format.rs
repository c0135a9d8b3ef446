use task_timer::timefmt::format_time;

#[test]
fn format_time_mixed_fields() {
    assert_eq!(format_time(3661), "01:01:01");
}

#[test]
fn format_time_under_a_minute() {
    assert_eq!(format_time(59), "00:00:59");
}

#[test]
fn format_time_whole_hour() {
    assert_eq!(format_time(3600), "01:00:00");
}

#[test]
fn format_time_zero() {
    assert_eq!(format_time(0), "00:00:00");
}

#[test]
fn format_time_last_second_of_day() {
    assert_eq!(format_time(86399), "23:59:59");
}

#[test]
fn format_time_hours_field_widens() {
    assert_eq!(format_time(360000), "100:00:00");
    assert_eq!(format_time(359999), "99:59:59");
}
