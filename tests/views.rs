use cleanup_bot::views::format_relative;

#[test]
fn relative_time_uses_largest_unit() {
    assert_eq!(format_relative(0), "0s ago");
    assert_eq!(format_relative(59), "59s ago");
    assert_eq!(format_relative(60), "1m ago");
    assert_eq!(format_relative(3599), "59m ago");
    assert_eq!(format_relative(3600), "1h ago");
    assert_eq!(format_relative(86399), "23h ago");
    assert_eq!(format_relative(86400), "1d ago");
    assert_eq!(format_relative(10 * 86400 + 5), "10d ago");
}

#[test]
fn relative_time_of_future_event() {
    assert_eq!(format_relative(-5), "-5s ago");
}
