use sort_srt::time_format::format_time;

fn chars(s: &str) -> Vec<char> {
    s.chars().collect()
}

fn format_seconds(seconds: f64) -> Vec<char> {
    format_time((seconds * 1000.0).round() as u64)
}

#[test]
fn rounds_fractional_seconds_to_nearest_ten_ms() {
    assert_eq!(format_seconds(3661.2396), chars("01:01:01,240"));
}

#[test]
fn zero_is_all_zeros() {
    assert_eq!(format_seconds(0.0), chars("00:00:00,000"));
}

#[test]
fn exact_milliseconds() {
    assert_eq!(format_time(3661240), chars("01:01:01,240"));
}

#[test]
fn floors_milliseconds_to_multiple_of_ten() {
    assert_eq!(format_time(1234), chars("00:00:01,230"));
    assert_eq!(format_time(59999), chars("00:00:59,990"));
}

#[test]
fn pads_each_field() {
    assert_eq!(format_time(1000), chars("00:00:01,000"));
    assert_eq!(format_time(60000), chars("00:01:00,000"));
    assert_eq!(format_time(3600000), chars("01:00:00,000"));
}

#[test]
fn hours_widen_past_two_digits() {
    assert_eq!(format_time(360000000), chars("100:00:00,000"));
}
