use whispeross::applog::{format_line, over_cap};

#[test]
fn line_has_timestamp_event_and_newline() {
    assert_eq!(format_line(1723118400123, "recording-start"), "1723118400123 recording-start\n");
}

#[test]
fn cap_is_one_megabyte() {
    assert!(!over_cap(1_000_000));
    assert!(over_cap(1_000_001));
}

// Own tests.

#[test]
fn line_at_time_zero() {
    assert_eq!(format_line(0, "app-start"), "0 app-start\n");
    assert_eq!(format_line(u64::MAX, ""), "18446744073709551615 \n");
}
