use wowctl::commands::list::format_date_marker;

#[test]
fn format_date_marker_none_is_empty() {
    assert_eq!(format_date_marker(None), "");
}

#[test]
fn format_date_marker_full_iso_date() {
    assert_eq!(
        format_date_marker(Some("2025-02-15T10:30:00Z")),
        "  2025-02-15"
    );
}

#[test]
fn format_date_marker_short_input() {
    assert_eq!(format_date_marker(Some("2025")), "  2025");
}

#[test]
fn format_date_marker_non_ascii_does_not_panic() {
    // The 10th character is a multi-byte '€'; byte-slicing at offset 10
    // would panic here.
    let raw = "1234-06-1€T00:00:00Z";
    assert_eq!(format_date_marker(Some(raw)), "  1234-06-1€");
}

