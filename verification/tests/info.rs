use wowctl::commands::info::format_release_date;

#[test]
fn format_release_date_iso8601() {
    assert_eq!(format_release_date("2025-02-15T10:30:00Z"), "2025-02-15");
}

#[test]
fn format_release_date_date_only() {
    assert_eq!(format_release_date("2025-02-15"), "2025-02-15");
}

#[test]
fn format_release_date_short_string() {
    assert_eq!(format_release_date("unknown"), "unknown");
}

#[test]
fn format_release_date_empty() {
    assert_eq!(format_release_date(""), "");
}

