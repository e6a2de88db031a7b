use wowctl::addon::{ReleaseChannel, SearchResult};

#[test]
fn release_channel_includes_release_type() {
    assert!(ReleaseChannel::Stable.includes_release_type(1));
    assert!(!ReleaseChannel::Stable.includes_release_type(2));
    assert!(!ReleaseChannel::Stable.includes_release_type(3));

    assert!(ReleaseChannel::Beta.includes_release_type(1));
    assert!(ReleaseChannel::Beta.includes_release_type(2));
    assert!(!ReleaseChannel::Beta.includes_release_type(3));

    assert!(ReleaseChannel::Alpha.includes_release_type(1));
    assert!(ReleaseChannel::Alpha.includes_release_type(2));
    assert!(ReleaseChannel::Alpha.includes_release_type(3));
}

#[test]
fn release_channel_ordering() {
    assert!(ReleaseChannel::Stable < ReleaseChannel::Beta);
    assert!(ReleaseChannel::Beta < ReleaseChannel::Alpha);
}

#[test]
fn release_channel_from_str() {
    assert_eq!(
        "stable".parse::<ReleaseChannel>().unwrap(),
        ReleaseChannel::Stable
    );
    assert_eq!(
        "release".parse::<ReleaseChannel>().unwrap(),
        ReleaseChannel::Stable
    );
    assert_eq!(
        "beta".parse::<ReleaseChannel>().unwrap(),
        ReleaseChannel::Beta
    );
    assert_eq!(
        "alpha".parse::<ReleaseChannel>().unwrap(),
        ReleaseChannel::Alpha
    );
    assert_eq!(
        "STABLE".parse::<ReleaseChannel>().unwrap(),
        ReleaseChannel::Stable
    );
    assert!("unknown".parse::<ReleaseChannel>().is_err());
}

#[test]
fn release_channel_display() {
    assert_eq!(ReleaseChannel::Stable.as_str(), "stable");
    assert_eq!(ReleaseChannel::Beta.as_str(), "beta");
    assert_eq!(ReleaseChannel::Alpha.as_str(), "alpha");
}

#[test]
fn search_result_total_pages() {
    let make = |total, page_size| SearchResult {
        addons: vec![],
        page: 1,
        page_size,
        total_count: total,
    };
    assert_eq!(make(0, 20).total_pages(), 0);
    assert_eq!(make(1, 20).total_pages(), 1);
    assert_eq!(make(20, 20).total_pages(), 1);
    assert_eq!(make(21, 20).total_pages(), 2);
    assert_eq!(make(100, 20).total_pages(), 5);
    assert_eq!(make(101, 20).total_pages(), 6);
    assert_eq!(make(10, 0).total_pages(), 0);
}

