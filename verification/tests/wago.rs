use wowctl::addon::ReleaseChannel;
use wowctl::error::WowctlError;
use wowctl::sources::wago::{
    batch_check_from_releases, check_visible, find_item_by_slug, item_slug, latest_version_from_detail, select_release,
    slug_lookup_from_detail, stability_param, to_addon_info, to_version_info, visible_items, WagoAddonDetail,
    WagoRelease, WagoReleases, WagoSearchItem,
};

fn release(label: &str, created_at: &str) -> WagoRelease {
    WagoRelease {
        label: label.to_string(),
        download_link: Some(format!("https://example.com/{label}.zip")),
        created_at: Some(created_at.to_string()),
        supported_retail_patch: None,
    }
}

#[test]
fn stable_channel_only_sees_stable() {
    let releases = WagoReleases {
        stable: Some(release("1.0", "2026-08-01T00:00:00.000000Z")),
        beta: Some(release("2.0-beta", "2026-08-02T00:00:00.000000Z")),
        alpha: Some(release("3.0-alpha", "2026-08-03T00:00:00.000000Z")),
    };
    let picked = select_release(&releases, ReleaseChannel::Stable).unwrap();
    assert_eq!(picked.label, "1.0");
}


#[test]
fn beta_channel_picks_newest_of_stable_and_beta() {
    let releases = WagoReleases {
        stable: Some(release("1.0", "2026-08-01T00:00:00.000000Z")),
        beta: Some(release("2.0-beta", "2026-08-02T00:00:00.000000Z")),
        alpha: Some(release("3.0-alpha", "2026-08-03T00:00:00.000000Z")),
    };
    let picked = select_release(&releases, ReleaseChannel::Beta).unwrap();
    assert_eq!(picked.label, "2.0-beta");
}


#[test]
fn beta_channel_prefers_newer_stable() {
    let releases = WagoReleases {
        stable: Some(release("2.1", "2026-08-04T00:00:00.000000Z")),
        beta: Some(release("2.0-beta", "2026-08-02T00:00:00.000000Z")),
        alpha: None,
    };
    let picked = select_release(&releases, ReleaseChannel::Beta).unwrap();
    assert_eq!(picked.label, "2.1");
}


#[test]
fn alpha_channel_sees_all_tiers() {
    let releases = WagoReleases {
        stable: None,
        beta: None,
        alpha: Some(release("3.0-alpha", "2026-08-03T00:00:00.000000Z")),
    };
    let picked = select_release(&releases, ReleaseChannel::Alpha).unwrap();
    assert_eq!(picked.label, "3.0-alpha");
}


#[test]
fn no_eligible_release_returns_none() {
    let releases = WagoReleases {
        stable: None,
        beta: Some(release("2.0-beta", "2026-08-02T00:00:00.000000Z")),
        alpha: None,
    };
    assert!(select_release(&releases, ReleaseChannel::Stable).is_none());
}


#[test]
fn stability_param_maps_channels() {
    assert_eq!(stability_param(ReleaseChannel::Stable), "stable");
    assert_eq!(stability_param(ReleaseChannel::Beta), "beta");
    assert_eq!(stability_param(ReleaseChannel::Alpha), "alpha");
}


#[test]
fn item_slug_prefers_slug_field() {
    let item = WagoSearchItem {
        id: "rNkynwKa".to_string(),
        slug: Some("classcodex".to_string()),
        display_name: "ClassCodex".to_string(),
        summary: None,
        download_count: None,
        website_url: Some("https://addons.wago.io/addons/other".to_string()),
        is_hidden_from_external: false,
    };
    assert_eq!(item_slug(&item), Some("classcodex".to_string()));
}


#[test]
fn item_slug_falls_back_to_website_url() {
    let item = WagoSearchItem {
        id: "rNkynwKa".to_string(),
        slug: None,
        display_name: "ClassCodex".to_string(),
        summary: None,
        download_count: None,
        website_url: Some("https://addons.wago.io/addons/classcodex/".to_string()),
        is_hidden_from_external: false,
    };
    assert_eq!(item_slug(&item), Some("classcodex".to_string()));
}


#[test]
fn to_addon_info_maps_fields_and_tags_source() {
    let item = WagoSearchItem {
        id: "rNkynwKa".to_string(),
        slug: Some("classcodex".to_string()),
        display_name: "ClassCodex".to_string(),
        summary: Some("Class guide addon".to_string()),
        download_count: Some(1234),
        website_url: None,
        is_hidden_from_external: false,
    };
    let info = to_addon_info(&item);
    assert_eq!(info.id, "rNkynwKa");
    assert_eq!(info.slug, "classcodex");
    assert_eq!(info.name, "ClassCodex");
    assert_eq!(info.description, Some("Class guide addon".to_string()));
    assert_eq!(info.download_count, Some(1234));
    assert_eq!(info.source, "wago");
}


#[test]
fn to_version_info_maps_release() {
    let mut r = release("1.2.0", "2026-08-06T13:42:41.000000Z");
    r.supported_retail_patch = Some("11.2.0".to_string());
    let v = to_version_info(&r, "classcodex.zip".to_string()).unwrap();
    assert_eq!(v.file_id, None);
    assert_eq!(
        v.external_release_id,
        Some("2026-08-06T13:42:41.000000Z".to_string())
    );
    assert_eq!(v.version, "1.2.0");
    assert_eq!(v.display_name, "1.2.0");
    assert_eq!(v.download_url, "https://example.com/1.2.0.zip");
    assert_eq!(v.file_name, "classcodex.zip");
    assert_eq!(v.game_versions, vec!["11.2.0".to_string()]);
    assert_eq!(v.released_at, "2026-08-06T13:42:41.000000Z");
    assert!(v.dependencies.is_empty());
    assert!(v.modules.is_empty());
}


#[test]
fn to_version_info_without_download_link_errors() {
    let mut r = release("1.2.0", "2026-08-01T00:00:00.000000Z");
    r.download_link = None;
    assert!(to_version_info(&r, "x.zip".to_string()).is_err());
}

fn item(id: &str, slug: Option<&str>, url: Option<&str>, hidden: bool) -> WagoSearchItem {
    WagoSearchItem {
        id: id.to_string(),
        slug: slug.map(str::to_string),
        display_name: format!("Addon {id}"),
        summary: None,
        download_count: Some(7),
        website_url: url.map(str::to_string),
        is_hidden_from_external: hidden,
    }
}

fn detail(slug: &str, hidden: bool, releases: WagoReleases) -> WagoAddonDetail {
    WagoAddonDetail {
        id: "abc123".to_string(),
        slug: slug.to_string(),
        display_name: "Class Codex".to_string(),
        summary: Some("Class guides".to_string()),
        download_count: Some(4200),
        is_hidden_from_external: hidden,
        recent_releases: releases,
    }
}

#[test]
fn search_drops_hidden_items() {
    let items = vec![
        item("1", Some("a"), None, false),
        item("2", Some("b"), None, true),
        item("3", Some("c"), None, false),
    ];
    assert_eq!(visible_items(&items), vec![0, 2]);
}

#[test]
fn slug_search_matches_slug_or_url() {
    let items = vec![
        item("1", Some("other"), None, false),
        item("2", None, Some("https://addons.wago.io/addons/classcodex"), false),
        item("3", Some("classcodex"), None, false),
    ];
    assert_eq!(find_item_by_slug(&items, "classcodex"), Some(1));
    assert_eq!(find_item_by_slug(&items, "missing"), None);
}

#[test]
fn hidden_detail_is_not_found() {
    let d = detail("classcodex", true, WagoReleases { stable: None, beta: None, alpha: None });
    match check_visible(&d) {
        Err(e @ WowctlError::AddonNotFound(_)) => assert_eq!(
            e.message(),
            "Addon not found: Addon 'classcodex' is hidden from external clients by its author"
        ),
        other => panic!("unexpected: {other:?}"),
    }
    let shown = detail("classcodex", false, WagoReleases { stable: None, beta: None, alpha: None });
    assert!(check_visible(&shown).is_ok());
}

#[test]
fn detail_gives_latest_version_of_channel() {
    let releases = WagoReleases {
        stable: Some(release("1.0", "2026-08-01T00:00:00.000000Z")),
        beta: Some(release("2.0-beta", "2026-08-02T00:00:00.000000Z")),
        alpha: None,
    };
    let d = detail("classcodex", false, releases);
    let stable = latest_version_from_detail(&d, ReleaseChannel::Stable).unwrap();
    assert_eq!(stable.version, "1.0");
    assert_eq!(stable.file_name, "classcodex.zip");
    assert_eq!(stable.download_url, "https://example.com/1.0.zip");
    assert_eq!(stable.external_release_id.as_deref(), Some("2026-08-01T00:00:00.000000Z"));
    let beta = latest_version_from_detail(&d, ReleaseChannel::Beta).unwrap();
    assert_eq!(beta.version, "2.0-beta");
}

#[test]
fn detail_without_release_of_channel_errors() {
    let d = detail(
        "classcodex",
        false,
        WagoReleases { stable: None, beta: Some(release("2.0-beta", "2026-08-02T00:00:00.000000Z")), alpha: None },
    );
    match latest_version_from_detail(&d, ReleaseChannel::Stable) {
        Err(e @ WowctlError::Source(_)) => {
            assert_eq!(e.message(), "Addon source error: No stable release found on Wago for 'classcodex'")
        }
        other => panic!("unexpected: {other:?}"),
    }
}

#[test]
fn recents_entry_maps_to_version_check() {
    let releases = WagoReleases {
        stable: Some(release("1.0", "2026-08-01T00:00:00.000000Z")),
        beta: None,
        alpha: Some(release("3.0-alpha", "2026-08-03T00:00:00.000000Z")),
    };
    let id = "abc123".to_string();
    let check = batch_check_from_releases(&id, &releases, ReleaseChannel::Alpha).unwrap();
    assert_eq!(check.addon_id, "abc123");
    assert_eq!(check.version, "3.0-alpha");
    assert_eq!(check.file_id, None);
    assert_eq!(check.external_release_id.as_deref(), Some("2026-08-03T00:00:00.000000Z"));
    assert_eq!(check.released_at, "2026-08-03T00:00:00.000000Z");
    let none = WagoReleases { stable: None, beta: None, alpha: None };
    assert!(batch_check_from_releases(&id, &none, ReleaseChannel::Alpha).is_none());
}

#[test]
fn slug_lookup_through_detail() {
    let d = detail("classcodex", false, WagoReleases { stable: None, beta: None, alpha: None });
    let info = slug_lookup_from_detail("classcodex", Ok(d.clone())).unwrap();
    assert_eq!((info.id.as_str(), info.slug.as_str(), info.name.as_str()), ("abc123", "classcodex", "Class Codex"));
    assert_eq!(info.source, "wago");
    assert_eq!(info.download_count, Some(4200));

    match slug_lookup_from_detail("other", Ok(d)) {
        Err(e @ WowctlError::AddonNotFound(_)) => {
            assert_eq!(e.message(), "Addon not found: Addon 'other' not found on Wago")
        }
        other => panic!("unexpected: {other:?}"),
    }
    match slug_lookup_from_detail("x", Err(WowctlError::Network("down".to_string()))) {
        Err(WowctlError::Network(m)) => assert_eq!(m, "down"),
        other => panic!("unexpected: {other:?}"),
    }
}
