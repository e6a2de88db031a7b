use std::str::FromStr;
use wowctl::circuit_breaker::{decide_allow, BreakerState};
use wowctl::commands::stale::{civil_from_days, date_from_unix_nanos};
use wowctl::sources::slug_after;
use wowctl::sources::wago::detail_to_addon_info;
use wowctl::utils::is_toc_file_name;
use wowctl::addon::{AddonInfo, DependencyInfo, DependencyType, GameFlavor, InstalledAddon, ReleaseChannel};
use wowctl::commands::install::check_source_collision;
use wowctl::commands::stale::{now_valid, parse_date_prefix};
use wowctl::commands::info::format_release_date;
use wowctl::colors::{paint, ColorExt, Paint};
use wowctl::commands::config::{apply_setting, mask_api_key};
use wowctl::commands::info::{info, InfoLine};
use wowctl::commands::list::{addon_markers, ListFilter};
use wowctl::commands::update::{
    find_check, fix_version_strings, record_release, resolve_addon_channel, select_addons_to_check, update_directories, update_for,
    CheckSelection,
};
use wowctl::config::{resolve_wago_key, Config};
use wowctl::error::WowctlError;
use wowctl::fingerprint::{normalize_wow_path, toc_file_references};
use wowctl::registry::Registry;
use wowctl::sources::curseforge::{
    batch_check_for_mod, dependency_type_for, fallback_download_url, fingerprint_match, parse_retry_after_value, retry_delay_until,
    select_batch_file_id, select_latest_file, version_info_from_file, CfFile, FileIndex,
};
use wowctl::sources::wago::{check_visible, WagoAddonDetail, WagoReleases};
use wowctl::sources::{BatchVersionCheck, SourceKind};
use wowctl::toc::parse_toc_contents;
use wowctl::utils::{
    char_safe_prefix, check_directory_conflicts, disk_space_verdict, extract_slug_from_url, group_dirs_by_project_id,
    should_use_color, unmanaged_dirs, validate_addon_dir, SpaceCheck,
};

fn addon(slug: &str, dirs: &[&str]) -> InstalledAddon {
    InstalledAddon {
        name: format!("{slug} name"),
        slug: slug.to_string(),
        version: "1.0".to_string(),
        source: "curseforge".to_string(),
        addon_id: format!("id-{slug}"),
        directories: dirs.iter().map(|d| d.to_string()).collect(),
        is_dependency: false,
        required_by: vec![],
        installed_file_id: None,
        display_name: None,
        channel: None,
        ignored: None,
        game_versions: None,
        released_at: None,
        auto_update: None,
        external_release_id: None,
    }
}

fn strings(v: &[&str]) -> Vec<String> {
    v.iter().map(|s| s.to_string()).collect()
}

// --- registry laws on concrete values ---

#[test]
fn registry_add_then_get_and_remove() {
    let mut reg = Registry::default();
    reg.add(addon("a", &["A"]));
    reg.add(addon("b", &["B"]));
    assert_eq!(reg.get("a").unwrap().directories, vec!["A"]);
    let mut again = addon("a", &["A2"]);
    again.version = "2.0".to_string();
    reg.add(again);
    assert_eq!(reg.list_all().len(), 2);
    assert_eq!(reg.get("a").unwrap().version, "2.0");
    assert_eq!(reg.remove("a").unwrap().version, "2.0");
    assert!(reg.get("a").is_none());
    assert!(reg.remove("a").is_none());
    assert!(reg.get("b").is_some());
}

#[test]
fn registry_finds_owner_and_orphans() {
    let mut reg = Registry::default();
    reg.add(addon("a", &["A", "A_Options"]));
    let mut lib = addon("lib", &["Lib"]);
    lib.is_dependency = true;
    reg.add(lib);
    assert_eq!(reg.find_by_directory("A_Options").unwrap().slug, "a");
    assert!(reg.find_by_directory("Nope").is_none());
    assert_eq!(reg.find_orphaned_dependencies(), vec!["lib".to_string()]);
    assert!(reg.has_addon_id(&"id-lib".to_string()));
    assert!(!reg.has_addon_id(&"id-x".to_string()));
}

#[test]
fn registry_drops_references_to_removed_addon() {
    let mut reg = Registry::default();
    let mut lib = addon("lib", &[]);
    lib.is_dependency = true;
    lib.required_by = strings(&["a", "b", "a"]);
    reg.add(lib);
    reg.update_dependency_references("a");
    assert_eq!(reg.get("lib").unwrap().required_by, vec!["b".to_string()]);
}

// --- config ---

#[test]
fn settings_are_applied_or_refused() {
    let mut c = Config::default();
    assert_eq!(apply_setting(&mut c, "channel", "beta").unwrap(), "Set default release channel to: beta");
    assert_eq!(c.default_release_channel, Some(ReleaseChannel::Beta));
    assert_eq!(c.resolve_channel(None), ReleaseChannel::Beta);
    assert_eq!(c.resolve_channel(Some(ReleaseChannel::Alpha)), ReleaseChannel::Alpha);
    assert_eq!(apply_setting(&mut c, "color", "false").unwrap(), "Set color output to: false");
    assert!(!c.color);
    let e = apply_setting(&mut c, "color", "maybe").unwrap_err();
    assert_eq!(e.message(), "Configuration error: Invalid boolean value: 'maybe'. Use 'true' or 'false'");
    let e = apply_setting(&mut c, "channel", "nightly").unwrap_err();
    assert_eq!(
        e.message(),
        "Configuration error: unknown release channel 'nightly' (expected: stable, beta, alpha)"
    );
    let e = apply_setting(&mut c, "colour", "true").unwrap_err();
    assert!(e.message().starts_with("Configuration error: Unknown configuration key: 'colour'."));
    assert_eq!(apply_setting(&mut c, "addon_dir", "/wow").unwrap(), "Set addon directory to: /wow");
    assert_eq!(c.addon_dir.as_deref(), Some("/wow"));
    assert_eq!(apply_setting(&mut c, "wago_access_key", "k").unwrap(), "Set Wago access key");
    assert_eq!(c.wago_access_key.as_deref(), Some("k"));
}

#[test]
fn api_key_precedence() {
    let mut c = Config::default();
    assert!(matches!(c.get_api_key(None, None), Err(WowctlError::MissingApiKey(_))));
    assert_eq!(c.get_api_key(None, Some("built-in".to_string())).unwrap(), "built-in");
    c.curseforge_api_key = Some("file".to_string());
    assert_eq!(c.get_api_key(None, Some("built-in".to_string())).unwrap(), "file");
    assert_eq!(c.get_api_key(Some("env".to_string()), None).unwrap(), "env");
}

#[test]
fn wago_key_blank_is_unset() {
    assert_eq!(resolve_wago_key(Some("  ".to_string()), Some("cfg".to_string())), Some("cfg".to_string()));
    assert_eq!(resolve_wago_key(Some("env".to_string()), Some("cfg".to_string())), Some("env".to_string()));
    assert_eq!(resolve_wago_key(None, Some("".to_string())), None);
    let mut c = Config::default();
    c.wago_access_key = Some("\t".to_string());
    assert_eq!(c.get_wago_access_key(None), None);
}

#[test]
fn addon_dir_precedence_and_detection() {
    let mut c = Config::default();
    let detected = Config::detect_addon_dir(Some("/games/wow/AddOns"), true);
    assert_eq!(detected.clone().unwrap(), "/games/wow/AddOns");
    assert_eq!(c.get_addon_dir(None, detected).unwrap(), "/games/wow/AddOns");
    assert!(matches!(Config::detect_addon_dir(Some("/x"), false), Err(WowctlError::InvalidAddonDir(_))));
    c.addon_dir = Some("/cfg".to_string());
    assert_eq!(c.get_addon_dir(None, Config::detect_addon_dir(None, false)).unwrap(), "/cfg");
    assert_eq!(c.get_addon_dir(Some("/env".to_string()), Config::detect_addon_dir(None, false)).unwrap(), "/env");
}

#[test]
fn api_keys_are_masked() {
    assert_eq!(mask_api_key("abcdefghijkl"), "abcd...ijkl");
    assert_eq!(mask_api_key("short"), "*****");
    assert_eq!(mask_api_key("12345678"), "********");
}

// --- colors ---

#[test]
fn paint_wraps_only_when_enabled() {
    assert_eq!("x".color_cyan(true), "\x1b[36mx\x1b[39m");
    assert_eq!("x".color_green(true), "\x1b[32mx\x1b[39m");
    assert_eq!("x".color_red(true), "\x1b[31mx\x1b[39m");
    assert_eq!("x".color_yellow(true), "\x1b[33mx\x1b[39m");
    assert_eq!("x".color_blue(true), "\x1b[34mx\x1b[39m");
    assert_eq!("x".color_bold(true), "\x1b[1mx\x1b[0m");
    assert_eq!("x".color_dimmed(true), "\x1b[2mx\x1b[0m");
    assert_eq!("x".color_red(false), "x");
    assert_eq!(paint("plain", Paint::Bold, false), "plain");
}

// --- utils ---

#[test]
fn slugs_come_from_curseforge_urls() {
    assert_eq!(extract_slug_from_url("https://www.curseforge.com/wow/addons/details").unwrap(), "details");
    assert_eq!(extract_slug_from_url("https://www.curseforge.com/wow/addons/details/").unwrap(), "details");
    assert_eq!(extract_slug_from_url("https://www.curseforge.com/wow/addons/details?page=2").unwrap(), "details");
    assert_eq!(
        extract_slug_from_url("https://www.curseforge.com/wow/addons/deadly-boss-mods/files#top").unwrap(),
        "deadly-boss-mods"
    );
    let e = extract_slug_from_url("https://example.com/x").unwrap_err();
    assert_eq!(e.message(), "Addon source error: Invalid CurseForge URL: https://example.com/x");
}

#[test]
fn addon_dir_must_be_a_directory() {
    assert!(validate_addon_dir("/wow", true, true).is_ok());
    assert_eq!(
        validate_addon_dir("/wow", false, false).unwrap_err().message(),
        "Invalid addon directory: Directory does not exist: /wow"
    );
    assert_eq!(
        validate_addon_dir("/wow", true, false).unwrap_err().message(),
        "Invalid addon directory: Path is not a directory: /wow"
    );
}

#[test]
fn color_choice() {
    assert!(should_use_color(true, false, false));
    assert!(!should_use_color(true, true, false));
    assert!(!should_use_color(true, false, true));
    assert!(!should_use_color(false, false, false));
}

#[test]
fn directory_conflicts_name_the_owner() {
    let mut reg = Registry::default();
    reg.add(addon("a", &["A"]));
    assert!(check_directory_conflicts(&reg, &strings(&["B"]), None).is_ok());
    assert!(check_directory_conflicts(&reg, &strings(&["A"]), Some("a")).is_ok());
    let e = check_directory_conflicts(&reg, &strings(&["B", "A"]), Some("b")).unwrap_err();
    assert_eq!(e.message(), "Addon source error: Directory 'A' is already owned by addon 'a name'");
    reg.add(addon("b", &["B"]));
    let first = check_directory_conflicts(&reg, &strings(&["Free", "B", "A"]), None).unwrap_err();
    assert_eq!(first.message(), "Addon source error: Directory 'B' is already owned by addon 'b name'");
}

#[test]
fn dirs_group_by_project_id() {
    let dirs = strings(&["WA", "Det", "WAOpt", "Loose"]);
    let ids = vec![Some("1".to_string()), Some("2".to_string()), Some("1".to_string()), None];
    let (groups, no_id) = group_dirs_by_project_id(&dirs, &ids);
    assert_eq!(groups, vec![("1".to_string(), strings(&["WA", "WAOpt"])), ("2".to_string(), strings(&["Det"]))]);
    assert_eq!(no_id, vec!["Loose"]);
}

#[test]
fn disk_space_verdicts() {
    let mib = 1024 * 1024;
    assert_eq!(disk_space_verdict(1000 * mib, 10 * mib).unwrap(), SpaceCheck::Ample);
    assert_eq!(
        disk_space_verdict(150 * mib, 10 * mib).unwrap(),
        SpaceCheck::Low { available_mb: 150, needed_mb: 110 }
    );
    let e = disk_space_verdict(50 * mib, 10 * mib).unwrap_err();
    assert_eq!(e.message(), "IO error: Insufficient disk space: 50 MB available, 110 MB required");
}

#[test]
fn prefixes_cut_between_characters() {
    assert_eq!(char_safe_prefix("2025-01-01T00", 10), "2025-01-01");
    assert_eq!(char_safe_prefix("é€x", 2), "é€");
    assert_eq!(char_safe_prefix("ab", 10), "ab");
}

#[test]
fn unmanaged_dirs_are_sorted_and_unique() {
    let mut reg = Registry::default();
    reg.add(addon("a", &["A"]));
    let r = unmanaged_dirs(&strings(&["Zed", "A", "Bee", "Zed"]), &reg);
    assert_eq!(r, vec!["Bee", "Zed"]);
}

// --- fingerprint and toc ---

#[test]
fn wow_paths_use_forward_slashes() {
    assert_eq!(normalize_wow_path("Libs\\LibStub\\LibStub.lua"), "Libs/LibStub/LibStub.lua");
    assert_eq!(normalize_wow_path("  Core.lua  "), "  Core.lua  ");
}

#[test]
fn toc_lists_its_files() {
    let toc = "## Title: A\n# comment\n\nInit.lua\nLibs\\Stub.lua\r\n";
    assert_eq!(toc_file_references(toc), vec!["Init.lua", "Libs/Stub.lua"]);
}

#[test]
fn toc_fields_are_read() {
    let m = parse_toc_contents("## Title: |cFF00FF00Green|r\n## Version: 1.2\n## X-Curse-Project-ID: 55\n");
    assert_eq!(m.title.as_deref(), Some("Green"));
    assert_eq!(m.version.as_deref(), Some("1.2"));
    assert_eq!(m.curse_project_id.as_deref(), Some("55"));
    let _ = GameFlavor::Retail.toc_suffix();
    assert_eq!(GameFlavor::Classic.toc_suffix(), "_Classic");
}

// --- curseforge decisions ---

fn file(id: u32, date: &str, release_type: u32) -> CfFile {
    CfFile {
        id,
        display_name: format!("Addon 1.{id}"),
        file_name: format!("Addon-{id}.zip"),
        download_url: None,
        file_length: 100,
        game_versions: strings(&["11.0.2"]),
        dependencies: vec![(10, 3), (11, 1), (12, 2)],
        file_date: date.to_string(),
        release_type,
        file_fingerprint: 0x1_0000_0005,
        modules: strings(&["Addon"]),
    }
}

#[test]
fn newest_file_of_the_channel_is_chosen() {
    let files = vec![file(1, "2025-01-01", 1), file(2, "2025-03-01", 2), file(3, "2025-02-01", 1)];
    assert_eq!(select_latest_file(&files, ReleaseChannel::Stable), Some(2));
    assert_eq!(select_latest_file(&files, ReleaseChannel::Beta), Some(1));
    assert_eq!(select_latest_file(&[], ReleaseChannel::Beta), None);
}

#[test]
fn batch_file_id_is_newest_retail_of_channel() {
    let ix = vec![
        FileIndex { file_id: 10, game_version_type_id: Some(517), release_type: 1 },
        FileIndex { file_id: 30, game_version_type_id: Some(67408), release_type: 1 },
        FileIndex { file_id: 20, game_version_type_id: Some(517), release_type: 3 },
    ];
    assert_eq!(select_batch_file_id(&ix, ReleaseChannel::Stable), Some(10));
    assert_eq!(select_batch_file_id(&ix, ReleaseChannel::Alpha), Some(20));
    assert_eq!(select_batch_file_id(&ix[1..], ReleaseChannel::Stable), None);
}

#[test]
fn version_info_reads_the_file() {
    let v = version_info_from_file(&file(7, "2025-05-05", 1), "https://d/7".to_string());
    assert_eq!(v.file_id, Some(7));
    assert_eq!(v.version, "1.7");
    assert_eq!(v.download_url, "https://d/7");
    assert_eq!(v.dependencies.len(), 3);
    assert_eq!(v.dependencies[0].addon_id, "10");
    assert!(matches!(v.dependencies[0].dependency_type, DependencyType::Required));
    assert!(matches!(v.dependencies[1].dependency_type, DependencyType::Embedded));
    assert!(matches!(v.dependencies[2].dependency_type, DependencyType::Optional));
    assert!(matches!(dependency_type_for(99), DependencyType::Optional));
}

#[test]
fn download_url_falls_back_to_cdn() {
    assert_eq!(fallback_download_url(Some("https://x".to_string()), 1234, "a.zip"), "https://x");
    assert_eq!(fallback_download_url(Some(String::new()), 1234, "a.zip"), "https://edge.forgecdn.net/files/1/234/a.zip");
    assert_eq!(fallback_download_url(None, 5877543, "b.zip"), "https://edge.forgecdn.net/files/5877/543/b.zip");
}

#[test]
fn fingerprints_keep_low_bits() {
    let m = fingerprint_match(1, 2, 0x1_0000_0005);
    assert_eq!((m.mod_id, m.file_id, m.file_fingerprint), (1, 2, 5));
}

#[test]
fn retry_after_dates_become_waits() {
    assert_eq!(retry_delay_until(100, 99_000_000_000), Some(1000));
    assert_eq!(retry_delay_until(100, 101_000_000_000), None);
    // A date long past gives no wait; a date far ahead gives a long one.
    assert_eq!(parse_retry_after_value("Wed, 21 Oct 2015 07:28:00 GMT"), None);
    let far = parse_retry_after_value("Fri, 01 Jan 2100 00:00:00 GMT").expect("a future date");
    assert!(far > 1_000_000_000);
}

// --- wago ---

#[test]
fn hidden_addons_are_not_found() {
    let detail = WagoAddonDetail {
        id: "x".to_string(),
        slug: "secret".to_string(),
        display_name: "Secret".to_string(),
        summary: None,
        download_count: None,
        is_hidden_from_external: true,
        recent_releases: WagoReleases { stable: None, beta: None, alpha: None },
    };
    assert_eq!(
        check_visible(&detail).unwrap_err().message(),
        "Addon not found: Addon 'secret' is hidden from external clients by its author"
    );
}

// --- update decisions ---

fn check(id: &str, file_id: Option<u32>, version: &str) -> BatchVersionCheck {
    BatchVersionCheck {
        addon_id: id.to_string(),
        file_id,
        external_release_id: None,
        version: version.to_string(),
        display_name: version.to_string(),
        released_at: "2025-01-01".to_string(),
    }
}

#[test]
fn channel_precedence() {
    let mut a = addon("a", &[]);
    assert_eq!(resolve_addon_channel(&a, None, ReleaseChannel::Stable), ReleaseChannel::Stable);
    a.channel = Some(ReleaseChannel::Beta);
    assert_eq!(resolve_addon_channel(&a, None, ReleaseChannel::Stable), ReleaseChannel::Beta);
    assert_eq!(resolve_addon_channel(&a, Some(ReleaseChannel::Alpha), ReleaseChannel::Stable), ReleaseChannel::Alpha);
}

#[test]
fn updates_are_reported_with_their_versions() {
    let mut a = addon("a", &[]);
    a.installed_file_id = Some(1);
    let u = update_for(&a, &check("id-a", Some(2), "1.1"), ReleaseChannel::Stable, SourceKind::CurseForge).unwrap();
    assert_eq!((u.slug.as_str(), u.current_version.as_str(), u.new_version.as_str()), ("a", "1.0", "1.1"));
    assert!(update_for(&a, &check("id-a", Some(1), "1.1"), ReleaseChannel::Stable, SourceKind::CurseForge).is_none());
    let checks = vec![check("x", None, "1"), check("id-a", None, "2")];
    assert_eq!(find_check(&checks, &"id-a".to_string()), Some(1));
    assert_eq!(find_check(&checks, &"y".to_string()), None);
    let twice = vec![check("id-a", None, "1"), check("x", None, "1"), check("id-a", None, "2")];
    assert_eq!(find_check(&twice, &"id-a".to_string()), Some(2));
}

#[test]
fn update_selection() {
    let mut reg = Registry::default();
    let mut ign = addon("ign", &[]);
    ign.ignored = Some(true);
    reg.add(ign);
    let mut auto = addon("auto", &[]);
    auto.auto_update = Some(true);
    reg.add(auto);
    reg.add(addon("plain", &[]));
    assert!(matches!(select_addons_to_check(&reg, Some("nope"), false), CheckSelection::NotInstalled));
    assert!(matches!(select_addons_to_check(&reg, Some("ign"), false), CheckSelection::Ignored));
    match select_addons_to_check(&reg, None, false) {
        CheckSelection::Check(v) => {
            let mut slugs: Vec<String> = v.into_iter().map(|a| a.slug).collect();
            slugs.sort();
            assert_eq!(slugs, vec!["auto", "plain"]);
        }
        _ => panic!("expected addons to check"),
    }
    match select_addons_to_check(&reg, None, true) {
        CheckSelection::Check(v) => assert_eq!(v.len(), 1),
        _ => panic!("expected addons to check"),
    }
    let mut none = Registry::default();
    none.add(addon("plain", &[]));
    assert!(matches!(select_addons_to_check(&none, None, true), CheckSelection::NoAutoUpdate));
}

#[test]
fn recorded_release_updates_the_entry() {
    let mut reg = Registry::default();
    reg.add(addon("a", &["A"]));
    let v = version_info_from_file(&file(9, "2025-06-01", 1), "u".to_string());
    assert!(record_release(&mut reg, "a", &v, ReleaseChannel::Beta, Some(strings(&["A", "A2"]))));
    let e = reg.get("a").unwrap();
    assert_eq!(e.version, "1.9");
    assert_eq!(e.installed_file_id, Some(9));
    assert_eq!(e.channel, Some(ReleaseChannel::Beta));
    assert_eq!(e.directories, vec!["A", "A2"]);
    assert!(!record_release(&mut reg, "zzz", &v, ReleaseChannel::Stable, None));
    assert_eq!(update_directories(&strings(&["M"]), &strings(&["X"])), vec!["M"]);
    assert_eq!(update_directories(&vec![], &strings(&["X"])), vec!["X"]);
}

// --- info and list ---

#[test]
fn info_of_missing_addon_fails() {
    let reg = Registry::default();
    assert_eq!(info(&reg, "x").unwrap_err().message(), "Addon not found: Addon 'x' is not installed");
}

#[test]
fn info_starts_with_the_name() {
    let mut reg = Registry::default();
    reg.add(addon("a", &["A"]));
    let lines = info(&reg, "a").unwrap();
    assert!(matches!(&lines[0], InfoLine::Title(t) if t == "a name"));
}

#[test]
fn list_markers_and_filters() {
    let mut a = addon("a", &[]);
    assert_eq!(addon_markers(&a), "");
    a.is_dependency = true;
    a.ignored = Some(true);
    a.auto_update = Some(true);
    assert_eq!(addon_markers(&a), " (dependency) (ignored) (auto-update)");
    assert!(ListFilter::All.shows_managed() && ListFilter::All.shows_unmanaged());
    assert!(!ListFilter::Managed.shows_unmanaged());
    assert!(!ListFilter::Unmanaged.shows_managed());
}

// --- smaller decisions of the commands ---

#[test]
fn no_compatible_file_is_an_error() {
    let files = vec![file(1, "2025-01-01", 3)];
    let e = wowctl::sources::curseforge::latest_file_or_error(&files, ReleaseChannel::Beta).unwrap_err();
    assert_eq!(e.message(), "Addon source error: No compatible beta version found for WoW Retail");
    assert_eq!(wowctl::sources::curseforge::latest_file_or_error(&files, ReleaseChannel::Alpha).unwrap(), 0);
}

#[test]
fn only_required_dependencies_are_fetched() {
    let deps = vec![
        DependencyInfo { addon_id: "1".to_string(), dependency_type: DependencyType::Required },
        DependencyInfo { addon_id: "2".to_string(), dependency_type: DependencyType::Optional },
        DependencyInfo { addon_id: "3".to_string(), dependency_type: DependencyType::Embedded },
        DependencyInfo { addon_id: "4".to_string(), dependency_type: DependencyType::Required },
    ];
    assert_eq!(wowctl::sources::curseforge::required_dependency_ids(&deps), vec!["1", "4"]);
}

#[test]
fn slug_search_needs_an_exact_match() {
    let info = |slug: &str| AddonInfo {
        id: "1".to_string(),
        name: slug.to_string(),
        slug: slug.to_string(),
        description: None,
        download_count: None,
        source: "curseforge".to_string(),
    };
    let found = vec![info("dbm-core-extra"), info("dbm-core")];
    assert_eq!(wowctl::sources::curseforge::addon_with_slug(&found, "dbm-core").unwrap(), 1);
    let e = wowctl::sources::curseforge::addon_with_slug(&found, "dbm").unwrap_err();
    assert_eq!(e.message(), "Addon not found: Addon 'dbm' not found");
}

#[test]
fn one_source_per_slug() {
    let mut reg = Registry::default();
    reg.add(addon("classcodex", &[]));
    assert!(check_source_collision(&reg, "other", SourceKind::Wago).unwrap().is_none());
    assert_eq!(check_source_collision(&reg, "classcodex", SourceKind::CurseForge).unwrap().unwrap().slug, "classcodex");
    let e = check_source_collision(&reg, "classcodex", SourceKind::Wago).unwrap_err();
    assert!(e.message().contains("already installed from curseforge"));
    assert!(e.message().contains("wowctl remove classcodex"));
}

#[test]
fn wago_needs_a_key() {
    assert_eq!(wowctl::config::require_wago_key(Some("k".to_string())).unwrap(), "k");
    let e = wowctl::config::require_wago_key(None).unwrap_err();
    assert!(e.message().contains("addons.wago.io/patreon"));
    assert!(e.message().contains("WOWCTL_WAGO_ACCESS_KEY"));
}

#[test]
fn backups_and_addon_dir() {
    assert_eq!(wowctl::utils::backup_dir_name("MyAddon"), "MyAddon-wowctl-bak");
    assert!(wowctl::utils::require_addon_dir("/wow", true).is_ok());
    assert_eq!(
        wowctl::utils::require_addon_dir("/wow", false).unwrap_err().message(),
        "Invalid addon directory: Addon directory does not exist: /wow"
    );
}

#[test]
fn dates_cut_inside_a_character_are_not_dates() {
    assert_eq!(parse_date_prefix("2025-02-1€T00:00:00Z"), None);
    assert_eq!(parse_date_prefix("2025-02-15T10:30:00Z"), Some((2025, 2, 15)));
    assert_eq!(format_release_date("1234-06-1€T00"), "1234-06-1€T00");
    assert_eq!(format_release_date("2025-02-15T10:30:00Z"), "2025-02-15");
    assert!(now_valid((2025, 1, 1)));
    assert!(!now_valid((2025, 13, 1)));
}

#[test]
fn batch_check_reads_the_chosen_file() {
    let ix = vec![
        FileIndex { file_id: 1, game_version_type_id: Some(517), release_type: 1 },
        FileIndex { file_id: 2, game_version_type_id: Some(517), release_type: 2 },
    ];
    let files = Some(vec![file(1, "2025-01-01", 1), file(2, "2025-03-01", 2)]);
    let stable = batch_check_for_mod(4242, &files, &ix, ReleaseChannel::Stable).unwrap();
    assert_eq!(stable.addon_id, "4242");
    assert_eq!(stable.file_id, Some(1));
    assert_eq!(stable.version, "1.1");
    assert_eq!(stable.display_name, "Addon 1.1");
    assert_eq!(stable.released_at, "2025-01-01");
    assert_eq!(stable.external_release_id, None);
    let beta = batch_check_for_mod(4242, &files, &ix, ReleaseChannel::Beta).unwrap();
    assert_eq!((beta.file_id, beta.version.as_str()), (Some(2), "1.2"));
    // The chosen file must be among the latest files.
    assert!(batch_check_for_mod(4242, &Some(vec![file(1, "2025-01-01", 1)]), &ix, ReleaseChannel::Beta).is_none());
    assert!(batch_check_for_mod(4242, &None, &ix, ReleaseChannel::Stable).is_none());
    assert!(batch_check_for_mod(4242, &files, &[], ReleaseChannel::Stable).is_none());
}

#[test]
fn version_strings_are_reextracted() {
    let mut registry = Registry::new();
    let mut stale = addon("plumber", &["Plumber"]);
    stale.version = "Plumber 1.8.8 b".to_string();
    stale.display_name = Some("Plumber 1.8.8 b".to_string());
    let mut fine = addon("angleur", &["Angleur"]);
    fine.version = "2.7.85".to_string();
    fine.display_name = Some("Angleur 2.7.85".to_string());
    let plain = addon("plain", &["Plain"]);
    registry.add(stale.clone());
    registry.add(fine.clone());
    registry.add(plain.clone());
    let mut gone = addon("gone", &["Gone"]);
    gone.display_name = Some("Gone 3.0".to_string());

    let fixed = fix_version_strings(&mut registry, &[stale, fine, plain, gone]);
    assert_eq!(fixed, 1);
    assert_eq!(registry.get("plumber").unwrap().version, "1.8.8 b");
    assert_eq!(registry.get("angleur").unwrap().version, "2.7.85");
    assert_eq!(registry.get("plain").unwrap().version, "1.0");
    assert!(registry.get("gone").is_none());
}

#[test]
fn channel_release_types() {
    assert_eq!(ReleaseChannel::Stable.as_cf_release_type(), 1);
    assert_eq!(ReleaseChannel::Beta.as_cf_release_type(), 2);
    assert_eq!(ReleaseChannel::Alpha.as_cf_release_type(), 3);
    assert!(ReleaseChannel::Beta.at_least(ReleaseChannel::Stable));
    assert!(!ReleaseChannel::Stable.at_least(ReleaseChannel::Alpha));
}

#[test]
fn breaker_decisions_by_state() {
    assert_eq!(decide_allow(BreakerState::Closed, false), (BreakerState::Closed, true));
    assert_eq!(decide_allow(BreakerState::Open, false), (BreakerState::Open, false));
    assert_eq!(decide_allow(BreakerState::Open, true), (BreakerState::HalfOpen, true));
    assert_eq!(decide_allow(BreakerState::HalfOpen, false), (BreakerState::HalfOpen, false));
    assert_eq!(decide_allow(BreakerState::HalfOpen, true), (BreakerState::HalfOpen, false));
}

#[test]
fn days_since_epoch_to_dates() {
    assert_eq!(civil_from_days(0), (1970, 1, 1));
    assert_eq!(civil_from_days(59), (1970, 3, 1));
    assert_eq!(civil_from_days(789), (1972, 2, 29));
    assert_eq!(civil_from_days(19723), (2024, 1, 1));
    assert_eq!(civil_from_days(11016), (2000, 2, 29));
}

#[test]
fn slug_follows_the_marker() {
    let url = "https://www.curseforge.com/wow/addons/deadly-boss-mods/files?x=1";
    assert_eq!(slug_after(url, "/wow/addons/").as_deref(), Some("deadly-boss-mods"));
    assert_eq!(slug_after("https://addons.wago.io/addons/classcodex#top", "/addons/").as_deref(), Some("classcodex"));
    assert_eq!(slug_after("https://www.curseforge.com/wow/addons/", "/wow/addons/"), None);
    assert_eq!(slug_after("https://example.com/", "/wow/addons/"), None);
}

#[test]
fn wago_detail_as_addon_info() {
    let d = WagoAddonDetail {
        id: "abc".to_string(),
        slug: "classcodex".to_string(),
        display_name: "Class Codex".to_string(),
        summary: None,
        download_count: Some(12),
        is_hidden_from_external: false,
        recent_releases: WagoReleases { stable: None, beta: None, alpha: None },
    };
    let info = detail_to_addon_info(&d);
    assert_eq!((info.id.as_str(), info.slug.as_str(), info.name.as_str()), ("abc", "classcodex", "Class Codex"));
    assert_eq!((info.description, info.download_count, info.source.as_str()), (None, Some(12), "wago"));
}

#[test]
fn toc_file_names() {
    assert!(is_toc_file_name("MyAddon.toc"));
    assert!(is_toc_file_name("MyAddon_Mainline.TOC"));
    assert!(!is_toc_file_name("MyAddon.lua"));
    assert!(!is_toc_file_name(".toc"));
    assert!(!is_toc_file_name("toc"));
}

#[test]
fn clock_readings_to_dates() {
    let day: u128 = 86_400_000_000_000;
    assert_eq!(date_from_unix_nanos(None), None);
    assert_eq!(date_from_unix_nanos(Some(0)), Some((1970, 1, 1)));
    assert_eq!(date_from_unix_nanos(Some(19723 * day + day - 1)), Some((2024, 1, 1)));
    assert_eq!(date_from_unix_nanos(Some(19724 * day)), Some((2024, 1, 2)));
    assert_eq!(date_from_unix_nanos(Some((i32::MAX as u128 + 1) * day)), None);
}

#[test]
fn channel_and_source_names_parse() {
    assert_eq!(ReleaseChannel::from_str("Beta").unwrap(), ReleaseChannel::Beta);
    assert_eq!(ReleaseChannel::from_str("release").unwrap(), ReleaseChannel::Stable);
    assert!(ReleaseChannel::from_str("nightly").is_err());
    assert_eq!(SourceKind::from_str("WAGO").unwrap(), SourceKind::Wago);
    assert!(SourceKind::from_str("github").is_err());
}
