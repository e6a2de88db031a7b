use wowctl::addon::InstalledAddon;
use wowctl::commands::flags::{set_addon_flag, AddonFlag};
use wowctl::commands::search::{next_page, search_sources, source_label};
use wowctl::registry::Registry;
use wowctl::sources::SourceKind;

fn installed(slug: &str) -> InstalledAddon {
    InstalledAddon {
        name: slug.to_string(),
        slug: slug.to_string(),
        version: "1.0".to_string(),
        source: "curseforge".to_string(),
        addon_id: "1".to_string(),
        directories: vec![],
        is_dependency: false,
        required_by: vec![],
        installed_file_id: None,
        display_name: None,
        channel: None,
        ignored: None,
        game_versions: None,
        released_at: None,
        auto_update: None,
        external_release_id: None,
    }
}

#[test]
fn ignore_then_unignore() {
    let mut reg = Registry::default();
    reg.add(installed("bags"));
    assert_eq!(set_addon_flag(&mut reg, "bags", AddonFlag::Ignored, true).unwrap(), true);
    assert!(reg.get("bags").unwrap().is_ignored());
    assert_eq!(reg.get("bags").unwrap().ignored, Some(true));
    assert_eq!(set_addon_flag(&mut reg, "bags", AddonFlag::Ignored, true).unwrap(), false);
    assert_eq!(set_addon_flag(&mut reg, "bags", AddonFlag::Ignored, false).unwrap(), true);
    assert_eq!(reg.get("bags").unwrap().ignored, None);
    assert_eq!(set_addon_flag(&mut reg, "bags", AddonFlag::Ignored, false).unwrap(), false);
}

#[test]
fn auto_update_switch_leaves_ignore_alone() {
    let mut reg = Registry::default();
    let mut a = installed("maps");
    a.ignored = Some(true);
    reg.add(a);
    assert!(set_addon_flag(&mut reg, "maps", AddonFlag::AutoUpdate, true).unwrap());
    let a = reg.get("maps").unwrap();
    assert!(a.is_auto_update());
    assert!(a.is_ignored());
}

#[test]
fn switching_a_missing_addon_fails() {
    let mut reg = Registry::default();
    let e = set_addon_flag(&mut reg, "ghost", AddonFlag::AutoUpdate, true).unwrap_err();
    assert_eq!(e.message(), "Addon not found: Addon 'ghost' is not installed");
}

#[test]
fn search_asks_wago_only_with_a_key() {
    assert_eq!(search_sources(false), vec![SourceKind::CurseForge]);
    assert_eq!(search_sources(true), vec![SourceKind::CurseForge, SourceKind::Wago]);
    assert_eq!(source_label(SourceKind::Wago), "Wago");
    assert_eq!(source_label(SourceKind::CurseForge), "CurseForge");
}

#[test]
fn next_page_only_while_pages_remain() {
    assert_eq!(next_page(1, 5), Some(2));
    assert_eq!(next_page(5, 5), None);
    assert_eq!(next_page(1, 1), None);
    assert_eq!(next_page(1, 0), None);
}
