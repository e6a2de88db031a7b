use wowctl::addon::InstalledAddon;
use wowctl::commands::remove::remove_addon_from_registry;
use wowctl::registry::Registry;

fn make_addon(slug: &str, dirs: Vec<&str>) -> InstalledAddon {
    InstalledAddon {
        name: slug.to_string(),
        slug: slug.to_string(),
        version: "1.0.0".to_string(),
        source: "curseforge".to_string(),
        addon_id: "1".to_string(),
        directories: dirs.into_iter().map(|s| s.to_string()).collect(),
        is_dependency: false,
        required_by: vec![],
        installed_file_id: None,
        display_name: None,
        channel: None,
        ignored: None,
        game_versions: None,
        released_at: None,
        auto_update: None,
        external_release_id: None,
    }
}

#[test]
fn remove_addon_updates_registry() {
    let mut registry = Registry::default();
    registry.add(make_addon("my-addon", vec![]));

    remove_addon_from_registry(&mut registry, "my-addon").unwrap();

    assert!(registry.get("my-addon").is_none());
}

#[test]
fn remove_addon_returns_orphaned_deps() {
    let mut registry = Registry::default();

    let mut parent = make_addon("parent-addon", vec![]);
    parent.is_dependency = false;

    let mut dep = make_addon("dep-lib", vec![]);
    dep.is_dependency = true;
    dep.required_by = vec!["parent-addon".to_string()];

    registry.add(parent);
    registry.add(dep);

    let orphans = remove_addon_from_registry(&mut registry, "parent-addon").unwrap();

    assert_eq!(orphans, vec!["dep-lib".to_string()]);
}

#[test]
fn remove_addon_skips_nonexistent_dirs() {
    let mut registry = Registry::default();
    registry.add(make_addon("ghost-addon", vec!["DoesNotExist", "AlsoMissing"]));

    let result = remove_addon_from_registry(&mut registry, "ghost-addon");
    assert!(result.is_ok());
    assert!(registry.get("ghost-addon").is_none());
}

#[test]
fn remove_unknown_addon_is_not_found() {
    let mut registry = Registry::default();
    registry.add(make_addon("kept", vec![]));
    let err = remove_addon_from_registry(&mut registry, "missing").unwrap_err();
    assert_eq!(err.message(), "Addon not found: Addon 'missing' is not installed");
    assert!(registry.get("kept").is_some());
}

#[test]
fn removing_keeps_dependency_still_required_elsewhere() {
    let mut registry = Registry::default();
    registry.add(make_addon("a", vec![]));
    registry.add(make_addon("b", vec![]));
    let mut dep = make_addon("lib", vec![]);
    dep.is_dependency = true;
    dep.required_by = vec!["a".to_string(), "b".to_string()];
    registry.add(dep);

    let orphans = remove_addon_from_registry(&mut registry, "a").unwrap();
    assert!(orphans.is_empty());
    assert_eq!(registry.get("lib").unwrap().required_by, vec!["b".to_string()]);
}
