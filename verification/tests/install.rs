use wowctl::addon::{AddonInfo, InstalledAddon, ReleaseChannel, VersionInfo};
use wowctl::commands::install::{channel_label, installed_record, version_display, InstallPlanner};
use wowctl::registry::Registry;

fn info(id: &str, slug: &str) -> AddonInfo {
    AddonInfo {
        id: id.to_string(),
        name: slug.to_uppercase(),
        slug: slug.to_string(),
        description: None,
        download_count: None,
        source: "curseforge".to_string(),
    }
}

fn installed(slug: &str, addon_id: &str) -> InstalledAddon {
    InstalledAddon {
        name: slug.to_string(),
        slug: slug.to_string(),
        version: "1.0".to_string(),
        source: "curseforge".to_string(),
        addon_id: addon_id.to_string(),
        directories: vec![],
        is_dependency: false,
        required_by: vec![],
        installed_file_id: None,
        display_name: None,
        channel: None,
        ignored: None,
        game_versions: None,
        released_at: None,
        auto_update: None,
        external_release_id: None,
    }
}

/// Walks the planner the way `install` does, with the dependencies of each
/// addon (by ID) given up front.
fn plan(root: AddonInfo, deps: &[(&str, Vec<AddonInfo>)], registry: &Registry) -> Vec<(String, bool)> {
    let mut planner = InstallPlanner::new(root);
    while let Some((current, is_dep)) = planner.next_to_resolve(registry) {
        let dep_infos: Vec<AddonInfo> = deps
            .iter()
            .find(|(id, _)| *id == current.id)
            .map(|(_, d)| d.clone())
            .unwrap_or_default();
        let ids: Vec<String> = dep_infos.iter().map(|d| d.id.clone()).collect();
        let wanted = planner.new_dependency_ids(&ids, registry);
        let fetched: Vec<AddonInfo> = dep_infos.into_iter().filter(|d| wanted.contains(&d.id)).collect();
        planner.enqueue(fetched);
        planner.record(current, is_dep);
    }
    planner.into_plan().into_iter().map(|(a, d)| (a.slug, d)).collect()
}

#[test]
fn dependencies_come_before_their_requirers() {
    let registry = Registry::default();
    let deps = vec![
        ("1", vec![info("2", "lib-a"), info("3", "lib-b")]),
        ("2", vec![info("4", "lib-c"), info("3", "lib-b")]),
    ];
    let order = plan(info("1", "root"), &deps, &registry);
    assert_eq!(
        order,
        vec![
            ("lib-c".to_string(), true),
            ("lib-b".to_string(), true),
            ("lib-a".to_string(), true),
            ("root".to_string(), false),
        ]
    );
}

#[test]
fn installed_dependencies_are_not_fetched_again() {
    let mut registry = Registry::default();
    registry.add(installed("lib-a", "2"));
    let deps = vec![("1", vec![info("2", "lib-a"), info("3", "lib-b")])];
    let order = plan(info("1", "root"), &deps, &registry);
    assert_eq!(order, vec![("lib-b".to_string(), true), ("root".to_string(), false)]);
}

#[test]
fn cycles_end() {
    let registry = Registry::default();
    let deps = vec![("1", vec![info("2", "b")]), ("2", vec![info("1", "a")])];
    let order = plan(info("1", "a"), &deps, &registry);
    assert_eq!(order, vec![("b".to_string(), true), ("a".to_string(), false)]);
}

#[test]
fn installed_root_plans_nothing() {
    let mut registry = Registry::default();
    registry.add(installed("root", "1"));
    assert!(plan(info("1", "root"), &[], &registry).is_empty());
}

#[test]
fn versions_get_one_leading_v() {
    assert_eq!(version_display("1.2.3"), "v1.2.3");
    assert_eq!(version_display("v4.0"), "v4.0");
    assert_eq!(version_display(""), "v");
}

#[test]
fn channel_is_shown_unless_stable() {
    assert_eq!(channel_label(ReleaseChannel::Stable), "");
    assert_eq!(channel_label(ReleaseChannel::Beta), " (beta)");
    assert_eq!(channel_label(ReleaseChannel::Alpha), " (alpha)");
}

#[test]
fn dependency_record_names_its_requirer() {
    let v = VersionInfo {
        file_id: Some(5),
        external_release_id: None,
        version: "2.0".to_string(),
        display_name: "Lib 2.0".to_string(),
        download_url: "u".to_string(),
        file_name: "f.zip".to_string(),
        file_size: 1,
        game_versions: vec!["11.0".to_string()],
        released_at: "2025-03-01T00:00:00Z".to_string(),
        dependencies: vec![],
        modules: vec![],
    };
    let r = installed_record(&info("2", "lib"), &v, vec!["Lib".to_string()], true, "root", ReleaseChannel::Beta);
    assert_eq!(r.slug, "lib");
    assert_eq!(r.version, "2.0");
    assert!(r.is_dependency);
    assert_eq!(r.required_by, vec!["root".to_string()]);
    assert_eq!(r.channel, Some(ReleaseChannel::Beta));
    assert_eq!(r.installed_file_id, Some(5));
    assert_eq!(r.display_name.as_deref(), Some("Lib 2.0"));
    let top = installed_record(&info("1", "root"), &v, vec![], false, "root", ReleaseChannel::Stable);
    assert!(top.required_by.is_empty());
    assert!(top.channel.is_none());
}
