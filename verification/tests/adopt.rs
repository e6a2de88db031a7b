use wowctl::addon::{AddonInfo, VersionInfo};
use wowctl::commands::adopt::{
    adopt_directories, adopted_addon, check_adopt_args, check_adopt_target, claim_module_dirs, first_per_term,
    merge_proposals, plan_adoptions, search_candidates, selection_labels, AdoptProposal,
};
use wowctl::error::WowctlError;
use wowctl::registry::Registry;
use wowctl::addon::InstalledAddon;

fn info(id: &str, name: &str, slug: &str) -> AddonInfo {
    AddonInfo {
        id: id.to_string(),
        name: name.to_string(),
        slug: slug.to_string(),
        description: None,
        download_count: None,
        source: "curseforge".to_string(),
    }
}

fn version(v: &str, modules: &[&str]) -> VersionInfo {
    VersionInfo {
        file_id: Some(77),
        external_release_id: None,
        version: v.to_string(),
        display_name: format!("Addon {v}"),
        download_url: "https://example.com/a.zip".to_string(),
        file_name: "a.zip".to_string(),
        file_size: 10,
        game_versions: vec!["11.0.2".to_string()],
        released_at: "2025-01-01T00:00:00Z".to_string(),
        dependencies: vec![],
        modules: modules.iter().map(|m| m.to_string()).collect(),
    }
}

fn strings(v: &[&str]) -> Vec<String> {
    v.iter().map(|s| s.to_string()).collect()
}

fn installed(slug: &str, dirs: &[&str]) -> InstalledAddon {
    InstalledAddon {
        name: slug.to_string(),
        slug: slug.to_string(),
        version: "1.0".to_string(),
        source: "curseforge".to_string(),
        addon_id: "1".to_string(),
        directories: strings(dirs),
        is_dependency: false,
        required_by: vec![],
        installed_file_id: None,
        display_name: None,
        channel: None,
        ignored: None,
        game_versions: None,
        released_at: None,
        auto_update: None,
        external_release_id: None,
    }
}

#[test]
fn adopt_needs_folder_or_all() {
    let e = check_adopt_args(false, false, false).unwrap_err();
    assert_eq!(
        e.message(),
        "Configuration error: Specify an addon folder name, or use --all to adopt all unmanaged addons"
    );
    let e = check_adopt_args(false, true, true).unwrap_err();
    assert_eq!(e.message(), "Configuration error: --slug cannot be used with --all");
    assert!(check_adopt_args(true, false, true).is_ok());
    assert!(check_adopt_args(false, true, false).is_ok());
}

#[test]
fn adopt_target_must_exist_and_be_unmanaged() {
    let mut reg = Registry::default();
    reg.add(installed("details", &["Details", "Details_DataStorage"]));
    let e = check_adopt_target("Nope", "/wow/AddOns", false, &reg).unwrap_err();
    assert!(matches!(&e, WowctlError::InvalidAddonDir(m) if m == "Folder 'Nope' does not exist in /wow/AddOns"));
    let e = check_adopt_target("Details_DataStorage", "/wow/AddOns", true, &reg).unwrap_err();
    assert!(matches!(&e, WowctlError::Config(m) if m == "'Details_DataStorage' is already managed by wowctl"));
    assert!(check_adopt_target("WeakAuras", "/wow/AddOns", true, &reg).is_ok());
}

#[test]
fn adopting_a_folder_claims_siblings_and_modules() {
    let groups = vec![
        ("100".to_string(), strings(&["Other"])),
        ("42".to_string(), strings(&["WeakAuras", "WeakAurasOptions"])),
    ];
    let unmanaged = strings(&["WeakAuras", "WeakAurasOptions", "WeakAurasTemplates", "Other"]);
    let modules = strings(&["WeakAuras", "WeakAurasTemplates", "WeakAurasArchive"]);
    let dirs = adopt_directories("WeakAuras", &groups, "42", &modules, &unmanaged);
    assert_eq!(dirs, vec!["WeakAuras", "WeakAurasOptions", "WeakAurasTemplates"]);
    let alone = adopt_directories("Solo", &groups, "7", &[], &unmanaged);
    assert_eq!(alone, vec!["Solo"]);
}

#[test]
fn proposal_without_release_has_unknown_version() {
    let p = AdoptProposal::new(info("1", "A", "a"), strings(&["A"]), None);
    assert_eq!(p.version, "unknown");
    assert!(p.file_id.is_none() && p.display_name.is_none() && p.modules.is_empty());
    let q = AdoptProposal::new(info("1", "A", "a"), strings(&["A"]), Some(version("2.0", &["A", "A_Opt"])));
    assert_eq!(q.version, "2.0");
    assert_eq!(q.file_id, Some(77));
    assert_eq!(q.display_name.as_deref(), Some("Addon 2.0"));
    assert_eq!(q.modules, vec!["A", "A_Opt"]);
}

#[test]
fn adopted_entry_is_top_level() {
    let p = AdoptProposal::new(info("9", "Bags", "bags"), strings(&["Bags"]), Some(version("3.1", &[])));
    let a = adopted_addon(p);
    assert_eq!(a.slug, "bags");
    assert_eq!(a.name, "Bags");
    assert_eq!(a.addon_id, "9");
    assert_eq!(a.version, "3.1");
    assert_eq!(a.installed_file_id, Some(77));
    assert!(!a.is_dependency && a.required_by.is_empty());
    assert!(a.channel.is_none() && a.ignored.is_none() && a.auto_update.is_none());
    assert_eq!(a.game_versions, Some(vec!["11.0.2".to_string()]));
}

#[test]
fn search_skips_covered_directories() {
    let proposals = vec![AdoptProposal::new(info("1", "A", "a"), strings(&["A", "A_Config"]), None)];
    let r = search_candidates(&strings(&["B", "A_Config"]), &strings(&["A", "C"]), &proposals);
    assert_eq!(r, vec!["B", "C"]);
}

#[test]
fn each_search_term_is_searched_once() {
    let terms = strings(&["Bagnon", "Details", "Bagnon", "WeakAuras", "Details"]);
    assert_eq!(first_per_term(&terms), vec![0, 1, 3]);
    assert!(first_per_term(&Vec::new()).is_empty());
}

#[test]
fn proposals_merge_by_id_and_sort_by_name() {
    let proposals = vec![
        AdoptProposal::new(info("2", "Zygor", "zygor"), strings(&["Zygor"]), Some(version("1", &["Zygor"]))),
        AdoptProposal::new(info("1", "Atlas", "atlas"), strings(&["Atlas"]), Some(version("5", &["Atlas"]))),
        AdoptProposal::new(info("2", "Zygor", "zygor"), strings(&["ZygorMaps", "Zygor"]), Some(version("1", &["ZygorMaps"]))),
    ];
    let merged = merge_proposals(proposals);
    assert_eq!(merged.len(), 2);
    assert_eq!(merged[0].addon_info.name, "Atlas");
    assert_eq!(merged[1].addon_info.name, "Zygor");
    assert_eq!(merged[1].directories, vec!["Zygor", "ZygorMaps"]);
    assert_eq!(merged[1].modules, vec!["Zygor", "ZygorMaps"]);
    assert_eq!(merged[1].version, "1");
}

#[test]
fn unresolved_module_dirs_are_claimed() {
    let mut proposals = vec![
        AdoptProposal::new(info("1", "WeakAuras", "weakauras-2"), strings(&["WeakAuras"]),
            Some(version("5", &["WeakAuras", "WeakAurasOptions", "WeakAurasArchive"]))),
        AdoptProposal::new(info("2", "Details", "details"), strings(&["Details"]), Some(version("9", &["Details"]))),
    ];
    let left = claim_module_dirs(&mut proposals, strings(&["WeakAurasOptions", "Random", "WeakAurasArchive"]));
    assert_eq!(left, vec!["Random"]);
    assert_eq!(proposals[0].directories, vec!["WeakAuras", "WeakAurasOptions", "WeakAurasArchive"]);
    assert_eq!(proposals[1].directories, vec!["Details"]);
}

#[test]
fn selection_lists_at_most_ten() {
    let addons: Vec<AddonInfo> = (0..12).map(|i| info(&i.to_string(), &format!("Addon{i}"), &format!("addon-{i}"))).collect();
    let labels = selection_labels(&addons);
    assert_eq!(labels.len(), 10);
    assert_eq!(labels[0], "Addon0 (addon-0)");
    assert_eq!(labels[9], "Addon9 (addon-9)");
    assert_eq!(selection_labels(&addons[..2].to_vec()), vec!["Addon0 (addon-0)", "Addon1 (addon-1)"]);
}

#[test]
fn adoption_plan_merges_then_claims() {
    let proposals = vec![
        AdoptProposal::new(info("2", "WeakAuras", "weakauras-2"), strings(&["WeakAuras"]),
            Some(version("5", &["WeakAuras", "WeakAurasOptions"]))),
        AdoptProposal::new(info("1", "Details", "details"), strings(&["Details"]), Some(version("9", &["Details"]))),
        AdoptProposal::new(info("2", "WeakAuras", "weakauras-2"), strings(&["WeakAurasArchive"]), None),
    ];
    let (plan, left) = plan_adoptions(proposals, strings(&["WeakAurasOptions", "Random"]));
    assert_eq!(plan.len(), 2);
    assert_eq!(plan[0].addon_info.name, "Details");
    assert_eq!(plan[0].directories, vec!["Details"]);
    assert_eq!(plan[1].addon_info.id, "2");
    assert_eq!(plan[1].directories, vec!["WeakAuras", "WeakAurasArchive", "WeakAurasOptions"]);
    assert_eq!(left, vec!["Random"]);
}
