use wowctl::addon::GameFlavor;
use wowctl::toc::{parse_toc_contents, strip_wow_escape_codes, TocMetadata};
use wowctl::utils::{find_dirs_claimed_by_modules, has_toc_file, select_toc_file};

/// The slug that claims `dir`.
fn claim_of<'a>(claimed: &'a [(String, String)], dir: &str) -> &'a str {
    claimed.iter().find(|(d, _)| d == dir).map(|(_, s)| s.as_str()).expect("claimed")
}

/// An addon directory held in memory: its folder and its files.
struct AddonDir {
    folders: Vec<(String, Vec<(String, String)>)>,
}

impl AddonDir {
    fn new() -> AddonDir {
        AddonDir { folders: Vec::new() }
    }

    fn folder(&mut self, folder: &str) -> &mut Vec<(String, String)> {
        if let Some(i) = self.folders.iter().position(|(f, _)| f == folder) {
            return &mut self.folders[i].1;
        }
        self.folders.push((folder.to_string(), Vec::new()));
        let last = self.folders.len() - 1;
        &mut self.folders[last].1
    }

    fn files(&self, folder: &str) -> Option<&Vec<(String, String)>> {
        self.folders.iter().find(|(f, _)| f == folder).map(|(_, files)| files)
    }
}

fn write_toc(base: &mut AddonDir, folder: &str, toc_name: &str, content: &str) {
    base.folder(folder).push((toc_name.to_string(), content.to_string()));
}

/// Selects the folder's TOC file as the program does and parses it.
fn parse_toc_metadata(base: &AddonDir, folder: &str, flavor: GameFlavor) -> Option<TocMetadata> {
    let files = base.files(folder)?;
    let names: Vec<String> = files.iter().map(|(n, _)| n.clone()).collect();
    let i = select_toc_file(&names, folder, flavor)?;
    Some(parse_toc_contents(&files[i].1))
}

#[test]
fn strip_color_codes() {
    assert_eq!(
        strip_wow_escape_codes("|cFF00FF00Green Text|r"),
        "Green Text"
    );
}

#[test]
fn strip_color_codes_preserves_surrounding_text() {
    assert_eq!(
        strip_wow_escape_codes("Before |cFFFF0000Red|r After"),
        "Before Red After"
    );
}

#[test]
fn strip_nested_color_codes() {
    assert_eq!(
        strip_wow_escape_codes("|cFF0000FFBlue |cFFFF0000Red|r|r rest"),
        "Blue Red rest"
    );
}

#[test]
fn strip_texture_codes() {
    assert_eq!(
        strip_wow_escape_codes("Icon |TInterface\\Icons\\Spell_Nature_Heal:16|t Healing"),
        "Icon  Healing"
    );
}

#[test]
fn strip_hyperlink_keeps_display_text() {
    assert_eq!(
        strip_wow_escape_codes("|Hitem:12345:0|hSome Item|h"),
        "Some Item"
    );
}

#[test]
fn strip_newline_marker() {
    assert_eq!(strip_wow_escape_codes("Line1|nLine2"), "Line1 Line2");
}

#[test]
fn strip_plain_text_unchanged() {
    assert_eq!(
        strip_wow_escape_codes("Just A Normal Title"),
        "Just A Normal Title"
    );
}

#[test]
fn strip_complex_title_with_multiple_codes() {
    assert_eq!(
        strip_wow_escape_codes("|cFFFFFFFFDetails!|r |cFF00FF00v2.0|r"),
        "Details! v2.0"
    );
}

#[test]
fn strip_preserves_literal_pipe_without_known_code() {
    assert_eq!(strip_wow_escape_codes("Foo | Bar"), "Foo | Bar");
}

#[test]
fn find_claimed_dirs_matches_child_modules() {
    let unmanaged = vec![
        "WeakAurasOptions".to_string(),
        "WeakAurasTemplates".to_string(),
        "SomeUnrelated".to_string(),
    ];
    let modules = vec![
        "WeakAuras".to_string(),
        "WeakAurasOptions".to_string(),
        "WeakAurasTemplates".to_string(),
    ];
    let sets: Vec<(&str, &[String])> = vec![("weakauras-2", modules.as_slice())];
    let claimed = find_dirs_claimed_by_modules(&unmanaged, &sets);

    assert_eq!(claimed.len(), 2);
    assert_eq!(claim_of(&claimed, "WeakAurasOptions"), "weakauras-2");
    assert_eq!(claim_of(&claimed, "WeakAurasTemplates"), "weakauras-2");
    assert!(!claimed.iter().any(|(d, _)| d == "SomeUnrelated"));
}

#[test]
fn find_claimed_dirs_empty_when_no_match() {
    let unmanaged = vec!["RandomDir".to_string()];
    let modules = vec!["WeakAuras".to_string(), "WeakAurasOptions".to_string()];
    let sets: Vec<(&str, &[String])> = vec![("weakauras-2", modules.as_slice())];
    let claimed = find_dirs_claimed_by_modules(&unmanaged, &sets);

    assert!(claimed.is_empty());
}

#[test]
fn find_claimed_dirs_multiple_addons() {
    let unmanaged = vec![
        "Details_DataStorage".to_string(),
        "WeakAurasOptions".to_string(),
    ];
    let details_mods = vec!["Details".to_string(), "Details_DataStorage".to_string()];
    let wa_mods = vec!["WeakAuras".to_string(), "WeakAurasOptions".to_string()];
    let sets: Vec<(&str, &[String])> = vec![
        ("details", details_mods.as_slice()),
        ("weakauras-2", wa_mods.as_slice()),
    ];
    let claimed = find_dirs_claimed_by_modules(&unmanaged, &sets);

    assert_eq!(claimed.len(), 2);
    assert_eq!(claim_of(&claimed, "Details_DataStorage"), "details");
    assert_eq!(claim_of(&claimed, "WeakAurasOptions"), "weakauras-2");
}

#[test]
fn find_claimed_dirs_empty_modules() {
    let unmanaged = vec!["SomeDir".to_string()];
    let sets: Vec<(&str, &[String])> = vec![("addon", &[])];
    let claimed = find_dirs_claimed_by_modules(&unmanaged, &sets);
    assert!(claimed.is_empty());
}

#[test]
fn toc_prefers_mainline_for_retail() {
    let mut dir = AddonDir::new();
    let addon_dir = &mut dir;

    let base_toc = "## Title: MyAddon Base\n## Version: 1.0\n## X-Curse-Project-ID: 100\n";
    let mainline_toc =
        "## Title: MyAddon Mainline\n## Version: 2.0\n## X-Curse-Project-ID: 100\n";
    let classic_toc =
        "## Title: MyAddon Classic\n## Version: 0.5\n## X-Curse-Project-ID: 100\n";

    write_toc(addon_dir, "MyAddon", "MyAddon.toc", base_toc);
    write_toc(addon_dir, "MyAddon", "MyAddon_Mainline.toc", mainline_toc);
    write_toc(addon_dir, "MyAddon", "MyAddon_Classic.toc", classic_toc);

    let meta = parse_toc_metadata(&dir, "MyAddon", GameFlavor::Retail).unwrap();
    assert_eq!(meta.title.as_deref(), Some("MyAddon Mainline"));
    assert_eq!(meta.version.as_deref(), Some("2.0"));
}


#[test]
fn toc_prefers_classic_for_classic_flavor() {
    let mut dir = AddonDir::new();
    let addon_dir = &mut dir;

    let base_toc = "## Title: MyAddon Base\n## Version: 1.0\n";
    let mainline_toc = "## Title: MyAddon Mainline\n## Version: 2.0\n";
    let classic_toc = "## Title: MyAddon Classic\n## Version: 0.5\n";

    write_toc(addon_dir, "MyAddon", "MyAddon.toc", base_toc);
    write_toc(addon_dir, "MyAddon", "MyAddon_Mainline.toc", mainline_toc);
    write_toc(addon_dir, "MyAddon", "MyAddon_Classic.toc", classic_toc);

    let meta = parse_toc_metadata(&dir, "MyAddon", GameFlavor::Classic).unwrap();
    assert_eq!(meta.title.as_deref(), Some("MyAddon Classic"));
    assert_eq!(meta.version.as_deref(), Some("0.5"));
}


#[test]
fn toc_falls_back_to_base_when_no_flavor_specific() {
    let mut dir = AddonDir::new();
    let addon_dir = &mut dir;

    let base_toc = "## Title: MyAddon\n## Version: 1.0\n## X-Curse-Project-ID: 42\n";
    write_toc(addon_dir, "MyAddon", "MyAddon.toc", base_toc);

    let meta = parse_toc_metadata(&dir, "MyAddon", GameFlavor::Retail).unwrap();
    assert_eq!(meta.title.as_deref(), Some("MyAddon"));
    assert_eq!(meta.version.as_deref(), Some("1.0"));
    assert_eq!(meta.curse_project_id.as_deref(), Some("42"));
}


#[test]
fn toc_falls_back_to_any_toc_when_no_matching_name() {
    let mut dir = AddonDir::new();
    let addon_dir = &mut dir;

    let toc = "## Title: Oddly Named\n## Version: 3.0\n";
    write_toc(addon_dir, "MyAddon", "SomethingElse.toc", toc);

    let meta = parse_toc_metadata(&dir, "MyAddon", GameFlavor::Retail).unwrap();
    assert_eq!(meta.title.as_deref(), Some("Oddly Named"));
}


#[test]
fn toc_returns_none_for_empty_dir() {
    let mut dir = AddonDir::new();
    let addon_dir = &mut dir;
    addon_dir.folder("EmptyAddon");

    let meta = parse_toc_metadata(&dir, "EmptyAddon", GameFlavor::Retail);
    assert!(meta.is_none());
}


#[test]
fn toc_returns_none_for_nonexistent_dir() {
    let mut dir = AddonDir::new();
    let addon_dir = &mut dir;

    let meta = parse_toc_metadata(&dir, "DoesNotExist", GameFlavor::Retail);
    assert!(meta.is_none());
}


#[test]
fn toc_selection_is_case_insensitive() {
    let mut dir = AddonDir::new();
    let addon_dir = &mut dir;

    let toc = "## Title: Details\n## Version: 1.0\n";
    write_toc(addon_dir, "Details", "Details_MAINLINE.TOC", toc);

    let meta = parse_toc_metadata(&dir, "Details", GameFlavor::Retail).unwrap();
    assert_eq!(meta.title.as_deref(), Some("Details"));
}


#[test]
fn toc_parses_single_interface_version() {
    let mut dir = AddonDir::new();
    let addon_dir = &mut dir;

    let toc = "## Interface: 110002\n## Title: MyAddon\n";
    write_toc(addon_dir, "MyAddon", "MyAddon.toc", toc);

    let meta = parse_toc_metadata(&dir, "MyAddon", GameFlavor::Retail).unwrap();
    assert_eq!(meta.interface_versions, vec!["110002"]);
}


#[test]
fn toc_parses_multiple_interface_versions() {
    let mut dir = AddonDir::new();
    let addon_dir = &mut dir;

    let toc = "## Interface: 110002, 40400, 11503\n## Title: MultiVersion\n";
    write_toc(addon_dir, "MultiVersion", "MultiVersion.toc", toc);

    let meta = parse_toc_metadata(&dir, "MultiVersion", GameFlavor::Retail).unwrap();
    assert_eq!(meta.interface_versions, vec!["110002", "40400", "11503"]);
}


#[test]
fn toc_interface_empty_when_absent() {
    let mut dir = AddonDir::new();
    let addon_dir = &mut dir;

    let toc = "## Title: NoInterface\n## Version: 1.0\n";
    write_toc(addon_dir, "NoInterface", "NoInterface.toc", toc);

    let meta = parse_toc_metadata(&dir, "NoInterface", GameFlavor::Retail).unwrap();
    assert!(meta.interface_versions.is_empty());
}


#[test]
fn toc_interface_handles_extra_whitespace() {
    let mut dir = AddonDir::new();
    let addon_dir = &mut dir;

    let toc = "## Interface:  110002 ,  40400 ,  11503 \n## Title: Spacey\n";
    write_toc(addon_dir, "Spacey", "Spacey.toc", toc);

    let meta = parse_toc_metadata(&dir, "Spacey", GameFlavor::Retail).unwrap();
    assert_eq!(meta.interface_versions, vec!["110002", "40400", "11503"]);
}


#[test]
fn toc_parses_dependencies() {
    let mut dir = AddonDir::new();
    let addon_dir = &mut dir;

    let toc = "## Title: MyAddon\n## Dependencies: Ace3, LibSharedMedia-3.0\n";
    write_toc(addon_dir, "MyAddon", "MyAddon.toc", toc);

    let meta = parse_toc_metadata(&dir, "MyAddon", GameFlavor::Retail).unwrap();
    assert_eq!(meta.dependencies, vec!["Ace3", "LibSharedMedia-3.0"]);
}


#[test]
fn toc_parses_required_deps() {
    let mut dir = AddonDir::new();
    let addon_dir = &mut dir;

    let toc = "## Title: MyAddon\n## RequiredDeps: LibStub, CallbackHandler-1.0\n";
    write_toc(addon_dir, "MyAddon", "MyAddon.toc", toc);

    let meta = parse_toc_metadata(&dir, "MyAddon", GameFlavor::Retail).unwrap();
    assert_eq!(meta.dependencies, vec!["LibStub", "CallbackHandler-1.0"]);
}


#[test]
fn toc_merges_dependencies_and_required_deps() {
    let mut dir = AddonDir::new();
    let addon_dir = &mut dir;

    let toc = "## Title: MyAddon\n## Dependencies: Ace3, LibStub\n## RequiredDeps: LibStub, LibDBIcon-1.0\n";
    write_toc(addon_dir, "MyAddon", "MyAddon.toc", toc);

    let meta = parse_toc_metadata(&dir, "MyAddon", GameFlavor::Retail).unwrap();
    assert_eq!(meta.dependencies, vec!["Ace3", "LibStub", "LibDBIcon-1.0"]);
}


#[test]
fn toc_dependencies_empty_when_absent() {
    let mut dir = AddonDir::new();
    let addon_dir = &mut dir;

    let toc = "## Title: NoDeps\n## Version: 1.0\n";
    write_toc(addon_dir, "NoDeps", "NoDeps.toc", toc);

    let meta = parse_toc_metadata(&dir, "NoDeps", GameFlavor::Retail).unwrap();
    assert!(meta.dependencies.is_empty());
}


#[test]
fn toc_dependencies_handles_whitespace() {
    let mut dir = AddonDir::new();
    let addon_dir = &mut dir;

    let toc = "## Title: Spacey\n## Dependencies:  Ace3 ,  LibStub ,  \n";
    write_toc(addon_dir, "Spacey", "Spacey.toc", toc);

    let meta = parse_toc_metadata(&dir, "Spacey", GameFlavor::Retail).unwrap();
    assert_eq!(meta.dependencies, vec!["Ace3", "LibStub"]);
}


#[test]
fn toc_single_dependency() {
    let mut dir = AddonDir::new();
    let addon_dir = &mut dir;

    let toc = "## Title: Simple\n## Dependencies: Blizzard_CombatLog\n";
    write_toc(addon_dir, "Simple", "Simple.toc", toc);

    let meta = parse_toc_metadata(&dir, "Simple", GameFlavor::Retail).unwrap();
    assert_eq!(meta.dependencies, vec!["Blizzard_CombatLog"]);
}


#[test]
fn toc_parses_wowi_id() {
    let mut dir = AddonDir::new();
    let addon_dir = &mut dir;

    let toc = "## Title: MyAddon\n## X-WoWI-ID: 12345\n";
    write_toc(addon_dir, "MyAddon", "MyAddon.toc", toc);

    let meta = parse_toc_metadata(&dir, "MyAddon", GameFlavor::Retail).unwrap();
    assert_eq!(meta.wowi_id.as_deref(), Some("12345"));
}


#[test]
fn toc_parses_wago_id() {
    let mut dir = AddonDir::new();
    let addon_dir = &mut dir;

    let toc = "## Title: MyAddon\n## X-Wago-ID: aB3cD4eF\n";
    write_toc(addon_dir, "MyAddon", "MyAddon.toc", toc);

    let meta = parse_toc_metadata(&dir, "MyAddon", GameFlavor::Retail).unwrap();
    assert_eq!(meta.wago_id.as_deref(), Some("aB3cD4eF"));
}


#[test]
fn toc_parses_tukui_id() {
    let mut dir = AddonDir::new();
    let addon_dir = &mut dir;

    let toc = "## Title: ElvUI\n## X-Tukui-ProjectID: 1\n";
    write_toc(addon_dir, "ElvUI", "ElvUI.toc", toc);

    let meta = parse_toc_metadata(&dir, "ElvUI", GameFlavor::Retail).unwrap();
    assert_eq!(meta.tukui_id.as_deref(), Some("1"));
}


#[test]
fn toc_parses_all_source_ids_together() {
    let mut dir = AddonDir::new();
    let addon_dir = &mut dir;

    let toc = "## Title: MultiSource\n## X-Curse-Project-ID: 99\n## X-WoWI-ID: 555\n## X-Wago-ID: xYz123\n## X-Tukui-ProjectID: 42\n";
    write_toc(addon_dir, "MultiSource", "MultiSource.toc", toc);

    let meta = parse_toc_metadata(&dir, "MultiSource", GameFlavor::Retail).unwrap();
    assert_eq!(meta.curse_project_id.as_deref(), Some("99"));
    assert_eq!(meta.wowi_id.as_deref(), Some("555"));
    assert_eq!(meta.wago_id.as_deref(), Some("xYz123"));
    assert_eq!(meta.tukui_id.as_deref(), Some("42"));
}


#[test]
fn toc_source_ids_none_when_absent() {
    let mut dir = AddonDir::new();
    let addon_dir = &mut dir;

    let toc = "## Title: NoSourceIDs\n## Version: 1.0\n";
    write_toc(addon_dir, "NoSourceIDs", "NoSourceIDs.toc", toc);

    let meta = parse_toc_metadata(&dir, "NoSourceIDs", GameFlavor::Retail).unwrap();
    assert!(meta.wowi_id.is_none());
    assert!(meta.wago_id.is_none());
    assert!(meta.tukui_id.is_none());
}


#[test]
fn toc_title_strips_color_codes() {
    let mut dir = AddonDir::new();
    let addon_dir = &mut dir;

    let toc = "## Title: |cFF00FF00Details!|r |cFFAABBCCEnhanced|r\n## Version: 2.0\n";
    write_toc(addon_dir, "Details", "Details.toc", toc);

    let meta = parse_toc_metadata(&dir, "Details", GameFlavor::Retail).unwrap();
    assert_eq!(meta.title.as_deref(), Some("Details! Enhanced"));
}


#[test]
fn toc_title_strips_texture_and_color() {
    let mut dir = AddonDir::new();
    let addon_dir = &mut dir;

    let toc = "## Title: |TInterface\\AddOns\\MyAddon\\icon:16|t |cFF00FFFFMyAddon|r\n";
    write_toc(addon_dir, "MyAddon", "MyAddon.toc", toc);

    let meta = parse_toc_metadata(&dir, "MyAddon", GameFlavor::Retail).unwrap();
    assert_eq!(meta.title.as_deref(), Some("MyAddon"));
}


/// Whether the folder holds a `.toc` file, as the program checks it.
fn dir_has_toc(base: &AddonDir, folder: &str) -> bool {
    match base.files(folder) {
        Some(files) => {
            let names: Vec<String> = files.iter().map(|(n, _)| n.clone()).collect();
            has_toc_file(&names)
        }
        None => false,
    }
}

fn create_dir_with_file(base: &mut AddonDir, dir_name: &str, file_name: &str, content: &str) {
    base.folder(dir_name).push((file_name.to_string(), content.to_string()));
}

#[test]
fn dir_has_toc_with_toc_file() {
    let mut tmp = AddonDir::new();
    write_toc(&mut tmp, "MyAddon", "MyAddon.toc", "## Title: Test");
    assert!(dir_has_toc(&tmp, "MyAddon"));
}

#[test]
fn dir_has_toc_without_toc_file() {
    let mut tmp = AddonDir::new();
    create_dir_with_file(&mut tmp, "ChildDir", "file.lua", "-- code");
    assert!(!dir_has_toc(&tmp, "ChildDir"));
}

#[test]
fn dir_has_toc_nonexistent_dir() {
    let tmp = AddonDir::new();
    assert!(!dir_has_toc(&tmp, "DoesNotExist"));
}

#[test]
fn dir_has_toc_case_insensitive() {
    let mut tmp = AddonDir::new();
    tmp.folder("MyAddon").push(("myaddon.TOC".to_string(), "## Title: Test".to_string()));
    assert!(dir_has_toc(&tmp, "MyAddon"));
}

#[test]
fn strip_keeps_non_ascii_letters() {
    assert_eq!(strip_wow_escape_codes("Café Überwachung"), "Café Überwachung");
    assert_eq!(strip_wow_escape_codes("|cFF00FF00Ça marche|r ✓"), "Ça marche ✓");
    assert_eq!(strip_wow_escape_codes("|Hitem:1|hÉpée|h"), "Épée");
}

#[test]
fn toc_title_keeps_non_ascii_letters() {
    let meta = parse_toc_contents("## Title: |cFFFF0000Déjà Vu|r\n");
    assert_eq!(meta.title.as_deref(), Some("Déjà Vu"));
}
