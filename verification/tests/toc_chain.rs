use std::collections::HashMap;
use wowctl::fingerprint::{
    compute_folder_fingerprint, normalize_wow_path, parse_xml_file_references, toc_file_references, TocWalk, WalkStep,
};

/// An addon folder held in memory: paths relative to the folder, with `/`
/// between parts, mapped to their contents.
struct Folder {
    files: HashMap<String, String>,
}

impl Folder {
    fn new(files: &[(&str, &str)]) -> Folder {
        Folder { files: files.iter().map(|(p, c)| (p.to_string(), c.to_string())).collect() }
    }

    fn join(dir: &str, rel: &str) -> String {
        if dir.is_empty() {
            rel.to_string()
        } else {
            format!("{dir}/{rel}")
        }
    }

    fn parent(path: &str) -> &str {
        match path.rfind('/') {
            Some(i) => &path[..i],
            None => "",
        }
    }

    fn is_xml(path: &str) -> bool {
        let name = &path[path.rfind('/').map_or(0, |i| i + 1)..];
        match name.rfind('.') {
            Some(i) if i > 0 => name[i + 1..].eq_ignore_ascii_case("xml"),
            _ => false,
        }
    }

    /// The include chain of the TOC at `toc`, walked as the program walks a
    /// folder on disk.
    fn chain(&self, toc: &str) -> Vec<String> {
        let mut walk = TocWalk::start(toc.to_string(), toc.to_string());
        if let Some(contents) = self.files.get(toc) {
            let dir = Folder::parent(toc);
            walk.queue(toc_file_references(contents).iter().map(|r| Folder::join(dir, r)).collect());
            while let Some(next) = walk.next_path() {
                if !self.files.contains_key(&next) {
                    continue;
                }
                let xml = Folder::is_xml(&next);
                if walk.visit(next.clone(), next.clone(), xml) != WalkStep::ReadIncludes {
                    continue;
                }
                let dir = Folder::parent(&next);
                let included = parse_xml_file_references(&self.files[&next])
                    .iter()
                    .map(|r| Folder::join(dir, &normalize_wow_path(r)))
                    .collect();
                walk.queue(included);
            }
        }
        walk.into_files()
    }

    fn names(&self, toc: &str) -> Vec<String> {
        self.chain(toc).iter().map(|p| p[p.rfind('/').map_or(0, |i| i + 1)..].to_string()).collect()
    }

    fn fingerprint(&self, toc: &str) -> u32 {
        let chain = self.chain(toc);
        let contents: Vec<&[u8]> = chain.iter().map(|p| self.files[p].as_bytes()).collect();
        compute_folder_fingerprint(&contents)
    }
}

#[test]
fn toc_chain_lua_files_only() {
    let addon = Folder::new(&[
        ("MyAddon.toc", "## Interface: 110002\n## Title: MyAddon\nInit.lua\nCore.lua\n"),
        ("Init.lua", "local init = true"),
        ("Core.lua", "local core = true"),
    ]);
    assert_eq!(addon.names("MyAddon.toc"), vec!["MyAddon.toc", "Init.lua", "Core.lua"]);
}

#[test]
fn toc_chain_skips_comments_and_blanks() {
    let addon = Folder::new(&[
        ("MyAddon.toc", "## Title: MyAddon\n\n# This is a comment\nInit.lua\n\n## Version: 1.0\n"),
        ("Init.lua", "x"),
    ]);
    assert_eq!(addon.names("MyAddon.toc"), vec!["MyAddon.toc", "Init.lua"]);
}

#[test]
fn toc_chain_skips_missing_files() {
    let addon = Folder::new(&[
        ("MyAddon.toc", "Init.lua\nMissing.lua\nCore.lua\n"),
        ("Init.lua", "x"),
        ("Core.lua", "y"),
    ]);
    assert_eq!(addon.names("MyAddon.toc"), vec!["MyAddon.toc", "Init.lua", "Core.lua"]);
}

#[test]
fn toc_chain_follows_xml_includes() {
    let addon = Folder::new(&[
        ("MyAddon.toc", "MyAddon.xml\n"),
        ("MyAddon.xml", "<Ui>\n  <Script file=\"Core.lua\"/>\n  <Include file=\"Modules.xml\"/>\n</Ui>"),
        ("Core.lua", "core"),
        ("Modules.xml", "<Ui><Script file=\"Module1.lua\"/></Ui>"),
        ("Module1.lua", "mod1"),
    ]);
    assert_eq!(
        addon.names("MyAddon.toc"),
        vec!["MyAddon.toc", "MyAddon.xml", "Core.lua", "Modules.xml", "Module1.lua"]
    );
}

#[test]
fn toc_chain_handles_subdirectory_paths() {
    let addon = Folder::new(&[
        ("MyAddon.toc", "Libs/LibStub.lua\nCore.lua\n"),
        ("Libs/LibStub.lua", "libstub"),
        ("Core.lua", "core"),
    ]);
    assert_eq!(addon.chain("MyAddon.toc"), vec!["MyAddon.toc", "Libs/LibStub.lua", "Core.lua"]);
}

#[test]
fn toc_chain_handles_backslash_paths() {
    let addon = Folder::new(&[("MyAddon.toc", "Libs\\LibStub.lua\n"), ("Libs/LibStub.lua", "libstub")]);
    let files = addon.chain("MyAddon.toc");
    assert_eq!(files.len(), 2);
    assert!(files[1].ends_with("LibStub.lua"));
}

#[test]
fn toc_chain_xml_backslash_references() {
    let addon = Folder::new(&[
        ("MyAddon.toc", "Main.xml\n"),
        ("Main.xml", "<Ui><Include file=\"Sub\\Module.xml\"/></Ui>"),
        ("Sub/Module.xml", "<Ui><Script file=\"Code.lua\"/></Ui>"),
        ("Sub/Code.lua", "code"),
    ]);
    let files = addon.chain("MyAddon.toc");
    assert_eq!(files.len(), 4);
    assert!(files[3].ends_with("Code.lua"));
}

#[test]
fn toc_chain_prevents_circular_references() {
    let addon = Folder::new(&[
        ("MyAddon.toc", "A.xml\n"),
        ("A.xml", "<Ui><Include file=\"B.xml\"/></Ui>"),
        ("B.xml", "<Ui><Include file=\"A.xml\"/></Ui>"),
    ]);
    assert_eq!(addon.names("MyAddon.toc"), vec!["MyAddon.toc", "A.xml", "B.xml"]);
}

#[test]
fn toc_chain_deduplicates_shared_files() {
    let addon = Folder::new(&[
        ("MyAddon.toc", "Shared.lua\nA.xml\nB.xml\n"),
        ("Shared.lua", "shared"),
        ("A.xml", "<Ui><Script file=\"Shared.lua\"/></Ui>"),
        ("B.xml", "<Ui><Script file=\"Shared.lua\"/></Ui>"),
    ]);
    assert_eq!(addon.names("MyAddon.toc"), vec!["MyAddon.toc", "Shared.lua", "A.xml", "B.xml"]);
}

#[test]
fn toc_chain_empty_toc() {
    let addon = Folder::new(&[("MyAddon.toc", "## Title: Empty\n")]);
    assert_eq!(addon.chain("MyAddon.toc").len(), 1);
}

#[test]
fn fingerprint_addon_dir_produces_consistent_hash() {
    let addon = Folder::new(&[
        ("MyAddon.toc", "Init.lua\nCore.lua\n"),
        ("Init.lua", "local init = 1"),
        ("Core.lua", "local core = 2"),
    ]);
    let hash1 = addon.fingerprint("MyAddon.toc");
    let hash2 = addon.fingerprint("MyAddon.toc");
    assert_eq!(hash1, hash2);

    let toc_bytes = b"Init.lua\nCore.lua\n";
    let init_bytes = b"local init = 1";
    let core_bytes = b"local core = 2";
    let expected = compute_folder_fingerprint(&[toc_bytes, init_bytes, core_bytes]);
    assert_eq!(hash1, expected);
}

#[test]
fn fingerprint_addon_dir_file_order_affects_hash() {
    let addon_a = Folder::new(&[("A.toc", "X.lua\nY.lua\n"), ("X.lua", "xxx"), ("Y.lua", "yyy")]);
    let addon_b = Folder::new(&[("B.toc", "Y.lua\nX.lua\n"), ("X.lua", "xxx"), ("Y.lua", "yyy")]);
    assert_ne!(addon_a.fingerprint("A.toc"), addon_b.fingerprint("B.toc"));
}

#[test]
fn walk_queues_includes_ahead_of_earlier_paths() {
    let mut walk = TocWalk::start("a.toc".to_string(), "k0".to_string());
    walk.queue(vec!["one".to_string(), "two".to_string()]);
    assert_eq!(walk.next_path(), Some("one".to_string()));
    walk.queue(vec!["inner1".to_string(), "inner2".to_string()]);
    assert_eq!(walk.next_path(), Some("inner1".to_string()));
    assert_eq!(walk.next_path(), Some("inner2".to_string()));
    assert_eq!(walk.next_path(), Some("two".to_string()));
    assert_eq!(walk.next_path(), None);
}

#[test]
fn walk_takes_a_key_once() {
    let mut walk = TocWalk::start("a.toc".to_string(), "k0".to_string());
    assert_eq!(walk.visit("x.xml".to_string(), "k1".to_string(), true), WalkStep::ReadIncludes);
    assert_eq!(walk.visit("y.lua".to_string(), "k2".to_string(), false), WalkStep::Listed);
    assert_eq!(walk.visit("other/x.xml".to_string(), "k1".to_string(), true), WalkStep::Seen);
    assert_eq!(walk.visit("a2.toc".to_string(), "k0".to_string(), false), WalkStep::Seen);
    assert_eq!(walk.into_files(), vec!["a.toc", "x.xml", "y.lua"]);
}
