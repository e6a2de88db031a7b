use std::collections::HashMap;
use wowctl::commands::rollback::{moved_in_before, undo_plan, DirStep, UndoStep};

fn s(x: &str) -> String {
    x.to_string()
}

#[test]
fn undo_reverses_the_journal() {
    let done = vec![DirStep::SetAside(s("A")), DirStep::MoveIn(s("A")), DirStep::MoveIn(s("B"))];
    assert_eq!(
        undo_plan(&done),
        vec![UndoStep::Remove(s("B")), UndoStep::Remove(s("A")), UndoStep::PutBack(s("A"))]
    );
    assert!(undo_plan(&vec![]).is_empty());
}

#[test]
fn moved_in_names_are_found() {
    let done = vec![DirStep::SetAside(s("A")), DirStep::MoveIn(s("B"))];
    assert!(moved_in_before(&done, "B"));
    assert!(!moved_in_before(&done, "A"));
    assert!(!moved_in_before(&[].to_vec(), "A"));
}

/// An addon directory in memory: folders with their contents, and the
/// folders set aside.
#[derive(Clone, Debug, PartialEq)]
struct Dir {
    folders: HashMap<String, String>,
    aside: HashMap<String, String>,
}

impl Dir {
    fn step(&mut self, step: &DirStep) {
        match step {
            DirStep::SetAside(d) => {
                let c = self.folders.remove(d).unwrap();
                self.aside.insert(d.clone(), c);
            }
            DirStep::MoveIn(d) => {
                assert!(!self.folders.contains_key(d));
                self.folders.insert(d.clone(), format!("new {d}"));
            }
        }
    }

    fn undo(&mut self, step: &UndoStep) {
        match step {
            UndoStep::Remove(d) => {
                self.folders.remove(d).unwrap();
            }
            UndoStep::PutBack(d) => {
                let c = self.aside.remove(d).unwrap();
                self.folders.insert(d.clone(), c);
            }
        }
    }
}

#[test]
fn a_failed_install_leaves_the_directory_as_it_was() {
    let mut dir = Dir {
        folders: [("Old", "old"), ("Shared", "unmanaged")].iter().map(|(a, b)| (s(a), s(b))).collect(),
        aside: HashMap::new(),
    };
    let before = dir.clone();
    // A dependency moves in; the main addon replaces `Shared`, then fails.
    let done = vec![
        DirStep::MoveIn(s("LibX")),
        DirStep::SetAside(s("Shared")),
        DirStep::MoveIn(s("Shared")),
        DirStep::MoveIn(s("Main")),
    ];
    for step in &done {
        dir.step(step);
    }
    assert_ne!(dir, before);
    for u in undo_plan(&done) {
        dir.undo(&u);
    }
    assert_eq!(dir, before);
}
