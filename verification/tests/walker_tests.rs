use dirlist::config::Config;
use dirlist::entry::{is_hidden, ChildInfo, Entry, EntryKind};
use dirlist::errors::ListError;
use dirlist::walker::{root_entry, Walker};

fn cfg(min_depth: usize, max_depth: usize, hidden: bool) -> Config {
    Config {
        min_depth,
        max_depth,
        show_headers: false,
        show_hidden: hidden,
        show_modified: false,
    }
}

fn child(name: &str, kind: EntryKind, size: u64) -> ChildInfo {
    ChildInfo {
        name: name.to_string(),
        kind,
        size,
        modified_secs: 0,
    }
}

fn root_listing() -> Vec<ChildInfo> {
    vec![
        child("a.txt", EntryKind::File, 10),
        child("b", EntryKind::Directory, 4096),
        child(".d.txt", EntryKind::File, 3),
    ]
}

fn names(entries: &[Entry]) -> Vec<String> {
    entries.iter().map(|e| e.name.clone()).collect()
}

#[test]
fn default_config_values() {
    let c = Config::default();
    assert_eq!(c.min_depth, 1);
    assert_eq!(c.max_depth, 1);
    assert!(!c.show_headers);
    assert!(!c.show_hidden);
    assert!(!c.show_modified);
}

#[test]
fn hidden_name_detection() {
    assert!(is_hidden(".d.txt"));
    assert!(is_hidden("."));
    assert!(!is_hidden("a.txt"));
    assert!(!is_hidden(""));
    assert!(!is_hidden("d.hidden."));
}

#[test]
fn defaults_list_only_direct_visible_children() {
    let c = cfg(1, 1, false);
    let mut w = Walker::new(&c, ".");
    let dir = w.next_dir().expect("the root is read");
    assert!(dir.is_empty());
    let out = w.feed(&root_listing());
    assert_eq!(names(&out), vec!["a.txt".to_string(), "b".to_string()]);
    assert_eq!(out[0].depth, 1);
    assert_eq!(out[0].size, 10);
    assert_eq!(out[0].kind, EntryKind::File);
    assert_eq!(out[1].kind, EntryKind::Directory);
    // max_depth 1: the walk never descends into b.
    assert!(w.next_dir().is_none());
}

#[test]
fn max_depth_two_reaches_grandchildren() {
    let c = cfg(1, 2, false);
    let mut w = Walker::new(&c, ".");
    w.next_dir().expect("the root is read");
    let out = w.feed(&root_listing());
    assert_eq!(names(&out), vec!["a.txt".to_string(), "b".to_string()]);
    let dir = w.next_dir().expect("b is read next");
    assert_eq!(dir, vec!["b".to_string()]);
    let out2 = w.feed(&vec![child("c.txt", EntryKind::File, 5)]);
    assert_eq!(names(&out2), vec!["c.txt".to_string()]);
    assert_eq!(out2[0].depth, 2);
    assert_eq!(out2[0].components, vec!["b".to_string(), "c.txt".to_string()]);
    assert!(w.next_dir().is_none());
}

#[test]
fn hidden_flag_shows_dot_entries() {
    let c = cfg(1, 1, true);
    let mut w = Walker::new(&c, ".");
    w.next_dir().expect("the root is read");
    let out = w.feed(&root_listing());
    assert_eq!(
        names(&out),
        vec!["a.txt".to_string(), "b".to_string(), ".d.txt".to_string()]
    );
}

#[test]
fn hidden_directory_is_never_descended() {
    // A sentinel below a hidden directory is unreachable even within the
    // depth window: the hidden directory is never scheduled for reading.
    let c = cfg(1, 5, false);
    let mut w = Walker::new(&c, ".");
    w.next_dir().expect("the root is read");
    let out = w.feed(&vec![
        child(".h", EntryKind::Directory, 4096),
        child("x.txt", EntryKind::File, 1),
    ]);
    assert_eq!(names(&out), vec!["x.txt".to_string()]);
    assert!(w.next_dir().is_none());
}

#[test]
fn min_depth_two_hides_direct_children() {
    let c = cfg(2, 2, false);
    let mut w = Walker::new(&c, ".");
    w.next_dir().expect("the root is read");
    let out = w.feed(&root_listing());
    assert!(out.is_empty());
    // b is still descended into so that its children can be printed.
    let dir = w.next_dir().expect("b is read next");
    assert_eq!(dir, vec!["b".to_string()]);
    let out2 = w.feed(&vec![child("c.txt", EntryKind::File, 5)]);
    assert_eq!(names(&out2), vec!["c.txt".to_string()]);
}

#[test]
fn all_emissions_stay_within_depth_window() {
    let c = cfg(1, 2, false);
    let mut w = Walker::new(&c, ".");
    let mut all: Vec<Entry> = Vec::new();
    while let Some(dir) = w.next_dir() {
        let listing = if dir.is_empty() {
            root_listing()
        } else {
            vec![
                child("c.txt", EntryKind::File, 5),
                child("deep", EntryKind::Directory, 4096),
            ]
        };
        all.extend(w.feed(&listing));
    }
    assert!(!all.is_empty());
    for e in &all {
        assert!(1 <= e.depth && e.depth <= 2);
        assert!(!e.components.iter().any(|c| c.starts_with('.')));
    }
}

#[test]
fn zero_max_depth_walks_nothing() {
    let c = cfg(0, 0, false);
    let mut w = Walker::new(&c, "tree");
    assert!(w.next_dir().is_none());
    assert!(w.feed(&root_listing()).is_empty());
}

#[test]
fn root_entry_printed_only_at_min_depth_zero() {
    let info = child("tree", EntryKind::Directory, 4096);
    let e = root_entry(&cfg(0, 1, false), &info).expect("the root is printed");
    assert_eq!(e.name, "tree");
    assert_eq!(e.depth, 0);
    assert!(e.components.is_empty());
    assert_eq!(e.kind, EntryKind::Directory);
    assert!(root_entry(&cfg(1, 1, false), &info).is_none());
}

#[test]
fn hidden_root_is_pruned_when_it_would_be_printed() {
    let info = child(".", EntryKind::Directory, 4096);
    assert!(root_entry(&cfg(0, 1, false), &info).is_none());
    assert!(root_entry(&cfg(0, 1, true), &info).is_some());
    // With min_depth zero a hidden root prunes the whole walk ...
    let w = Walker::new(&cfg(0, 1, false), ".");
    assert!(w.next_dir().is_none());
    // ... while with the default window the root's own name is never tested.
    let w2 = Walker::new(&cfg(1, 1, false), ".");
    assert!(w2.next_dir().is_some());
}

#[test]
fn error_messages_match_reported_text() {
    assert_eq!(ListError::EntryRead.message(), "Error getting file entry");
    assert_eq!(
        ListError::Metadata {
            path: "sub/c.txt".to_string()
        }
        .message(),
        "Failed extracting metadata for sub/c.txt. Perhaps you are missing permissions?"
    );
    assert_eq!(
        ListError::ModifiedTime.message(),
        "Could not get date modified for the entry"
    );
}
