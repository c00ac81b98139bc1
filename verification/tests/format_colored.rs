use dirlist::entry::{Entry, EntryKind};
use dirlist::render::{format_modified, format_name, format_size, header_line};

fn colored_on() {
    colored::control::set_override(true);
}

fn entry(name: &str, kind: EntryKind, depth: usize) -> Entry {
    let components = if depth == 0 {
        Vec::new()
    } else {
        vec![name.to_string()]
    };
    Entry {
        components,
        name: name.to_string(),
        kind,
        size: 10,
        modified_secs: 0,
        depth,
    }
}

#[test]
fn size_column_is_green() {
    colored_on();
    assert_eq!(format_size(0), "\u{1b}[32m      0 B\u{1b}[0m");
}

#[test]
fn modified_column_is_blue() {
    colored_on();
    assert_eq!(
        format_modified(0).expect("the epoch is in range"),
        "\u{1b}[34mThu, 1 Jan 1970 00:00:00\u{1b}[0m"
    );
}

#[test]
fn file_names_are_white() {
    colored_on();
    let e = entry("a.txt", EntryKind::File, 1);
    assert_eq!(
        format_name(&e),
        "\u{1b}[2m\u{1b}[0m\u{1b}[37ma.txt\u{1b}[0m"
    );
}

#[test]
fn directory_names_are_blue() {
    colored_on();
    let e = entry("b", EntryKind::Directory, 1);
    assert_eq!(format_name(&e), "\u{1b}[2m\u{1b}[0m\u{1b}[34mb\u{1b}[0m");
}

#[test]
fn other_names_are_yellow() {
    colored_on();
    let e = entry("link", EntryKind::Other, 1);
    assert_eq!(format_name(&e), "\u{1b}[2m\u{1b}[0m\u{1b}[33mlink\u{1b}[0m");
}

#[test]
fn indentation_is_dimmed() {
    colored_on();
    let e = entry("c.txt", EntryKind::File, 2);
    assert_eq!(
        format_name(&e),
        "\u{1b}[2m\u{2937} \u{1b}[0m\u{1b}[37mc.txt\u{1b}[0m"
    );
}

#[test]
fn header_labels_are_bold_and_underlined() {
    colored_on();
    assert_eq!(
        header_line(false),
        "     \u{1b}[1;4mSize\u{1b}[0m\t           \u{1b}[1;4mName\u{1b}[0m"
    );
}
