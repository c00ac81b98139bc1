use dirlist::config::Config;
use dirlist::entry::{Entry, EntryKind};
use dirlist::render::{
    format_entry_line, format_modified, format_name, format_size, header_line, render_listing,
};

fn plain() {
    colored::control::set_override(false);
}

fn entry(name: &str, kind: EntryKind, size: u64, depth: usize, secs: i64) -> Entry {
    let components = if depth == 0 {
        Vec::new()
    } else {
        vec![name.to_string()]
    };
    Entry {
        components,
        name: name.to_string(),
        kind,
        size,
        modified_secs: secs,
        depth,
    }
}

#[test]
fn size_zero_renders_zero_bytes_right_aligned() {
    plain();
    assert_eq!(format_size(0), "      0 B");
}

#[test]
fn size_one_kibibyte_renders_iec_units() {
    plain();
    assert_eq!(format_size(1024), "  1.0 KiB");
}

#[test]
fn size_small_counts_render_plain_bytes() {
    plain();
    assert_eq!(format_size(10), "     10 B");
    assert_eq!(format_size(1023), "   1023 B");
}

#[test]
fn modified_epoch_renders_utc_without_offset() {
    plain();
    assert_eq!(
        format_modified(0).expect("the epoch is in range"),
        "Thu, 1 Jan 1970 00:00:00"
    );
}

#[test]
fn modified_known_instant_renders_expected_calendar_string() {
    plain();
    assert_eq!(
        format_modified(1700000000).expect("the instant is in range"),
        "Tue, 14 Nov 2023 22:13:20"
    );
}

#[test]
fn modified_pre_epoch_renders_like_any_other_instant() {
    plain();
    assert_eq!(
        format_modified(-1).expect("the last second of 1969 is in range"),
        "Wed, 31 Dec 1969 23:59:59"
    );
}

#[test]
fn modified_out_of_range_is_refused() {
    plain();
    assert!(format_modified(-62167219201).is_none());
    assert_eq!(
        format_modified(-62167219200).expect("the first second of year 0 is in range"),
        "Sat, 1 Jan 0000 00:00:00"
    );
    assert!(format_modified(253402300800).is_none());
    assert!(format_modified(253402300799).is_some());
}

#[test]
fn name_depth_one_has_no_indentation() {
    plain();
    let e = entry("a.txt", EntryKind::File, 10, 1, 0);
    assert_eq!(format_name(&e), "a.txt");
}

#[test]
fn name_depth_two_is_indented_one_level() {
    plain();
    let e = entry("c.txt", EntryKind::File, 5, 2, 0);
    assert_eq!(format_name(&e), "\u{2937} c.txt");
}

#[test]
fn entry_line_without_timestamp() {
    plain();
    let e = entry("a.txt", EntryKind::File, 10, 1, 0);
    assert_eq!(
        format_entry_line(&e, false).expect("no timestamp is asked for"),
        "     10 B\ta.txt"
    );
}

#[test]
fn entry_line_with_timestamp() {
    plain();
    // A single-digit day gives a 24-character timestamp, right-aligned to 25.
    let e = entry("a.txt", EntryKind::File, 10, 1, 0);
    assert_eq!(
        format_entry_line(&e, true).expect("the epoch is in range"),
        "     10 B\t Thu, 1 Jan 1970 00:00:00\ta.txt"
    );
    // A two-digit day already fills the column.
    let e2 = entry("a.txt", EntryKind::File, 10, 1, 1700000000);
    assert_eq!(
        format_entry_line(&e2, true).expect("the instant is in range"),
        "     10 B\tTue, 14 Nov 2023 22:13:20\ta.txt"
    );
}

#[test]
fn entry_line_refused_for_out_of_range_timestamp() {
    plain();
    let e = entry("a.txt", EntryKind::File, 10, 1, -62167219201);
    assert!(format_entry_line(&e, true).is_none());
    assert!(format_entry_line(&e, false).is_some());
}

#[test]
fn header_without_timestamp_column() {
    plain();
    assert_eq!(header_line(false), "     Size\t           Name");
}

#[test]
fn header_with_timestamp_column() {
    plain();
    assert_eq!(
        header_line(true),
        "     Size            \tModified at\t\t           Name"
    );
}

#[test]
fn listing_starts_with_header_exactly_when_asked() {
    plain();
    let entries = vec![entry("a.txt", EntryKind::File, 10, 1, 0)];
    let with = Config {
        min_depth: 1,
        max_depth: 1,
        show_headers: true,
        show_hidden: false,
        show_modified: false,
    };
    let lines = render_listing(&with, &entries).expect("timestamps are off");
    assert_eq!(lines.len(), 2);
    assert_eq!(lines[0], "     Size\t           Name");
    assert_eq!(lines[1], "     10 B\ta.txt");

    let without = Config {
        show_headers: false,
        ..with
    };
    let lines = render_listing(&without, &entries).expect("timestamps are off");
    assert_eq!(lines.len(), 1);
    assert_eq!(lines[0], "     10 B\ta.txt");
}

#[test]
fn listing_rendered_twice_is_identical() {
    plain();
    let entries = vec![
        entry("a.txt", EntryKind::File, 10, 1, 1700000000),
        entry("b", EntryKind::Directory, 4096, 1, 1700000000),
    ];
    let c = Config {
        min_depth: 1,
        max_depth: 1,
        show_headers: true,
        show_hidden: false,
        show_modified: true,
    };
    let first = render_listing(&c, &entries).expect("timestamps are in range");
    let second = render_listing(&c, &entries).expect("timestamps are in range");
    assert_eq!(first, second);
}
