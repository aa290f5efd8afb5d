use dirtable::args::parse_args;
use dirtable::clock::{format_date, local_parts, DateParts};
use dirtable::entry::{format_size, perms_to_string};
use dirtable::kind::{category, classify, file_extension, format_of, name_cell, EntryKind};
use dirtable::listing::{
    build_rows, file_row, headers, render_listing, sort_entries, DirEntryData, EntryMeta,
};
use dirtable::theme::{get_color, get_glyph};
use dirtable::truncate::truncate;
use dirtable::width::display_width;

fn when() -> DateParts {
    DateParts { year: 2024, month: 3, day: 7, hour: 9, minute: 5, second: 0 }
}

fn meta(kind: EntryKind, size: u64) -> EntryMeta {
    EntryMeta { kind, mode: 0o100644, size, modified: when() }
}

fn entry(name: &str, is_dir: bool, meta: Option<EntryMeta>) -> DirEntryData {
    DirEntryData { name: name.to_string(), is_dir, meta }
}

#[test]
fn sizes_are_human_readable() {
    assert_eq!(format_size(1024), "1.0KB");
    assert_eq!(format_size(500), "500B");
    assert_eq!(format_size(1073741824), "1.0GB");
    assert_eq!(format_size(0), "0B");
    assert_eq!(format_size(1023), "1023B");
    assert_eq!(format_size(1536), "1.5KB");
    assert_eq!(format_size(1280), "1.2KB");
    assert_eq!(format_size(1048576), "1.0MB");
    assert_eq!(format_size(1048575), "1024.0KB");
    assert_eq!(format_size(u64::MAX), "17179869184.0GB");
}

#[test]
fn permission_strings() {
    assert_eq!(perms_to_string(0o040755), "drwxr-xr-x");
    assert_eq!(perms_to_string(0o100644), "-rw-r--r--");
    assert_eq!(perms_to_string(0o120777), "-rwxrwxrwx");
    assert_eq!(perms_to_string(0), "----------");
    for mode in [0o040700u32, 0o100000, 0o100111, 0o100222, 0o100444] {
        let p = perms_to_string(mode);
        assert_eq!(p.chars().count(), 10);
        for (i, c) in p.chars().enumerate() {
            let allowed = match i {
                0 => ['d', '-'],
                i if i % 3 == 1 => ['r', '-'],
                i if i % 3 == 2 => ['w', '-'],
                _ => ['x', '-'],
            };
            assert!(allowed.contains(&c));
        }
    }
}

#[test]
fn colors_and_glyphs_by_name() {
    assert_eq!(get_color("dir"), "\x1b[95m");
    assert_eq!(get_color("header"), "\x1b[92m");
    assert_eq!(get_color("reset"), "\x1b[0m");
    assert_eq!(get_color("unknown"), "");
    assert_eq!(get_glyph("dir"), "\u{f07c}");
    assert_eq!(get_glyph("config"), "\u{f013}");
    assert_eq!(get_glyph("nothing"), "");
}

#[test]
fn extensions_follow_the_last_dot() {
    assert_eq!(file_extension("a.txt"), Some("txt".to_string()));
    assert_eq!(file_extension("archive.tar.gz"), Some("gz".to_string()));
    assert_eq!(file_extension(".gitignore"), None);
    assert_eq!(file_extension(".config.toml"), Some("toml".to_string()));
    assert_eq!(file_extension("Makefile"), None);
    assert_eq!(file_extension("trailing."), Some("".to_string()));
    assert_eq!(file_extension(".."), None);
}

#[test]
fn categories_and_labels() {
    assert_eq!(category("rs"), "code");
    assert_eq!(category("flac"), "music");
    assert_eq!(category("RS"), "");
    assert_eq!(classify("song.mp3", EntryKind::File), ("music", "\u{f001}"));
    assert_eq!(classify(".gitignore", EntryKind::File), ("text", "\u{f0f6}"));
    assert_eq!(classify("notes", EntryKind::File), ("File", "\u{f15b}"));
    assert_eq!(classify("src", EntryKind::Dir), ("Dir", "\u{f07c}"));
    assert_eq!(classify("ln.rs", EntryKind::Link), ("Link", "\u{f0c1}"));
}

#[test]
fn format_tokens() {
    assert_eq!(format_of("src", EntryKind::Dir), "dir");
    assert_eq!(format_of("a.txt", EntryKind::File), "txt");
    assert_eq!(format_of("Makefile", EntryKind::File), "N/A");
    assert_eq!(format_of("x.longextension", EntryKind::File), "longex");
    assert_eq!(format_of("x.ñandúes", EntryKind::File), "ñandúe");
}

#[test]
fn name_cells_are_colored() {
    assert_eq!(name_cell("src", EntryKind::Dir), "\x1b[95m\u{f07c}\x1b[0m  src\x1b[0m");
    assert_eq!(name_cell("a.rs", EntryKind::File), "\x1b[94m\u{f121}\x1b[0m  a.rs\x1b[0m");
}

#[test]
fn dates_are_formatted() {
    assert_eq!(format_date(&when()), "2024-03-07 09:05:00");
    let far = DateParts { year: 12345, month: 12, day: 31, hour: 23, minute: 59, second: 59 };
    assert_eq!(format_date(&far), "+12345-12-31 23:59:59");
    let old = DateParts { year: -44, month: 3, day: 15, hour: 0, minute: 0, second: 0 };
    assert_eq!(format_date(&old), "-0044-03-15 00:00:00");
}

#[test]
fn rows_with_and_without_permissions() {
    let m = meta(EntryKind::File, 500);
    let row = file_row("a.txt", &m, true);
    assert_eq!(row.len(), 6);
    assert_eq!(row[1], "txt");
    assert_eq!(row[2], "text");
    assert_eq!(row[3], "-rw-r--r--");
    assert_eq!(row[4], "500B");
    assert_eq!(row[5], "2024-03-07 09:05:00");
    assert_eq!(file_row("a.txt", &m, false).len(), 5);
    assert_eq!(headers(true), vec!["#", "Name", "Format", "Type", "Perms", "Size", "Modified"]);
    assert_eq!(headers(false), vec!["#", "Name", "Format", "Type", "Size", "Modified"]);
}

#[test]
fn directories_first_then_by_name() {
    let entries = vec![entry("b.txt", false, None), entry("a.txt", false, None), entry("Zdir", true, None)];
    let names: Vec<String> = sort_entries(entries).into_iter().map(|e| e.name).collect();
    assert_eq!(names, vec!["Zdir", "a.txt", "b.txt"]);
    let entries = vec![entry("b", true, None), entry("a", false, None), entry("B", true, None), entry("ab", false, None)];
    let names: Vec<String> = sort_entries(entries).into_iter().map(|e| e.name).collect();
    assert_eq!(names, vec!["B", "b", "a", "ab"]);
}

#[test]
fn unreadable_entries_are_left_out() {
    let entries = vec![
        entry("a.txt", false, Some(meta(EntryKind::File, 1))),
        entry("gone", false, None),
        entry("c.rs", false, Some(meta(EntryKind::File, 2048))),
    ];
    let rows = build_rows(&entries, false);
    assert_eq!(rows.len(), 2);
    assert_eq!(rows[0][0], "1");
    assert_eq!(rows[1][0], "2");
    assert!(rows[1][1].contains("c.rs"));
    assert_eq!(rows[1][4], "2.0KB");
}

#[test]
fn long_names_are_cut_to_forty_columns() {
    let long = "n".repeat(50);
    let entries = vec![entry(&long, false, Some(meta(EntryKind::File, 10)))];
    let lines = render_listing(entries, false);
    assert_eq!(lines.len(), 5);
    let w = display_width(&lines[0]);
    for line in &lines {
        assert_eq!(display_width(line), w);
    }
    let row = &lines[3];
    let name_part = row.split('│').next().unwrap();
    let name_cell = name_part.split('║').nth(2).unwrap();
    assert_eq!(display_width(name_cell), 40 + 2);
    assert!(display_width(&truncate(&long, 40)) <= 40);
}

#[test]
fn listing_with_permissions() {
    let entries = vec![
        entry("b.txt", false, Some(meta(EntryKind::File, 1024))),
        entry("Zdir", true, Some(EntryMeta { kind: EntryKind::Dir, mode: 0o040755, size: 4096, modified: when() })),
    ];
    let lines = render_listing(entries, true);
    assert_eq!(lines.len(), 6);
    assert!(lines[3].contains("Zdir") && lines[3].contains("drwxr-xr-x"));
    assert!(lines[4].contains("b.txt") && lines[4].contains("1.0KB"));
}

#[test]
fn arguments() {
    let a = |v: &[&str]| v.iter().map(|x| x.to_string()).collect::<Vec<String>>();
    let o = parse_args(&a(&["prog"]));
    assert!(!o.show_perms);
    assert_eq!(o.target, ".");
    let o = parse_args(&a(&["prog", "-p", "/tmp"]));
    assert!(o.show_perms);
    assert_eq!(o.target, "/tmp");
    let o = parse_args(&a(&["prog", "one", "-p", "two"]));
    assert!(o.show_perms);
    assert_eq!(o.target, "two");
    let o = parse_args(&a(&["prog", "-x"]));
    assert!(!o.show_perms);
    assert_eq!(o.target, "-x");
}

#[test]
fn sorted_rows_example() {
    let entries = vec![
        entry("b.txt", false, Some(meta(EntryKind::File, 1))),
        entry("a.txt", false, Some(meta(EntryKind::File, 2))),
        entry("Zdir", true, Some(EntryMeta { kind: EntryKind::Dir, mode: 0o040755, size: 4096, modified: when() })),
    ];
    let rows = build_rows(&sort_entries(entries), false);
    assert_eq!(rows.len(), 3);
    assert!(rows[0][1].ends_with("Zdir\x1b[0m"));
    assert!(rows[1][1].ends_with("a.txt\x1b[0m"));
    assert!(rows[2][1].ends_with("b.txt\x1b[0m"));
    assert_eq!(rows[0][3], "Dir");
    assert_eq!(rows[1][3], "text");
    assert_eq!(rows[2][3], "text");
}

#[test]
fn timestamps_in_and_out_of_range() {
    assert!(local_parts(0, 0).is_some());
    assert!(local_parts(1_700_000_000, 999_999_999).is_some());
    assert!(local_parts(0, 1_000_000_000).is_none());
    assert!(local_parts(59, 1_500_000_000).is_some());
    assert!(local_parts(59, 2_000_000_000).is_none());
    assert!(local_parts(8_210_266_876_800, 0).is_none());
    assert!(local_parts(-8_334_601_228_801, 0).is_none());
    assert!(local_parts(i64::MAX, 0).is_none());
    assert!(local_parts(i64::MIN, 0).is_none());
}
