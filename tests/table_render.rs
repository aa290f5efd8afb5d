use dirtable::table::{compute_widths, render_row, render_rule, render_table};
use dirtable::width::display_width;

fn s(v: &[&str]) -> Vec<String> {
    v.iter().map(|x| x.to_string()).collect()
}

#[test]
fn widths_take_header_or_widest_cell() {
    let headers = s(&["#", "Name", "Size"]);
    let rows = vec![s(&["1", "short", "10B"]), s(&["2", "\x1b[94mlonger name\x1b[0m", "1.0KB"])];
    assert_eq!(compute_widths(&headers, &rows, 1, 40), vec![1, 11, 5]);
}

#[test]
fn clamp_caps_only_its_column() {
    let headers = s(&["#", "Name", "Size"]);
    let rows = vec![s(&["1", "abcdefghij", "abcdefghij"])];
    assert_eq!(compute_widths(&headers, &rows, 1, 4), vec![1, 4, 10]);
    assert_eq!(compute_widths(&headers, &rows, 1, 0), vec![1, 0, 10]);
}

#[test]
fn row_padding_is_exact() {
    let widths = vec![1, 5, 3];
    let line = render_row(&s(&["1", "ab", "xyz"]), &widths, false, 1);
    assert_eq!(line, "║ 1 ║ ab    │ xyz ║");
}

#[test]
fn header_row_is_colored() {
    let widths = vec![1, 4];
    let line = render_row(&s(&["#", "Name"]), &widths, true, 1);
    assert_eq!(line, "║ \x1b[92m#\x1b[0m ║ \x1b[92mName\x1b[0m ║");
}

#[test]
fn clamp_column_is_truncated() {
    let widths = vec![1, 3];
    let line = render_row(&s(&["1", "abcdef"]), &widths, false, 1);
    assert_eq!(line, "║ 1 ║ abc ║");
    // Other columns are never cut.
    let line = render_row(&s(&["12", "ab"]), &widths, false, 1);
    assert_eq!(line, "║ 12 ║ ab  ║");
}

#[test]
fn rules_use_junctions() {
    let widths = vec![1, 2, 0];
    assert_eq!(render_rule(&widths, '╔', '╦', '╤', '╗'), "╔═══╦════╤══╗");
    assert_eq!(render_rule(&vec![], '╚', '╩', '╧', '╝'), "╚╝");
}

#[test]
fn all_lines_line_up() {
    let headers = s(&["#", "Name", "Format", "Size"]);
    let name = "\x1b[94m\u{f15b}\x1b[0m  ".to_string() + &"x".repeat(50) + "\x1b[0m";
    let rows = vec![
        s(&["1", "\x1b[95m\u{f07c}\x1b[0m  src\x1b[0m", "dir", "4.0KB"]),
        vec!["2".to_string(), name, "txt".to_string(), "500B".to_string()],
        s(&["3", "日本語", "N/A", "1.0GB"]),
    ];
    let lines = render_table(&headers, &rows, 1, 40);
    assert_eq!(lines.len(), 7);
    let w = display_width(&lines[0]);
    assert_eq!(w, 1 + 40 + 6 + 5 + 3 * 4 + 1);
    for line in &lines {
        assert_eq!(display_width(line), w);
    }
}
