use lis::display::{
    cell_text, layout_columns_with_widths, long_line_with_size, max_width_from_widths,
    get_icon, get_max_width, layout_columns, long_line, max_width_checked, one_column_lines,
    plain_name, visible_width,
};
use lis::entry::Entry;
use lis::text::{decimal_text, escape_double_quote, strip_ansi_text};

fn entry(name: &str, is_dir: bool, size: u64, ext: &str) -> Entry {
    Entry {
        name: name.to_string(),
        path: name.to_string(),
        is_dir,
        mode: "-".to_string(),
        nlink: 1,
        owner: "u".to_string(),
        group: "g".to_string(),
        size,
        modified: "m".to_string(),
        git_status: " ".to_string(),
        extension: ext.to_string(),
    }
}

#[test]
fn test_print_one_column() {
    let entries = vec![entry("file1", false, 0, "")];
    let lines = one_column_lines(&entries, false);
    assert_eq!(lines, vec!["file1".to_string()]);
}

#[test]
fn one_column_quoted() {
    let entries = vec![entry("a \"b\"", false, 0, ""), entry("c", false, 0, "")];
    let lines = one_column_lines(&entries, true);
    assert_eq!(lines, vec!["\"a \\\"b\\\"\"".to_string(), "\"c\"".to_string()]);
}

#[test]
fn test_print_long() {
    let e = Entry {
        name: "file1".to_string(),
        path: "file1".to_string(),
        is_dir: false,
        mode: "-".to_string(),
        nlink: 1,
        owner: "u".to_string(),
        group: "g".to_string(),
        size: 100,
        modified: "2023-01-01 10:00".to_string(),
        git_status: " ".to_string(),
        extension: "".to_string(),
    };
    let line = long_line(&e, "file1", false);
    assert_eq!(line, "-   1 u        g           100 B 2023-01-01 10:00   file1");
}

#[test]
fn long_line_sizes_and_quotes() {
    let mut e = entry("x.rs", false, 1500, "rs");
    e.nlink = 1234;
    e.owner = "a_long_owner_name".to_string();
    let line = long_line(&e, "x\"y", true);
    assert_eq!(line, "- 1234 a_long_owner_name g         1.50 kB m   \"x\\\"y\"");
}

#[test]
fn test_style_entry_name() {
    let e = entry("test.rs", false, 100, "rs");
    let styled = plain_name(&e, false);
    assert!(styled.contains("test.rs"));
    let styled_icon = plain_name(&e, true);
    assert!(styled_icon.contains("\u{e7a8}"));
    assert!(styled_icon.contains("test.rs"));
    assert_eq!(styled_icon, "\u{e7a8} test.rs");
}

#[test]
fn test_style_entries() {
    let entries = vec![entry("file1", false, 0, "")];
    let styled: Vec<String> = entries.iter().map(|e| plain_name(e, false)).collect();
    assert_eq!(styled.len(), 1);
    assert!(styled[0].contains("file1"));
}

#[test]
fn test_print_columns() {
    let names = vec!["a".to_string(), "b".to_string(), "c".to_string()];
    let wide = layout_columns(&names, 10, 80, false);
    assert_eq!(wide, vec![format!("{:<10}{:<10}{:<10}", "a", "b", "c")]);
    let narrow = layout_columns(&names, 10, 20, false); // Test narrow terminal
    assert_eq!(narrow, vec![format!("{:<10}{:<10}", "a", "c"), format!("{:<10}", "b")]);
}

#[test]
fn columns_run_down_then_across() {
    let names: Vec<String> = ["a", "b", "c", "d", "e"].iter().map(|s| s.to_string()).collect();
    let lines = layout_columns(&names, 3, 7, true);
    assert_eq!(lines, vec!["\"a\"  \"d\"  ", "\"b\"  \"e\"  ", "\"c\"  "]);
    let one = layout_columns(&names, 50, 7, false);
    assert_eq!(one.len(), 5);
    assert!(layout_columns(&[], 3, 80, false).is_empty());
}

#[test]
fn test_visible_width() {
    let plain = "abc";
    let colored = "\u{1b}[31mabc\u{1b}[0m";
    assert_eq!(visible_width(plain), visible_width(colored));
}

#[test]
fn ansi_sequences_are_stripped() {
    assert_eq!(strip_ansi_text("\u{1b}[1;31mred\u{1b}[0m!"), "red!");
    assert_eq!(strip_ansi_text("\u{1b}x"), "\u{1b}x");
    assert_eq!(strip_ansi_text("a\u{1b}[12"), "a");
    assert_eq!(visible_width("\u{1b}[32m日本\u{1b}[0m"), 4);
}

#[test]
fn test_get_icon() {
    assert_eq!(get_icon("main.rs", false, "rs"), "\u{e7a8}");
    assert_eq!(get_icon("README.md", false, "md"), "\u{f48a}");
    assert_eq!(get_icon("Cargo.toml", false, "toml"), "\u{f013}");
    assert_eq!(get_icon("src", true, ""), "\u{f115}");
    assert_eq!(get_icon("unknown", false, "unknown"), "\u{f15b}");
}

#[test]
fn more_icons() {
    assert_eq!(get_icon("a.yml", false, "yml"), "\u{f1c0}");
    assert_eq!(get_icon("a.json", false, "json"), "\u{f1c0}");
    assert_eq!(get_icon("a.jpeg", false, "jpeg"), "\u{f1c5}");
    assert_eq!(get_icon("a.txt", false, "txt"), "\u{f15c}");
    assert_eq!(get_icon("dir.rs", true, "rs"), "\u{f115}");
}

#[test]
fn test_get_max_width() {
    let mut a = entry("file1.txt", false, 100, "txt");
    a.mode = "-rw-r--r--".to_string();
    let mut b = entry("long_filename_directory", true, 4096, "");
    b.mode = "drwxr-xr-x".to_string();
    let entries = vec![a, b];
    // Without icon: max("file1.txt".len(), "long_filename_directory".len()) + 2
    // "long_filename_directory".len() = 23. 23 + 2 = 25.
    assert_eq!(get_max_width(&entries, false), 25);

    // With icon: max("file1.txt".len() + 3, "long_filename_directory".len() + 3) + 2
    // 23 + 3 + 2 = 28.
    assert_eq!(get_max_width(&entries, true), 28);
    assert_eq!(max_width_checked(&entries, true), Some(28));
    assert_eq!(get_max_width(&[], false), 2);
}

#[test]
fn text_helpers() {
    assert_eq!(escape_double_quote("say \"hi\""), "say \\\"hi\\\"");
    assert_eq!(decimal_text(0), "0");
    assert_eq!(decimal_text(1234567890123), "1234567890123");
    assert_eq!(decimal_text(u64::MAX), u64::MAX.to_string());
}

#[test]
fn widths_and_sizes_given_directly() {
    assert_eq!(max_width_from_widths(&[3, 9, 4], false), 11);
    assert_eq!(max_width_from_widths(&[3, 9, 4], true), 14);
    assert_eq!(max_width_from_widths(&[], true), 2);
    assert_eq!(cell_text("ab", 2, 5, false), "ab   ");
    assert_eq!(cell_text("ab", 7, 5, true), "\"ab\"");
    let names = vec!["x".to_string(), "y".to_string(), "z".to_string()];
    let lines = layout_columns_with_widths(&names, &[1, 1, 1], 4, 8, false);
    assert_eq!(lines, vec!["x   z   ".to_string(), "y   ".to_string()]);
    let e = entry("f", false, 0, "");
    assert_eq!(long_line_with_size(&e, "12 kB", "f", false), "-   1 u        g           12 kB m   f");
}

#[test]
fn colour_codes_do_not_count() {
    for s in ["plain", "日本語", "a b", ""] {
        let coloured = format!("\u{1b}[1;38;5;208m{}\u{1b}[0m", s);
        assert_eq!(strip_ansi_text(&coloured), s);
        assert_eq!(visible_width(&coloured), visible_width(s));
    }
}
