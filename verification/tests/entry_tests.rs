use lis::time::LocalMinute;
use lis::entry::{
    extension_of_name, extension_of_path, get_file_type_char, get_mode_string,
    get_permissions_string, name_or_id, sort_entries, Entry, FileMetadata, SortBy,
};

fn create_test_entry(name: &str, size: u64, modified: &str, extension: &str) -> Entry {
    Entry {
        name: name.to_string(),
        path: name.to_string(),
        is_dir: false,
        mode: "-rw-r--r--".to_string(),
        nlink: 1,
        owner: "user".to_string(),
        group: "group".to_string(),
        size,
        modified: modified.to_string(),
        git_status: " ".to_string(),
        extension: extension.to_string(),
    }
}

#[test]
fn test_sort_entries_by_name() {
    let mut entries = vec![
        create_test_entry("b", 20, "2023-01-01 10:00", "txt"),
        create_test_entry("a", 10, "2023-01-01 11:00", "rs"),
        create_test_entry("c", 30, "2023-01-01 09:00", "md"),
    ];

    sort_entries(&mut entries, SortBy::Name, false);
    assert_eq!(entries[0].name, "a");
    assert_eq!(entries[1].name, "b");
    assert_eq!(entries[2].name, "c");

    sort_entries(&mut entries, SortBy::Name, true);
    assert_eq!(entries[0].name, "c");
    assert_eq!(entries[1].name, "b");
    assert_eq!(entries[2].name, "a");
}

#[test]
fn test_sort_entries_by_size() {
    let mut entries = vec![
        create_test_entry("b", 20, "2023-01-01 10:00", "txt"),
        create_test_entry("a", 10, "2023-01-01 11:00", "rs"),
        create_test_entry("c", 30, "2023-01-01 09:00", "md"),
    ];

    sort_entries(&mut entries, SortBy::Size, false);
    assert_eq!(entries[0].size, 10);
    assert_eq!(entries[1].size, 20);
    assert_eq!(entries[2].size, 30);
}

#[test]
fn test_get_file_type_char() {
    assert_eq!(get_file_type_char(true, false), 'd');
    assert_eq!(get_file_type_char(false, true), 'l');
    assert_eq!(get_file_type_char(false, false), '-');
}

#[test]
fn sort_by_time_and_extension() {
    let mut entries = vec![
        create_test_entry("b", 20, "2023-01-01 10:00", "txt"),
        create_test_entry("a", 10, "2023-01-01 11:00", "rs"),
        create_test_entry("c", 30, "2023-01-01 09:00", "md"),
    ];
    sort_entries(&mut entries, SortBy::Time, false);
    let names: Vec<&str> = entries.iter().map(|e| e.name.as_str()).collect();
    assert_eq!(names, vec!["c", "b", "a"]);
    sort_entries(&mut entries, SortBy::Extension, false);
    let exts: Vec<&str> = entries.iter().map(|e| e.extension.as_str()).collect();
    assert_eq!(exts, vec!["md", "rs", "txt"]);
    sort_entries(&mut entries, SortBy::Size, true);
    let sizes: Vec<u64> = entries.iter().map(|e| e.size).collect();
    assert_eq!(sizes, vec![30, 20, 10]);
}

#[test]
fn sort_is_stable_for_equal_keys() {
    let mut entries = vec![
        create_test_entry("x", 5, "t", "rs"),
        create_test_entry("y", 1, "t", "md"),
        create_test_entry("z", 5, "t", "txt"),
        create_test_entry("w", 1, "t", "rs"),
    ];
    sort_entries(&mut entries, SortBy::Size, false);
    let names: Vec<&str> = entries.iter().map(|e| e.name.as_str()).collect();
    assert_eq!(names, vec!["y", "w", "x", "z"]);
    // Reversed, equal keys still keep their original relative order.
    sort_entries(&mut entries, SortBy::Size, true);
    let names: Vec<&str> = entries.iter().map(|e| e.name.as_str()).collect();
    assert_eq!(names, vec!["x", "z", "y", "w"]);
}

#[test]
fn sort_twice_changes_nothing() {
    let mut entries = vec![
        create_test_entry("b", 2, "t", "rs"),
        create_test_entry("B", 2, "t", "rs"),
        create_test_entry("a", 1, "t", "rs"),
        create_test_entry("é", 3, "t", "rs"),
    ];
    sort_entries(&mut entries, SortBy::Name, false);
    let once: Vec<String> = entries.iter().map(|e| e.name.clone()).collect();
    assert_eq!(once, vec!["B", "a", "b", "é"]);
    sort_entries(&mut entries, SortBy::Name, false);
    let twice: Vec<String> = entries.iter().map(|e| e.name.clone()).collect();
    assert_eq!(once, twice);
}

#[test]
fn sort_names_by_code_point_and_prefix() {
    let mut entries = vec![
        create_test_entry("ab", 0, "t", ""),
        create_test_entry("a", 0, "t", ""),
        create_test_entry("", 0, "t", ""),
        create_test_entry("Z", 0, "t", ""),
    ];
    sort_entries(&mut entries, SortBy::Name, false);
    let names: Vec<&str> = entries.iter().map(|e| e.name.as_str()).collect();
    assert_eq!(names, vec!["", "Z", "a", "ab"]);
}

#[test]
fn mode_strings() {
    assert_eq!(get_permissions_string(0o644), "rw-r--r--");
    assert_eq!(get_permissions_string(0o755), "rwxr-xr-x");
    assert_eq!(get_permissions_string(0o100777), "rwxrwxrwx");
    assert_eq!(get_permissions_string(0), "---------");
    assert_eq!(get_mode_string(0o40755, true, false), "drwxr-xr-x");
    assert_eq!(get_mode_string(0o120777, false, true), "lrwxrwxrwx");
    assert_eq!(get_mode_string(0o100640, false, false), "-rw-r-----");
}

#[test]
fn owner_names_fall_back_to_numbers() {
    assert_eq!(name_or_id(Some("root".to_string()), 0), "root");
    assert_eq!(name_or_id(None, 1000), "1000");
    assert_eq!(name_or_id(None, 0), "0");
    assert_eq!(name_or_id(None, u32::MAX), "4294967295");
}

#[test]
fn extensions() {
    assert_eq!(extension_of_name("main.rs"), Some("rs".to_string()));
    assert_eq!(extension_of_name("archive.tar.gz"), Some("gz".to_string()));
    assert_eq!(extension_of_name(".hidden"), None);
    assert_eq!(extension_of_name("..a"), Some("a".to_string()));
    assert_eq!(extension_of_name("noext"), None);
    assert_eq!(extension_of_name("trailing."), Some("".to_string()));
    assert_eq!(extension_of_name(".."), None);
    assert_eq!(extension_of_path("./src/main.rs"), "rs");
    assert_eq!(extension_of_path("dir/.gitignore"), "");
    assert_eq!(extension_of_path("."), "");
    assert_eq!(extension_of_path("a/b.d/"), "d");
    assert_eq!(
        extension_of_path("x.txt"),
        std::path::Path::new("x.txt").extension().unwrap().to_str().unwrap()
    );
}

#[test]
fn entry_from_metadata() {
    let meta = FileMetadata {
        is_dir: false,
        is_symlink: true,
        mode: 0o120777,
        nlink: 1,
        uid: 1000,
        gid: 100,
        owner_name: None,
        group_name: Some("users".to_string()),
        size: 11,
        modified: LocalMinute { year: 2024, month: 5, day: 6, hour: 7, minute: 8 },
    };
    let e = Entry::from_metadata("./link.txt", "link.txt".to_string(), "A".to_string(), meta);
    assert_eq!(e.name, "link.txt");
    assert_eq!(e.path, "./link.txt");
    assert!(!e.is_dir);
    assert!(e.mode.starts_with('l'));
    assert_eq!(e.mode, "lrwxrwxrwx");
    assert_eq!(e.owner, "1000");
    assert_eq!(e.group, "users");
    assert_eq!(e.size, 11);
    assert_eq!(e.modified, "2024-05-06 07:08");
    assert_eq!(e.git_status, "A");
    assert_eq!(e.extension, "txt");
}

#[test]
fn reversed_sort_of_distinct_keys_is_backwards() {
    let make = || {
        vec![
            create_test_entry("m", 3, "t", "rs"),
            create_test_entry("k", 1, "t", "rs"),
            create_test_entry("z", 2, "t", "rs"),
            create_test_entry("a", 4, "t", "rs"),
        ]
    };
    for by in [SortBy::Name, SortBy::Size] {
        let mut forward = make();
        sort_entries(&mut forward, by, false);
        let mut backward = make();
        sort_entries(&mut backward, by, true);
        let f: Vec<String> = forward.iter().rev().map(|e| e.name.clone()).collect();
        let b: Vec<String> = backward.iter().map(|e| e.name.clone()).collect();
        assert_eq!(f, b);
    }
}

#[test]
fn extensions_agree_with_std() {
    let paths = [
        "a.rs", "dir/b.tar.gz", ".bashrc", "x/.config.toml", "noext", "y/z.", "..", ".", "/",
        "/tmp/", "a/b/", "a.b/c", "./q.md", "weird..name", "..x",
    ];
    for p in paths {
        let expected = std::path::Path::new(p)
            .extension()
            .and_then(|e| e.to_str())
            .unwrap_or("")
            .to_string();
        assert_eq!(extension_of_path(p), expected, "path {:?}", p);
    }
}
