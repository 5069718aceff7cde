use lis::{Lis, LisBuilder, WalkSettings};

#[test]
fn test_lis_new() {
    let path = ".".to_string();
    let lis = Lis::new(&path);
    assert_eq!(lis.path, path);
    assert!(!lis.recursive);
    assert!(!lis.all);
    assert!(!lis.whole_all);
}

#[test]
fn test_lis_builder() {
    let lis = LisBuilder::new()
        .recursive(true)
        .all(true)
        .whole_all(true)
        .build(".");
    assert!(lis.recursive);
    assert!(lis.all);
    assert!(lis.whole_all);
}

#[test]
fn walk_settings_follow_options() {
    let plain = Lis::new(".").walk_settings();
    assert_eq!(plain, WalkSettings { hidden: true, git_ignore: true, max_depth: Some(1) });
    let all = LisBuilder::new().all(true).build(".").walk_settings();
    assert_eq!(all, WalkSettings { hidden: false, git_ignore: true, max_depth: Some(1) });
    let whole = LisBuilder::new().whole_all(true).recursive(true).build(".").walk_settings();
    assert_eq!(whole, WalkSettings { hidden: false, git_ignore: false, max_depth: None });
}

#[test]
fn display_names() {
    let flat = Lis::new("/tmp/d");
    assert_eq!(flat.get_display_name("/tmp/d", "d"), None);
    assert_eq!(flat.get_display_name("/tmp/d/", "d"), None);
    assert_eq!(flat.get_display_name("/tmp/d/a.txt", "a.txt"), Some("a.txt".to_string()));

    let rec = LisBuilder::new().recursive(true).build("/tmp/d");
    assert_eq!(rec.get_display_name("/tmp/d", "d"), Some("/tmp/d".to_string()));
    assert_eq!(rec.get_display_name("/tmp/d/sub/f.txt", "f.txt"), Some("sub/f.txt".to_string()));
    assert_eq!(rec.get_display_name("/elsewhere/f.txt", "f.txt"), Some("f.txt".to_string()));

    let dot = LisBuilder::new().recursive(true).build(".");
    assert_eq!(dot.get_display_name("./sub", "sub"), Some("sub".to_string()));
}

#[test]
fn names_from_parts() {
    let flat = Lis::new("d");
    assert_eq!(flat.name_from_parts(None, true, "d"), None);
    assert_eq!(flat.name_from_parts(None, false, "f"), Some("f".to_string()));
    let rec = LisBuilder::new().recursive(true).build("d");
    assert_eq!(rec.name_from_parts(Some("".to_string()), false, "d"), Some("d".to_string()));
    assert_eq!(rec.name_from_parts(Some("x/y".to_string()), false, "y"), Some("x/y".to_string()));
    assert_eq!(rec.name_from_parts(None, false, "y"), Some("y".to_string()));
}
