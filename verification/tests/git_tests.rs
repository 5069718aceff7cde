use lis::git::{get_status_char, GitStatuses};

#[test]
fn test_get_status_char() {
    assert_eq!(get_status_char(git2::Status::INDEX_NEW.bits()), "A");
    assert_eq!(get_status_char(git2::Status::WT_NEW.bits()), "A");
    assert_eq!(get_status_char(git2::Status::INDEX_MODIFIED.bits()), "M");
    assert_eq!(get_status_char(git2::Status::WT_MODIFIED.bits()), "M");
    assert_eq!(get_status_char(git2::Status::INDEX_DELETED.bits()), "D");
    assert_eq!(get_status_char(git2::Status::WT_DELETED.bits()), "D");
    assert_eq!(get_status_char(git2::Status::INDEX_RENAMED.bits()), "R");
    assert_eq!(get_status_char(git2::Status::WT_RENAMED.bits()), "R");
    assert_eq!(get_status_char(git2::Status::INDEX_TYPECHANGE.bits()), "T");
    assert_eq!(get_status_char(git2::Status::WT_TYPECHANGE.bits()), "T");
    assert_eq!(get_status_char(git2::Status::CURRENT.bits()), " ");
}

#[test]
fn status_letters_take_precedence_in_order() {
    let both = (git2::Status::WT_MODIFIED | git2::Status::INDEX_NEW).bits();
    assert_eq!(get_status_char(both), "A");
    let del_ren = (git2::Status::INDEX_RENAMED | git2::Status::WT_DELETED).bits();
    assert_eq!(get_status_char(del_ren), "D");
    assert_eq!(get_status_char(git2::Status::IGNORED.bits()), " ");
}

#[test]
fn statuses_are_found_by_full_path() {
    let files = vec![
        ("new_file.txt".to_string(), git2::Status::WT_NEW.bits()),
        ("src/lib.rs".to_string(), git2::Status::WT_MODIFIED.bits()),
        ("sub/".to_string(), git2::Status::WT_NEW.bits()),
    ];
    let statuses = GitStatuses::from_status_entries("/repo", &files);
    assert_eq!(statuses.status_for("/repo/new_file.txt"), "A");
    assert_eq!(statuses.status_for("/repo/src/lib.rs"), "M");
    assert_eq!(statuses.status_for("/repo/sub"), "A");
    assert_eq!(statuses.status_for("/repo/other"), " ");
    assert_eq!(GitStatuses::new().status_for("/repo/new_file.txt"), " ");
}

#[test]
fn later_statuses_replace_earlier_ones() {
    let files = vec![
        ("a".to_string(), git2::Status::WT_NEW.bits()),
        ("./a".to_string(), git2::Status::WT_DELETED.bits()),
    ];
    let statuses = GitStatuses::from_status_entries("/repo", &files);
    assert_eq!(statuses.status_for("/repo/a"), "D");
}

#[test]
fn status_among_takes_the_last_marked() {
    let files = vec![
        ("a".to_string(), git2::Status::WT_NEW.bits()),
        ("b".to_string(), git2::Status::WT_MODIFIED.bits()),
        ("c".to_string(), git2::Status::INDEX_TYPECHANGE.bits()),
    ];
    let statuses = GitStatuses::from_status_entries("/r", &files);
    assert_eq!(statuses.status_among(&[true, true, false]), "M");
    assert_eq!(statuses.status_among(&[true, false, false]), "A");
    assert_eq!(statuses.status_among(&[false, false, true]), "T");
    assert_eq!(statuses.status_among(&[false, false, false]), " ");
}
