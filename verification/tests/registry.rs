use canvas_dump::registry::{format_path_record, parse_path_record, PathRegistry};

#[test]
fn read_after_write() {
    let mut r = PathRegistry::new();
    assert_eq!(r.get_file_path(1, 2), None);
    r.add_file_path(1, 2, "a/b");
    assert_eq!(r.get_file_path(1, 2), Some("a/b".to_string()));
    assert_eq!(r.get_file_path(2, 1), None);
    r.add_file_path(1, 2, "c");
    assert_eq!(r.get_file_path(1, 2), Some("c".to_string()));
}

#[test]
fn negative_and_extreme_identifiers_are_kept_apart() {
    let mut r = PathRegistry::new();
    r.add_file_path(-1, i32::MAX, "x");
    r.add_file_path(i32::MIN, -1, "y");
    r.add_file_path(0, 0, "z");
    assert_eq!(r.get_file_path(-1, i32::MAX), Some("x".to_string()));
    assert_eq!(r.get_file_path(i32::MIN, -1), Some("y".to_string()));
    assert_eq!(r.get_file_path(0, 0), Some("z".to_string()));
    assert_eq!(r.get_file_path(i32::MAX, -1), None);
}

#[test]
fn folders_and_files_share_one_table() {
    let mut r = PathRegistry::new();
    r.add_folder_path(3, 10, "course/files/week1");
    assert_eq!(r.get_file_path(3, 10), Some("course/files/week1".to_string()));
    r.add_file_path(3, 11, "course/files/a.pdf");
    assert_eq!(r.get_folder_path(3, 11), Some("course/files/a.pdf".to_string()));
}

#[test]
fn record_format() {
    assert_eq!(format_path_record(5, -6, "dir/f, g"), "ID1: 5, ID2: -6, Path: dir/f, g");
}

#[test]
fn written_records_are_read_back() {
    assert_eq!(parse_path_record(&format_path_record(5, 6, "dir/f")), Some((5, 6, "dir/f".to_string())));
    assert_eq!(parse_path_record(&format_path_record(0, 0, "")), Some((0, 0, String::new())));
    assert_eq!(
        parse_path_record(&format_path_record(i32::MIN, -1, "a,b/c d")),
        Some((i32::MIN, -1, "a,b/c d".to_string()))
    );
}

#[test]
fn only_labelled_records_are_read() {
    assert_eq!(parse_path_record("ID1: 5, ID2: 6, Path: dir/f"), Some((5, 6, "dir/f".to_string())));
    assert_eq!(parse_path_record("5, 6, dir/f"), None);
    assert_eq!(parse_path_record("ID1: 5, ID2: 6, Path: dir, f"), None);
    assert_eq!(parse_path_record("ID1: 5, ID2: x, Path: dir"), None);
    assert_eq!(parse_path_record("ID2: 5, ID1: 6, Path: dir"), None);
    assert_eq!(parse_path_record("ID1: 5, ID2: 6"), None);
    assert_eq!(parse_path_record("ID1: 5, ID2: 6, dir"), None);
}

#[test]
fn restoring_a_backup_gives_the_registry_back() {
    let mut r = PathRegistry::new();
    r.add_file_path(1, 2, "p");
    r.add_folder_path(-3, 4, "course/files/q r");
    let lines = r.backup_records();
    assert_eq!(lines.len(), 2);
    assert!(lines.contains(&"ID1: 1, ID2: 2, Path: p".to_string()));
    assert!(lines.contains(&"ID1: -3, ID2: 4, Path: course/files/q r".to_string()));
    let mut fresh = PathRegistry::new();
    fresh.restore_lines(&lines);
    assert_eq!(fresh.get_file_path(1, 2), Some("p".to_string()));
    assert_eq!(fresh.get_folder_path(-3, 4), Some("course/files/q r".to_string()));
    assert_eq!(fresh.backup_records().len(), 2);
}

#[test]
fn restoring_readable_lines_registers_them_in_order() {
    let mut r = PathRegistry::new();
    r.add_file_path(9, 9, "kept");
    let lines = vec![
        "ID1: 1, ID2: 2, Path: a".to_string(),
        "junk".to_string(),
        "ID1: 1, ID2: 2, Path: b".to_string(),
        "ID1: -3, ID2: 4, Path: c".to_string(),
        "1, 2, unlabelled".to_string(),
    ];
    r.restore_lines(&lines);
    assert_eq!(r.get_file_path(1, 2), Some("b".to_string()));
    assert_eq!(r.get_file_path(-3, 4), Some("c".to_string()));
    assert_eq!(r.get_file_path(9, 9), Some("kept".to_string()));
    assert_eq!(r.backup_records().len(), 3);
}
