use canvas_dump::files::{
    drop_repeated_files, file_step, find_folder, folder_directory, sort_newest_first,
    unique_files_newest_first, FileStep,
};
use canvas_dump::model::{File, Folder};
use canvas_dump::time::{file_is_older, modification_secs, parse_modified, timestamp_le, Timestamp};
use std::cmp::Ordering;

fn file(id: i32, folder: i32, name: &str, modified: Option<&str>) -> File {
    File {
        id,
        folder_id: folder,
        filename: Some(name.to_string()),
        url: Some(format!("https://h/files/{}/download", id)),
        modified_at: modified.map(|s| s.to_string()),
        locked_for_user: false,
        lock_explaination: None,
        display_name: Some(name.to_string()),
    }
}

#[test]
fn parses_rfc3339_times() {
    let t = parse_modified(&Some("2024-01-02T03:04:05Z".to_string())).unwrap();
    assert_eq!(t, Timestamp { secs: 1704164645, nanos: 0 });
    let t = parse_modified(&Some("2024-01-02T03:04:05.5+01:00".to_string())).unwrap();
    assert_eq!(t, Timestamp { secs: 1704164645 - 3600, nanos: 500_000_000 });
    assert_eq!(parse_modified(&Some("yesterday".to_string())), None);
    assert_eq!(parse_modified(&None), None);
}

#[test]
fn up_to_date_decision() {
    let m = Timestamp { secs: 10, nanos: 5 };
    assert!(file_is_older(Some(10_000_000_005), m));
    assert!(file_is_older(Some(20_000_000_000), m));
    assert!(!file_is_older(Some(10_000_000_004), m));
    assert!(!file_is_older(None, m));
    assert_eq!(modification_secs(m), 10);
    assert!(timestamp_le(&Timestamp { secs: 1, nanos: 9 }, &Timestamp { secs: 2, nanos: 0 }));
    assert!(!timestamp_le(&Timestamp { secs: 2, nanos: 1 }, &Timestamp { secs: 2, nanos: 0 }));
}

#[test]
fn file_order_is_newest_first_with_untimed_first() {
    let old = file(1, 1, "a", Some("2020-01-01T00:00:00Z"));
    let new = file(2, 1, "b", Some("2021-01-01T00:00:00Z"));
    let none = file(3, 1, "c", None);
    assert_eq!(new.cmp(&old), Ordering::Less);
    assert_eq!(old.cmp(&new), Ordering::Greater);
    assert_eq!(none.cmp(&new), Ordering::Less);
    assert_eq!(new.cmp(&none), Ordering::Greater);
    assert_eq!(none.cmp(&none), Ordering::Equal);
    assert_eq!(old.partial_cmp(&old), Some(Ordering::Equal));
}

#[test]
fn file_equality_is_folder_and_name() {
    let a = file(1, 1, "a", Some("2020-01-01T00:00:00Z"));
    let b = file(2, 1, "a", None);
    let c = file(3, 2, "a", None);
    assert!(a.eq(&b));
    assert!(!a.eq(&c));
}

#[test]
fn sort_is_stable_newest_first() {
    let files = vec![
        file(1, 1, "a", Some("2020-01-01T00:00:00Z")),
        file(2, 1, "b", Some("2022-01-01T00:00:00Z")),
        file(3, 1, "c", None),
        file(4, 1, "d", Some("2020-01-01T00:00:00Z")),
        file(5, 1, "e", Some("bad")),
    ];
    let ids: Vec<i32> = sort_newest_first(files).iter().map(|f| f.id).collect();
    assert_eq!(ids, vec![3, 5, 2, 1, 4]);
}

#[test]
fn repeats_are_dropped_wherever_they_stand() {
    let files = vec![
        file(1, 1, "a", None),
        file(2, 1, "a", None),
        file(3, 1, "b", None),
        file(4, 1, "a", None),
        file(5, 2, "a", None),
    ];
    let ids: Vec<i32> = drop_repeated_files(files).iter().map(|f| f.id).collect();
    assert_eq!(ids, vec![1, 3, 5]);
}

#[test]
fn undated_files_of_one_entry_apart_keep_one() {
    let files = vec![file(1, 1, "x", None), file(2, 1, "y", None), file(3, 1, "x", None)];
    let ids: Vec<i32> = unique_files_newest_first(files).iter().map(|f| f.id).collect();
    assert_eq!(ids, vec![1, 2]);
}

#[test]
fn unique_listing_of_a_course() {
    let files = vec![
        file(1, 1, "a", Some("2020-01-01T00:00:00Z")),
        file(2, 1, "a", Some("2021-01-01T00:00:00Z")),
        file(3, 2, "a", Some("2019-01-01T00:00:00Z")),
    ];
    let ids: Vec<i32> = unique_files_newest_first(files).iter().map(|f| f.id).collect();
    assert_eq!(ids, vec![2, 3]);
}

#[test]
fn folders_and_file_steps() {
    let folders = vec![
        Folder { id: 7, full_name: Some("course files/Week 1".to_string()) },
        Folder { id: 7, full_name: Some("other".to_string()) },
    ];
    assert_eq!(find_folder(&folders, 7), Some(0));
    assert_eq!(find_folder(&folders, 8), None);
    assert_eq!(folder_directory("dump/C", "course files/Week 1"), "dump/C/files/course_files/Week_1");
    let mut f = file(9, 7, "My notes, v2.pdf", Some("2020-01-01T00:00:00Z"));
    match file_step("dump/C", &folders, &f) {
        FileStep::Fetch { file_id, dest_path, url, modified } => {
            assert_eq!(file_id, 9);
            assert_eq!(dest_path, "dump/C/files/course_files/Week_1/My_notes_v2.pdf");
            assert_eq!(url, "https://h/files/9/download");
            assert_eq!(modified, Some(Timestamp { secs: 1577836800, nanos: 0 }));
        }
        other => panic!("unexpected {:?}", other),
    }
    f.locked_for_user = true;
    f.lock_explaination = Some("not yet".to_string());
    match file_step("dump/C", &folders, &f) {
        FileStep::Skip { file_name, reason } => {
            assert_eq!(file_name, "My_notes_v2.pdf");
            assert_eq!(reason, "not yet");
        }
        other => panic!("unexpected {:?}", other),
    }
}

#[test]
fn every_listed_file_has_a_kept_entry() {
    let listing = || {
        vec![
            file(1, 1, "a", Some("2020-01-01T00:00:00Z")),
            file(2, 1, "a", Some("2020-01-01T00:00:00Z")),
            file(3, 1, "b", Some("2021-01-01T00:00:00Z")),
            file(4, 1, "a", None),
        ]
    };
    let files = listing();
    let kept = unique_files_newest_first(listing());
    for f in &files {
        assert!(kept.iter().any(|k| k.eq(f)));
    }
    for (j, a) in kept.iter().enumerate() {
        for b in &kept[j + 1..] {
            assert!(!a.eq(b));
        }
    }
    let ids: Vec<i32> = kept.iter().map(|f| f.id).collect();
    assert_eq!(ids, vec![4, 3]);
}

#[test]
fn swapping_files_flips_the_order() {
    let a = file(1, 1, "a", Some("2020-01-01T00:00:00Z"));
    let b = file(2, 1, "b", Some("2020-01-01T00:00:00.000000001Z"));
    assert_eq!(a.cmp(&b), Ordering::Greater);
    assert_eq!(b.cmp(&a), Ordering::Less);
}

#[test]
fn the_newest_file_of_an_entry_is_kept() {
    let files = vec![
        file(3, 1, "a", Some("2019-01-01T00:00:00Z")),
        file(2, 1, "b", Some("2020-01-01T00:00:00Z")),
        file(1, 1, "a", Some("2021-01-01T00:00:00Z")),
    ];
    let ids: Vec<i32> = unique_files_newest_first(files).iter().map(|f| f.id).collect();
    assert_eq!(ids, vec![1, 2]);
}
