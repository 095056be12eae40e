use file_io::{files_among, WalkEntry};

#[test]
fn bulk_visit_reaches_nested_files_only() {
    let entries = vec![
        WalkEntry { path: "/t".to_string(), is_file: false },
        WalkEntry { path: "/t/root.txt".to_string(), is_file: true },
        WalkEntry { path: "/t/nested".to_string(), is_file: false },
        WalkEntry { path: "/t/nested/nested.txt".to_string(), is_file: true },
    ];
    assert_eq!(
        files_among(&entries),
        vec!["/t/root.txt".to_string(), "/t/nested/nested.txt".to_string()]
    );
}

#[test]
fn bulk_visit_of_no_entries() {
    assert!(files_among(&Vec::new()).is_empty());
}
