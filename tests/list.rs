use file_io::sort_paths;

#[test]
fn listing_is_sorted_by_text() {
    let root = "/tmp/listing";
    let found = vec![
        format!("{root}/subfolder"),
        format!("{root}/file2.txt"),
        format!("{root}/file1.txt"),
    ];
    assert_eq!(
        sort_paths(found),
        vec![
            format!("{root}/file1.txt"),
            format!("{root}/file2.txt"),
            format!("{root}/subfolder"),
        ]
    );
}

#[test]
fn sort_orders_by_bytes_and_keeps_duplicates() {
    let input: Vec<String> = ["b", "B", "a.b", "a", "a-b", "é", "z", "a"]
        .iter()
        .map(|s| s.to_string())
        .collect();
    let expected: Vec<String> = ["B", "a", "a", "a-b", "a.b", "b", "z", "é"]
        .iter()
        .map(|s| s.to_string())
        .collect();
    assert_eq!(sort_paths(input), expected);
}

#[test]
fn sort_of_nothing_is_nothing() {
    assert!(sort_paths(Vec::new()).is_empty());
}
