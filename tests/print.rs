use file_io::{write_folder_tree, FolderEntry};

fn leaf(path: &str) -> FolderEntry {
    FolderEntry { path: path.to_string(), children: Vec::new() }
}

#[test]
fn tree_diagram_of_a_small_folder() {
    let root = "/tmp/tree_root";
    let tree = FolderEntry {
        path: root.to_string(),
        children: vec![
            leaf(&format!("{root}/file1.txt")),
            leaf(&format!("{root}/file2.txt")),
            FolderEntry {
                path: format!("{root}/subfolder"),
                children: vec![leaf(&format!("{root}/subfolder/file3.txt"))],
            },
        ],
    };
    let mut out = String::new();
    write_folder_tree(&tree, &mut out);
    assert_eq!(
        out,
        format!("{}\n├── file1.txt\n├── file2.txt\n└── subfolder\n    └── file3.txt\n", root)
    );
}

#[test]
fn tree_diagram_continues_bars_under_non_last_folders() {
    let tree = FolderEntry {
        path: "top".to_string(),
        children: vec![
            FolderEntry {
                path: "top/a".to_string(),
                children: vec![leaf("top/a/x"), leaf("top/a/y")],
            },
            leaf("top/b"),
        ],
    };
    let mut out = String::from(">");
    write_folder_tree(&tree, &mut out);
    assert_eq!(out, ">top\n├── a\n│   ├── x\n│   └── y\n└── b\n");
}

#[test]
fn tree_diagram_of_an_empty_folder() {
    let mut out = String::new();
    write_folder_tree(&leaf("/empty"), &mut out);
    assert_eq!(out, "/empty\n");
}
