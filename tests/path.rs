use file_io::{
    file_name, get_file_extension, get_file_name, get_file_stem, get_last_path_component, join, parent_path,
    path_components, relative_path,
};

#[test]
fn test_get_last_path_component_str() {
    assert_eq!(
        get_last_path_component("/some/path/to/file.txt"),
        "file.txt"
    );
    assert_eq!(get_last_path_component("some/path/to/file.txt"), "file.txt");
    assert_eq!(get_last_path_component("/some/path/to/folder/"), "folder");
    assert_eq!(get_last_path_component("/some/path/to/folder"), "folder");
    assert_eq!(get_last_path_component("some/path/to/folder/"), "folder");
    assert_eq!(get_last_path_component("some/path/to/folder"), "folder");
    assert_eq!(get_last_path_component("/file.txt"), "file.txt");
    assert_eq!(get_last_path_component("file.txt"), "file.txt");
    assert_eq!(get_last_path_component("/folder/"), "folder");
    assert_eq!(get_last_path_component("/folder"), "folder");
    assert_eq!(get_last_path_component("folder/"), "folder");
    assert_eq!(get_last_path_component("folder"), "folder");
}

#[test]
fn test_get_file_name_str() {
    assert_eq!(get_file_name("/some/path/to/file.txt"), "file.txt");
    assert_eq!(get_file_name("some/path/to/file.txt"), "file.txt");
    assert_eq!(get_file_name("/file.txt"), "file.txt");
    assert_eq!(get_file_name("file.txt"), "file.txt");
    assert_eq!(get_file_name("/some/path/to/file"), "file");
    assert_eq!(get_file_name("some/path/to/file"), "file");
    assert_eq!(get_file_name("/file"), "file");
    assert_eq!(get_file_name("file"), "file");
}

#[test]
fn test_get_file_stem_str() {
    assert_eq!(get_file_stem("/some/path/to/file.txt"), "file");
    assert_eq!(get_file_stem("some/path/to/file.txt"), "file");
    assert_eq!(get_file_stem("/file.txt"), "file");
    assert_eq!(get_file_stem("file.txt"), "file");
    assert_eq!(get_file_stem("/some/path/to/file"), "file");
    assert_eq!(get_file_stem("some/path/to/file"), "file");
    assert_eq!(get_file_stem("/file"), "file");
    assert_eq!(get_file_stem("file"), "file");
}

#[test]
fn test_get_file_extension_str() {
    assert_eq!(get_file_extension("/some/path/to/file.txt"), "txt");
    assert_eq!(get_file_extension("some/path/to/file.txt"), "txt");
    assert_eq!(get_file_extension("/file.txt"), "txt");
    assert_eq!(get_file_extension("file.txt"), "txt");
    assert_eq!(get_file_extension("/some/path/to/file"), "");
    assert_eq!(get_file_extension("some/path/to/file"), "");
    assert_eq!(get_file_extension("/file"), "");
    assert_eq!(get_file_extension("file"), "");
}

#[test]
fn last_component_of_markers() {
    assert_eq!(get_last_path_component("/"), "/");
    assert_eq!(get_last_path_component("."), ".");
    assert_eq!(get_last_path_component("a/.."), "..");
    assert_eq!(get_last_path_component("a/./"), "a");
    assert_eq!(get_last_path_component("//a//b//"), "b");
}

#[test]
fn components_of_paths() {
    assert_eq!(path_components("/a//b/./c/"), vec!["/", "a", "b", "c"]);
    assert_eq!(path_components("./a/../b"), vec![".", "a", "..", "b"]);
    assert_eq!(path_components(".hidden/x"), vec![".hidden", "x"]);
    assert_eq!(path_components("a/./b"), vec!["a", "b"]);
    assert!(path_components("").is_empty());
}

#[test]
fn file_names_of_markers() {
    assert_eq!(get_file_name("dir/.bashrc"), ".bashrc");
    assert_eq!(get_file_name("a/b/"), "b");
}

#[test]
fn stems_and_extensions_of_dotted_names() {
    assert_eq!(get_file_stem("archive.tar.gz"), "archive.tar");
    assert_eq!(get_file_extension("archive.tar.gz"), "gz");
    assert_eq!(get_file_stem(".bashrc"), ".bashrc");
    assert_eq!(get_file_extension(".bashrc"), "");
    assert_eq!(get_file_stem("name."), "name");
    assert_eq!(get_file_extension("name."), "");
    assert_eq!(get_file_stem("..x.y"), "..x");
    assert_eq!(get_file_extension("..x.y"), "y");
}

#[test]
fn extension_without_file_name_is_empty() {
    assert_eq!(get_file_extension(""), "");
    assert_eq!(get_file_extension("/"), "");
    assert_eq!(get_file_extension("a/.."), "");
    assert_eq!(get_file_extension("."), "");
}

#[test]
fn parents_of_paths() {
    assert_eq!(parent_path("a/b/c/file.txt").as_deref(), Some("a/b/c"));
    assert_eq!(parent_path("/file").as_deref(), Some("/"));
    assert_eq!(parent_path("/a/b/").as_deref(), Some("/a"));
    assert_eq!(parent_path("file.txt").as_deref(), Some(""));
    assert_eq!(parent_path("./a").as_deref(), Some("."));
    assert_eq!(parent_path("/"), None);
    assert_eq!(parent_path(""), None);
}

#[test]
fn relative_paths() {
    assert_eq!(relative_path("/t/src/sub/f.txt", "/t/src").as_deref(), Some("sub/f.txt"));
    assert_eq!(relative_path("/t/src/f.txt", "/t/src/").as_deref(), Some("f.txt"));
    assert_eq!(relative_path("/t/src", "/t/src").as_deref(), Some(""));
    assert_eq!(relative_path("/t/srcx/f", "/t/src"), None);
    assert_eq!(relative_path("/t", "/t/src"), None);
}

#[test]
fn joined_paths() {
    assert_eq!(join("/dest", "sub/f.txt"), "/dest/sub/f.txt");
    assert_eq!(join("/dest/", "f.txt"), "/dest/f.txt");
    assert_eq!(join("", "f.txt"), "f.txt");
    assert_eq!(join("/dest", "/abs"), "/abs");
    assert_eq!(join("/dest", ""), "/dest/");
}

#[test]
fn file_name_is_missing_for_markers() {
    assert_eq!(file_name("/some/path/to/file.txt").as_deref(), Some("file.txt"));
    assert_eq!(file_name("/"), None);
    assert_eq!(file_name("a/.."), None);
    assert_eq!(file_name("."), None);
    assert_eq!(file_name(""), None);
}
