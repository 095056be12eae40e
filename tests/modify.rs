use file_io::replace_str_in_text;

#[test]
fn replaces_case_sensitively() {
    assert_eq!(
        replace_str_in_text("Hello, world, hello, Hello!", "Hello", "Goodbye").as_deref(),
        Some("Goodbye, world, hello, Goodbye!")
    );
}

#[test]
fn no_occurrence_leaves_text_alone() {
    assert_eq!(replace_str_in_text("nothing to replace", "foo", "bar"), None);
    assert_eq!(replace_str_in_text("", "foo", "bar"), None);
}

#[test]
fn replaces_in_bulk_file_texts() {
    assert_eq!(replace_str_in_text("hello foo world", "foo", "bar").as_deref(), Some("hello bar world"));
    assert_eq!(replace_str_in_text("no foo here", "foo", "bar").as_deref(), Some("no bar here"));
    assert_eq!(replace_str_in_text("replace me", "replace", "changed").as_deref(), Some("changed me"));
    assert_eq!(
        replace_str_in_text("replace me too", "replace", "changed").as_deref(),
        Some("changed me too")
    );
}

#[test]
fn occurrences_do_not_overlap() {
    assert_eq!(replace_str_in_text("aaaa", "aa", "b").as_deref(), Some("bb"));
    assert_eq!(replace_str_in_text("aaa", "aa", "b").as_deref(), Some("ba"));
    assert_eq!(replace_str_in_text("abab", "ab", "").as_deref(), Some(""));
}

#[test]
fn empty_pattern_occurs_everywhere() {
    assert_eq!(replace_str_in_text("ab", "", "-").as_deref(), Some("-a-b-"));
    assert_eq!(replace_str_in_text("", "", "x").as_deref(), Some("x"));
}

#[test]
fn replaces_non_ascii_text() {
    assert_eq!(replace_str_in_text("héllo wörld", "ö", "o").as_deref(), Some("héllo world"));
}
