use vscode_atomic_tauri::pathorder::{compare_strings, sorted_unique_paths, Rel};

fn strings(v: &[&str]) -> Vec<String> {
    v.iter().map(|s| s.to_string()).collect()
}

#[test]
fn strings_compare_by_characters() {
    assert_eq!(compare_strings(&"a".to_string(), &"b".to_string()), Rel::Less);
    assert_eq!(compare_strings(&"ab".to_string(), &"a".to_string()), Rel::Greater);
    assert_eq!(compare_strings(&"same".to_string(), &"same".to_string()), Rel::Equal);
    assert_eq!(compare_strings(&"Z".to_string(), &"a".to_string()), Rel::Less);
}

#[test]
fn paths_sort_by_components_and_lose_repeats() {
    let sorted = sorted_unique_paths(&strings(&["/b/x", "/a", "/a/b", "/b", "/a"]));
    assert_eq!(sorted, strings(&["/a", "/a/b", "/b", "/b/x"]));
}

#[test]
fn paths_equal_as_components_count_once() {
    // `/a/./b` and `/a/b` name the same components, as `PathBuf` sees them;
    // the first one given is kept.
    let sorted = sorted_unique_paths(&strings(&["/a/./b", "/a/b", "/a//b/"]));
    assert_eq!(sorted, strings(&["/a/./b"]));
}

#[test]
fn component_order_differs_from_text_order() {
    // As text "/a-b" < "/a/b", but by components "a" < "a-b".
    let sorted = sorted_unique_paths(&strings(&["/a-b", "/a/b"]));
    assert_eq!(sorted, strings(&["/a/b", "/a-b"]));
}
