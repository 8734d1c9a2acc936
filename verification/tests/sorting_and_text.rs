use cosmic_ext_workspaces_bar::backend::media::cache::CacheFile;
use cosmic_ext_workspaces_bar::sort::stable_sort;
use cosmic_ext_workspaces_bar::text;
use cosmic_ext_workspaces_bar::text::{
    contains, decimal_of, first_segment, is_empty, same_text, starts_with, strip_prefix,
};

fn file(path: &str, modified: i128) -> CacheFile {
    CacheFile { path: path.to_string(), size: 1, modified }
}

#[test]
fn equal_items_keep_their_order() {
    let files = vec![file("a", 3), file("b", -1), file("c", 3), file("d", -1), file("e", 0)];
    let sorted: Vec<String> = stable_sort(files).into_iter().map(|f| f.path).collect();
    assert_eq!(sorted, vec!["b", "d", "e", "a", "c"]);
    assert!(stable_sort::<CacheFile>(Vec::new()).is_empty());
}

#[test]
fn texts_are_searched_by_characters() {
    assert!(contains("spotify", "tif"));
    assert!(contains("spotify", ""));
    assert!(!contains("tif", "spotify"));
    assert!(contains("\u{e4}\u{f6}\u{fc}", "\u{f6}\u{fc}"));
    assert!(starts_with("renderD128", "renderD"));
    assert!(!starts_with("render", "renderD"));
    assert_eq!(strip_prefix("file:///x", "file://"), Some("/x".to_string()));
    assert_eq!(strip_prefix("http://x", "file://"), None);
    assert_eq!(first_segment("a.b.c", '.'), "a");
    assert_eq!(first_segment("abc", '.'), "abc");
    assert_eq!(first_segment(".abc", '.'), "");
    assert!(same_text("a", "a") && !same_text("a", "b"));
    assert!(is_empty("") && !is_empty(" "));
    assert_eq!(text::concat("ab", "c"), "abc");
}

#[test]
fn numbers_are_written_in_decimal() {
    for n in [0u64, 7, 10, 99, 100, 4096, u64::MAX] {
        assert_eq!(decimal_of(n), format!("{n}"));
    }
}
