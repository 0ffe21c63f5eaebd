use media_catalog::text::{split_string, join_with_sep, str_eq, str_starts_with, str_contains_char};
use media_catalog::paths::{get_file_name, extension_of, path_join, with_extension, path_is_under, get_directory_from_file_path, str_is_blank, remove_values_from_vec_string, retain_non_empty, vec_contains_string, get_data_directory};
use media_catalog::fields::is_multi_keywords;

fn strings(v: &[&str]) -> Vec<String> {
    v.iter().map(|s| s.to_string()).collect()
}

#[test]
fn split_and_join_round_trip() {
    let parts = strings(&["data/a/x.png", "data/a/y.png"]);
    let joined = join_with_sep(&parts, ",");
    assert_eq!(joined, "data/a/x.png,data/a/y.png");
    let back = split_string(&joined, ',');
    assert_eq!(back, parts);
}

#[test]
fn split_keeps_empty_pieces() {
    assert_eq!(split_string("a,,b", ','), strings(&["a", "", "b"]));
    assert_eq!(split_string("", ','), strings(&[""]));
    assert_eq!(split_string(",x", ','), strings(&["", "x"]));
    assert_eq!(split_string("x,", ','), strings(&["x", ""]));
}

#[test]
fn join_of_empty_list_is_empty() {
    let joined = join_with_sep(&Vec::new(), ",");
    assert_eq!(joined, "");
}

#[test]
fn file_name_and_extension() {
    assert_eq!(get_file_name("tmp/r/f/cover.png"), "cover.png");
    assert_eq!(get_file_name("noslash"), "noslash");
    assert_eq!(extension_of("cover.png"), "png");
    assert_eq!(extension_of("archive.tar.gz"), "gz");
    assert_eq!(extension_of("noext"), "noext");
    assert_eq!(extension_of("trailing."), "");
}

#[test]
fn path_building_and_prefix_test() {
    assert_eq!(path_join("a", "b"), "a/b");
    assert_eq!(with_extension("a/b", "png"), "a/b.png");
    assert!(path_is_under("data/u/x.png", "data/u"));
    assert!(path_is_under("data/u/x.png", "data"));
    assert!(!path_is_under("data/u", "data/u"));
    assert!(!path_is_under("database/x", "data"));
    assert_eq!(get_directory_from_file_path("a/b/c.png"), Some("a/b".to_string()));
    assert_eq!(get_directory_from_file_path("plain"), None);
}

#[test]
fn string_predicates() {
    assert!(str_eq("abc", "abc"));
    assert!(!str_eq("abc", "abd"));
    assert!(str_starts_with("image/png", "image/"));
    assert!(!str_starts_with("video/mp4", "image/"));
    assert!(str_contains_char("a,b", ','));
    assert!(!str_contains_char("ab", ','));
    assert!(str_is_blank(""));
    assert!(str_is_blank("  \t"));
    assert!(!str_is_blank(" x "));
}

#[test]
fn multi_keyword_heuristic() {
    assert!(is_multi_keywords("images"));
    assert!(is_multi_keywords("covers"));
    assert!(is_multi_keywords("files"));
    assert!(!is_multi_keywords("cover"));
    assert!(!is_multi_keywords("file"));
    assert!(!is_multi_keywords(""));
}

#[test]
fn remove_values_filters_matches() {
    let filter = strings(&["b", "d"]);
    let mut original = strings(&["a", "b", "c", "d", "b"]);
    remove_values_from_vec_string(&filter, &mut original);
    assert_eq!(original, strings(&["a", "c"]));
}

#[test]
fn retain_non_empty_drops_blanks() {
    let mut v = strings(&["a", "", "b", ""]);
    retain_non_empty(&mut v);
    assert_eq!(v, strings(&["a", "b"]));
}

#[test]
fn vec_contains_checks_by_value() {
    let v = strings(&["x", "y"]);
    assert!(vec_contains_string(&v, "x"));
    assert!(!vec_contains_string(&v, "z"));
}

#[test]
fn data_directory_is_fixed() {
    assert_eq!(get_data_directory(), "data");
}
