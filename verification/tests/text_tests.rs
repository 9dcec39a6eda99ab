use emu_frontend::text::{
    path_extension, path_first_segment, sort_strings, str_eq, str_lex_leq, u64_to_string,
};

fn strings(v: &[&str]) -> Vec<String> {
    v.iter().map(|s| s.to_string()).collect()
}

#[test]
fn extension_of_nested_path() {
    assert_eq!(path_extension("nes/game.nes"), Some("nes".to_string()));
}

#[test]
fn extension_none_without_dot() {
    assert_eq!(path_extension("nes/game"), None);
}

#[test]
fn extension_none_for_hidden_file() {
    assert_eq!(path_extension(".bashrc"), None);
    assert_eq!(path_extension("dir/.hidden"), None);
}

#[test]
fn extension_takes_last_dot() {
    assert_eq!(path_extension("a/b.tar.gz"), Some("gz".to_string()));
}

#[test]
fn extension_of_trailing_dot_is_empty() {
    assert_eq!(path_extension("dir/name."), Some("".to_string()));
}

#[test]
fn extension_ignores_dots_in_directories() {
    assert_eq!(path_extension("v1.2/file"), None);
}

#[test]
fn first_segment_of_path() {
    assert_eq!(path_first_segment("nes/sub/game.nes"), "nes");
    assert_eq!(path_first_segment("game.nes"), "game.nes");
    assert_eq!(path_first_segment(""), "");
}

#[test]
fn decimal_rendering() {
    assert_eq!(u64_to_string(0), "0");
    assert_eq!(u64_to_string(7), "7");
    assert_eq!(u64_to_string(10), "10");
    assert_eq!(u64_to_string(1234567890), "1234567890");
    assert_eq!(u64_to_string(u64::MAX), "18446744073709551615");
}

#[test]
fn lexicographic_comparison() {
    assert!(str_lex_leq("", "a"));
    assert!(str_lex_leq("abc", "abc"));
    assert!(str_lex_leq("abc", "abd"));
    assert!(!str_lex_leq("abd", "abc"));
    assert!(str_lex_leq("ab", "abc"));
    assert!(!str_lex_leq("abc", "ab"));
    assert!(str_lex_leq("Z", "a"));
}

#[test]
fn string_equality() {
    assert!(str_eq("abc", "abc"));
    assert!(!str_eq("abc", "abd"));
    assert!(!str_eq("abc", "ab"));
    assert!(str_eq("", ""));
}

#[test]
fn sorting_orders_and_keeps_duplicates() {
    let v = strings(&["pear", "apple", "pear", "fig"]);
    let sorted = sort_strings(&v);
    assert_eq!(sorted, strings(&["apple", "fig", "pear", "pear"]));
}

#[test]
fn sorting_empty_list() {
    let v: Vec<String> = Vec::new();
    assert_eq!(sort_strings(&v), Vec::<String>::new());
}

