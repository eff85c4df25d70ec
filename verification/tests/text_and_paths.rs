use shuffle::kind::kind_label;
use shuffle::score::{lower_chars, query_chars};
use shuffle::text::{
    append_text, chars_of, is_control, is_whitespace, same_text, trim_str, typed_text, without_last_char,
};
use shuffle::path::{
    expand_path, join_path, label_of_path, path_components, path_depth, path_extension, path_file_name,
    path_has_prefix, path_parent, paths_equal, split_path_query,
};

fn comps(p: &str) -> Vec<String> {
    path_components(p).into_iter().map(|c| c.into_iter().collect()).collect()
}

#[test]
fn trim_removes_unicode_whitespace_at_both_ends() {
    assert_eq!(trim_str("  \t docs \n"), "docs");
    assert_eq!(trim_str("\u{3000}a b\u{a0}"), "a b");
    assert_eq!(trim_str("   "), "");
    assert_eq!(trim_str(""), "");
}

#[test]
fn whitespace_and_control_classes() {
    assert!(is_whitespace(' '));
    assert!(is_whitespace('\u{2028}'));
    assert!(!is_whitespace('x'));
    assert!(is_control('\u{7}'));
    assert!(is_control('\u{9f}'));
    assert!(!is_control('a'));
}

#[test]
fn case_mapping_goes_through_std() {
    assert_eq!(lower_chars("ReadMe.TXT"), "readme.txt".chars().collect::<Vec<char>>());
    assert_eq!(lower_chars("ÉCOLE"), "école".chars().collect::<Vec<char>>());
    assert_eq!(kind_label("x.ogg", false), "OGG Audio");
    assert_eq!(query_chars("İQ"), vec!['i', '\u{307}', 'q']);
}

#[test]
fn chars_round_trip_through_strings() {
    let cs = chars_of("añb");
    assert_eq!(cs, vec!['a', 'ñ', 'b']);
    assert_eq!(trim_str(" añb "), "añb");
    assert!(same_text("abc", "abc"));
    assert!(!same_text("abc", "abd"));
}

#[test]
fn line_editing_helpers() {
    assert_eq!(without_last_char("héé"), "hé");
    assert_eq!(without_last_char(""), "");
    assert_eq!(append_text("/Us", "ers"), "/Users");
    assert!(typed_text("a"));
    assert!(!typed_text(""));
    assert!(!typed_text("a\u{1b}"));
}

#[test]
fn components_follow_std_paths() {
    assert_eq!(comps("/Users//me/./docs/"), vec!["/", "Users", "me", "docs"]);
    assert_eq!(comps("./a/../b"), vec![".", "a", "..", "b"]);
    assert_eq!(comps("a/b"), vec!["a", "b"]);
    assert_eq!(comps("/"), vec!["/"]);
    assert_eq!(path_depth("/Users/me/Documents"), 4);
}

#[test]
fn path_equality_and_prefix_are_by_component() {
    assert!(paths_equal("/Users/me/", "/Users//me"));
    assert!(!paths_equal("/Users/me", "/Users/mex"));
    assert!(path_has_prefix("/Users/me/docs", "/Users/me"));
    assert!(!path_has_prefix("/Users/mex", "/Users/me"));
    assert!(path_has_prefix("/a", "/"));
}

#[test]
fn file_name_parent_and_extension() {
    assert_eq!(path_file_name("/a/b.txt"), Some("b.txt".to_string()));
    assert_eq!(path_file_name("/"), None);
    assert_eq!(path_file_name("/a/.."), None);
    assert_eq!(path_parent("/a/b"), Some("/a".to_string()));
    assert_eq!(path_parent("/a"), Some("/".to_string()));
    assert_eq!(path_parent("/"), None);
    assert_eq!(path_parent("a"), Some("".to_string()));
    assert_eq!(path_extension("/x/archive.tar.gz"), Some("gz".to_string()));
    assert_eq!(path_extension("/x/.bashrc"), None);
    assert_eq!(path_extension("/x/name."), Some("".to_string()));
    assert_eq!(path_extension("/x/Makefile"), None);
}

#[test]
fn join_appends_or_replaces() {
    assert_eq!(join_path("/Users/me", "docs"), "/Users/me/docs");
    assert_eq!(join_path("/", "Users"), "/Users");
    assert_eq!(join_path("/Users/me", "/etc"), "/etc");
    assert_eq!(join_path("", "a"), "a");
}

#[test]
fn labels_name_the_last_component() {
    assert_eq!(label_of_path("/"), "Macintosh HD");
    assert_eq!(label_of_path("/Users/me/Documents"), "Documents");
    assert_eq!(label_of_path("/Users/.."), "/Users/..");
}

#[test]
fn tilde_expands_to_home() {
    assert_eq!(expand_path("~", "/Users/me"), "/Users/me");
    assert_eq!(expand_path("~/Music", "/Users/me"), "/Users/me/Music");
    assert_eq!(expand_path("~x", "/Users/me"), "~x");
    assert_eq!(expand_path("/tmp", "/Users/me"), "/tmp");
}

#[test]
fn path_queries_split_into_base_and_partial() {
    let s = |q: &str| split_path_query(q, "/Users/me");
    assert_eq!(s("~"), ("/Users/me".to_string(), "".to_string()));
    assert_eq!(s("~/Doc"), ("/Users/me".to_string(), "Doc".to_string()));
    assert_eq!(s("/Users/"), ("/Users".to_string(), "".to_string()));
    assert_eq!(s("/"), ("/".to_string(), "".to_string()));
    assert_eq!(s("///"), ("/".to_string(), "".to_string()));
    assert_eq!(s("/App"), ("/".to_string(), "App".to_string()));
    assert_eq!(s("/Users/me/Do"), ("/Users/me".to_string(), "Do".to_string()));
}
