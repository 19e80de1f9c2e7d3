use griphook::opt::{start_directory, Opt};
use griphook::paths::{extension, extension_of};
use griphook::text::{lex_less, replace_all_exec};

#[test]
fn replace_all_replaces_every_occurrence() {
    assert_eq!(replace_all_exec("a$name-$name", "$name", "X"), "aX-X");
    assert_eq!(replace_all_exec("no variable", "$name", "X"), "no variable");
    assert_eq!(replace_all_exec("aaa", "aa", "b"), "ba");
    assert_eq!(replace_all_exec("", "$name", "X"), "");
    assert_eq!(replace_all_exec("ünï$name", "$name", "€"), "ünï€");
}

#[test]
fn extension_rules() {
    assert_eq!(extension_of("a.tar.gz"), Some("gz".to_string()));
    assert_eq!(extension_of(".bashrc"), None);
    assert_eq!(extension_of("noext"), None);
    assert_eq!(extension_of("trail."), Some(String::new()));
    assert_eq!(extension("dir.d/file"), None);
    assert_eq!(extension("dir/file.JPG"), Some("JPG".to_string()));
}

#[test]
fn name_order() {
    assert!(lex_less("a", "b"));
    assert!(lex_less("B", "a"));
    assert!(lex_less("ab", "abc"));
    assert!(!lex_less("abc", "ab"));
    assert!(!lex_less("x", "x"));
}

#[test]
fn start_directory_defaults_to_current() {
    let given = Opt { dir: Some("/pics".to_string()) };
    assert_eq!(start_directory(&given, Some("/home".to_string())), "/pics");
    let none = Opt { dir: None };
    assert_eq!(start_directory(&none, Some("/home".to_string())), "/home");
    assert_eq!(start_directory(&none, None), ".");
}
