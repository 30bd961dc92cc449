use colorls::names::{extension, file_key, file_name, filename_without_leading_dot};

#[test]
fn file_name_is_last_component() {
    assert_eq!(file_name("/home/user/notes.txt"), "notes.txt");
    assert_eq!(file_name("plain"), "plain");
}

#[test]
fn file_name_passes_over_trailing_separators_and_dots() {
    assert_eq!(file_name("a/b/"), "b");
    assert_eq!(file_name("a/b/."), "b");
    assert_eq!(file_name("a//b"), "b");
    assert_eq!(file_name("./x"), "x");
    assert_eq!(file_name("a/.."), "");
    assert_eq!(file_name("/"), "");
    assert_eq!(file_name("."), "");
}

#[test]
fn dot_dot_has_no_extension() {
    assert_eq!(extension(".."), None);
    assert_eq!(extension("a."), Some(String::new()));
}

#[test]
fn extension_follows_last_dot() {
    assert_eq!(extension("archive.tar.gz"), Some("gz".to_string()));
    assert_eq!(extension(".bashrc"), None);
    assert_eq!(extension("Makefile"), None);
    assert_eq!(extension("trailing."), Some(String::new()));
}

#[test]
fn leading_dot_is_stripped_once() {
    assert_eq!(filename_without_leading_dot(".bashrc"), "bashrc");
    assert_eq!(filename_without_leading_dot("..x"), ".x");
    assert_eq!(filename_without_leading_dot("name"), "name");
}

#[test]
fn file_key_prefers_extension() {
    assert_eq!(file_key("photo.jpeg"), "jpeg");
    assert_eq!(file_key(".gitignore"), "gitignore");
    assert_eq!(file_key("Makefile"), "Makefile");
}
