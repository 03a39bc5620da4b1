use papyro::paths::{path_file_name, path_parent, path_strip_prefix};
use papyro::text::chars_of;

fn s(v: Vec<char>) -> String {
    v.into_iter().collect()
}

fn file_name(p: &str) -> Option<String> {
    path_file_name(&chars_of(p)).map(s)
}

fn parent(p: &str) -> Option<String> {
    path_parent(&chars_of(p)).map(s)
}

fn strip(p: &str, base: &str) -> Option<String> {
    path_strip_prefix(&chars_of(p), &chars_of(base)).map(s)
}

#[test]
fn file_names_follow_path_components() {
    assert_eq!(file_name("/usr/bin/"), Some("bin".to_string()));
    assert_eq!(file_name("tmp/foo.txt"), Some("foo.txt".to_string()));
    assert_eq!(file_name("foo.txt/."), Some("foo.txt".to_string()));
    assert_eq!(file_name("foo.txt/.//"), Some("foo.txt".to_string()));
    assert_eq!(file_name("foo.txt/.."), None);
    assert_eq!(file_name("/"), None);
    assert_eq!(file_name("."), None);
    assert_eq!(file_name(""), None);
}

#[test]
fn parents_follow_path_components() {
    assert_eq!(parent("/foo/bar"), Some("/foo".to_string()));
    assert_eq!(parent("/foo"), Some("/".to_string()));
    assert_eq!(parent("/"), None);
    assert_eq!(parent("foo"), Some(String::new()));
    assert_eq!(parent(""), None);
    assert_eq!(parent("a//b"), Some("a".to_string()));
    assert_eq!(parent("a/./b/"), Some("a".to_string()));
    assert_eq!(parent("a/b/.."), Some("a/b".to_string()));
    assert_eq!(parent("./a"), Some(".".to_string()));
}

#[test]
fn strip_prefix_follows_path_components() {
    let path = "/test/haha/foo.txt";
    assert_eq!(strip(path, "/"), Some("test/haha/foo.txt".to_string()));
    assert_eq!(strip(path, "/test"), Some("haha/foo.txt".to_string()));
    assert_eq!(strip(path, "/test/"), Some("haha/foo.txt".to_string()));
    assert_eq!(strip(path, "/test/haha/foo.txt"), Some(String::new()));
    assert_eq!(strip(path, "/test/haha/foo.txt/"), Some(String::new()));
    assert_eq!(strip(path, "test"), None);
    assert_eq!(strip(path, "/haha"), None);
    assert_eq!(strip("/te/st", "/te/s"), None);
    assert_eq!(strip("a//b//c/", "a"), Some("b//c".to_string()));
    assert_eq!(strip("a/./b", "a"), Some("b".to_string()));
    assert_eq!(strip("/a/b/", ""), Some("/a/b".to_string()));
}
