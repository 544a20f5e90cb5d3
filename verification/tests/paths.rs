use keyward::paths::{expand_home, home, join_path, short_home};

#[test]
fn the_home_directory_has_a_fallback() {
    assert_eq!(home(Some("/Users/me".into())), "/Users/me");
    assert_eq!(home(None), "/tmp");
}

#[test]
fn joining_is_what_the_system_does() {
    for (base, rel) in [("/a", "b"), ("/a/", "b"), ("", "b"), ("/a", "/b"), ("/a", ""), ("a", "b/c")] {
        assert_eq!(
            join_path(base, rel),
            std::path::PathBuf::from(base).join(rel).display().to_string()
        );
    }
}

#[test]
fn a_leading_tilde_is_expanded() {
    assert_eq!(expand_home("~/x/y", "/h"), "/h/x/y");
    assert_eq!(expand_home("~/", "/h"), "/h/");
    assert_eq!(expand_home("~", "/h"), "/h");
    assert_eq!(expand_home("~user/x", "/h"), "~user/x");
    assert_eq!(expand_home("/x/~/y", "/h"), "/x/~/y");
    assert_eq!(expand_home("", "/h"), "");
}

#[test]
fn expanding_twice_is_expanding_once() {
    for p in ["~/x", "~", "/x", "x"] {
        let e = expand_home(p, "/h");
        assert_eq!(expand_home(&e, "/h"), e);
    }
}

#[test]
fn the_home_directory_is_abbreviated() {
    assert_eq!(short_home("/h/src", Some("/h")), "~/src");
    assert_eq!(short_home("/h", Some("/h")), "~");
    assert_eq!(short_home("/other", Some("/h")), "/other");
    assert_eq!(short_home("/Users/bob/x", Some("/Users/bob")), "~/x");
    assert_eq!(short_home("/Users/bobby/x", Some("/Users/bob")), "/Users/bobby/x");
    assert_eq!(short_home("/Users/bobby", Some("/Users/bob")), "/Users/bobby");
    assert_eq!(short_home("/Users/bob/x", Some("/Users/bob/")), "~/x");
    assert_eq!(short_home("/Users/bob/x", Some("/Users/bob//")), "~/x");
    assert_eq!(short_home("/Users/bob", Some("/Users/bob/")), "~");
    assert_eq!(short_home("/Users/bob/", Some("/Users/bob/")), "~");
    assert_eq!(short_home("/Users/bobby", Some("/Users/bob/")), "/Users/bobby");
    assert_eq!(short_home("/x", Some("/")), "~/x");
    assert_eq!(short_home("/", Some("/")), "~");
    assert_eq!(short_home("/h/src", None), "/h/src");
    for h in ["/h", "/h/", "/"] {
        assert_eq!(short_home(&expand_home("~/a/b", h), Some(h)), "~/a/b");
    }
}
