use std::cmp::Ordering;

use iai_callgrind::source_path::{make_path, path_components, SourcePath};

const ROOT: &str = "/home/user/project";

fn relative(path: &str) -> SourcePath {
    SourcePath::Relative(path.to_owned())
}

fn absolute(path: &str) -> SourcePath {
    SourcePath::Absolute(path.to_owned())
}

fn rust(path: &str) -> SourcePath {
    SourcePath::Rust(path.to_owned())
}

#[test]
fn test_make_path_unknown() {
    assert_eq!(make_path(ROOT, "???"), SourcePath::Unknown);
    assert_eq!(make_path("", "???"), SourcePath::Unknown);
}

#[test]
fn test_make_path_below_project_root() {
    assert_eq!(make_path(ROOT, "/home/user/project/src/lib.rs"), relative("src/lib.rs"));
    assert_eq!(make_path(ROOT, "/home/user/project"), relative(""));
    assert_eq!(make_path(ROOT, "/home/user/project/"), relative(""));
    assert_eq!(make_path(ROOT, "/home//user/./project//src/./lib.rs"), relative("src/lib.rs"));
    assert_eq!(make_path("/home/user/project/", "/home/user/project/a"), relative("a"));
    assert_eq!(make_path("/", "/usr/lib/libc.so"), relative("usr/lib/libc.so"));
}

#[test]
fn test_make_path_only_whole_components_match() {
    assert_eq!(
        make_path(ROOT, "/home/user/project2/src/lib.rs"),
        absolute("/home/user/project2/src/lib.rs")
    );
    assert_eq!(make_path(ROOT, "/home/user"), absolute("/home/user"));
}

#[test]
fn test_make_path_toolchain() {
    assert_eq!(
        make_path(ROOT, "/rustc/9b00956e56009bab2aa15d7bff10916599e3d6d6/library/core/src/ops/function.rs"),
        rust("/rustc/9b00956e/library/core/src/ops/function.rs")
    );
    assert_eq!(make_path(ROOT, "/rustc/abc/library/x.rs"), rust("/rustc/abc/library/x.rs"));
    assert_eq!(make_path(ROOT, "/rustc/0123456789"), rust("/rustc/01234567"));
    assert_eq!(make_path(ROOT, "/rustc"), rust("/rustc"));
    assert_eq!(make_path(ROOT, "/rustc//0123456789abc/./a"), rust("/rustc/01234567/a"));
    assert_eq!(make_path(ROOT, "/usr/rustc/0123456789"), absolute("/usr/rustc/0123456789"));
    assert_eq!(make_path(ROOT, "/rustcc/0123456789"), absolute("/rustcc/0123456789"));
}

#[test]
fn test_make_path_other_absolute_is_kept_as_it_is() {
    assert_eq!(make_path(ROOT, "/usr/lib/libc.so.6"), absolute("/usr/lib/libc.so.6"));
    assert_eq!(make_path(ROOT, "/usr//lib/./x"), absolute("/usr//lib/./x"));
    assert_eq!(make_path(ROOT, "/"), absolute("/"));
}

#[test]
fn test_make_path_other_relative_is_kept_as_it_is() {
    assert_eq!(make_path(ROOT, "src/lib.rs"), relative("src/lib.rs"));
    assert_eq!(make_path(ROOT, "./src//lib.rs"), relative("./src//lib.rs"));
    assert_eq!(make_path(ROOT, "rustc/0123456789/x"), relative("rustc/0123456789/x"));
    assert_eq!(make_path(ROOT, ""), relative(""));
    assert_eq!(make_path(ROOT, "home/user/project/x"), relative("home/user/project/x"));
}

#[test]
fn test_make_path_with_relative_root() {
    assert_eq!(make_path("", "src/./lib.rs"), relative("src/lib.rs"));
    assert_eq!(make_path("", "/src/lib.rs"), absolute("/src/lib.rs"));
    assert_eq!(make_path("project", "project/src/lib.rs"), relative("src/lib.rs"));
}

#[test]
fn test_make_path_is_idempotent() {
    let sources = [
        "???",
        "/home/user/project/src/lib.rs",
        "/home/user/project",
        "/home//user/./project//src/./lib.rs",
        "/rustc/9b00956e56009bab2aa15d7bff10916599e3d6d6/library/core/src/ops/function.rs",
        "/rustc/abc",
        "/rustc",
        "/usr/lib/libc.so.6",
        "/usr//lib/./x",
        "src/lib.rs",
        "./src//lib.rs",
        "",
        "/",
    ];
    for root in [ROOT, "", "/"] {
        for source in sources {
            let once = make_path(root, source);
            let twice = make_path(root, &once.text());
            assert_eq!(twice, once);
        }
    }
}

#[test]
fn test_make_path_is_not_idempotent_on_marker_below_root() {
    let once = make_path(ROOT, "/home/user/project/???");
    assert_eq!(once, relative("???"));
    assert_eq!(make_path(ROOT, &once.text()), SourcePath::Unknown);
}

#[test]
fn test_path_components() {
    let parts = path_components(&"/a//b/./c/".chars().collect());
    let parts: Vec<String> = parts.into_iter().map(|p| p.into_iter().collect()).collect();
    assert_eq!(parts, vec!["a", "b", "c"]);
    assert!(path_components(&"".chars().collect()).is_empty());
    assert!(path_components(&"/./".chars().collect()).is_empty());
}

#[test]
fn test_source_path_order() {
    assert_eq!(SourcePath::Unknown.cmp(&SourcePath::Unknown), Ordering::Equal);
    assert_eq!(SourcePath::Unknown.cmp(&relative("")), Ordering::Less);
    assert_eq!(absolute("/a").cmp(&SourcePath::Unknown), Ordering::Greater);
    assert_eq!(relative("a").cmp(&absolute("b")), Ordering::Less);
    assert_eq!(rust("b").cmp(&relative("a")), Ordering::Greater);
    assert_eq!(rust("same").cmp(&absolute("same")), Ordering::Equal);
    assert_eq!(relative("a").cmp(&relative("ab")), Ordering::Less);
    assert_eq!(relative("ab").cmp(&relative("a")), Ordering::Greater);
    assert_eq!(relative("a/b").cmp(&relative("a-b")), Ordering::Less);
    assert_eq!(relative("src/x").cmp(&relative("src-gen/x")), Ordering::Less);
    assert_eq!(relative("a/b").cmp(&relative("a/b/c")), Ordering::Less);
    assert_eq!(relative("a/c").cmp(&relative("a/b/c")), Ordering::Greater);
    assert_eq!(relative("é").cmp(&relative("z")), Ordering::Greater);
}

#[test]
fn test_source_path_order_is_that_of_std_paths() {
    let texts = [
        "", "/", ".", "..", "a", "a/b", "a-b", "a/b/c", "a//b", "a/./b", "a/b/", "./a", "../a",
        "/a", "/a/b", "/a-b", "/./a", "//a", "a/..", "src/x", "src-gen/x", "b", "/b", "a.b",
        "\u{e9}", "a/\u{e9}", "A", "a b",
    ];
    for left in texts {
        for right in texts {
            let expected = std::path::Path::new(left).cmp(std::path::Path::new(right));
            assert_eq!(relative(left).cmp(&absolute(right)), expected);
            assert_eq!(rust(right).cmp(&relative(left)), expected.reverse());
        }
    }
}

#[test]
fn test_source_path_same_and_text() {
    assert!(relative("a").same(&relative("a")));
    assert!(!relative("a").same(&absolute("a")));
    assert!(!relative("a").same(&relative("b")));
    assert!(SourcePath::Unknown.same(&SourcePath::Unknown));
    assert_eq!(SourcePath::Unknown.text(), "???");
    assert_eq!(rust("/rustc/x").text(), "/rustc/x");
    assert_eq!(SourcePath::Unknown.path(), None);
    assert_eq!(absolute("/a").path(), Some(&"/a".to_owned()));
    assert_eq!(relative("a").clone(), relative("a"));
}
