use ripsync::paths::{join, path_less, path_starts_with, same_path};
use std::path::Path;

const SAMPLES: &[&str] = &[
    "", "a", "a/b", "a//b", "a/b/", "./a", "a/./b", "a/../b", "/a", "/", "//a", "..", ".",
    "a.b", "a-b", "a/b/c", "ab", "b", "A", "a/b.txt", "a b", "é", "z/é", "./", "a/.",
];

#[test]
fn path_equality_agrees_with_the_standard_library() {
    for a in SAMPLES {
        for b in SAMPLES {
            assert_eq!(same_path(a, b), Path::new(a) == Path::new(b), "{a:?} vs {b:?}");
        }
    }
}

#[test]
fn path_order_agrees_with_the_standard_library() {
    for a in SAMPLES {
        for b in SAMPLES {
            assert_eq!(path_less(a, b), Path::new(a) < Path::new(b), "{a:?} < {b:?}");
        }
    }
}

#[test]
fn prefix_test_agrees_with_the_standard_library() {
    for a in SAMPLES {
        for b in SAMPLES {
            assert_eq!(
                path_starts_with(a, b),
                Path::new(a).starts_with(Path::new(b)),
                "{a:?} starts with {b:?}"
            );
        }
    }
}

#[test]
fn join_inserts_one_separator() {
    assert_eq!(join("dst", "a.txt"), "dst/a.txt");
    assert_eq!(join("dst/", "a.txt"), "dst/a.txt");
    assert_eq!(join("", "a.txt"), "a.txt");
    assert_eq!(Path::new(&join("/tmp/x", "y/z")), Path::new("/tmp/x").join("y/z"));
}
