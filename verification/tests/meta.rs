use ripsync::error::Error;
use ripsync::meta::{
    check_relative, confine_target, kind_from_mode, permission_bits, FileTypeKind, S_IFDIR,
    S_IFLNK, S_IFREG,
};

#[test]
fn meta_rejects_parent_escape() {
    assert!(check_relative("../etc/passwd").is_err());
    assert!(check_relative("a/../../b").is_err());
    assert!(check_relative("a/b/c").is_ok());
}

#[test]
fn escape_error_names_the_path() {
    match check_relative("a/../b") {
        Err(Error::Containment(p)) => assert_eq!(p, "a/../b"),
        other => panic!("expected a containment error, got {other:?}"),
    }
    assert!(check_relative("/etc/passwd").is_err());
    assert!(check_relative("./a/b").is_ok());
    assert!(check_relative("").is_ok());
}

#[test]
fn confined_write_lands_under_the_real_parent() {
    let ok = confine_target("/tmp/x/dst", "/tmp/x/dst/sub", "file.txt", "/tmp/x/dst/sub/file.txt");
    assert_eq!(ok.unwrap(), "/tmp/x/dst/sub/file.txt");
    let root = confine_target("/tmp/x/dst", "/tmp/x/dst", "file.txt", "/tmp/x/dst/file.txt");
    assert_eq!(root.unwrap(), "/tmp/x/dst/file.txt");
}

#[test]
fn symlinked_parent_outside_the_root_is_refused() {
    let r = confine_target("/tmp/x/dst", "/tmp/x/outside", "evil.txt", "/tmp/x/dst/escape/evil.txt");
    match r {
        Err(Error::Containment(p)) => assert_eq!(p, "/tmp/x/dst/escape/evil.txt"),
        other => panic!("expected a containment error, got {other:?}"),
    }
    // A sibling whose name merely starts with the root's name is outside too.
    assert!(confine_target("/tmp/x/dst", "/tmp/x/dst2", "f", "/tmp/x/dst2/f").is_err());
}

#[test]
fn file_type_from_mode_bits() {
    assert_eq!(kind_from_mode(S_IFREG | 0o644), FileTypeKind::File);
    assert_eq!(kind_from_mode(S_IFDIR | 0o755), FileTypeKind::Dir);
    assert_eq!(kind_from_mode(S_IFLNK | 0o777), FileTypeKind::Symlink);
    assert_eq!(kind_from_mode(0o010000), FileTypeKind::Other);
}

#[test]
fn permission_bits_keep_sticky_and_drop_type() {
    assert_eq!(permission_bits(S_IFREG | 0o644), 0o644);
    assert_eq!(permission_bits(S_IFDIR | 0o1777), 0o1777);
    assert_eq!(permission_bits(0o104755), 0o755);
}
