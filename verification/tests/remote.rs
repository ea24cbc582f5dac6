use ripsync::remote::{bwlimit_parts, parse_location, Location};

#[test]
fn local_paths_stay_local() {
    assert!(matches!(parse_location("./src"), Location::Local(_)));
    assert!(matches!(parse_location("/abs/path"), Location::Local(_)));
    assert!(matches!(parse_location("relative/dir"), Location::Local(_)));
    assert!(matches!(parse_location("C:\\Users\\x"), Location::Local(_)));
    assert!(matches!(parse_location("C:/Users/x"), Location::Local(_)));
}

#[test]
fn remote_specs_parse() {
    match parse_location("host:/srv/data") {
        Location::Remote { user, host, path } => {
            assert_eq!(user, None);
            assert_eq!(host, "host");
            assert_eq!(path, "/srv/data");
        }
        Location::Local(_) => panic!("expected remote"),
    }
    match parse_location("alice@box:backups") {
        Location::Remote { user, host, path } => {
            assert_eq!(user.as_deref(), Some("alice"));
            assert_eq!(host, "box");
            assert_eq!(path, "backups");
        }
        Location::Local(_) => panic!("expected remote"),
    }
}

#[test]
fn local_path_keeps_its_text() {
    match parse_location("./a:b") {
        Location::Local(p) => assert_eq!(p, "./a:b"),
        Location::Remote { .. } => panic!("a path with a slash before the colon is local"),
    }
    assert!(matches!(parse_location(":x"), Location::Local(_)));
    assert!(!parse_location("dir").is_remote());
    // A single letter before the colon is a drive.
    assert!(!parse_location("h:").is_remote());
    assert!(parse_location("hh:").is_remote());
}

#[test]
fn remote_spec_with_empty_path_and_second_colon() {
    match parse_location("box:a:b") {
        Location::Remote { user, host, path } => {
            assert_eq!(user, None);
            assert_eq!(host, "box");
            assert_eq!(path, "a:b");
        }
        Location::Local(_) => panic!("expected remote"),
    }
}

#[test]
fn bwlimit_splits_number_and_unit() {
    assert_eq!(bwlimit_parts("1024"), ("1024".to_string(), 1024));
    assert_eq!(bwlimit_parts("1K"), ("1".to_string(), 1024));
    assert_eq!(bwlimit_parts("2M"), ("2".to_string(), 1024 * 1024));
    assert_eq!(bwlimit_parts(" 3g "), ("3".to_string(), 1024 * 1024 * 1024));
    assert_eq!(bwlimit_parts("nonsense"), ("nonsense".to_string(), 1024));
    assert_eq!(bwlimit_parts("1.5 k"), ("1.5".to_string(), 1024));
}
