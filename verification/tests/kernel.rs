use ripsync::kernel::{kernel_supports_splice, parse_release, release_supports_splice};

#[test]
fn release_strings_parse_to_major_and_minor() {
    assert_eq!(parse_release("6.1.0-13-amd64"), (6, 1));
    assert_eq!(parse_release("5.19"), (5, 19));
    assert_eq!(parse_release("5"), (5, 0));
    assert_eq!(parse_release(""), (0, 0));
    assert_eq!(parse_release("0.0"), (0, 0));
    assert_eq!(parse_release("5..19"), (5, 0));
    assert_eq!(parse_release("x5.19"), (0, 5));
    assert_eq!(parse_release("99999999999.3"), (0, 3));
}

#[test]
fn splice_needs_5_19_or_later() {
    assert!(release_supports_splice("5.19.0"));
    assert!(release_supports_splice("6.0"));
    assert!(!release_supports_splice("5.18.9"));
    assert!(!release_supports_splice("4.99"));
    assert!(!release_supports_splice("garbage"));
}

#[test]
fn running_kernel_probe_answers() {
    // Whatever the machine, the probe returns without failing.
    let _ = kernel_supports_splice();
}
