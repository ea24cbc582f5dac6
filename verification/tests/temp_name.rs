use ripsync::util::temp_name::{fresh_temp_name, temp_name};

#[test]
fn temp_names_are_sixteen_hex_digits() {
    assert_eq!(temp_name(".ripsync.tmp.", 255), ".ripsync.tmp.00000000000000ff");
    for r in [0u64, 1, 0xdead_beef, u64::MAX, 0x0123_4567_89ab_cdef] {
        assert_eq!(temp_name(".manifest-tmp-", r), format!(".manifest-tmp-{r:016x}"));
    }
}

#[test]
fn fresh_names_have_the_prefix_and_width() {
    let a = fresh_temp_name(".ripsync.tmp.");
    assert!(a.starts_with(".ripsync.tmp."));
    let digits = &a[".ripsync.tmp.".len()..];
    assert_eq!(digits.len(), 16);
    assert!(digits.chars().all(|c| c.is_ascii_hexdigit() && !c.is_ascii_uppercase()));
}
