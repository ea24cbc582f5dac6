use ripsync::pathset::{hash_path, match_paths, COMPONENT_MARK, HASH_BASIS, HASH_PRIME};

fn mix(h: u64, x: u64) -> u64 {
    (h ^ x).wrapping_mul(HASH_PRIME)
}

#[test]
fn hash_mixes_each_component_and_a_mark() {
    let a = mix(mix(HASH_BASIS, 'a' as u64), COMPONENT_MARK);
    assert_eq!(hash_path("a"), a);
    let ab = mix(mix(a, 'b' as u64), COMPONENT_MARK);
    assert_eq!(hash_path("a/b"), ab);
    assert_eq!(hash_path(""), HASH_BASIS);
}

#[test]
fn equal_paths_hash_equal() {
    assert_eq!(hash_path("a/b"), hash_path("a//b/"));
    assert_eq!(hash_path("x/./y"), hash_path("x/y"));
    assert_ne!(hash_path("ab"), hash_path("a/b"));
}

#[test]
fn each_source_finds_its_last_equal_target() {
    let targets: Vec<String> = ["a", "b", "a/", "c"].iter().map(|s| s.to_string()).collect();
    let sources: Vec<String> = ["a", "c", "d", ""].iter().map(|s| s.to_string()).collect();
    assert_eq!(match_paths(&targets, &sources), vec![Some(2), Some(3), None, None]);
    assert!(match_paths(&Vec::new(), &sources).iter().all(|m| m.is_none()));
}
