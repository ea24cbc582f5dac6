use ripsync::checksum::{strong_hash, RollingChecksum, STRONG_LEN};

const M: u32 = 65536;

#[test]
fn fresh_matches_manual() {
    // a = 1+2+3 = 6 ; b = 3*1 + 2*2 + 1*3 = 10 ; checksum = 6 + 10*65536.
    let rc = RollingChecksum::new(&[1, 2, 3]);
    assert_eq!(rc.value(), 6 + 10 * M);
}

#[test]
fn roll_equals_recompute() {
    let data = b"the quick brown fox jumps over the lazy dog";
    let w = 7usize;
    let mut rc = RollingChecksum::new(&data[..w]);
    for i in 1..=(data.len() - w) {
        rc.roll(data[i - 1], data[i + w - 1]);
        let fresh = RollingChecksum::new(&data[i..i + w]);
        assert_eq!(rc.value(), fresh.value(), "mismatch at offset {i}");
    }
}

#[test]
fn strong_hash_is_stable_and_16_bytes() {
    let h1 = strong_hash(b"hello");
    let h2 = strong_hash(b"hello");
    let h3 = strong_hash(b"world");
    assert_eq!(h1, h2);
    assert_ne!(h1, h3);
    assert_eq!(h1.len(), 16);
}

#[test]
fn strong_hash_is_the_blake3_prefix() {
    // BLAKE3("hello") = ea8f163db38682925e4491c5e58d4bb3506ef8c14eb78a86e908c5624a67200f
    let h = strong_hash(b"hello");
    assert_eq!(
        h,
        [0xea, 0x8f, 0x16, 0x3d, 0xb3, 0x86, 0x82, 0x92, 0x5e, 0x44, 0x91, 0xc5, 0xe5, 0x8d, 0x4b, 0xb3]
    );
    assert_eq!(STRONG_LEN, 16);
}

#[test]
fn empty_window_is_zero() {
    let rc = RollingChecksum::new(&[]);
    assert_eq!(rc.value(), 0);
    assert_eq!(rc.window_len(), 0);
}

#[test]
fn roll_over_every_window_of_a_long_buffer() {
    let data: Vec<u8> = (0..3000u32).map(|i| ((i * 7919) % 256) as u8).collect();
    let w = 700usize;
    let mut rc = RollingChecksum::new(&data[..w]);
    assert_eq!(rc.window_len(), 700);
    for i in 1..=(data.len() - w) {
        rc.roll(data[i - 1], data[i + w - 1]);
        assert_eq!(rc.value(), RollingChecksum::new(&data[i..i + w]).value());
    }
}

#[test]
fn high_bytes_wrap_the_sums() {
    // a = 255*3 = 765; b = 3*255 + 2*255 + 1*255 = 1530.
    let rc = RollingChecksum::new(&[255, 255, 255]);
    assert_eq!(rc.value(), 765 + 1530 * M);
}

#[test]
fn content_hasher_digests_the_bytes_fed() {
    let mut h = ripsync::checksum::ContentHasher::new();
    assert_eq!(h.digest(), *blake3::hash(b"").as_bytes());
    h.update(&[1, 2]);
    h.update(&[]);
    h.update(&[3]);
    assert_eq!(h.digest(), *blake3::hash(&[1, 2, 3]).as_bytes());
    assert_ne!(h.digest(), *blake3::hash(&[1, 2]).as_bytes());
}
