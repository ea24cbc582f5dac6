use ripsync::tune::{classify, ram_class_kib, Profile, RamClass};

#[test]
fn params_scale_with_tier() {
    let low = Profile::Low.params(16);
    let high = Profile::High.params(16);
    assert_eq!(low.threads, 2);
    assert_eq!(high.threads, 16);
    assert!(high.copy_buffer > low.copy_buffer);
    assert!(high.uring_queue_depth > low.uring_queue_depth);
}

/// RAM given in GiB, as a machine reports it, classed through its KiB count.
fn ram_gib(gib: f64) -> Option<RamClass> {
    Some(ram_class_kib((gib * 1048576.0) as u64))
}

#[test]
fn classifies_tiers() {
    assert_eq!(classify(1, ram_gib(16.0)), Profile::Low); // few cores
    assert_eq!(classify(16, ram_gib(1.0)), Profile::Low); // tiny RAM
    assert_eq!(classify(4, ram_gib(8.0)), Profile::Balanced);
    assert_eq!(classify(8, ram_gib(16.0)), Profile::High);
    assert_eq!(classify(12, None), Profile::High); // unknown RAM, many cores
    assert_eq!(classify(4, None), Profile::Balanced);
}

#[test]
fn params_never_zero_threads() {
    assert_eq!(Profile::Balanced.params(0).threads, 1);
}

#[test]
fn classifies_tiers_by_ram_class() {
    assert_eq!(classify(1, Some(RamClass::Large)), Profile::Low);
    assert_eq!(classify(16, Some(RamClass::Small)), Profile::Low);
    assert_eq!(classify(4, Some(RamClass::Medium)), Profile::Balanced);
    assert_eq!(classify(8, Some(RamClass::Large)), Profile::High);
    assert_eq!(classify(12, None), Profile::High);
    assert_eq!(classify(4, None), Profile::Balanced);
    assert_eq!(classify(8, Some(RamClass::Medium)), Profile::Balanced);
}

#[test]
fn ram_thresholds_in_kib() {
    assert_eq!(ram_class_kib(2 * 1024 * 1024), RamClass::Small);
    assert_eq!(ram_class_kib(2 * 1024 * 1024 + 1), RamClass::Medium);
    assert_eq!(ram_class_kib(16 * 1024 * 1024 - 1), RamClass::Medium);
    assert_eq!(ram_class_kib(16 * 1024 * 1024), RamClass::Large);
}

#[test]
fn tier_parameters_and_names() {
    let low = Profile::Low.params(1);
    assert_eq!((low.threads, low.copy_buffer, low.uring_queue_depth, low.zstd_level), (1, 262144, 32, 1));
    let mid = Profile::Balanced.params(6);
    assert_eq!((mid.threads, mid.copy_buffer, mid.uring_queue_depth, mid.zstd_level), (6, 1048576, 128, 3));
    let high = Profile::High.params(32);
    assert_eq!((high.threads, high.copy_buffer, high.uring_queue_depth, high.zstd_level), (32, 8388608, 512, 6));
    assert_eq!(Profile::Low.name(), "low");
    assert_eq!(Profile::Balanced.name(), "balanced");
    assert_eq!(Profile::High.name(), "high");
}
