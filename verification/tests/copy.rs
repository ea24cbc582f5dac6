use ripsync::copy::CopyStrategy::{Buffered, Kernel, Reflink, Sparse};
use ripsync::copy::{copy_ladder, failure_is_final, range_chunk, CopyStrategy, FsyncMode, ReflinkMode};

#[test]
fn ladder_orders_the_strategies() {
    assert_eq!(copy_ladder(ReflinkMode::Auto, false, true), vec![Reflink, Kernel, Buffered]);
    assert_eq!(copy_ladder(ReflinkMode::Never, true, true), vec![Sparse, Kernel, Buffered]);
    assert_eq!(copy_ladder(ReflinkMode::Always, true, false), vec![Reflink, Sparse, Buffered]);
    assert_eq!(copy_ladder(ReflinkMode::Never, false, false), vec![Buffered]);
}

#[test]
fn only_required_clones_and_the_last_resort_are_final() {
    assert!(failure_is_final(CopyStrategy::Reflink, ReflinkMode::Always));
    assert!(!failure_is_final(CopyStrategy::Reflink, ReflinkMode::Auto));
    assert!(!failure_is_final(CopyStrategy::Sparse, ReflinkMode::Always));
    assert!(!failure_is_final(CopyStrategy::Kernel, ReflinkMode::Auto));
    assert!(failure_is_final(CopyStrategy::Buffered, ReflinkMode::Never));
}

#[test]
fn kernel_copies_go_in_gigabyte_chunks() {
    assert_eq!(range_chunk(0), 0);
    assert_eq!(range_chunk(4096), 4096);
    assert_eq!(range_chunk(1 << 30), 1 << 30);
    assert_eq!(range_chunk(5 << 30), 1 << 30);
}

#[test]
fn fsync_default_is_auto() {
    assert_eq!(FsyncMode::default(), FsyncMode::Auto);
}
