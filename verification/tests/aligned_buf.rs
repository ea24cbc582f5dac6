use ripsync::util::aligned_buf::AlignedBuf;

#[test]
fn buffer_is_writable_via_deref_mut() {
    let mut buf = AlignedBuf::new(1024);
    buf.set(0, 42);
    buf.set(999, 24);
    assert_eq!(buf.get(0), 42);
    assert_eq!(buf.get(999), 24);
}

#[test]
fn deref_returns_full_slice() {
    let buf = AlignedBuf::new(512);
    assert_eq!(buf.len(), buf.len());
    let slice: &[u8] = buf.as_slice();
    assert_eq!(slice.len(), buf.len());
}

#[test]
fn allocates_at_least_the_size_asked_for() {
    let buf = AlignedBuf::new(1024);
    assert!(buf.len() >= 1024);
    assert!(!buf.is_empty());
    assert!(buf.as_slice().iter().all(|b| *b == 0));
}

#[test]
fn rounds_up_to_whole_pages() {
    let buf = AlignedBuf::with_page(100_000, 4096);
    assert_eq!(buf.len(), 102_400);
    assert_eq!(buf.len() % 4096, 0);
    let exact = AlignedBuf::with_page(8192, 4096);
    assert_eq!(exact.len(), 8192);
    let one = AlignedBuf::with_page(1, 4096);
    assert_eq!(one.len(), 4096);
}

#[test]
fn respects_minimum_page_size() {
    let buf = AlignedBuf::new(1);
    let ps = buf.page_bytes();
    assert!(buf.len() >= ps);
}

#[test]
fn size_is_page_multiple() {
    let buf = AlignedBuf::new(100_000);
    let ps = buf.page_bytes();
    assert_eq!(buf.len() % ps, 0);
}
