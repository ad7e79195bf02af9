use bootcore::pages::PageAllocator;
use bootcore::pages::PageBox;
use bootcore::LoadError;

#[test]
fn zero_page_request_skips_the_firmware() {
    let mut alloc = PageAllocator::new();
    let b = PageBox::new(&mut alloc, 0).unwrap();
    assert_eq!(b.len(), 0);
    assert_eq!(alloc.alloc_calls(), 0);
    assert_eq!(alloc.live_pages(), 0);
}

#[test]
fn zero_byte_request_skips_the_firmware() {
    let mut alloc = PageAllocator::new();
    let b = PageBox::new_from_bytes(&mut alloc, 0).unwrap();
    assert_eq!(b.len(), 0);
    assert_eq!(alloc.alloc_calls(), 0);
    assert_eq!(alloc.free_calls(), 0);
}

#[test]
fn byte_sizes_round_up_to_whole_pages() {
    let mut alloc = PageAllocator::new();
    let one = PageBox::new_from_bytes(&mut alloc, 1).unwrap();
    assert_eq!(one.len(), 4096);
    let exact = PageBox::new_from_bytes(&mut alloc, 4096).unwrap();
    assert_eq!(exact.len(), 4096);
    let over = PageBox::new_from_bytes(&mut alloc, 4097).unwrap();
    assert_eq!(over.len(), 8192);
    assert_eq!(alloc.alloc_calls(), 3);
    assert_eq!(alloc.live_pages(), 4);
}

#[test]
fn granted_pages_are_zeroed() {
    let mut alloc = PageAllocator::new();
    let b = PageBox::new(&mut alloc, 1).unwrap();
    assert!(b.bytes().iter().all(|&x| x == 0));
}

#[test]
fn budget_exhaustion_is_an_allocation_failure() {
    let mut alloc = PageAllocator::with_budget(1);
    assert_eq!(
        PageBox::new(&mut alloc, 2).err(),
        Some(LoadError::AllocationFailure)
    );
    assert_eq!(alloc.alloc_calls(), 1);
    assert_eq!(alloc.live_pages(), 0);
    // What the budget still covers is granted.
    let b = PageBox::new(&mut alloc, 1).unwrap();
    assert_eq!(b.len(), 4096);
    assert_eq!(alloc.live_pages(), 1);
}

#[test]
fn release_returns_pages() {
    let mut alloc = PageAllocator::new();
    let b = PageBox::new(&mut alloc, 2).unwrap();
    assert_eq!(alloc.live_pages(), 2);
    b.release(&mut alloc);
    assert_eq!(alloc.live_pages(), 0);
    assert_eq!(alloc.free_calls(), 1);
}

#[test]
fn leak_keeps_pages_outstanding() {
    let mut alloc = PageAllocator::new();
    let b = PageBox::new(&mut alloc, 1).unwrap();
    let bytes = b.leak();
    assert_eq!(bytes.len(), 4096);
    assert_eq!(alloc.live_pages(), 1);
    assert_eq!(alloc.free_calls(), 0);
}

#[test]
fn buffer_contents_can_be_filled() {
    let mut alloc = PageAllocator::new();
    let mut b = PageBox::new_from_bytes(&mut alloc, 8).unwrap();
    let bytes = b.bytes_mut();
    bytes[0] = 0x7f;
    bytes[4095] = 0x42;
    assert_eq!(b.bytes()[0], 0x7f);
    assert_eq!(b.bytes()[4095], 0x42);
}

#[test]
fn teardown_is_observable() {
    let mut alloc = PageAllocator::new();
    assert!(alloc.is_available());
    alloc.exit_boot_services();
    assert!(!alloc.is_available());
}
