use bootcore::loader::Kernel;
use bootcore::pages::PageAllocator;
use bootcore::pages::PageBox;
use bootcore::LoadError;

fn put_u16(buf: &mut Vec<u8>, off: usize, v: u16) {
    let b = v.to_le_bytes();
    buf[off] = b[0];
    buf[off + 1] = b[1];
}

fn put_u32(buf: &mut Vec<u8>, off: usize, v: u32) {
    let b = v.to_le_bytes();
    for i in 0..4 {
        buf[off + i] = b[i];
    }
}

fn put_u64(buf: &mut Vec<u8>, off: usize, v: u64) {
    let b = v.to_le_bytes();
    for i in 0..8 {
        buf[off + i] = b[i];
    }
}

/// A bootable image: header, one loadable segment entry, 16 data bytes.
fn single_segment_image() -> Vec<u8> {
    let mut img = vec![0u8; 64];
    img[0] = 0x7f;
    img[1] = b'E';
    img[2] = b'L';
    img[3] = b'F';
    put_u64(&mut img, 24, 0x1008);
    put_u64(&mut img, 32, 64);
    put_u16(&mut img, 54, 56);
    put_u16(&mut img, 56, 1);
    let mut phdr = vec![0u8; 56];
    put_u32(&mut phdr, 0, 1);
    put_u64(&mut phdr, 8, 120);
    put_u64(&mut phdr, 16, 0x1000);
    put_u64(&mut phdr, 32, 16);
    put_u64(&mut phdr, 40, 32);
    img.extend(phdr);
    for i in 0..16 {
        img.push(0xC0 + i as u8);
    }
    img
}

/// Loads `img` the way the boot path does: a page-rounded temporary buffer
/// filled by the (here: simulated) file read, then the expansion step.
fn load(alloc: &mut PageAllocator, img: &[u8]) -> Result<Kernel, LoadError> {
    let mut tmp = PageBox::new_from_bytes(alloc, img.len()).unwrap();
    let n = img.len();
    let dst = tmp.bytes_mut();
    for i in 0..n {
        dst[i] = img[i];
    }
    Kernel::new(alloc, tmp, n, n)
}

#[test]
fn kernel_new_builds_the_descriptor() {
    let mut alloc = PageAllocator::new();
    let img = single_segment_image();
    let kernel = load(&mut alloc, &img).unwrap();
    assert_eq!(kernel.kernel_virtual_addr, 0x1000);
    assert_eq!(kernel.entry_point, 0x1008);
    // The final buffer is page-rounded around the 32-byte span.
    assert_eq!(kernel.kernel_buff.len(), 4096);
    assert_eq!(&kernel.kernel_buff[0..16], &img[120..136]);
    assert!(kernel.kernel_buff[16..].iter().all(|&b| b == 0));
}

#[test]
fn temporary_buffer_is_released_and_final_buffer_stays() {
    let mut alloc = PageAllocator::new();
    let img = single_segment_image();
    let _kernel = load(&mut alloc, &img).unwrap();
    // One page for the temporary buffer (released), one for the image.
    assert_eq!(alloc.alloc_calls(), 2);
    assert_eq!(alloc.free_calls(), 1);
    assert_eq!(alloc.live_pages(), 1);
}

#[test]
fn short_read_is_rejected_and_the_buffer_released() {
    let mut alloc = PageAllocator::new();
    let img = single_segment_image();
    let mut tmp = PageBox::new_from_bytes(&mut alloc, img.len()).unwrap();
    let dst = tmp.bytes_mut();
    for i in 0..img.len() {
        dst[i] = img[i];
    }
    let r = Kernel::new(&mut alloc, tmp, img.len(), img.len() - 1);
    assert_eq!(r.err(), Some(LoadError::ShortRead));
    assert_eq!(alloc.alloc_calls(), 1);
    assert_eq!(alloc.free_calls(), 1);
    assert_eq!(alloc.live_pages(), 0);
}

#[test]
fn empty_file_loads_but_is_no_image() {
    // A zero-byte file: the temporary buffer is empty and costs no
    // firmware call, the zero-length read matches the reported size, and
    // only the format check then turns the empty image away.
    let mut alloc = PageAllocator::new();
    let tmp = PageBox::new_from_bytes(&mut alloc, 0).unwrap();
    assert_eq!(alloc.alloc_calls(), 0);
    let r = Kernel::new(&mut alloc, tmp, 0, 0);
    assert_eq!(r.err(), Some(LoadError::InvalidFormat));
    assert_eq!(alloc.alloc_calls(), 0);
    assert_eq!(alloc.live_pages(), 0);
}

#[test]
fn allocation_failure_mid_pipeline_releases_the_temporary_buffer() {
    // The budget covers the temporary buffer but not the final image.
    let mut alloc = PageAllocator::with_budget(1);
    let img = single_segment_image();
    let r = load(&mut alloc, &img);
    assert_eq!(r.err(), Some(LoadError::AllocationFailure));
    assert_eq!(alloc.free_calls(), 1);
    assert_eq!(alloc.live_pages(), 0);
}

#[test]
fn corrupt_images_propagate_their_error() {
    let mut alloc = PageAllocator::new();
    let mut img = single_segment_image();
    // Claim more file-resident bytes than the image holds.
    put_u64(&mut img, 64 + 32, 1000);
    put_u64(&mut img, 64 + 40, 1000);
    let r = load(&mut alloc, &img);
    assert_eq!(r.err(), Some(LoadError::CorruptSegment));
    assert_eq!(alloc.live_pages(), 0);
}

#[test]
fn expand_kernel_works_on_plain_bytes() {
    let mut alloc = PageAllocator::new();
    let img = single_segment_image();
    let kernel = Kernel::expand_kernel(&mut alloc, &img).unwrap();
    assert_eq!(kernel.kernel_virtual_addr, 0x1000);
    assert_eq!(kernel.entry_point, 0x1008);
    assert_eq!(alloc.live_pages(), 1);
}
