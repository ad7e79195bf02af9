use bootcore::elf::Elf64;
use bootcore::elf::Elf64ExpandInfo;
use bootcore::elf::Elf64PhdrIter;
use bootcore::LoadError;

fn put_u16(buf: &mut Vec<u8>, off: usize, v: u16) {
    let b = v.to_le_bytes();
    buf[off] = b[0];
    buf[off + 1] = b[1];
}

fn put_u32(buf: &mut Vec<u8>, off: usize, v: u32) {
    let b = v.to_le_bytes();
    for i in 0..4 {
        buf[off + i] = b[i];
    }
}

fn put_u64(buf: &mut Vec<u8>, off: usize, v: u64) {
    let b = v.to_le_bytes();
    for i in 0..8 {
        buf[off + i] = b[i];
    }
}

/// A 64-byte header declaring a program-header table.
fn make_header(entry: u64, phoff: u64, phentsize: u16, phnum: u16) -> Vec<u8> {
    let mut h = vec![0u8; 64];
    h[0] = 0x7f;
    h[1] = b'E';
    h[2] = b'L';
    h[3] = b'F';
    put_u64(&mut h, 24, entry);
    put_u64(&mut h, 32, phoff);
    put_u16(&mut h, 54, phentsize);
    put_u16(&mut h, 56, phnum);
    h
}

/// One 56-byte program-header entry.
fn make_phdr(p_type: u32, flags: u32, offset: u64, vaddr: u64, filesz: u64, memsz: u64) -> Vec<u8> {
    let mut p = vec![0u8; 56];
    put_u32(&mut p, 0, p_type);
    put_u32(&mut p, 4, flags);
    put_u64(&mut p, 8, offset);
    put_u64(&mut p, 16, vaddr);
    put_u64(&mut p, 32, filesz);
    put_u64(&mut p, 40, memsz);
    p
}

/// The scenario image: header, one loadable segment entry, 16 data bytes.
fn single_segment_image() -> Vec<u8> {
    let mut img = make_header(0x1008, 64, 56, 1);
    img.extend(make_phdr(1, 0x5, 120, 0x1000, 16, 32));
    for i in 0..16 {
        img.push(0xB0 + i as u8);
    }
    assert_eq!(img.len(), 136);
    img
}

#[test]
fn new_rejects_short_buffer() {
    let buf = vec![0x7f, b'E', b'L', b'F'];
    assert_eq!(Elf64::new(&buf).err(), Some(LoadError::InvalidFormat));
    let empty: Vec<u8> = Vec::new();
    assert_eq!(Elf64::new(&empty).err(), Some(LoadError::InvalidFormat));
    let sixty_three = vec![0u8; 63];
    assert_eq!(Elf64::new(&sixty_three).err(), Some(LoadError::InvalidFormat));
}

#[test]
fn new_rejects_bad_magic() {
    let mut buf = make_header(0, 64, 56, 0);
    buf[1] = b'X';
    assert_eq!(Elf64::new(&buf).err(), Some(LoadError::InvalidFormat));
}

#[test]
fn new_accepts_valid_header() {
    let buf = make_header(0x40_0000, 64, 56, 0);
    assert!(Elf64::new(&buf).is_ok());
}

#[test]
fn entry_reads_header_field() {
    let buf = make_header(0xdead_beef_cafe, 64, 56, 0);
    let elf = Elf64::new(&buf).unwrap();
    assert_eq!(elf.entry().unwrap(), 0xdead_beef_cafe);
}

#[test]
fn elf_header_fields() {
    let mut buf = make_header(0x1234, 64, 56, 2);
    put_u16(&mut buf, 16, 2); // object kind
    put_u16(&mut buf, 18, 62); // machine
    let elf = Elf64::new(&buf).unwrap();
    let h = elf.elf_header().unwrap();
    assert_eq!(h.e_entry, 0x1234);
    assert_eq!(h.e_phoff, 64);
    assert_eq!(h.e_phentsize, 56);
    assert_eq!(h.e_phnum, 2);
    assert_eq!(h.e_type, 2);
    assert_eq!(h.e_machine, 62);
    assert_eq!(h.e_ident[0], 0x7f);
    assert_eq!(h.e_ident[1], b'E');
}

#[test]
fn get_is_bounds_checked() {
    let buf = make_header(0, 64, 56, 0);
    let elf = Elf64::new(&buf).unwrap();
    assert_eq!(elf.get(0, 4).unwrap(), &[0x7f, b'E', b'L', b'F']);
    assert_eq!(elf.get(0, 65).err(), Some(LoadError::InvalidFormat));
    assert_eq!(elf.get(10, 4).err(), Some(LoadError::InvalidFormat));
}

#[test]
fn program_headers_fails_eagerly_on_bad_table_bounds() {
    // The table the header declares runs past the end of the buffer.
    let buf = make_header(0, 64, 56, 3);
    let elf = Elf64::new(&buf).unwrap();
    assert!(elf.program_headers().is_err());
    assert_eq!(elf.expand_info().err(), Some(LoadError::InvalidFormat));
}

#[test]
fn program_headers_walks_entries() {
    let mut img = make_header(0, 64, 56, 2);
    img.extend(make_phdr(0, 0, 0, 0, 0, 0));
    img.extend(make_phdr(1, 0x7, 0, 0x2000, 0, 8));
    let elf = Elf64::new(&img).unwrap();
    let mut it = elf.program_headers().unwrap();
    let first = it.next().unwrap();
    assert_eq!(first.p_type, 0);
    let second = it.next().unwrap();
    assert_eq!(second.p_type, 1);
    assert_eq!(second.p_vaddr, 0x2000);
    assert!(second.x_flag());
    assert!(second.w_flag());
    assert!(second.r_flag());
    assert!(it.next().is_none());
}

#[test]
fn segment_flags_decode() {
    let mut img = make_header(0, 64, 56, 1);
    img.extend(make_phdr(1, 0x4, 0, 0, 0, 0));
    let elf = Elf64::new(&img).unwrap();
    let mut it = elf.program_headers().unwrap();
    let p = it.next().unwrap();
    assert!(p.r_flag());
    assert!(!p.w_flag());
    assert!(!p.x_flag());
}

#[test]
fn expand_info_spans_all_loadable_segments() {
    let mut img = make_header(0, 64, 56, 3);
    img.extend(make_phdr(1, 0, 0, 0x3000, 0, 0x100));
    img.extend(make_phdr(0, 0, 0, 0x9999, 0, 0x9999)); // ignored
    img.extend(make_phdr(1, 0, 0, 0x1000, 0, 0x80));
    let elf = Elf64::new(&img).unwrap();
    let info = elf.expand_info().unwrap();
    assert_eq!(info.lower_addr, 0x1000);
    assert_eq!(info.upper_addr, 0x3100);
    assert!(info.lower_addr <= info.upper_addr);
}

#[test]
fn expand_info_without_loadable_segment() {
    let mut img = make_header(0, 64, 56, 1);
    img.extend(make_phdr(0, 0, 0, 0, 0, 0));
    let elf = Elf64::new(&img).unwrap();
    assert_eq!(elf.expand_info().err(), Some(LoadError::NoLoadableSegments));

    let empty_table = make_header(0, 64, 56, 0);
    let elf = Elf64::new(&empty_table).unwrap();
    assert_eq!(elf.expand_info().err(), Some(LoadError::NoLoadableSegments));
}

#[test]
fn expand_info_rejects_memsz_below_filesz() {
    let mut img = make_header(0, 64, 56, 1);
    img.extend(make_phdr(1, 0, 0, 0x1000, 32, 16));
    let elf = Elf64::new(&img).unwrap();
    assert_eq!(elf.expand_info().err(), Some(LoadError::CorruptSegment));
}

#[test]
fn expand_info_rejects_file_range_outside_image() {
    let mut img = make_header(0, 64, 56, 1);
    img.extend(make_phdr(1, 0, 100, 0x1000, 64, 64));
    let elf = Elf64::new(&img).unwrap();
    assert_eq!(elf.expand_info().err(), Some(LoadError::CorruptSegment));
}

#[test]
fn expand_info_is_pure() {
    let img = single_segment_image();
    let elf = Elf64::new(&img).unwrap();
    let a = elf.expand_info();
    let b = elf.expand_info();
    assert_eq!(a, b);
    assert_eq!(a.unwrap(), Elf64ExpandInfo { lower_addr: 0x1000, upper_addr: 0x1020 });
}

#[test]
fn expand_single_segment_scenario() {
    // Header, one 56-byte loadable entry {offset 120, vaddr 0x1000,
    // filesz 16, memsz 32}, 136 bytes in all.
    let img = single_segment_image();
    let elf = Elf64::new(&img).unwrap();
    let info = elf.expand_info().unwrap();
    assert_eq!((info.lower_addr, info.upper_addr), (0x1000, 0x1020));

    let mut dst = vec![0xFFu8; 32];
    elf.expand(&mut dst).unwrap();
    assert_eq!(&dst[0..16], &img[120..136]);
    assert_eq!(&dst[16..32], &[0u8; 16]);
}

#[test]
fn expand_rejects_small_destination_untouched() {
    let img = single_segment_image();
    let elf = Elf64::new(&img).unwrap();
    let mut dst = vec![0xEEu8; 31];
    assert_eq!(elf.expand(&mut dst).err(), Some(LoadError::BufferTooSmall));
    assert_eq!(dst, vec![0xEEu8; 31]);
}

#[test]
fn expand_propagates_walk_errors_untouched() {
    let mut img = make_header(0, 64, 56, 1);
    img.extend(make_phdr(1, 0, 0, 0x1000, 32, 16));
    let elf = Elf64::new(&img).unwrap();
    let mut dst = vec![0x55u8; 64];
    assert_eq!(elf.expand(&mut dst).err(), Some(LoadError::CorruptSegment));
    assert_eq!(dst, vec![0x55u8; 64]);
}

#[test]
fn expand_zero_fills_gaps_between_segments() {
    // Two loadable segments with a hole between them; the hole reads zero.
    let mut img = make_header(0, 64, 56, 2);
    img.extend(make_phdr(1, 0, 176, 0x100, 2, 2));
    img.extend(make_phdr(1, 0, 178, 0x108, 2, 2));
    img.extend(vec![0xA1, 0xA2, 0xA3, 0xA4]);
    assert_eq!(img.len(), 180);
    let elf = Elf64::new(&img).unwrap();
    let info = elf.expand_info().unwrap();
    assert_eq!((info.lower_addr, info.upper_addr), (0x100, 0x10a));
    let mut dst = vec![0x77u8; 10];
    elf.expand(&mut dst).unwrap();
    assert_eq!(dst, vec![0xA1, 0xA2, 0, 0, 0, 0, 0, 0, 0xA3, 0xA4]);
}

#[test]
fn phdr_iter_checks_its_table_shape() {
    let table = vec![0u8; 112];
    assert!(Elf64PhdrIter::new(&table, 2, 56).is_ok());
    assert_eq!(
        Elf64PhdrIter::new(&table, 3, 56).err(),
        Some(LoadError::InvalidFormat)
    );
    // Entries too small to carry the declared fields are refused.
    assert_eq!(
        Elf64PhdrIter::new(&table, 4, 28).err(),
        Some(LoadError::InvalidFormat)
    );
    let empty: Vec<u8> = Vec::new();
    assert!(Elf64PhdrIter::new(&empty, 0, 56).is_ok());
}

#[test]
fn wide_table_entries_are_stepped_over() {
    // Entries may be larger than the fields this loader reads; the walk
    // advances by the declared entry size.
    let mut img = make_header(0, 64, 64, 2);
    let mut first = make_phdr(1, 0, 0, 0x1000, 0, 0x10);
    first.extend([0u8; 8]);
    let mut second = make_phdr(1, 0, 0, 0x2000, 0, 0x10);
    second.extend([0u8; 8]);
    img.extend(first);
    img.extend(second);
    assert_eq!(img.len(), 64 + 2 * 64);
    let elf = Elf64::new(&img).unwrap();
    let info = elf.expand_info().unwrap();
    assert_eq!((info.lower_addr, info.upper_addr), (0x1000, 0x2010));
}

#[test]
fn undersized_table_entries_are_refused() {
    // An entry too small to carry the declared fields cannot be walked.
    let mut img = make_header(0, 64, 8, 1);
    img.extend([0u8; 8]);
    let elf = Elf64::new(&img).unwrap();
    assert_eq!(elf.program_headers().err(), Some(LoadError::InvalidFormat));
}
