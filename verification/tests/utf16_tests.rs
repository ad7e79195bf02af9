use bootcore::utf16::as_utf16;
use bootcore::utf16::encode_utf16;
use bootcore::utf16::utf16_chunks;

#[test]
fn ascii_encodes_one_unit_per_char() {
    assert_eq!(as_utf16("abc", 6), vec![97, 98, 99, 0, 0, 0]);
}

#[test]
fn the_buffer_always_ends_terminated() {
    // Only the first l - 1 units fit; the last position stays zero.
    assert_eq!(as_utf16("abcdef", 4), vec![97, 98, 99, 0]);
    assert_eq!(as_utf16("abc", 1), vec![0]);
}

#[test]
fn empty_text_encodes_to_zeros() {
    assert_eq!(as_utf16("", 3), vec![0, 0, 0]);
}

#[test]
fn astral_chars_encode_as_surrogate_pairs() {
    // U+1D11E, the musical G clef.
    assert_eq!(as_utf16("\u{1D11E}", 4), vec![0xD834, 0xDD1E, 0, 0]);
}

#[test]
fn truncation_may_split_a_pair() {
    // One unit of room: only the high surrogate fits.
    assert_eq!(as_utf16("\u{1D11E}", 2), vec![0xD834, 0]);
}

#[test]
fn path_names_encode_like_the_firmware_expects() {
    let buf = as_utf16("kernel.elf", 1024);
    assert_eq!(buf.len(), 1024);
    assert_eq!(buf[0], b'k' as u16);
    assert_eq!(buf[9], b'f' as u16);
    assert_eq!(buf[10], 0);
}

#[test]
fn encode_utf16_yields_every_unit() {
    assert_eq!(as_utf16("ab", 3), vec![97, 98, 0]);
    let units = encode_utf16("a\u{03A9}\u{1D11E}");
    assert_eq!(units, vec![0x61, 0x3A9, 0xD834, 0xDD1E]);
    assert_eq!(encode_utf16(""), Vec::<u16>::new());
}

#[test]
fn console_chunks_split_long_text() {
    assert_eq!(utf16_chunks("").len(), 0);

    let short = utf16_chunks("ab");
    assert_eq!(short.len(), 1);
    assert_eq!(short[0].len(), 1024);
    assert_eq!(&short[0][0..3], &[97, 98, 0]);
    assert_eq!(short[0][1023], 0);

    let long = utf16_chunks(&"x".repeat(1024));
    assert_eq!(long.len(), 2);
    assert_eq!(long[0][1022], b'x' as u16);
    assert_eq!(long[0][1023], 0);
    assert_eq!(long[1][0], b'x' as u16);
    assert_eq!(long[1][1], 0);
}
