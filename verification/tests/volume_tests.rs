use bootcore::volume::check_exact_read;
use bootcore::volume::file_size_from_info;
use bootcore::volume::open_step_advance;
use bootcore::volume::open_step_start;
use bootcore::volume::EfiFileInfo;
use bootcore::volume::VolumeOpenStep;
use bootcore::volume::EFI_STATUS_SUCCESS;
use bootcore::volume::FILE_INFO_SIZE;
use bootcore::LoadError;

fn put_u64(buf: &mut Vec<u8>, off: usize, v: u64) {
    let b = v.to_le_bytes();
    for i in 0..8 {
        buf[off + i] = b[i];
    }
}

fn info_record(file_size: u64) -> Vec<u8> {
    let mut buf = vec![0u8; 1024];
    put_u64(&mut buf, 0, FILE_INFO_SIZE as u64);
    put_u64(&mut buf, 8, file_size);
    put_u64(&mut buf, 16, file_size + 1024);
    put_u64(&mut buf, 72, 0x20);
    buf
}

#[test]
fn file_info_decodes_from_the_query_buffer() {
    let buf = info_record(136);
    let info = EfiFileInfo::from_bytes(&buf).unwrap();
    assert_eq!(info.size, FILE_INFO_SIZE as u64);
    assert_eq!(info.file_size, 136);
    assert_eq!(info.physical_size, 136 + 1024);
    assert_eq!(info.attribute, 0x20);
    assert_eq!(info.create_time.year, 0);
}

#[test]
fn file_info_times_decode() {
    let mut buf = info_record(1);
    buf[24] = 0xE9; // year 2025, low byte
    buf[25] = 0x07;
    buf[26] = 12; // month
    buf[27] = 31; // day
    let info = EfiFileInfo::from_bytes(&buf).unwrap();
    assert_eq!(info.create_time.year, 2025);
    assert_eq!(info.create_time.month, 12);
    assert_eq!(info.create_time.day, 31);
}

#[test]
fn file_info_needs_a_whole_record() {
    let buf = vec![0u8; FILE_INFO_SIZE - 1];
    assert_eq!(
        EfiFileInfo::from_bytes(&buf).err(),
        Some(LoadError::MetadataFailure)
    );
}

#[test]
fn file_size_comes_from_a_successful_query() {
    let buf = info_record(987654);
    assert_eq!(file_size_from_info(EFI_STATUS_SUCCESS, &buf).unwrap(), 987654);
}

#[test]
fn failed_query_is_a_metadata_failure() {
    let buf = info_record(10);
    assert_eq!(
        file_size_from_info(5, &buf).err(),
        Some(LoadError::MetadataFailure)
    );
    let short = vec![0u8; 10];
    assert_eq!(
        file_size_from_info(EFI_STATUS_SUCCESS, &short).err(),
        Some(LoadError::MetadataFailure)
    );
}

#[test]
fn open_sequence_walks_to_the_file() {
    let s0 = open_step_start(false);
    assert_eq!(s0, VolumeOpenStep::LocateVolume);
    let s1 = open_step_advance(s0, EFI_STATUS_SUCCESS).unwrap();
    assert_eq!(s1, VolumeOpenStep::OpenRoot);
    let s2 = open_step_advance(s1, EFI_STATUS_SUCCESS).unwrap();
    assert_eq!(s2, VolumeOpenStep::OpenFile);
    let s3 = open_step_advance(s2, EFI_STATUS_SUCCESS).unwrap();
    assert_eq!(s3, VolumeOpenStep::Opened);
}

#[test]
fn cached_root_skips_discovery() {
    assert_eq!(open_step_start(true), VolumeOpenStep::OpenFile);
}

#[test]
fn each_open_step_has_its_own_error() {
    assert_eq!(
        open_step_advance(VolumeOpenStep::LocateVolume, 14).err(),
        Some(LoadError::VolumeUnavailable)
    );
    assert_eq!(
        open_step_advance(VolumeOpenStep::OpenRoot, 14).err(),
        Some(LoadError::VolumeOpenFailure)
    );
    assert_eq!(
        open_step_advance(VolumeOpenStep::OpenFile, 14).err(),
        Some(LoadError::FileOpenFailure)
    );
}

#[test]
fn exact_reads_pass_short_reads_fail() {
    assert_eq!(check_exact_read(136, 136).unwrap(), 136);
    assert_eq!(check_exact_read(136, 135).err(), Some(LoadError::ShortRead));
    assert_eq!(check_exact_read(0, 0).unwrap(), 0);
}

#[test]
fn error_messages_name_their_cause() {
    assert_eq!(LoadError::InvalidFormat.message(), "invalid elf64 file");
    assert_eq!(LoadError::BufferTooSmall.message(), "too small buffer size");
    assert_eq!(
        LoadError::NoLoadableSegments.message(),
        "no any program headers were found"
    );
    assert_eq!(LoadError::CorruptSegment.message(), "program header is corrupted");
}
