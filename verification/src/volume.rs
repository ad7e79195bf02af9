use crate::error::LoadError;
use crate::le::le16;
use crate::le::le32;
use crate::le::le64;
use crate::le::read_u16;
use crate::le::read_u32;
use crate::le::read_u64;
use vstd::prelude::*;

verus! {

/// The firmware's status code for success; every other value is a failure.
pub const EFI_STATUS_SUCCESS: usize = 0;

/// Size in bytes of the fixed-size file-information record.
pub const FILE_INFO_SIZE: usize = 80;

/// A point in time as the firmware reports it in file metadata.
#[derive(Clone, Copy, Debug, PartialEq, Eq, Structural)]
pub struct EfiTime {
    pub year: u16,
    pub month: u8,
    pub day: u8,
    pub hour: u8,
    pub minute: u8,
    pub second: u8,
    pub nanosecond: u32,
    pub time_zone: i16,
    pub day_light: u8,
}

/// The fixed-size file-information record the firmware fills on a metadata
/// query, modelled over plain values.
#[derive(Clone, Copy, Debug, PartialEq, Eq, Structural)]
pub struct EfiFileInfo {
    pub size: u64,
    pub file_size: u64,
    pub physical_size: u64,
    pub create_time: EfiTime,
    pub last_access_time: EfiTime,
    pub modification_time: EfiTime,
    pub attribute: u64,
}

/// The time record stored at byte offset `base` of `s`.
pub open spec fn spec_time(s: Seq<u8>, base: int) -> EfiTime {
    EfiTime {
        year: le16(s, base),
        month: s[base + 2],
        day: s[base + 3],
        hour: s[base + 4],
        minute: s[base + 5],
        second: s[base + 6],
        nanosecond: le32(s, base + 8),
        time_zone: le16(s, base + 12) as i16,
        day_light: s[base + 14],
    }
}

/// The file-information record stored at the start of `s`.
pub open spec fn spec_file_info(s: Seq<u8>) -> EfiFileInfo {
    EfiFileInfo {
        size: le64(s, 0),
        file_size: le64(s, 8),
        physical_size: le64(s, 16),
        create_time: spec_time(s, 24),
        last_access_time: spec_time(s, 40),
        modification_time: spec_time(s, 56),
        attribute: le64(s, 72),
    }
}

fn read_time(buf: &[u8], base: usize) -> (r: EfiTime)
    requires
        base + 16 <= buf@.len(),
    ensures
        r == spec_time(buf@, base as int),
{
    let n = buf.len();
    assert(base + 16 <= n);
    EfiTime {
        year: read_u16(buf, base),
        month: *vstd::slice::slice_index_get(buf, base + 2),
        day: *vstd::slice::slice_index_get(buf, base + 3),
        hour: *vstd::slice::slice_index_get(buf, base + 4),
        minute: *vstd::slice::slice_index_get(buf, base + 5),
        second: *vstd::slice::slice_index_get(buf, base + 6),
        nanosecond: read_u32(buf, base + 8),
        time_zone: read_u16(buf, base + 12) as i16,
        day_light: *vstd::slice::slice_index_get(buf, base + 14),
    }
}

impl EfiFileInfo {
    /// Decodes the record out of the query buffer the firmware filled.
    /// Fails if the buffer holds less than a full record.
    pub fn from_bytes(buf: &[u8]) -> (r: Result<EfiFileInfo, LoadError>)
        ensures
            buf@.len() >= FILE_INFO_SIZE ==> r == Ok::<EfiFileInfo, LoadError>(
                spec_file_info(buf@),
            ),
            buf@.len() < FILE_INFO_SIZE ==> r == Err::<EfiFileInfo, LoadError>(
                LoadError::MetadataFailure,
            ),
    {
        if buf.len() < FILE_INFO_SIZE {
            return Err(LoadError::MetadataFailure);
        }
        Ok(
            EfiFileInfo {
                size: read_u64(buf, 0),
                file_size: read_u64(buf, 8),
                physical_size: read_u64(buf, 16),
                create_time: read_time(buf, 24),
                last_access_time: read_time(buf, 40),
                modification_time: read_time(buf, 56),
                attribute: read_u64(buf, 72),
            },
        )
    }
}

/// The byte size a metadata query reports: the query must have succeeded
/// and its record must fit what the firmware wrote into the fixed buffer.
pub fn file_size_from_info(status: usize, buf: &[u8]) -> (r: Result<u64, LoadError>)
    ensures
        status == EFI_STATUS_SUCCESS && buf@.len() >= FILE_INFO_SIZE ==> r == Ok::<
            u64,
            LoadError,
        >(spec_file_info(buf@).file_size),
        !(status == EFI_STATUS_SUCCESS && buf@.len() >= FILE_INFO_SIZE) ==> r == Err::<
            u64,
            LoadError,
        >(LoadError::MetadataFailure),
{
    if status != EFI_STATUS_SUCCESS {
        return Err(LoadError::MetadataFailure);
    }
    let info = EfiFileInfo::from_bytes(buf)?;
    Ok(info.file_size)
}

/// Where the open sequence of a file on the boot volume stands. The root
/// directory is resolved once and cached, so a later open starts at
/// `OpenFile` directly.
#[derive(Clone, Copy, Debug, PartialEq, Eq, Structural)]
pub enum VolumeOpenStep {
    /// Locate a filesystem-capable volume.
    LocateVolume,
    /// Open the volume's root directory.
    OpenRoot,
    /// Open the named file beneath the root.
    OpenFile,
    /// The file is open and readable.
    Opened,
}

/// Where an open sequence begins: beneath the cached root directory when
/// one is held, else at volume discovery. A failed first attempt leaves no
/// cached root, so a later attempt starts over rather than staying poisoned.
pub fn open_step_start(root_cached: bool) -> (r: VolumeOpenStep)
    ensures
        root_cached ==> r == VolumeOpenStep::OpenFile,
        !root_cached ==> r == VolumeOpenStep::LocateVolume,
{
    if root_cached {
        VolumeOpenStep::OpenFile
    } else {
        VolumeOpenStep::LocateVolume
    }
}

/// Advances the open sequence on the status the firmware returned for the
/// current step's call. A failure surfaces as the step's own error kind and
/// ends the sequence.
pub fn open_step_advance(step: VolumeOpenStep, status: usize) -> (r: Result<
    VolumeOpenStep,
    LoadError,
>)
    requires
        step != VolumeOpenStep::Opened,
    ensures
        status == EFI_STATUS_SUCCESS ==> r == Ok::<VolumeOpenStep, LoadError>(
            match step {
                VolumeOpenStep::LocateVolume => VolumeOpenStep::OpenRoot,
                VolumeOpenStep::OpenRoot => VolumeOpenStep::OpenFile,
                VolumeOpenStep::OpenFile => VolumeOpenStep::Opened,
                VolumeOpenStep::Opened => VolumeOpenStep::Opened,
            },
        ),
        status != EFI_STATUS_SUCCESS ==> r == Err::<VolumeOpenStep, LoadError>(
            match step {
                VolumeOpenStep::LocateVolume => LoadError::VolumeUnavailable,
                VolumeOpenStep::OpenRoot => LoadError::VolumeOpenFailure,
                VolumeOpenStep::OpenFile => LoadError::FileOpenFailure,
                VolumeOpenStep::Opened => LoadError::FileOpenFailure,
            },
        ),
{
    if status == EFI_STATUS_SUCCESS {
        Ok(
            match step {
                VolumeOpenStep::LocateVolume => VolumeOpenStep::OpenRoot,
                VolumeOpenStep::OpenRoot => VolumeOpenStep::OpenFile,
                VolumeOpenStep::OpenFile => VolumeOpenStep::Opened,
                VolumeOpenStep::Opened => VolumeOpenStep::Opened,
            },
        )
    } else {
        Err(
            match step {
                VolumeOpenStep::LocateVolume => LoadError::VolumeUnavailable,
                VolumeOpenStep::OpenRoot => LoadError::VolumeOpenFailure,
                VolumeOpenStep::OpenFile => LoadError::FileOpenFailure,
                VolumeOpenStep::Opened => LoadError::FileOpenFailure,
            },
        )
    }
}

/// Checks that a read returned exactly the byte count the file reports:
/// the underlying protocol may legally return fewer bytes, and a short
/// read of the kernel image means a corrupt or truncated source.
pub fn check_exact_read(expected: usize, got: usize) -> (r: Result<usize, LoadError>)
    ensures
        got == expected ==> r == Ok::<usize, LoadError>(got),
        got != expected ==> r == Err::<usize, LoadError>(LoadError::ShortRead),
{
    if got == expected {
        Ok(got)
    } else {
        Err(LoadError::ShortRead)
    }
}

} // verus!
