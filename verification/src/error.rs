use vstd::prelude::*;

verus! {

/// The loader's error taxonomy. Every fallible step of the pipeline reports
/// one of these kinds; the orchestrator propagates the first failure upward
/// unchanged.
#[derive(Clone, Copy, Debug, PartialEq, Eq, Structural)]
pub enum LoadError {
    /// The firmware declined a page-allocation request.
    AllocationFailure,
    /// No filesystem-capable volume is present.
    VolumeUnavailable,
    /// The boot volume's root directory could not be opened.
    VolumeOpenFailure,
    /// The named file could not be opened beneath the root directory.
    FileOpenFailure,
    /// The file-metadata query failed, or its record did not fit the fixed
    /// query buffer.
    MetadataFailure,
    /// A read returned fewer bytes than the file's reported size.
    ShortRead,
    /// The buffer is shorter than the fixed header, the identification bytes
    /// do not match, or the program-header table lies outside the buffer.
    InvalidFormat,
    /// A loadable segment's size or offset fields are inconsistent with the
    /// image that carries it.
    CorruptSegment,
    /// The image describes no loadable segment, so there is nothing to boot.
    NoLoadableSegments,
    /// The destination buffer is smaller than the expansion span.
    BufferTooSmall,
}

impl LoadError {
    /// A short description of the error, for the embedder's console.
    pub fn message(&self) -> (r: &'static str)
    {
        match self {
            LoadError::AllocationFailure => "failed to alloc pages",
            LoadError::VolumeUnavailable => "failed to locate the filesystem protocol",
            LoadError::VolumeOpenFailure => "failed to open volume",
            LoadError::FileOpenFailure => "failed to open file",
            LoadError::MetadataFailure => "failed to get file size",
            LoadError::ShortRead => "read fewer bytes than the file reports",
            LoadError::InvalidFormat => "invalid elf64 file",
            LoadError::CorruptSegment => "program header is corrupted",
            LoadError::NoLoadableSegments => "no any program headers were found",
            LoadError::BufferTooSmall => "too small buffer size",
        }
    }
}

} // verus!
