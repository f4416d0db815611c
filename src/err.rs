//! Error taxonomies of the header and legacy-MBR codecs.
use vstd::prelude::*;

verus! {

/// Errors returned when interacting with a header.
#[non_exhaustive]
#[derive(Debug, Clone, Copy, PartialEq, Eq, Structural)]
pub enum HeaderError {
    /// The first eight bytes are not "EFI PART": there is no GPT header here.
    InvalidGptSignature,
    /// The header checksum does not match: the header is corrupted or only
    /// partly written.
    InvalidCRC32Checksum,
    /// A header under construction was never given its backup LBA.
    MissingBackupLba,
    /// There is not enough space between the first usable LBA and the backup LBA.
    BackupLbaToEarly,
    /// A header copy is about to be written to the LBA of the other copy.
    WritingToWrongLba,
    /// The disk is too small to hold a backup header.
    ToSmallForBackup,
}

/// Errors returned when interacting with the legacy boot sector.
#[non_exhaustive]
#[derive(Debug, Clone, Copy, PartialEq, Eq, Structural)]
pub enum MBRError {
    /// The buffer does not have the length of a boot sector.
    InvalidMBRLength,
    /// The boot sector does not end with the bytes 0x55 0xAA.
    InvalidMBRSignature,
    /// A partition record is not sixteen bytes long.
    InvalidPartitionLength,
}

} // verus!
