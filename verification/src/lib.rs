//! A low-level, sans-I/O reader and writer for the ZIP archive container
//! format, including ZIP64.
//!
//! The library parses and emits headers, the central directory, the
//! end-of-central-directory records, data descriptors, extra fields,
//! timestamps and mode bits. Compression is left to the caller.

pub mod archive;
pub mod crc;
pub mod errors;
pub mod locator;
pub mod mode;
pub mod path;
pub mod reader_at;
pub mod round_trip;
pub mod text;
pub mod time;
pub mod utils;
pub mod writer;

pub use archive::{
    CompressionMethod, CompressionMethodId, ZipArchive, ZipArchiveEntryWayfinder, ZipEntries,
    ZipEntry, ZipFileHeaderRecord, ZipFilePath, ZipReader, ZipSliceArchive, ZipSliceEntries,
    ZipSliceEntry, ZipSliceVerifier, ZipStr, ZipString, ZipVerification, ZipVerifier,
    RECOMMENDED_BUFFER_SIZE,
};
pub use crc::crc32;
pub use errors::{Error, ErrorKind};
pub use locator::ZipLocator;
pub use mode::EntryMode;
pub use reader_at::ReaderAt;
pub use writer::{
    DataDescriptorOutput, ZipArchiveWriter, ZipArchiveWriterBuilder, ZipDataWriter, ZipDirBuilder,
    ZipEntryWriter, ZipFileBuilder,
};
