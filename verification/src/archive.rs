//! Reading archives: the central directory, its records, and the entries
//! they lead to.

use crate::crc::{
    crc32_chunk_with,
    crc32_spec,
    gen_crc_table,
    is_crc_table,
    lemma_crc32_chunked,
    lemma_crc32_empty,
};
use crate::errors::{error_of, outcome, Error, ErrorKind};
use crate::locator::{
    locate_in_slice_spec,
    EndOfCentralDirectoryRecordFixed,
    ZipLocator,
    END_OF_CENTRAL_DIR_MAX_OFFSET,
    END_OF_CENTRAL_DIR_SIGNATURE64,
};
use crate::mode::{entry_mode, mode_of, EntryMode};
use crate::reader_at::{
    in_bounds,
    move_within,
    read_at_least_at,
    read_exact_at,
    window,
    ReaderAt,
};
use crate::time::{best_timestamp, extract_best_timestamp, ZipDateTimeKind};
use crate::utils::{
    le_u16_at,
    le_u32_at,
    le_u64_at,
    put_u16,
    put_u32,
    read_u16,
    read_u32,
    read_u64,
    u16_le_bytes,
    u32_le_bytes,
};
use crate::path::normalize_spec;
use std::borrow::Cow;
use vstd::prelude::*;
use vstd::utf8::{decode_utf8, valid_utf8};

verus! {

/// The signature of a central directory record.
pub const CENTRAL_HEADER_SIGNATURE: u32 = 0x02014b50;

/// The recommended buffer size to use when reading from a zip file.
///
/// A buffer of this size holds any central directory record whose variable
/// part keeps to the 65,535 bytes that the format recommends.
pub const RECOMMENDED_BUFFER_SIZE: usize = 0x1_0000;

/// The "version made by" field of a record.
#[derive(Debug, Clone, Copy, PartialEq, Eq, Structural)]
pub struct VersionMadeBy(pub u16);

impl VersionMadeBy {
    /// The raw value of the field.
    pub fn as_u16(&self) -> (v: u16)
        ensures
            v == self.0,
    {
        self.0
    }

    /// The (major, minor) version of the specification that the encoder
    /// supports: the tens and the units of the lower byte. The upper byte
    /// names the system that made the record, and plays no part.
    pub fn version(&self) -> (v: (u8, u8))
        ensures
            v.0 == (self.0 % 0x100) / 10,
            v.1 == (self.0 % 0x100) % 10,
    {
        let v: u8 = (self.0 % 0x100) as u8;
        (v / 10, v % 10)
    }
}

/// The zip64 end of central directory record, without its extensible data.
#[derive(Debug, Clone, Copy, PartialEq, Eq, Structural)]
pub struct Zip64EndOfCentralDirectoryRecord {
    /// zip64 end of central dir signature
    pub signature: u32,
    /// size of zip64 end of central directory record
    pub size: u64,
    /// version made by
    pub version_made_by: VersionMadeBy,
    /// version needed to extract
    pub version_needed: u16,
    /// number of this disk
    pub disk_number: u32,
    /// number of the disk with the start of the central directory
    pub cd_disk: u32,
    /// total number of entries in the central directory on this disk
    pub num_entries: u64,
    /// total number of entries in the central directory
    pub total_entries: u64,
    /// size of the central directory
    pub central_dir_size: u64,
    /// offset of start of central directory with respect to the starting disk number
    pub central_dir_offset: u64,
}

impl Zip64EndOfCentralDirectoryRecord {
    /// The length of the fixed part of the record.
    pub const SIZE: usize = 56;

    /// The record that the first 56 bytes of `data` encode.
    pub open spec fn decode(data: Seq<u8>) -> Self {
        Zip64EndOfCentralDirectoryRecord {
            signature: le_u32_at(data, 0) as u32,
            size: le_u64_at(data, 4) as u64,
            version_made_by: VersionMadeBy(le_u16_at(data, 12) as u16),
            version_needed: le_u16_at(data, 14) as u16,
            disk_number: le_u32_at(data, 16) as u32,
            cd_disk: le_u32_at(data, 20) as u32,
            num_entries: le_u64_at(data, 24) as u64,
            total_entries: le_u64_at(data, 32) as u64,
            central_dir_size: le_u64_at(data, 40) as u64,
            central_dir_offset: le_u64_at(data, 48) as u64,
        }
    }

    /// What parsing `data` gives: `Eof` where it is shorter than the record,
    /// `InvalidSignature` where it starts with other bytes than the
    /// signature, else the record.
    pub open spec fn parse_spec(data: Seq<u8>) -> Result<Self, ErrorKind> {
        if data.len() < 56 {
            Err(ErrorKind::Eof)
        } else if le_u32_at(data, 0) != END_OF_CENTRAL_DIR_SIGNATURE64 {
            Err(
                ErrorKind::InvalidSignature {
                    expected: END_OF_CENTRAL_DIR_SIGNATURE64,
                    actual: le_u32_at(data, 0) as u32,
                },
            )
        } else {
            Ok(Self::decode(data))
        }
    }

    /// Parses the record at the start of `data`.
    pub fn parse(data: &[u8]) -> (r: Result<Zip64EndOfCentralDirectoryRecord, Error>)
        ensures
            outcome(r) == Self::parse_spec(data@),
    {
        if data.len() < 56 {
            return Err(error_of(ErrorKind::Eof));
        }
        let result = Zip64EndOfCentralDirectoryRecord {
            signature: read_u32(data, 0),
            size: read_u64(data, 4),
            version_made_by: VersionMadeBy(read_u16(data, 12)),
            version_needed: read_u16(data, 14),
            disk_number: read_u32(data, 16),
            cd_disk: read_u32(data, 20),
            num_entries: read_u64(data, 24),
            total_entries: read_u64(data, 32),
            central_dir_size: read_u64(data, 40),
            central_dir_offset: read_u64(data, 48),
        };
        if result.signature != END_OF_CENTRAL_DIR_SIGNATURE64 {
            return Err(
                error_of(
                    ErrorKind::InvalidSignature {
                        expected: END_OF_CENTRAL_DIR_SIGNATURE64,
                        actual: result.signature,
                    },
                ),
            );
        }
        Ok(result)
    }
}

/// Where the metadata of an archive lies: the end of central directory
/// record, the zip64 record where the archive has one, the offset in the
/// backing data at which the directory ends, and the offset at which the end
/// of central directory record stands. Without a zip64 record the two
/// offsets are one; with it the directory ends where that record starts.
#[derive(Debug, Clone, Copy, PartialEq, Eq, Structural)]
pub struct EndOfCentralDirectory {
    pub zip64: Option<Zip64EndOfCentralDirectoryRecord>,
    pub eocd: EndOfCentralDirectoryRecordFixed,
    pub stream_pos: u64,
    pub record_pos: u64,
}

impl EndOfCentralDirectory {
    /// The offset at which the archive proper starts in the backing data.
    ///
    /// With a zip64 record it is 0. Without one it is what is left of
    /// `stream_pos` after the directory's recorded size and offset are taken
    /// off, each difference stopping at 0.
    pub open spec fn spec_base_offset(&self) -> int {
        match self.zip64 {
            Some(_) => 0,
            None => {
                let before = if self.stream_pos >= self.eocd.central_dir_size {
                    self.stream_pos - self.eocd.central_dir_size
                } else {
                    0
                };
                if before >= self.eocd.central_dir_offset {
                    before - self.eocd.central_dir_offset
                } else {
                    0
                }
            },
        }
    }

    /// The offset at which the archive proper starts in the backing data.
    pub fn base_offset(&self) -> (r: u64)
        ensures
            r == self.spec_base_offset(),
            r <= self.stream_pos || self.zip64 is Some,
    {
        match &self.zip64 {
            Some(_) => 0,
            None => {
                let size = self.eocd.central_dir_size as u64;
                let offset = self.eocd.central_dir_offset as u64;
                self.stream_pos.saturating_sub(size).saturating_sub(offset)
            },
        }
    }

    /// The offset at which the central directory ends: where the record
    /// was found, not what its size field claims.
    pub fn end_position(&self) -> (r: u64)
        ensures
            r == self.stream_pos,
    {
        self.stream_pos
    }

    /// The offset at which the central directory starts, as the records
    /// give it: the zip64 record's offset, or the base offset and the
    /// recorded offset together.
    pub open spec fn recorded_offset(&self) -> int {
        match self.zip64 {
            Some(z) => z.central_dir_offset as int,
            None => self.spec_base_offset() + self.eocd.central_dir_offset,
        }
    }

    /// The offset at which the central directory starts. It never lies
    /// after the directory's end: an offset recorded beyond it gives an
    /// empty directory.
    pub open spec fn spec_offset(&self) -> int {
        if self.recorded_offset() <= self.stream_pos {
            self.recorded_offset()
        } else {
            self.stream_pos as int
        }
    }

    /// The offset at which the central directory starts.
    pub fn offset(&self) -> (r: u64)
        ensures
            r == self.spec_offset(),
            r <= self.stream_pos,
    {
        let recorded: u64 = match &self.zip64 {
            Some(z) => z.central_dir_offset,
            None => {
                let sum = self.base_offset().checked_add(self.eocd.central_dir_offset as u64);
                match sum {
                    Some(v) => v,
                    None => self.stream_pos,
                }
            },
        };
        if recorded <= self.stream_pos {
            recorded
        } else {
            self.stream_pos
        }
    }

    /// How many entries the records claim.
    pub open spec fn spec_entries(&self) -> int {
        match self.zip64 {
            Some(z) => z.num_entries as int,
            None => self.eocd.num_entries as int,
        }
    }

    /// How many entries the records claim.
    pub fn entries(&self) -> (r: u64)
        ensures
            r == self.spec_entries(),
    {
        match &self.zip64 {
            Some(z) => z.num_entries,
            None => self.eocd.num_entries as u64,
        }
    }

    /// The length of the archive comment.
    pub fn comment_len(&self) -> (r: usize)
        ensures
            r == self.eocd.comment_len,
    {
        self.eocd.comment_len as usize
    }
}

/// A numeric identifier for a compression method used in a Zip archive.
#[derive(Debug, Clone, Copy, PartialEq, Eq, Structural)]
pub struct CompressionMethodId(pub u16);

impl CompressionMethodId {
    /// Returns the raw `u16` value of the compression method ID.
    pub fn as_u16(&self) -> (v: u16)
        ensures
            v == self.0,
    {
        self.0
    }

    /// The method that the id names.
    pub open spec fn spec_as_method(&self) -> CompressionMethod {
        CompressionMethod::of_id(self.0)
    }

    /// Converts the numeric ID to a `CompressionMethod`.
    pub fn as_method(&self) -> (m: CompressionMethod)
        ensures
            m == self.spec_as_method(),
            m.id() == self.0,
    {
        match self.0 {
            0 => CompressionMethod::Store,
            1 => CompressionMethod::Shrunk,
            2 => CompressionMethod::Reduce1,
            3 => CompressionMethod::Reduce2,
            4 => CompressionMethod::Reduce3,
            5 => CompressionMethod::Reduce4,
            6 => CompressionMethod::Imploded,
            7 => CompressionMethod::Tokenizing,
            8 => CompressionMethod::Deflate,
            9 => CompressionMethod::Deflate64,
            10 => CompressionMethod::Terse,
            12 => CompressionMethod::Bzip2,
            14 => CompressionMethod::Lzma,
            18 => CompressionMethod::Lz77,
            20 => CompressionMethod::ZstdDeprecated,
            93 => CompressionMethod::Zstd,
            94 => CompressionMethod::Mp3,
            95 => CompressionMethod::Xz,
            96 => CompressionMethod::Jpeg,
            97 => CompressionMethod::WavPack,
            98 => CompressionMethod::Ppmd,
            99 => CompressionMethod::Aes,
            _ => CompressionMethod::Unknown(self.0),
        }
    }
}

/// The compression method used on an individual Zip archive entry.
#[derive(Debug, Clone, Copy, PartialEq, Eq, Structural)]
pub enum CompressionMethod {
    Store,
    Shrunk,
    Reduce1,
    Reduce2,
    Reduce3,
    Reduce4,
    Imploded,
    Tokenizing,
    Deflate,
    Deflate64,
    Terse,
    Bzip2,
    Lzma,
    Lz77,
    ZstdDeprecated,
    Zstd,
    Mp3,
    Xz,
    Jpeg,
    WavPack,
    Ppmd,
    Aes,
    Unknown(u16),
}

impl CompressionMethod {
    /// The number under which the format knows this method.
    pub open spec fn id(&self) -> u16 {
        match self {
            CompressionMethod::Store => 0,
            CompressionMethod::Shrunk => 1,
            CompressionMethod::Reduce1 => 2,
            CompressionMethod::Reduce2 => 3,
            CompressionMethod::Reduce3 => 4,
            CompressionMethod::Reduce4 => 5,
            CompressionMethod::Imploded => 6,
            CompressionMethod::Tokenizing => 7,
            CompressionMethod::Deflate => 8,
            CompressionMethod::Deflate64 => 9,
            CompressionMethod::Terse => 10,
            CompressionMethod::Bzip2 => 12,
            CompressionMethod::Lzma => 14,
            CompressionMethod::Lz77 => 18,
            CompressionMethod::ZstdDeprecated => 20,
            CompressionMethod::Zstd => 93,
            CompressionMethod::Mp3 => 94,
            CompressionMethod::Xz => 95,
            CompressionMethod::Jpeg => 96,
            CompressionMethod::WavPack => 97,
            CompressionMethod::Ppmd => 98,
            CompressionMethod::Aes => 99,
            CompressionMethod::Unknown(id) => *id,
        }
    }

    /// The method that the format knows under `id`; `Unknown` keeps ids
    /// that it has no name for.
    pub open spec fn of_id(id: u16) -> CompressionMethod {
        if id == 0 {
            CompressionMethod::Store
        } else if id == 1 {
            CompressionMethod::Shrunk
        } else if id == 2 {
            CompressionMethod::Reduce1
        } else if id == 3 {
            CompressionMethod::Reduce2
        } else if id == 4 {
            CompressionMethod::Reduce3
        } else if id == 5 {
            CompressionMethod::Reduce4
        } else if id == 6 {
            CompressionMethod::Imploded
        } else if id == 7 {
            CompressionMethod::Tokenizing
        } else if id == 8 {
            CompressionMethod::Deflate
        } else if id == 9 {
            CompressionMethod::Deflate64
        } else if id == 10 {
            CompressionMethod::Terse
        } else if id == 12 {
            CompressionMethod::Bzip2
        } else if id == 14 {
            CompressionMethod::Lzma
        } else if id == 18 {
            CompressionMethod::Lz77
        } else if id == 20 {
            CompressionMethod::ZstdDeprecated
        } else if id == 93 {
            CompressionMethod::Zstd
        } else if id == 94 {
            CompressionMethod::Mp3
        } else if id == 95 {
            CompressionMethod::Xz
        } else if id == 96 {
            CompressionMethod::Jpeg
        } else if id == 97 {
            CompressionMethod::WavPack
        } else if id == 98 {
            CompressionMethod::Ppmd
        } else if id == 99 {
            CompressionMethod::Aes
        } else {
            CompressionMethod::Unknown(id)
        }
    }

    /// Return the numeric id of this compression method.
    pub fn as_id(&self) -> (r: CompressionMethodId)
        ensures
            r.0 == self.id(),
    {
        let value: u16 = match self {
            CompressionMethod::Store => 0,
            CompressionMethod::Shrunk => 1,
            CompressionMethod::Reduce1 => 2,
            CompressionMethod::Reduce2 => 3,
            CompressionMethod::Reduce3 => 4,
            CompressionMethod::Reduce4 => 5,
            CompressionMethod::Imploded => 6,
            CompressionMethod::Tokenizing => 7,
            CompressionMethod::Deflate => 8,
            CompressionMethod::Deflate64 => 9,
            CompressionMethod::Terse => 10,
            CompressionMethod::Bzip2 => 12,
            CompressionMethod::Lzma => 14,
            CompressionMethod::Lz77 => 18,
            CompressionMethod::ZstdDeprecated => 20,
            CompressionMethod::Zstd => 93,
            CompressionMethod::Mp3 => 94,
            CompressionMethod::Xz => 95,
            CompressionMethod::Jpeg => 96,
            CompressionMethod::WavPack => 97,
            CompressionMethod::Ppmd => 98,
            CompressionMethod::Aes => 99,
            CompressionMethod::Unknown(id) => *id,
        };
        CompressionMethodId(value)
    }
}

impl From<u16> for CompressionMethod {
    fn from(id: u16) -> (m: CompressionMethod) {
        CompressionMethodId(id).as_method()
    }
}

impl vstd::std_specs::convert::FromSpecImpl<u16> for CompressionMethod {
    open spec fn obeys_from_spec() -> bool {
        true
    }

    open spec fn from_spec(id: u16) -> CompressionMethod {
        CompressionMethod::of_id(id)
    }
}

/// An id names the method that gives it back.
pub proof fn lemma_method_of_id(id: u16)
    ensures
        CompressionMethod::of_id(id).id() == id,
{
}

/// Borrowed text of an archive, such as a comment. It need not be UTF-8.
#[derive(Debug, Clone, Copy, PartialEq, Eq, Hash, PartialOrd, Ord)]
pub struct ZipStr<'a>(pub &'a [u8]);

impl<'a> View for ZipStr<'a> {
    type V = Seq<u8>;

    open spec fn view(&self) -> Seq<u8> {
        self.0@
    }
}

impl<'a> ZipStr<'a> {
    /// Creates a new `ZipStr` from a byte slice.
    pub fn new(data: &'a [u8]) -> (s: Self)
        ensures
            s@ == data@,
    {
        ZipStr(data)
    }

    /// Returns the underlying byte slice.
    pub fn as_bytes(&self) -> (b: &'a [u8])
        ensures
            b@ == self@,
    {
        self.0
    }

    /// An owned copy of the text.
    pub fn into_owned(&self) -> (s: ZipString)
        ensures
            s@ == self@,
    {
        ZipString::new(vstd::slice::slice_to_vec(self.0))
    }
}

/// Owned text of an archive, such as a comment. It need not be UTF-8.
#[derive(Debug, Clone, PartialEq, Eq, Hash, PartialOrd, Ord)]
pub struct ZipString(pub Vec<u8>);

impl View for ZipString {
    type V = Seq<u8>;

    open spec fn view(&self) -> Seq<u8> {
        self.0@
    }
}

impl ZipString {
    /// Creates a new `ZipString` from a vector of bytes.
    pub fn new(data: Vec<u8>) -> (s: Self)
        ensures
            s@ == data@,
    {
        ZipString(data)
    }

    /// Returns a borrowed `ZipStr` view of this `ZipString`.
    pub fn as_str(&self) -> (s: ZipStr<'_>)
        ensures
            s@ == self@,
    {
        ZipStr::new(self.0.as_slice())
    }
}

/// The expected CRC-32 checksum and uncompressed size of an entry.
#[derive(Debug, Clone, Copy, PartialEq, Eq, Structural)]
pub struct ZipVerification {
    pub crc: u32,
    pub uncompressed_size: u64,
}

impl ZipVerification {
    /// Returns the expected CRC32 checksum.
    pub fn crc(&self) -> (r: u32)
        ensures
            r == self.crc,
    {
        self.crc
    }

    /// Returns the expected uncompressed size.
    pub fn size(&self) -> (r: u64)
        ensures
            r == self.uncompressed_size,
    {
        self.uncompressed_size
    }

    /// What holding `actual` against the expected values gives: the sizes
    /// must be equal, and the checksums too unless the expected one is 0,
    /// which stands for "not recorded".
    pub open spec fn check(&self, actual: ZipVerification) -> Result<(), ErrorKind> {
        if self.uncompressed_size != actual.uncompressed_size {
            Err(
                ErrorKind::InvalidSize {
                    expected: self.uncompressed_size,
                    actual: actual.uncompressed_size,
                },
            )
        } else if self.crc != 0 && self.crc != actual.crc {
            Err(ErrorKind::InvalidChecksum { expected: self.crc, actual: actual.crc })
        } else {
            Ok(())
        }
    }

    /// Validates the size and CRC of the entry: `self` holds what is
    /// expected, `rhs` what was found.
    pub fn valid(&self, rhs: ZipVerification) -> (r: Result<(), Error>)
        ensures
            outcome(r) == self.check(rhs),
    {
        if self.size() != rhs.size() {
            return Err(
                error_of(ErrorKind::InvalidSize { expected: self.size(), actual: rhs.size() }),
            );
        }
        if self.crc() != 0 && self.crc() != rhs.crc() {
            return Err(
                error_of(ErrorKind::InvalidChecksum { expected: self.crc(), actual: rhs.crc() }),
            );
        }
        Ok(())
    }
}

/// Directions to an entry's data: what the archive needs to find and to
/// verify it, free of the record it was taken from.
#[derive(Debug, Clone, Copy, PartialEq, Eq, Structural)]
pub struct ZipArchiveEntryWayfinder {
    pub uncompressed_size: u64,
    pub compressed_size: u64,
    pub local_header_offset: u64,
    pub crc: u32,
    pub has_data_descriptor: bool,
}

impl ZipArchiveEntryWayfinder {
    /// The purported number of bytes of the uncompressed data.
    pub fn uncompressed_size_hint(&self) -> (r: u64)
        ensures
            r == self.uncompressed_size,
    {
        self.uncompressed_size
    }

    /// The purported number of bytes of the compressed data.
    pub fn compressed_size_hint(&self) -> (r: u64)
        ensures
            r == self.compressed_size,
    {
        self.compressed_size
    }
}

/// The fixed part of a local file header.
///
/// The central directory is the source of truth for sizes and checksum.
/// The local header is parsed to check its signature and to learn how long
/// its variable part is.
#[derive(Debug, Clone, Copy, PartialEq, Eq, Structural)]
pub struct ZipLocalFileHeaderFixed {
    pub signature: u32,
    pub version_needed: u16,
    pub flags: u16,
    pub compression_method: CompressionMethodId,
    pub last_mod_time: u16,
    pub last_mod_date: u16,
    pub crc32: u32,
    pub compressed_size: u32,
    pub uncompressed_size: u32,
    pub file_name_len: u16,
    pub extra_field_len: u16,
}

impl ZipLocalFileHeaderFixed {
    /// The length of the fixed part.
    pub const SIZE: usize = 30;

    /// The signature of a local file header.
    pub const SIGNATURE: u32 = 0x04034b50;

    /// The header that the first 30 bytes of `data` encode.
    pub open spec fn decode(data: Seq<u8>) -> Self {
        ZipLocalFileHeaderFixed {
            signature: le_u32_at(data, 0) as u32,
            version_needed: le_u16_at(data, 4) as u16,
            flags: le_u16_at(data, 6) as u16,
            compression_method: CompressionMethodId(le_u16_at(data, 8) as u16),
            last_mod_time: le_u16_at(data, 10) as u16,
            last_mod_date: le_u16_at(data, 12) as u16,
            crc32: le_u32_at(data, 14) as u32,
            compressed_size: le_u32_at(data, 18) as u32,
            uncompressed_size: le_u32_at(data, 22) as u32,
            file_name_len: le_u16_at(data, 26) as u16,
            extra_field_len: le_u16_at(data, 28) as u16,
        }
    }

    /// What parsing `data` gives: `Eof` where it is shorter than the header,
    /// `InvalidSignature` where it starts with other bytes than the
    /// signature, else the header.
    pub open spec fn parse_spec(data: Seq<u8>) -> Result<Self, ErrorKind> {
        if data.len() < 30 {
            Err(ErrorKind::Eof)
        } else if le_u32_at(data, 0) != 0x04034b50 {
            Err(
                ErrorKind::InvalidSignature {
                    expected: 0x04034b50,
                    actual: le_u32_at(data, 0) as u32,
                },
            )
        } else {
            Ok(Self::decode(data))
        }
    }

    /// Parses the header at the start of `data`.
    pub fn parse(data: &[u8]) -> (r: Result<ZipLocalFileHeaderFixed, Error>)
        ensures
            outcome(r) == Self::parse_spec(data@),
    {
        if data.len() < 30 {
            return Err(error_of(ErrorKind::Eof));
        }
        let result = ZipLocalFileHeaderFixed {
            signature: read_u32(data, 0),
            version_needed: read_u16(data, 4),
            flags: read_u16(data, 6),
            compression_method: CompressionMethodId(read_u16(data, 8)),
            last_mod_time: read_u16(data, 10),
            last_mod_date: read_u16(data, 12),
            crc32: read_u32(data, 14),
            compressed_size: read_u32(data, 18),
            uncompressed_size: read_u32(data, 22),
            file_name_len: read_u16(data, 26),
            extra_field_len: read_u16(data, 28),
        };
        if result.signature != 0x04034b50 {
            return Err(
                error_of(
                    ErrorKind::InvalidSignature { expected: 0x04034b50, actual: result.signature },
                ),
            );
        }
        Ok(result)
    }

    /// The length of what follows the fixed part before the entry's data.
    pub open spec fn spec_variable_length(&self) -> int {
        self.file_name_len + self.extra_field_len
    }

    /// The length of what follows the fixed part before the entry's data:
    /// the file name and the extra field.
    pub fn variable_length(&self) -> (r: usize)
        ensures
            r == self.spec_variable_length(),
    {
        self.file_name_len as usize + self.extra_field_len as usize
    }

    /// The 30 bytes that encode the header.
    pub open spec fn encode(&self) -> Seq<u8> {
        u32_le_bytes(self.signature as int) + u16_le_bytes(self.version_needed as int)
            + u16_le_bytes(self.flags as int) + u16_le_bytes(self.compression_method.0 as int)
            + u16_le_bytes(self.last_mod_time as int) + u16_le_bytes(self.last_mod_date as int)
            + u32_le_bytes(self.crc32 as int) + u32_le_bytes(self.compressed_size as int)
            + u32_le_bytes(self.uncompressed_size as int) + u16_le_bytes(
            self.file_name_len as int,
        ) + u16_le_bytes(self.extra_field_len as int)
    }

    /// Appends the header to `writer`.
    pub fn write(&self, writer: &mut Vec<u8>)
        ensures
            final(writer)@ == old(writer)@ + self.encode(),
    {
        put_u32(writer, self.signature);
        put_u16(writer, self.version_needed);
        put_u16(writer, self.flags);
        put_u16(writer, self.compression_method.0);
        put_u16(writer, self.last_mod_time);
        put_u16(writer, self.last_mod_date);
        put_u32(writer, self.crc32);
        put_u32(writer, self.compressed_size);
        put_u32(writer, self.uncompressed_size);
        put_u16(writer, self.file_name_len);
        put_u16(writer, self.extra_field_len);
        assert(writer@ =~= old(writer)@ + self.encode());
    }
}

/// The fixed part of a central directory record.
#[derive(Debug, Clone, Copy, PartialEq, Eq, Structural)]
pub struct ZipFileHeaderFixed {
    pub signature: u32,
    pub version_made_by: u16,
    pub version_needed: u16,
    pub flags: u16,
    pub compression_method: CompressionMethodId,
    pub last_mod_time: u16,
    pub last_mod_date: u16,
    pub crc32: u32,
    pub compressed_size: u32,
    pub uncompressed_size: u32,
    pub file_name_len: u16,
    pub extra_field_len: u16,
    pub file_comment_len: u16,
    pub disk_number_start: u16,
    pub internal_file_attrs: u16,
    pub external_file_attrs: u32,
    pub local_header_offset: u32,
}

impl ZipFileHeaderFixed {
    /// The length of the fixed part.
    pub const SIZE: usize = 46;

    /// The record that the first 46 bytes of `data` encode.
    pub open spec fn decode(data: Seq<u8>) -> Self {
        ZipFileHeaderFixed {
            signature: le_u32_at(data, 0) as u32,
            version_made_by: le_u16_at(data, 4) as u16,
            version_needed: le_u16_at(data, 6) as u16,
            flags: le_u16_at(data, 8) as u16,
            compression_method: CompressionMethodId(le_u16_at(data, 10) as u16),
            last_mod_time: le_u16_at(data, 12) as u16,
            last_mod_date: le_u16_at(data, 14) as u16,
            crc32: le_u32_at(data, 16) as u32,
            compressed_size: le_u32_at(data, 20) as u32,
            uncompressed_size: le_u32_at(data, 24) as u32,
            file_name_len: le_u16_at(data, 28) as u16,
            extra_field_len: le_u16_at(data, 30) as u16,
            file_comment_len: le_u16_at(data, 32) as u16,
            disk_number_start: le_u16_at(data, 34) as u16,
            internal_file_attrs: le_u16_at(data, 36) as u16,
            external_file_attrs: le_u32_at(data, 38) as u32,
            local_header_offset: le_u32_at(data, 42) as u32,
        }
    }

    /// What parsing `data` gives: `Eof` where it is shorter than the record,
    /// `InvalidSignature` where it starts with other bytes than the
    /// signature, else the record.
    pub open spec fn parse_spec(data: Seq<u8>) -> Result<Self, ErrorKind> {
        if data.len() < 46 {
            Err(ErrorKind::Eof)
        } else if le_u32_at(data, 0) != CENTRAL_HEADER_SIGNATURE {
            Err(
                ErrorKind::InvalidSignature {
                    expected: CENTRAL_HEADER_SIGNATURE,
                    actual: le_u32_at(data, 0) as u32,
                },
            )
        } else {
            Ok(Self::decode(data))
        }
    }

    /// Parses the record at the start of `data`.
    pub fn parse(data: &[u8]) -> (r: Result<ZipFileHeaderFixed, Error>)
        ensures
            outcome(r) == Self::parse_spec(data@),
    {
        if data.len() < 46 {
            return Err(error_of(ErrorKind::Eof));
        }
        let result = ZipFileHeaderFixed {
            signature: read_u32(data, 0),
            version_made_by: read_u16(data, 4),
            version_needed: read_u16(data, 6),
            flags: read_u16(data, 8),
            compression_method: CompressionMethodId(read_u16(data, 10)),
            last_mod_time: read_u16(data, 12),
            last_mod_date: read_u16(data, 14),
            crc32: read_u32(data, 16),
            compressed_size: read_u32(data, 20),
            uncompressed_size: read_u32(data, 24),
            file_name_len: read_u16(data, 28),
            extra_field_len: read_u16(data, 30),
            file_comment_len: read_u16(data, 32),
            disk_number_start: read_u16(data, 34),
            internal_file_attrs: read_u16(data, 36),
            external_file_attrs: read_u32(data, 38),
            local_header_offset: read_u32(data, 42),
        };
        if result.signature != CENTRAL_HEADER_SIGNATURE {
            return Err(
                error_of(
                    ErrorKind::InvalidSignature {
                        expected: CENTRAL_HEADER_SIGNATURE,
                        actual: result.signature,
                    },
                ),
            );
        }
        Ok(result)
    }

    /// The length of what follows the fixed part.
    pub open spec fn spec_variable_length(&self) -> int {
        self.file_name_len + self.extra_field_len + self.file_comment_len
    }

    /// The length of what follows the fixed part: the file name, the extra
    /// field and the comment.
    pub fn variable_length(&self) -> (r: usize)
        ensures
            r == self.spec_variable_length(),
    {
        self.file_name_len as usize + self.extra_field_len as usize
            + self.file_comment_len as usize
    }

    /// Splits what follows the fixed part into the file name, the extra
    /// field, the comment and the rest of `data`, by the lengths that the
    /// record gives. `None` where `data` is shorter than those lengths
    /// together.
    pub fn parse_variable_length<'a>(&self, data: &'a [u8]) -> (r: Option<
        (&'a [u8], &'a [u8], &'a [u8], &'a [u8]),
    >)
        ensures
            r is Some <==> data@.len() >= self.spec_variable_length(),
            r matches Some((name, extra, comment, rest)) ==> {
                let n = self.file_name_len as int;
                let e = self.extra_field_len as int;
                let c = self.file_comment_len as int;
                &&& name@ == data@.subrange(0, n)
                &&& extra@ == data@.subrange(n, n + e)
                &&& comment@ == data@.subrange(n + e, n + e + c)
                &&& rest@ == data@.subrange(n + e + c, data@.len() as int)
            },
    {
        let n = self.file_name_len as usize;
        let e = self.extra_field_len as usize;
        let c = self.file_comment_len as usize;
        let len = data.len();
        if len < n + e + c {
            return None;
        }
        Some((&data[0..n], &data[n..n + e], &data[n + e..n + e + c], &data[n + e + c..len]))
    }
}

/// The trailer that follows an entry's data where the sizes and the
/// checksum were not known when the local header was written. Only its
/// checksum is read.
#[derive(Debug, Clone, Copy, PartialEq, Eq, Structural)]
pub struct DataDescriptor {
    pub crc: u32,
}

impl DataDescriptor {
    /// How many bytes are needed to read the checksum.
    pub const SIZE: usize = 8;

    /// The signature that may start a data descriptor.
    pub const SIGNATURE: u32 = 0x08074b50;

    /// What parsing `data` gives: `Eof` where it has fewer than 8 bytes;
    /// else the checksum, which stands behind the signature where `data`
    /// starts with it, and at the start of `data` else.
    pub open spec fn parse_spec(data: Seq<u8>) -> Result<Self, ErrorKind> {
        if data.len() < 8 {
            Err(ErrorKind::Eof)
        } else if le_u32_at(data, 0) == 0x08074b50 {
            Ok(DataDescriptor { crc: le_u32_at(data, 4) as u32 })
        } else {
            Ok(DataDescriptor { crc: le_u32_at(data, 0) as u32 })
        }
    }

    /// Parses the descriptor at the start of `data`.
    pub fn parse(data: &[u8]) -> (r: Result<DataDescriptor, Error>)
        ensures
            outcome(r) == Self::parse_spec(data@),
    {
        if data.len() < 8 {
            return Err(error_of(ErrorKind::Eof));
        }
        let potential_signature = read_u32(data, 0);
        let pos: usize = if potential_signature == 0x08074b50 {
            4
        } else {
            0
        };
        Ok(DataDescriptor { crc: read_u32(data, pos) })
    }

    /// Reads the descriptor that stands at `offset`.
    ///
    /// Fails with `Eof` where the reader has fewer than 8 bytes there, and
    /// with the reader's error where it fails.
    pub fn read_at<R: ReaderAt>(reader: &R, offset: u64) -> (r: Result<DataDescriptor, Error>)
        ensures
            match r {
                Ok(d) => in_bounds(reader.contents(), offset as int, 8) && Ok::<_, ErrorKind>(d)
                    == Self::parse_spec(window(reader.contents(), offset as int, 8)),
                Err(e) => if e@ is Eof {
                    !in_bounds(reader.contents(), offset as int, 8)
                } else {
                    e@ is IO && !reader.never_fails()
                },
            },
    {
        let mut buffer: Vec<u8> = vec![0u8; 8];
        read_exact_at(reader, buffer.as_mut_slice(), offset)?;
        Self::parse(buffer.as_slice())
    }
}

/// A Zip archive that is held in memory as a whole.
///
/// A [`ZipSliceArchive`] is easier to use than a [`ZipArchive`]: there is
/// no buffer to manage and nothing is copied.
#[derive(Debug, Clone, Copy)]
pub struct ZipSliceArchive<'a> {
    pub data: &'a [u8],
    pub eocd: EndOfCentralDirectory,
}

/// A file path within a Zip archive, as the bytes that the archive holds.
///
/// File paths in Zip archives are not guaranteed to be UTF-8, and may hold
/// relative paths that try to escape the archive, or absolute paths.
#[derive(Debug, Clone, Copy, PartialEq, Eq, Hash, PartialOrd, Ord)]
pub struct ZipFilePath<'a>(pub ZipStr<'a>);

impl<'a> View for ZipFilePath<'a> {
    type V = Seq<u8>;

    open spec fn view(&self) -> Seq<u8> {
        self.0@
    }
}

/// Whether a path names a directory: it ends with a slash.
pub open spec fn is_dir_path(path: Seq<u8>) -> bool {
    path.len() > 0 && path.last() == 0x2f
}

impl<'a> ZipFilePath<'a> {
    /// Creates a Zip file path from a byte slice.
    pub fn new(data: &'a [u8]) -> (p: Self)
        ensures
            p@ == data@,
    {
        ZipFilePath(ZipStr::new(data))
    }

    /// Return the raw bytes of the Zip file path.
    ///
    /// **WARNING**: this may be an absolute path or a path that leaves the
    /// directory it is extracted to. Prefer [`ZipFilePath::normalize`].
    pub fn as_bytes(&self) -> (b: &'a [u8])
        ensures
            b@ == self@,
    {
        self.0.as_bytes()
    }

    /// Returns true if the file path is a directory: it ends in a slash.
    pub fn is_dir(&self) -> (b: bool)
        ensures
            b == is_dir_path(self@),
    {
        let bytes = self.0.as_bytes();
        let n = bytes.len();
        n > 0 && bytes[n - 1] == 0x2f
    }

    /// Makes a path anew: backslashes are slashes, what stands before the
    /// last colon is left out, and the components are resolved.
    pub fn normalize_alloc(s: &str) -> (r: String)
        ensures
            r@ == crate::path::normalize_alloc_spec(s@),
    {
        crate::path::ZipFilePath::normalize_alloc(s)
    }

    /// Normalizes the Zip file path: the bytes are read as UTF-8, and the
    /// text is made safe to join to a directory.
    ///
    /// - backslashes (`\`) become forward slashes (`/`),
    /// - what stands before the last colon is left out,
    /// - redundant slashes and `.` components are left out, and `..` takes
    ///   the component before it with it,
    /// - leading slashes and parent directories that would leave the
    ///   archive's root are left out.
    ///
    /// Where no more than the front of the path is taken off, the text is
    /// borrowed from the path.
    ///
    /// Fails with `InvalidUtf8` where the bytes are not valid UTF-8, and
    /// only there.
    pub fn normalize(&self) -> (r: Result<Cow<'a, str>, Error>)
        ensures
            r is Ok <==> valid_utf8(self@),
            r matches Ok(p) ==> p@ == normalize_spec(decode_utf8(self@)),
            r matches Err(e) ==> e@ is InvalidUtf8,
    {
        match crate::path::ZipFilePath::from_bytes(self.0.as_bytes()).try_normalize() {
            Ok(p) => Ok(p.into_cow()),
            Err(e) => Err(e),
        }
    }
}

/// The four fields of a central directory record that the zip64 extra
/// field widens, and whether the record has such a field.
#[derive(Debug, Clone, Copy, PartialEq, Eq, Structural)]
pub struct Zip64Fields {
    pub uncompressed_size: u64,
    pub compressed_size: u64,
    pub local_header_offset: u64,
    pub disk_number_start: u32,
    pub is_zip64: bool,
}

/// The id of the zip64 extended information extra field.
pub const ZIP64_EXTRA_FIELD: u16 = 0x0001;

/// The data of the first extra field with the given id.
///
/// An extra field is a run of blocks: two bytes of id, two bytes of size,
/// and the data. A block whose size reaches beyond the end of the field
/// ends with it. What is left behind the last whole header is ignored.
pub open spec fn find_extra_field(extra: Seq<u8>, id: int) -> Option<Seq<u8>>
    decreases extra.len(),
{
    if extra.len() < 4 {
        None
    } else {
        let end = extra_block_end(extra);
        if le_u16_at(extra, 0) == id {
            Some(extra.subrange(4, end))
        } else {
            find_extra_field(extra.subrange(end, extra.len() as int), id)
        }
    }
}

/// Where the first block of `extra` ends.
pub open spec fn extra_block_end(extra: Seq<u8>) -> int {
    if 4 + le_u16_at(extra, 2) <= extra.len() {
        4 + le_u16_at(extra, 2)
    } else {
        extra.len() as int
    }
}

/// The fields as the fixed record has them, each widened to its full type.
pub open spec fn narrow_fields(h: ZipFileHeaderFixed) -> Zip64Fields {
    Zip64Fields {
        uncompressed_size: h.uncompressed_size as u64,
        compressed_size: h.compressed_size as u64,
        local_header_offset: h.local_header_offset as u64,
        disk_number_start: h.disk_number_start as u32,
        is_zip64: false,
    }
}

/// The fields after the zip64 data `f` has been read.
///
/// The data holds a value for each field whose place in the fixed record
/// holds the sentinel, in the order uncompressed size, compressed size,
/// local header offset (8 bytes each), disk number (4 bytes). Values are
/// taken as long as the data has the bytes for the next one.
pub open spec fn widened_fields(h: ZipFileHeaderFixed, f: Seq<u8>) -> Zip64Fields {
    let want_u = h.uncompressed_size == 0xFFFF_FFFF;
    let want_c = h.compressed_size == 0xFFFF_FFFF;
    let want_o = h.local_header_offset == 0xFFFF_FFFF;
    let want_d = h.disk_number_start == 0xFFFF;
    let at_c: int = if want_u {
        8
    } else {
        0
    };
    let at_o: int = if want_c {
        at_c + 8
    } else {
        at_c
    };
    let at_d: int = if want_o {
        at_o + 8
    } else {
        at_o
    };
    let ok_u = !want_u || 8 <= f.len();
    let ok_c = ok_u && (!want_c || at_c + 8 <= f.len());
    let ok_o = ok_c && (!want_o || at_o + 8 <= f.len());
    let ok_d = ok_o && (!want_d || at_d + 4 <= f.len());
    Zip64Fields {
        uncompressed_size: if want_u && ok_u {
            le_u64_at(f, 0) as u64
        } else {
            h.uncompressed_size as u64
        },
        compressed_size: if want_c && ok_c {
            le_u64_at(f, at_c) as u64
        } else {
            h.compressed_size as u64
        },
        local_header_offset: if want_o && ok_o {
            le_u64_at(f, at_o) as u64
        } else {
            h.local_header_offset as u64
        },
        disk_number_start: if want_d && ok_d {
            le_u32_at(f, at_d) as u32
        } else {
            h.disk_number_start as u32
        },
        is_zip64: true,
    }
}

/// The four fields of a record as its extra field widens them: those of
/// the fixed record where none holds a sentinel or the extra field has no
/// zip64 block, else what the first such block gives.
pub open spec fn zip64_fields(h: ZipFileHeaderFixed, extra: Seq<u8>) -> Zip64Fields {
    if h.uncompressed_size != 0xFFFF_FFFF && h.compressed_size != 0xFFFF_FFFF
        && h.local_header_offset != 0xFFFF_FFFF && h.disk_number_start != 0xFFFF {
        narrow_fields(h)
    } else {
        match find_extra_field(extra, ZIP64_EXTRA_FIELD as int) {
            None => narrow_fields(h),
            Some(f) => widened_fields(h, f),
        }
    }
}

/// Reads the zip64 data `field` for the record `h`.
fn read_zip64_fields(h: &ZipFileHeaderFixed, field: &[u8]) -> (r: Zip64Fields)
    ensures
        r == widened_fields(*h, field@),
{
    let len = field.len();
    let mut result = Zip64Fields {
        uncompressed_size: h.uncompressed_size as u64,
        compressed_size: h.compressed_size as u64,
        local_header_offset: h.local_header_offset as u64,
        disk_number_start: h.disk_number_start as u32,
        is_zip64: true,
    };
    let mut pos: usize = 0;
    if h.uncompressed_size == u32::MAX {
        if len < 8 {
            return result;
        }
        result.uncompressed_size = read_u64(field, 0);
        pos = 8;
    }
    if h.compressed_size == u32::MAX {
        if len - pos < 8 {
            return result;
        }
        result.compressed_size = read_u64(field, pos);
        pos += 8;
    }
    if h.local_header_offset == u32::MAX {
        if len - pos < 8 {
            return result;
        }
        result.local_header_offset = read_u64(field, pos);
        pos += 8;
    }
    if h.disk_number_start == u16::MAX {
        if len - pos < 4 {
            return result;
        }
        result.disk_number_start = read_u32(field, pos);
    }
    result
}

/// A record from the Zip archive's central directory for a single file.
///
/// It holds what the directory says of the file. To get at the file's
/// contents, take its [`wayfinder`](ZipFileHeaderRecord::wayfinder).
#[derive(Debug, Clone, Copy)]
pub struct ZipFileHeaderRecord<'a> {
    /// The fixed part of the record, as it stands in the directory.
    pub fixed: ZipFileHeaderFixed,
    /// The sizes, the offset and the disk number at their full width.
    pub wide: Zip64Fields,
    pub file_name: ZipFilePath<'a>,
    pub extra_field: &'a [u8],
    pub file_comment: ZipStr<'a>,
}

impl<'a> ZipFileHeaderRecord<'a> {
    /// Puts a record together from its fixed part and the three fields that
    /// follow it, and widens the sizes, the offset and the disk number by
    /// the zip64 block of the extra field.
    pub fn from_parts(
        header: ZipFileHeaderFixed,
        file_name: &'a [u8],
        extra_field: &'a [u8],
        file_comment: &'a [u8],
    ) -> (r: Self)
        ensures
            r.fixed == header,
            r.wide == zip64_fields(header, extra_field@),
            r.file_name@ == file_name@,
            r.extra_field@ == extra_field@,
            r.file_comment@ == file_comment@,
    {
        let mut result = ZipFileHeaderRecord {
            fixed: header,
            wide: Zip64Fields {
                uncompressed_size: header.uncompressed_size as u64,
                compressed_size: header.compressed_size as u64,
                local_header_offset: header.local_header_offset as u64,
                disk_number_start: header.disk_number_start as u32,
                is_zip64: false,
            },
            file_name: ZipFilePath::new(file_name),
            extra_field,
            file_comment: ZipStr::new(file_comment),
        };
        if header.uncompressed_size != u32::MAX && header.compressed_size != u32::MAX
            && header.local_header_offset != u32::MAX && header.disk_number_start != u16::MAX {
            return result;
        }
        let len = extra_field.len();
        let mut pos: usize = 0;
        assert(extra_field@.subrange(0, len as int) =~= extra_field@);
        while len - pos >= 4
            invariant
                pos <= len,
                len == extra_field@.len(),
                find_extra_field(extra_field@, ZIP64_EXTRA_FIELD as int) == find_extra_field(
                    extra_field@.subrange(pos as int, len as int),
                    ZIP64_EXTRA_FIELD as int,
                ),
                header.uncompressed_size == 0xFFFF_FFFF || header.compressed_size == 0xFFFF_FFFF
                    || header.local_header_offset == 0xFFFF_FFFF || header.disk_number_start
                    == 0xFFFF,
                result.fixed == header,
                result.wide == narrow_fields(header),
                result.file_name@ == file_name@,
                result.extra_field@ == extra_field@,
                result.file_comment@ == file_comment@,
            decreases len - pos,
        {
            let ghost rest = extra_field@.subrange(pos as int, len as int);
            let kind = read_u16(extra_field, pos);
            let size = read_u16(extra_field, pos + 2) as usize;
            let start = pos + 4;
            let end = if size <= len - start {
                start + size
            } else {
                len
            };
            proof {
                assert(le_u16_at(rest, 0) == kind);
                assert(le_u16_at(rest, 2) == size);
                assert(extra_block_end(rest) == end - pos);
                assert(rest.subrange(4, end - pos) =~= extra_field@.subrange(
                    start as int,
                    end as int,
                ));
                assert(rest.subrange(end - pos, rest.len() as int) =~= extra_field@.subrange(
                    end as int,
                    len as int,
                ));
            }
            if kind == ZIP64_EXTRA_FIELD {
                result.wide = read_zip64_fields(&header, &extra_field[start..end]);
                assert(find_extra_field(rest, ZIP64_EXTRA_FIELD as int) == Some(
                    rest.subrange(4, end - pos),
                ));
                return result;
            }
            assert(find_extra_field(rest, ZIP64_EXTRA_FIELD as int) == find_extra_field(
                rest.subrange(end - pos, rest.len() as int),
                ZIP64_EXTRA_FIELD as int,
            ));
            pos = end;
        }
        result
    }

    /// Describes if the file is a directory: its name ends with a slash.
    pub fn is_dir(&self) -> (b: bool)
        ensures
            b == is_dir_path(self.file_name@),
    {
        self.file_name.is_dir()
    }

    /// Whether bit 3 of the flags is set: a data descriptor follows the
    /// entry's data.
    pub open spec fn spec_has_data_descriptor(&self) -> bool {
        (self.fixed.flags / 8) % 2 == 1
    }

    /// Returns true if the entry has a data descriptor that follows its
    /// compressed data.
    pub fn has_data_descriptor(&self) -> (b: bool)
        ensures
            b == self.spec_has_data_descriptor(),
    {
        (self.fixed.flags / 8) % 2 == 1
    }

    /// Where the file's data is, and what it must check against.
    pub open spec fn spec_wayfinder(&self) -> ZipArchiveEntryWayfinder {
        ZipArchiveEntryWayfinder {
            uncompressed_size: self.wide.uncompressed_size,
            compressed_size: self.wide.compressed_size,
            local_header_offset: self.wide.local_header_offset,
            crc: self.fixed.crc32,
            has_data_descriptor: self.spec_has_data_descriptor(),
        }
    }

    /// Describes where the file's data is located within the archive.
    pub fn wayfinder(&self) -> (w: ZipArchiveEntryWayfinder)
        ensures
            w == self.spec_wayfinder(),
    {
        ZipArchiveEntryWayfinder {
            uncompressed_size: self.wide.uncompressed_size,
            compressed_size: self.wide.compressed_size,
            local_header_offset: self.wide.local_header_offset,
            has_data_descriptor: self.has_data_descriptor(),
            crc: self.fixed.crc32,
        }
    }

    /// The purported number of bytes of the uncompressed data.
    ///
    /// **WARNING**: this number has not been validated: do not allocate by
    /// it.
    pub fn uncompressed_size_hint(&self) -> (r: u64)
        ensures
            r == self.wide.uncompressed_size,
    {
        self.wide.uncompressed_size
    }

    /// The purported number of bytes of the compressed data.
    ///
    /// **WARNING**: this number has not been validated: do not allocate by
    /// it.
    pub fn compressed_size_hint(&self) -> (r: u64)
        ensures
            r == self.wide.compressed_size,
    {
        self.wide.compressed_size
    }

    /// The offset to the local file header within the Zip archive.
    pub fn local_header_offset(&self) -> (r: u64)
        ensures
            r == self.wide.local_header_offset,
    {
        self.wide.local_header_offset
    }

    /// The compression method used to compress the data.
    pub fn compression_method(&self) -> (m: CompressionMethod)
        ensures
            m == CompressionMethod::of_id(self.fixed.compression_method.0),
    {
        self.fixed.compression_method.as_method()
    }

    /// Return the sanitized file path: see [`ZipFilePath::normalize`].
    pub fn file_safe_path(&self) -> (r: Result<Cow<'a, str>, Error>)
        ensures
            r is Ok <==> valid_utf8(self.file_name@),
            r matches Ok(p) ==> p@ == normalize_spec(decode_utf8(self.file_name@)),
            r matches Err(e) ==> e@ is InvalidUtf8,
    {
        self.file_name.normalize()
    }

    /// Return the raw bytes of the file path.
    ///
    /// **WARNING**: this may be an absolute path or a path that leaves the
    /// directory it is extracted to.
    pub fn file_raw_path(&self) -> (b: &'a [u8])
        ensures
            b@ == self.file_name@,
    {
        self.file_name.as_bytes()
    }

    /// The file path as the archive holds it, to be normalized before it
    /// is joined to a directory.
    pub fn file_path(&self) -> (p: crate::path::ZipFilePath<crate::path::RawPath<'a>>)
        ensures
            p.bytes() == self.file_name@,
    {
        crate::path::ZipFilePath::from_bytes(self.file_name.as_bytes())
    }

    /// Returns the last modification date and time: the last timestamp
    /// that the extra field holds, in UTC, or that of the DOS fields, in
    /// local time.
    pub fn last_modified(&self) -> (t: ZipDateTimeKind)
        ensures
            (t.zone(), t@) == best_timestamp(
                self.extra_field@,
                self.fixed.last_mod_time,
                self.fixed.last_mod_date,
            ),
    {
        extract_best_timestamp(
            self.extra_field,
            self.fixed.last_mod_time,
            self.fixed.last_mod_date,
        )
    }

    /// Returns the file mode information extracted from the external file
    /// attributes, by the system that made the entry.
    pub fn mode(&self) -> (m: EntryMode)
        ensures
            m.0 == entry_mode(
                self.fixed.version_made_by,
                self.fixed.external_file_attrs,
                is_dir_path(self.file_name@),
            ),
    {
        mode_of(self.fixed.version_made_by, self.fixed.external_file_attrs, self.is_dir())
    }
}

/// What the next step over the central directory bytes `cd` gives.
///
/// `None` where no bytes are left, or where the bytes do not start with
/// the signature of a record: the directory is at its end. `Eof` where fewer
/// bytes are left than the fixed part, or than the lengths in it ask for.
/// Else the fixed part and how many bytes the record takes.
pub open spec fn next_record(cd: Seq<u8>) -> Result<Option<(ZipFileHeaderFixed, int)>, ErrorKind> {
    if cd.len() == 0 {
        Ok(None)
    } else if cd.len() < 46 {
        Err(ErrorKind::Eof)
    } else if le_u32_at(cd, 0) != CENTRAL_HEADER_SIGNATURE {
        Ok(None)
    } else {
        let h = ZipFileHeaderFixed::decode(cd);
        if cd.len() < 46 + h.spec_variable_length() {
            Err(ErrorKind::Eof)
        } else {
            Ok(Some((h, 46 + h.spec_variable_length())))
        }
    }
}

/// Whether `record` is the record that starts `cd`, with `base_offset`
/// added to its local header offset. The sum stops at the greatest `u64`.
pub open spec fn is_record_of(
    record: ZipFileHeaderRecord<'_>,
    cd: Seq<u8>,
    base_offset: u64,
) -> bool {
    let h = ZipFileHeaderFixed::decode(cd);
    let n = h.file_name_len as int;
    let e = h.extra_field_len as int;
    let c = h.file_comment_len as int;
    let wide = zip64_fields(h, cd.subrange(46 + n, 46 + n + e));
    &&& record.fixed == h
    &&& record.file_name@ == cd.subrange(46, 46 + n)
    &&& record.extra_field@ == cd.subrange(46 + n, 46 + n + e)
    &&& record.file_comment@ == cd.subrange(46 + n + e, 46 + n + e + c)
    &&& record.wide == Zip64Fields {
        local_header_offset: if wide.local_header_offset + base_offset <= u64::MAX {
            (wide.local_header_offset + base_offset) as u64
        } else {
            u64::MAX
        },
        ..wide
    }
}

/// An iterator over the central directory file header records of an
/// archive in memory.
///
/// Created from [`ZipSliceArchive::entries`].
#[derive(Debug, Clone, Copy)]
pub struct ZipSliceEntries<'data> {
    pub entry_data: &'data [u8],
    pub base_offset: u64,
}

impl<'data> ZipSliceEntries<'data> {
    /// Yield the next zip file entry in the central directory if there is any.
    ///
    /// After an entry was yielded, the iterator stands behind its record.
    /// At the end of the directory and after an error it stays where it is.
    pub fn next_entry(&mut self) -> (r: Result<Option<ZipFileHeaderRecord<'data>>, Error>)
        ensures
            final(self).base_offset == old(self).base_offset,
            match r {
                Ok(Some(record)) => next_record(old(self).entry_data@) matches Ok(Some((_, len)))
                    && is_record_of(record, old(self).entry_data@, old(self).base_offset)
                    && final(self).entry_data@ == old(self).entry_data@.subrange(
                    len,
                    old(self).entry_data@.len() as int,
                ),
                Ok(None) => next_record(old(self).entry_data@) == Ok::<
                    Option<(ZipFileHeaderFixed, int)>,
                    ErrorKind,
                >(None) && final(self).entry_data@ == old(self).entry_data@,
                Err(e) => next_record(old(self).entry_data@) == Err::<
                    Option<(ZipFileHeaderFixed, int)>,
                    _,
                >(e@) && final(self).entry_data@ == old(self).entry_data@,
            },
    {
        let data = self.entry_data;
        let len = data.len();
        if len == 0 {
            return Ok(None);
        }
        if len < 46 {
            return Err(error_of(ErrorKind::Eof));
        }
        if read_u32(data, 0) != CENTRAL_HEADER_SIGNATURE {
            return Ok(None);
        }
        let file_header = ZipFileHeaderFixed::parse(data)?;
        let fields = file_header.parse_variable_length(&data[46..len]);
        let (file_name, extra_field, file_comment, rest) = match fields {
            Some(fields) => fields,
            None => {
                return Err(error_of(ErrorKind::Eof));
            },
        };
        let mut entry = ZipFileHeaderRecord::from_parts(
            file_header,
            file_name,
            extra_field,
            file_comment,
        );
        entry.wide.local_header_offset = entry.wide.local_header_offset.saturating_add(
            self.base_offset,
        );
        self.entry_data = rest;
        proof {
            let cd = data@;
            let n = file_header.file_name_len as int;
            let e = file_header.extra_field_len as int;
            let c = file_header.file_comment_len as int;
            let var = cd.subrange(46, len as int);
            assert(var.subrange(0, n) =~= cd.subrange(46, 46 + n));
            assert(var.subrange(n, n + e) =~= cd.subrange(46 + n, 46 + n + e));
            assert(var.subrange(n + e, n + e + c) =~= cd.subrange(46 + n + e, 46 + n + e + c));
            assert(var.subrange(n + e + c, var.len() as int) =~= cd.subrange(
                46 + n + e + c,
                len as int,
            ));
        }
        Ok(Some(entry))
    }
}

/// The comment of the archive that was located in `data`: the bytes that
/// follow the 22 bytes of the end of central directory record, as many as
/// the record says or as there are.
pub open spec fn comment_of(data: Seq<u8>, eocd: EndOfCentralDirectory) -> Seq<u8> {
    let start = eocd.record_pos + 22;
    let end = if start + eocd.eocd.comment_len <= data.len() {
        start + eocd.eocd.comment_len
    } else {
        data.len() as int
    };
    data.subrange(start, end)
}

impl<'a> ZipSliceArchive<'a> {
    /// Whether the records lie within the data, as they do in an archive
    /// that the locator has found.
    pub open spec fn wf(&self) -> bool {
        &&& self.eocd.stream_pos + 22 <= self.data@.len()
        &&& self.eocd.record_pos + 22 <= self.data@.len()
    }

    /// Returns an iterator over the entries in the central directory of
    /// the archive: over the bytes from the directory's start to its end.
    pub fn entries(&self) -> (entries: ZipSliceEntries<'a>)
        requires
            self.wf(),
        ensures
            entries.entry_data@ == self.data@.subrange(
                self.eocd.spec_offset(),
                self.eocd.stream_pos as int,
            ),
            entries.base_offset == self.eocd.spec_base_offset(),
    {
        let data = self.data;
        let _len: usize = data.len();
        let start = self.eocd.offset() as usize;
        let end = self.eocd.end_position() as usize;
        ZipSliceEntries { entry_data: &data[start..end], base_offset: self.eocd.base_offset() }
    }

    /// Returns the byte slice that represents the zip file.
    ///
    /// This will include the entire input slice.
    pub fn as_bytes(&self) -> (b: &'a [u8])
        ensures
            b@ == self.data@,
    {
        self.data
    }

    /// Returns a hint for the total number of entries in the archive.
    ///
    /// This value is read from the End of Central Directory record.
    pub fn entries_hint(&self) -> (n: u64)
        ensures
            n == self.eocd.spec_entries(),
    {
        self.eocd.entries()
    }

    /// Returns the offset of the start of the zip file data.
    ///
    /// This is typically 0, but can be non-zero if the zip archive is
    /// embedded within a larger file.
    pub fn base_offset(&self) -> (r: u64)
        ensures
            r == self.eocd.spec_base_offset(),
    {
        self.eocd.base_offset()
    }

    /// The comment of the zip file.
    pub open spec fn spec_comment(&self) -> Seq<u8> {
        comment_of(self.data@, self.eocd)
    }

    /// The comment of the zip file.
    pub fn comment(&self) -> (c: ZipStr<'a>)
        requires
            self.wf(),
        ensures
            c@ == self.spec_comment(),
    {
        let data = self.data;
        let len = data.len();
        let comment_start = self.eocd.record_pos as usize + 22;
        let comment_len = self.eocd.comment_len();
        let end = if comment_len <= len - comment_start {
            comment_start + comment_len
        } else {
            len
        };
        ZipStr::new(&data[comment_start..end])
    }

    /// Converts the [`ZipSliceArchive`] into a general [`ZipArchive`] that
    /// reads from the same bytes.
    pub fn into_reader(self) -> (archive: ZipArchive<&'a [u8]>)
        requires
            self.wf(),
        ensures
            archive.reader@ == self.data@,
            archive.comment@ == self.spec_comment(),
            archive.eocd == self.eocd,
            archive.wf(),
    {
        let comment = self.comment().into_owned();
        ZipArchive { reader: self.data, comment, eocd: self.eocd }
    }

    /// What getting the entry that `entry` leads to gives: where its data
    /// starts and ends, and what the data must check against.
    ///
    /// The local header is parsed at the entry's offset. The data follows
    /// its variable part and has the compressed size that `entry` holds.
    /// `Eof` where the header, the data or, for an entry with one, the data
    /// descriptor behind it are not whole.
    pub open spec fn entry_spec(data: Seq<u8>, entry: ZipArchiveEntryWayfinder) -> Result<
        (int, int, ZipVerification),
        ErrorKind,
    > {
        let len = data.len() as int;
        let at = if entry.local_header_offset <= len {
            entry.local_header_offset as int
        } else {
            len
        };
        match ZipLocalFileHeaderFixed::parse_spec(data.subrange(at, len)) {
            Err(e) => Err(e),
            Ok(header) => {
                let start = at + 30 + header.spec_variable_length();
                let end = start + entry.compressed_size;
                if end > len {
                    Err(ErrorKind::Eof)
                } else if entry.has_data_descriptor {
                    match DataDescriptor::parse_spec(data.subrange(end, len)) {
                        Err(e) => Err(e),
                        Ok(d) => Ok(
                            (
                                start,
                                end,
                                ZipVerification {
                                    crc: d.crc,
                                    uncompressed_size: entry.uncompressed_size,
                                },
                            ),
                        ),
                    }
                } else {
                    Ok(
                        (
                            start,
                            end,
                            ZipVerification {
                                crc: entry.crc,
                                uncompressed_size: entry.uncompressed_size,
                            },
                        ),
                    )
                }
            },
        }
    }

    /// Retrieves a specific entry from the archive by its
    /// [`ZipArchiveEntryWayfinder`], which a record of the central
    /// directory gives.
    ///
    /// The entry's data lies in the archive from the end of its local header
    /// on: from the header's offset, 30 bytes and the header's variable
    /// length further, over the compressed size.
    pub fn get_entry(&self, entry: ZipArchiveEntryWayfinder) -> (r: Result<
        ZipSliceEntry<'a>,
        Error,
    >)
        ensures
            match r {
                Ok(e) => Self::entry_spec(self.data@, entry) == Ok::<_, ErrorKind>(
                    (
                        e.data_start_offset as int,
                        e.data_start_offset + e.data@.len(),
                        e.verifier,
                    ),
                ) && e.data@ == self.data@.subrange(
                    e.data_start_offset as int,
                    e.data_start_offset + e.data@.len(),
                ) && e.data@.len() == entry.compressed_size && e.data_start_offset + e.data@.len()
                    <= self.data@.len() <= usize::MAX,
                Err(e) => Self::entry_spec(self.data@, entry) == Err::<
                    (int, int, ZipVerification),
                    _,
                >(e@),
            },
    {
        let data = self.data;
        let len = data.len();
        let at: usize = if entry.local_header_offset <= len as u64 {
            entry.local_header_offset as usize
        } else {
            len
        };
        let file_header = ZipLocalFileHeaderFixed::parse(&data[at..len])?;
        let variable_length = file_header.variable_length();
        if len - at - 30 < variable_length {
            return Err(error_of(ErrorKind::Eof));
        }
        let start = at + 30 + variable_length;
        if ((len - start) as u64) < entry.compressed_size_hint() {
            return Err(error_of(ErrorKind::Eof));
        }
        let end = start + entry.compressed_size_hint() as usize;
        let expected_crc = if entry.has_data_descriptor {
            DataDescriptor::parse(&data[end..len])?.crc
        } else {
            entry.crc
        };
        Ok(
            ZipSliceEntry {
                data: &data[start..end],
                verifier: ZipVerification {
                    crc: expected_crc,
                    uncompressed_size: entry.uncompressed_size_hint(),
                },
                data_start_offset: start as u64,
            },
        )
    }
}

/// A single entry (file or directory) within a `ZipSliceArchive`: its raw,
/// compressed data.
#[derive(Debug, Clone, Copy)]
pub struct ZipSliceEntry<'a> {
    pub data: &'a [u8],
    pub verifier: ZipVerification,
    pub data_start_offset: u64,
}

impl<'a> ZipSliceEntry<'a> {
    /// Returns the raw, compressed data of the entry as a byte slice.
    pub fn data(&self) -> (d: &'a [u8])
        ensures
            d@ == self.data@,
    {
        self.data
    }

    /// Returns a verifier for the CRC and uncompressed size of the entry.
    ///
    /// Useful where the data is inflated in one go; where it is inflated
    /// piece by piece, [`ZipSliceEntry::verifying_reader`] keeps account.
    pub fn claim_verifier(&self) -> (v: ZipVerification)
        ensures
            v == self.verifier,
    {
        self.verifier
    }

    /// Wraps a decompressor in an account of what it delivers, to check the
    /// size and the checksum of the inflated data at its end.
    pub fn verifying_reader<D>(&self, reader: D) -> (v: ZipSliceVerifier<D>)
        ensures
            v.wf(),
            v.inner() == reader,
            v.seen() == Seq::<u8>::empty(),
            v.expected() == self.verifier,
    {
        proof {
            lemma_crc32_empty(0);
        }
        ZipSliceVerifier {
            reader,
            crc: 0,
            size: 0,
            verifier: self.verifier,
            table: gen_crc_table(),
            seen: Ghost(Seq::empty()),
        }
    }

    /// Returns the byte range of the compressed data within the archive.
    ///
    /// Entries whose ranges overlap share compressed data, as the entries of
    /// a zip bomb do: sorting the ranges of all entries brings such to light.
    pub fn compressed_data_range(&self) -> (r: (u64, u64))
        requires
            self.data_start_offset + self.data@.len() <= u64::MAX,
        ensures
            r.0 == self.data_start_offset,
            r.1 == self.data_start_offset + self.data@.len(),
    {
        (self.data_start_offset, self.data_start_offset + self.data.len() as u64)
    }
}

/// The size that an account of `seen` bytes holds: their number, as far as
/// a `u64` counts.
pub open spec fn counted(seen: Seq<u8>) -> u64 {
    if seen.len() <= u64::MAX {
        seen.len() as u64
    } else {
        u64::MAX
    }
}

/// What a verifier says after it has seen `seen` in all and `last` as the
/// latest piece: nothing until the data has ended (an empty piece) or has
/// reached the expected size; then it checks size and checksum.
pub open spec fn verdict(expected: ZipVerification, seen: Seq<u8>, last: Seq<u8>) -> Result<
    (),
    ErrorKind,
> {
    if last.len() == 0 || counted(seen) >= expected.uncompressed_size {
        expected.check(ZipVerification { crc: crc32_spec(seen), uncompressed_size: counted(seen) })
    } else {
        Ok(())
    }
}

/// Keeps account of the inflated data of an entry in memory, and checks
/// it against the expected checksum and size.
///
/// The caller reads from the decompressor and hands each piece that it
/// got to [`ZipSliceVerifier::record`], the empty piece at the end too.
pub struct ZipSliceVerifier<D> {
    reader: D,
    crc: u32,
    size: u64,
    verifier: ZipVerification,
    table: Vec<Vec<u32>>,
    seen: Ghost<Seq<u8>>,
}

impl<D> ZipSliceVerifier<D> {
    /// The decompressor that the verifier wraps.
    pub closed spec fn inner(&self) -> D {
        self.reader
    }

    /// The inflated data that was recorded so far.
    pub closed spec fn seen(&self) -> Seq<u8> {
        self.seen@
    }

    /// The checksum and the size that the data must have.
    pub closed spec fn expected(&self) -> ZipVerification {
        self.verifier
    }

    /// Whether the account is that of the data recorded.
    pub closed spec fn wf(&self) -> bool {
        &&& is_crc_table(self.table@)
        &&& self.crc == crc32_spec(self.seen@)
        &&& self.size == counted(self.seen@)
    }

    /// Consumes the `ZipSliceVerifier`, returning the underlying reader.
    pub fn into_inner(self) -> (d: D)
        ensures
            d == self.inner(),
    {
        self.reader
    }

    /// The decompressor, to read the next piece from.
    pub fn get_mut(&mut self) -> (d: &mut D)
        ensures
            *d == old(self).inner(),
            final(self).inner() == *final(d),
            final(self).seen() == old(self).seen(),
            final(self).expected() == old(self).expected(),
            old(self).wf() ==> final(self).wf(),
    {
        &mut self.reader
    }

    /// Takes note of the piece `data` that the decompressor has delivered;
    /// the empty piece says that it has ended. Fails at the end of the
    /// data, or once the expected size is reached, where the size or the
    /// checksum are not the expected ones.
    pub fn record(&mut self, data: &[u8]) -> (r: Result<(), Error>)
        requires
            old(self).wf(),
        ensures
            final(self).wf(),
            final(self).inner() == old(self).inner(),
            final(self).expected() == old(self).expected(),
            final(self).seen() == old(self).seen() + data@,
            outcome(r) == verdict(old(self).expected(), old(self).seen() + data@, data@),
    {
        proof {
            lemma_crc32_chunked(self.seen@, data@, 0);
        }
        self.crc = crc32_chunk_with(&self.table, data, self.crc);
        self.size = self.size.saturating_add(data.len() as u64);
        self.seen = Ghost(self.seen@ + data@);
        if data.len() == 0 || self.size >= self.verifier.size() {
            self.verifier.valid(ZipVerification { crc: self.crc, uncompressed_size: self.size })
        } else {
            Ok(())
        }
    }
}

/// A Zip archive behind a positioned reader.
#[derive(Debug)]
pub struct ZipArchive<R> {
    pub reader: R,
    pub comment: ZipString,
    pub eocd: EndOfCentralDirectory,
}

impl ZipArchive<()> {
    /// Creates a [`ZipLocator`] configured with a maximum search space for
    /// the End of Central Directory Record (EOCD).
    pub fn with_max_search_space(max_search_space: u64) -> (l: ZipLocator)
        ensures
            l.max_search_space == max_search_space,
    {
        ZipLocator::new().max_search_space(max_search_space)
    }

    /// Parses an archive from in-memory data, with the default search space.
    pub fn from_slice<'a>(data: &'a [u8]) -> (r: Result<ZipSliceArchive<'a>, Error>)
        ensures
            match r {
                Ok(archive) => archive.data@ == data@ && archive.wf() && locate_in_slice_spec(
                    data@,
                    END_OF_CENTRAL_DIR_MAX_OFFSET as int,
                ) == Ok::<_, ErrorKind>(archive.eocd),
                Err(e) => locate_in_slice_spec(data@, END_OF_CENTRAL_DIR_MAX_OFFSET as int)
                    == Err::<EndOfCentralDirectory, _>(e@),
            },
    {
        match ZipLocator::new().locate_in_slice(data) {
            Ok(archive) => Ok(archive),
            Err((_, e)) => Err(e),
        }
    }
}

impl<R> ZipArchive<R> {
    /// Returns a reference to the underlying reader.
    pub fn get_ref(&self) -> (r: &R)
        ensures
            *r == self.reader,
    {
        &self.reader
    }

    /// Returns a hint for the total number of entries in the archive.
    ///
    /// This value is read from the End of Central Directory record.
    pub fn entries_hint(&self) -> (n: u64)
        ensures
            n == self.eocd.spec_entries(),
    {
        self.eocd.entries()
    }

    /// Returns the comment of the zip archive, if any.
    pub fn comment(&self) -> (c: ZipStr<'_>)
        ensures
            c@ == self.comment@,
    {
        self.comment.as_str()
    }

    /// Returns the offset of the start of the zip file data.
    ///
    /// This is typically 0, but can be non-zero if the zip archive is
    /// embedded within a larger file.
    pub fn base_offset(&self) -> (r: u64)
        ensures
            r == self.eocd.spec_base_offset(),
    {
        self.eocd.base_offset()
    }
}

impl<R: ReaderAt> ZipArchive<R> {
    /// Whether the records lie within what the reader serves, as they do
    /// in an archive that the locator has found.
    pub open spec fn wf(&self) -> bool {
        self.eocd.stream_pos + 22 <= self.reader.contents().len()
    }

    /// What getting the entry that `entry` leads to gives, where no read
    /// fails: where its data starts and ends.
    ///
    /// The local header is read at the entry's offset. The data follows its
    /// variable part and has the compressed size that `entry` holds. `Eof`
    /// where the header is not whole or an offset passes the greatest `u64`.
    pub open spec fn entry_spec(contents: Seq<u8>, entry: ZipArchiveEntryWayfinder) -> Result<
        (int, int),
        ErrorKind,
    > {
        let at = entry.local_header_offset as int;
        if at + 30 > contents.len() {
            Err(ErrorKind::Eof)
        } else {
            match ZipLocalFileHeaderFixed::parse_spec(contents.subrange(at, at + 30)) {
                Err(e) => Err(e),
                Ok(header) => {
                    let start = at + 30 + header.spec_variable_length();
                    let end = start + entry.compressed_size;
                    if end > u64::MAX {
                        Err(ErrorKind::Eof)
                    } else {
                        Ok((start, end))
                    }
                },
            }
        }
    }

    /// Retrieves a specific entry from the archive by a wayfinder.
    ///
    /// The entry's data lies in the archive from the end of its local header
    /// on: from the header's offset, 30 bytes and the header's variable
    /// length further, over the compressed size.
    pub fn get_entry(&self, entry: ZipArchiveEntryWayfinder) -> (r: Result<ZipEntry<'_, R>, Error>)
        ensures
            match r {
                Ok(e) => Self::entry_spec(self.reader.contents(), entry) == Ok::<_, ErrorKind>(
                    (e.body_offset as int, e.body_end_offset as int),
                ) && e.archive == self && e.entry == entry && e.wf(),
                Err(e) => if e@ is IO {
                    !self.reader.never_fails()
                } else {
                    Self::entry_spec(self.reader.contents(), entry) == Err::<(int, int), _>(e@)
                },
            },
    {
        let mut buffer: Vec<u8> = vec![0u8; 30];
        read_exact_at(&self.reader, buffer.as_mut_slice(), entry.local_header_offset)?;
        // The central directory is the source of truth: the local header is
        // parsed for its signature and its variable length.
        let file_header = ZipLocalFileHeaderFixed::parse(buffer.as_slice())?;
        let header_end = entry.local_header_offset + 30;
        let body_offset = match header_end.checked_add(file_header.variable_length() as u64) {
            Some(v) => v,
            None => {
                return Err(error_of(ErrorKind::Eof));
            },
        };
        let body_end_offset = match body_offset.checked_add(entry.compressed_size) {
            Some(v) => v,
            None => {
                return Err(error_of(ErrorKind::Eof));
            },
        };
        Ok(ZipEntry { archive: self, entry, body_offset, body_end_offset })
    }
}

/// A single entry (file or directory) within a [`ZipArchive`].
#[derive(Debug)]
pub struct ZipEntry<'archive, R> {
    pub archive: &'archive ZipArchive<R>,
    pub body_offset: u64,
    pub body_end_offset: u64,
    pub entry: ZipArchiveEntryWayfinder,
}

impl<'archive, R: ReaderAt> ZipEntry<'archive, R> {
    /// Whether the data ends where it starts or after it.
    pub open spec fn wf(&self) -> bool {
        self.body_offset <= self.body_end_offset
    }

    /// Returns a [`ZipReader`] for reading the compressed data of this entry.
    pub fn reader(&self) -> (r: ZipReader<'archive, R>)
        requires
            self.wf(),
        ensures
            r.wf(),
            r.archive == self.archive,
            r.entry == self.entry,
            r.offset == self.body_offset,
            r.end_offset == self.body_end_offset,
    {
        ZipReader {
            archive: self.archive,
            entry: self.entry,
            offset: self.body_offset,
            end_offset: self.body_end_offset,
        }
    }

    /// Wraps a decompressor in an account of what it delivers, to check the
    /// size and the checksum of the inflated data at its end.
    pub fn verifying_reader<D>(&self, reader: D) -> (v: ZipVerifier<'archive, D, R>)
        ensures
            v.wf(),
            v.inner() == reader,
            v.seen() == Seq::<u8>::empty(),
            v.contents() == self.archive.reader.contents(),
            v.never_fails() == self.archive.reader.never_fails(),
            v.data_end() == self.body_end_offset,
            v.entry() == self.entry,
    {
        proof {
            lemma_crc32_empty(0);
        }
        ZipVerifier {
            reader,
            crc: 0,
            size: 0,
            archive: self.archive,
            end_offset: self.body_end_offset,
            wayfinder: self.entry,
            table: gen_crc_table(),
            seen: Ghost(Seq::empty()),
        }
    }

    /// Returns a tuple of start and end byte offsets for the compressed
    /// data within the underlying reader, by what the local file header
    /// says.
    ///
    /// Entries whose ranges overlap share compressed data, as the entries of
    /// a zip bomb do: sorting the ranges of all entries brings such to light.
    pub fn compressed_data_range(&self) -> (r: (u64, u64))
        ensures
            r.0 == self.body_offset,
            r.1 == self.body_end_offset,
    {
        (self.body_offset, self.body_end_offset)
    }
}

/// Where an entry is got from the bytes of an archive, its compressed data
/// lies behind its local header: it starts 30 bytes and the header's
/// variable length behind the header's offset, spans the compressed size,
/// and ends within the archive. Got through a reader that serves the same
/// bytes, the entry has the same range.
pub proof fn lemma_compressed_data_range(data: Seq<u8>, entry: ZipArchiveEntryWayfinder)
    requires
        data.len() <= u64::MAX,
        ZipSliceArchive::entry_spec(data, entry) is Ok,
    ensures
        ({
            let at = entry.local_header_offset as int;
            let (start, end, _) = ZipSliceArchive::entry_spec(data, entry)->Ok_0;
            &&& at + 30 <= data.len()
            &&& ZipLocalFileHeaderFixed::parse_spec(data.subrange(at, at + 30)) matches Ok(header)
                && start == at + 30 + header.spec_variable_length()
            &&& end == start + entry.compressed_size
            &&& end <= data.len()
            &&& ZipArchive::<Vec<u8>>::entry_spec(data, entry) == Ok::<_, ErrorKind>((start, end))
        }),
{
    let len = data.len() as int;
    let at = entry.local_header_offset as int;
    let whole = data.subrange(at, len);
    let head = data.subrange(at, at + 30);
    assert(head =~= whole.subrange(0, 30));
    assert(ZipLocalFileHeaderFixed::decode(head) == ZipLocalFileHeaderFixed::decode(whole));
}

/// What a verifier of an entry behind a reader checks against: the
/// checksum of the data descriptor that stands at `end_offset` where the
/// entry has one, else that of the central directory; and the size of the
/// central directory.
pub open spec fn expected_of(
    contents: Seq<u8>,
    wayfinder: ZipArchiveEntryWayfinder,
    end_offset: u64,
) -> Result<ZipVerification, ErrorKind> {
    if !wayfinder.has_data_descriptor {
        Ok(ZipVerification { crc: wayfinder.crc, uncompressed_size: wayfinder.uncompressed_size })
    } else if end_offset + 8 > contents.len() {
        Err(ErrorKind::Eof)
    } else {
        match DataDescriptor::parse_spec(contents.subrange(end_offset as int, end_offset + 8)) {
            Err(e) => Err(e),
            Ok(d) => Ok(
                ZipVerification { crc: d.crc, uncompressed_size: wayfinder.uncompressed_size },
            ),
        }
    }
}

/// Reads what an entry's data must check against.
fn read_expected<R: ReaderAt>(
    reader: &R,
    wayfinder: ZipArchiveEntryWayfinder,
    end_offset: u64,
) -> (r: Result<ZipVerification, Error>)
    ensures
        match r {
            Ok(v) => expected_of(reader.contents(), wayfinder, end_offset) == Ok::<_, ErrorKind>(
                v,
            ),
            Err(e) => if e@ is IO {
                !reader.never_fails() && wayfinder.has_data_descriptor
            } else {
                expected_of(reader.contents(), wayfinder, end_offset) == Err::<
                    ZipVerification,
                    _,
                >(e@)
            },
        },
{
    let crc = if wayfinder.has_data_descriptor {
        DataDescriptor::read_at(reader, end_offset)?.crc
    } else {
        wayfinder.crc
    };
    Ok(ZipVerification { crc, uncompressed_size: wayfinder.uncompressed_size })
}

/// Keeps account of the inflated data of an entry behind a reader, and
/// checks it against the expected checksum and size.
///
/// The caller reads from the decompressor and hands each piece that it
/// got to [`ZipVerifier::record`], the empty piece at the end too.
pub struct ZipVerifier<'archive, Decompressor, ReaderAt> {
    reader: Decompressor,
    crc: u32,
    size: u64,
    archive: &'archive ZipArchive<ReaderAt>,
    end_offset: u64,
    wayfinder: ZipArchiveEntryWayfinder,
    table: Vec<Vec<u32>>,
    seen: Ghost<Seq<u8>>,
}

impl<Decompressor, R: ReaderAt> ZipVerifier<'_, Decompressor, R> {
    /// The decompressor that the verifier wraps.
    pub closed spec fn inner(&self) -> Decompressor {
        self.reader
    }

    /// The inflated data that was recorded so far.
    pub closed spec fn seen(&self) -> Seq<u8> {
        self.seen@
    }

    /// What the archive's reader serves.
    pub closed spec fn contents(&self) -> Seq<u8> {
        self.archive.reader.contents()
    }

    /// Whether the archive's reader never fails.
    pub closed spec fn never_fails(&self) -> bool {
        self.archive.reader.never_fails()
    }

    /// The entry whose data is verified.
    pub closed spec fn entry(&self) -> ZipArchiveEntryWayfinder {
        self.wayfinder
    }

    /// The offset at which the entry's compressed data ends.
    pub closed spec fn data_end(&self) -> u64 {
        self.end_offset
    }

    /// Whether the account is that of the data recorded.
    pub closed spec fn wf(&self) -> bool {
        &&& is_crc_table(self.table@)
        &&& self.crc == crc32_spec(self.seen@)
        &&& self.size == counted(self.seen@)
    }

    /// Consumes the [`ZipVerifier`], returning the underlying decompressor.
    pub fn into_inner(self) -> (d: Decompressor)
        ensures
            d == self.inner(),
    {
        self.reader
    }

    /// The decompressor, to read the next piece from.
    pub fn get_mut(&mut self) -> (d: &mut Decompressor)
        ensures
            *d == old(self).inner(),
            final(self).inner() == *final(d),
            final(self).seen() == old(self).seen(),
            final(self).contents() == old(self).contents(),
            final(self).never_fails() == old(self).never_fails(),
            final(self).data_end() == old(self).data_end(),
            final(self).entry() == old(self).entry(),
            old(self).wf() ==> final(self).wf(),
    {
        &mut self.reader
    }

    /// Takes note of the piece `data` that the decompressor has delivered;
    /// the empty piece says that it has ended.
    ///
    /// At the end of the data, or once the expected size is reached, the
    /// checksum to check against is read where the entry has a data
    /// descriptor, and size and checksum are checked.
    pub fn record(&mut self, data: &[u8]) -> (r: Result<(), Error>)
        requires
            old(self).wf(),
        ensures
            final(self).wf(),
            final(self).inner() == old(self).inner(),
            final(self).contents() == old(self).contents(),
            final(self).never_fails() == old(self).never_fails(),
            final(self).data_end() == old(self).data_end(),
            final(self).entry() == old(self).entry(),
            final(self).seen() == old(self).seen() + data@,
            ({
                let seen = old(self).seen() + data@;
                let wanted = expected_of(
                    old(self).contents(),
                    old(self).entry(),
                    old(self).data_end(),
                );
                if data@.len() == 0 || counted(seen) >= old(self).entry().uncompressed_size {
                    match r {
                        Ok(_) => wanted matches Ok(expected) && verdict(expected, seen, data@)
                            is Ok,
                        Err(e) => if e@ is IO {
                            !old(self).never_fails() && old(self).entry().has_data_descriptor
                        } else {
                            match wanted {
                                Ok(expected) => verdict(expected, seen, data@) == Err::<(), _>(e@),
                                Err(k) => k == e@,
                            }
                        },
                    }
                } else {
                    r is Ok
                }
            }),
    {
        proof {
            lemma_crc32_chunked(self.seen@, data@, 0);
        }
        self.crc = crc32_chunk_with(&self.table, data, self.crc);
        self.size = self.size.saturating_add(data.len() as u64);
        self.seen = Ghost(self.seen@ + data@);
        if data.len() == 0 || self.size >= self.wayfinder.uncompressed_size_hint() {
            let expected = read_expected(&self.archive.reader, self.wayfinder, self.end_offset)?;
            expected.valid(ZipVerification { crc: self.crc, uncompressed_size: self.size })
        } else {
            Ok(())
        }
    }
}

/// A reader for a Zip entry's compressed data.
#[derive(Debug)]
pub struct ZipReader<'archive, R> {
    pub archive: &'archive ZipArchive<R>,
    pub entry: ZipArchiveEntryWayfinder,
    pub offset: u64,
    pub end_offset: u64,
}

impl<R: ReaderAt> ZipReader<'_, R> {
    /// Whether the reader stands within the entry's data.
    pub open spec fn wf(&self) -> bool {
        self.offset <= self.end_offset
    }

    /// Returns what the inflated data must check against: the checksum of
    /// the data descriptor where the entry has one, else that of the central
    /// directory, and the size of the central directory.
    ///
    /// Consumes the reader: this is for when all data has been read.
    pub fn claim_verifier(self) -> (r: Result<ZipVerification, Error>)
        ensures
            match r {
                Ok(v) => expected_of(self.archive.reader.contents(), self.entry, self.end_offset)
                    == Ok::<_, ErrorKind>(v),
                Err(e) => if e@ is IO {
                    !self.archive.reader.never_fails() && self.entry.has_data_descriptor
                } else {
                    expected_of(self.archive.reader.contents(), self.entry, self.end_offset)
                        == Err::<ZipVerification, _>(e@)
                },
            },
    {
        read_expected(&self.archive.reader, self.entry, self.end_offset)
    }

    /// Reads compressed data into `buf`, as much as one read of the
    /// underlying reader gives and never beyond the entry's data, and moves
    /// on by what was read. Returns 0 where `buf` is empty or the data, or
    /// what the reader serves, is at its end.
    pub fn read(&mut self, buf: &mut [u8]) -> (r: Result<usize, std::io::Error>)
        requires
            old(self).wf(),
        ensures
            final(self).wf(),
            final(buf)@.len() == old(buf)@.len(),
            final(self).archive == old(self).archive,
            final(self).entry == old(self).entry,
            final(self).end_offset == old(self).end_offset,
            old(self).archive.reader.never_fails() ==> r is Ok,
            match r {
                Ok(n) => {
                    &&& n <= old(buf)@.len()
                    &&& final(self).offset == old(self).offset + n
                    &&& in_bounds(
                        old(self).archive.reader.contents(),
                        old(self).offset as int,
                        n as int,
                    )
                    &&& final(buf)@.subrange(0, n as int) == window(
                        old(self).archive.reader.contents(),
                        old(self).offset as int,
                        n as int,
                    )
                    &&& n == 0 ==> old(buf)@.len() == 0 || old(self).offset == old(self).end_offset
                        || old(self).offset >= old(self).archive.reader.contents().len()
                },
                Err(_) => final(self).offset == old(self).offset,
            },
    {
        let left = self.end_offset - self.offset;
        let read_size: usize = if (buf.len() as u64) <= left {
            buf.len()
        } else {
            left as usize
        };
        let (front, _) = buf.split_at_mut(read_size);
        let read = self.archive.reader.read_at(front, self.offset)?;
        assert(buf@.subrange(0, read as int) =~= front@.subrange(0, read as int));
        self.offset += read as u64;
        Ok(read)
    }
}

/// What the next step over the central directory bytes `cd` gives an
/// iterator that reads them through a buffer of `buffer_len` bytes.
///
/// It is what `next_record` gives, but for `BufferTooSmall` where the
/// buffer cannot hold the fixed part of a record, or what follows it.
pub open spec fn next_record_buffered(cd: Seq<u8>, buffer_len: int) -> Result<
    Option<(ZipFileHeaderFixed, int)>,
    ErrorKind,
> {
    if cd.len() == 0 {
        Ok(None)
    } else if buffer_len < 46 {
        Err(ErrorKind::BufferTooSmall)
    } else if cd.len() >= 46 && le_u32_at(cd, 0) == CENTRAL_HEADER_SIGNATURE
        && ZipFileHeaderFixed::decode(cd).spec_variable_length() > buffer_len {
        Err(ErrorKind::BufferTooSmall)
    } else {
        next_record(cd)
    }
}

/// A lending iterator over file header records in a [`ZipArchive`].
///
/// The records are read through a buffer that the caller lends. Each record
/// borrows from the buffer until the next one is asked for.
pub struct ZipEntries<'archive, 'buf, R> {
    buffer: &'buf mut [u8],
    archive: &'archive ZipArchive<R>,
    pos: usize,
    end: usize,
    offset: u64,
    base_offset: u64,
    central_dir_end_pos: u64,
}

impl<R: ReaderAt> ZipEntries<'_, '_, R> {
    /// What the archive's reader serves.
    pub closed spec fn contents(&self) -> Seq<u8> {
        self.archive.reader.contents()
    }

    /// Whether the archive's reader never fails.
    pub closed spec fn never_fails(&self) -> bool {
        self.archive.reader.never_fails()
    }

    /// The length of the buffer that the records are read through.
    pub closed spec fn buffer_len(&self) -> int {
        self.buffer@.len() as int
    }

    /// What is added to the local header offset of each record.
    pub closed spec fn base(&self) -> u64 {
        self.base_offset
    }

    /// Where the central directory ends in the reader.
    pub closed spec fn directory_end(&self) -> int {
        self.central_dir_end_pos as int
    }

    /// Where the iterator stands in the reader: where the next record
    /// starts.
    pub closed spec fn position(&self) -> int {
        self.offset - (self.end - self.pos)
    }

    /// Whether the buffer's window holds what the reader has before the
    /// offset at which the next read starts, and the directory ends within
    /// what the reader serves.
    pub closed spec fn wf(&self) -> bool {
        &&& self.pos <= self.end <= self.buffer@.len()
        &&& self.end - self.pos <= self.offset
        &&& self.offset <= self.central_dir_end_pos
        &&& self.central_dir_end_pos <= self.archive.reader.contents().len()
        &&& self.buffer@.subrange(self.pos as int, self.end as int)
            == self.archive.reader.contents().subrange(
            self.offset - (self.end - self.pos),
            self.offset as int,
        )
    }

    /// The bytes of the central directory that lie before the iterator.
    pub open spec fn remaining(&self) -> Seq<u8> {
        self.contents().subrange(self.position(), self.directory_end())
    }

    /// The bytes that the buffer's window holds: those that start at the
    /// iterator's position.
    pub closed spec fn held(&self) -> Seq<u8> {
        self.buffer@.subrange(self.pos as int, self.end as int)
    }

    /// The window holds the directory's bytes from the iterator's position
    /// on.
    proof fn lemma_held(&self)
        requires
            self.wf(),
        ensures
            self.held().len() <= self.remaining().len(),
            self.held() == self.remaining().subrange(0, self.held().len() as int),
            0 <= self.position() <= self.directory_end() <= self.contents().len(),
    {
        assert(self.held() =~= self.remaining().subrange(0, self.held().len() as int));
    }

    /// Makes the window hold at least `need` bytes, by reading further
    /// where it does not: what is left of the window moves to the front of
    /// the buffer, and the reader fills in behind it, never beyond the end
    /// of the directory. Returns whether the directory has that many bytes
    /// left.
    fn fill(&mut self, need: usize) -> (r: Result<bool, Error>)
        requires
            old(self).wf(),
        ensures
            final(self).wf(),
            final(self).contents() == old(self).contents(),
            final(self).never_fails() == old(self).never_fails(),
            final(self).buffer_len() == old(self).buffer_len(),
            final(self).base() == old(self).base(),
            final(self).directory_end() == old(self).directory_end(),
            final(self).position() == old(self).position(),
            match r {
                Ok(enough) => enough == (need <= old(self).remaining().len()) && (enough
                    ==> final(self).held().len() >= need) && (!enough ==> need <= old(self).buffer_len()),
                Err(e) => if e@ is IO {
                    !old(self).never_fails()
                } else {
                    e@ is BufferTooSmall && old(self).buffer_len() < need
                },
            },
    {
        let have = self.end - self.pos;
        if have >= need {
            proof {
                self.lemma_held();
            }
            return Ok(true);
        }
        let buffer_len = self.buffer.len();
        if buffer_len < need {
            return Err(error_of(ErrorKind::BufferTooSmall));
        }
        let on_disk: u64 = self.central_dir_end_pos - self.offset;
        if on_disk < (need - have) as u64 {
            return Ok(false);
        }
        let ghost held = self.buffer@.subrange(self.pos as int, self.end as int);
        let ghost c = self.archive.reader.contents();
        move_within(self.buffer, self.pos, have, 0);
        self.pos = 0;
        self.end = have;
        assert(self.buffer@.subrange(0, have as int) =~= held);
        let room = buffer_len - have;
        let max_read: usize = if on_disk <= room as u64 {
            on_disk as usize
        } else {
            room
        };
        let (front, back) = self.buffer.split_at_mut(have);
        let (target, rest) = back.split_at_mut(max_read);
        let outcome = read_at_least_at(&self.archive.reader, target, need - have, self.offset);
        assert(self.buffer@ == front@ + (target@ + rest@));
        assert(self.buffer@.subrange(0, have as int) =~= held);
        match outcome {
            Ok(read) => {
                proof {
                    assert(target@.subrange(0, read as int) == c.subrange(
                        self.offset as int,
                        self.offset + read,
                    ));
                    assert(self.buffer@.subrange(0, have + read) =~= held + target@.subrange(
                        0,
                        read as int,
                    ));
                    assert(held + c.subrange(self.offset as int, self.offset + read)
                        =~= c.subrange(self.offset - have, self.offset + read));
                }
                self.offset += read as u64;
                self.end = have + read;
                Ok(true)
            },
            Err(e) => Err(e),
        }
    }

    /// Moves the iterator on by `by` bytes of the window.
    fn advance(&mut self, by: usize)
        requires
            old(self).wf(),
            by <= old(self).held().len(),
        ensures
            final(self).wf(),
            final(self).contents() == old(self).contents(),
            final(self).never_fails() == old(self).never_fails(),
            final(self).buffer_len() == old(self).buffer_len(),
            final(self).base() == old(self).base(),
            final(self).directory_end() == old(self).directory_end(),
            final(self).position() == old(self).position() + by,
            final(self).held() == old(self).held().subrange(
                by as int,
                old(self).held().len() as int,
            ),
            final(self).buffer@ == old(self).buffer@,
            final(self).pos == old(self).pos + by,
            final(self).end == old(self).end,
    {
        let ghost before = self.held();
        let ghost c = self.archive.reader.contents();
        let ghost at = self.offset - (self.end - self.pos);
        self.pos += by;
        assert(self.held() =~= before.subrange(by as int, before.len() as int));
        assert(c.subrange(at, self.offset as int).subrange(by as int, before.len() as int)
            =~= c.subrange(at + by, self.offset as int));
    }

    /// Brings the fixed part of the next record into the window and parses
    /// it. `None` at the end of the directory.
    fn peek_header(&mut self) -> (r: Result<Option<ZipFileHeaderFixed>, Error>)
        requires
            old(self).wf(),
        ensures
            final(self).wf(),
            final(self).contents() == old(self).contents(),
            final(self).never_fails() == old(self).never_fails(),
            final(self).buffer_len() == old(self).buffer_len(),
            final(self).base() == old(self).base(),
            final(self).directory_end() == old(self).directory_end(),
            final(self).position() == old(self).position(),
            match r {
                Ok(Some(h)) => {
                    let cd = old(self).remaining();
                    &&& cd.len() >= 46
                    &&& old(self).buffer_len() >= 46
                    &&& le_u32_at(cd, 0) == CENTRAL_HEADER_SIGNATURE
                    &&& h == ZipFileHeaderFixed::decode(cd)
                    &&& final(self).held().len() >= 46
                },
                Ok(None) => {
                    let cd = old(self).remaining();
                    cd.len() == 0 || (cd.len() >= 46 && old(self).buffer_len() >= 46 && le_u32_at(
                        cd,
                        0,
                    ) != CENTRAL_HEADER_SIGNATURE)
                },
                Err(e) => {
                    let cd = old(self).remaining();
                    if e@ is IO {
                        !old(self).never_fails()
                    } else if e@ is BufferTooSmall {
                        cd.len() > 0 && old(self).buffer_len() < 46
                    } else {
                        e@ is Eof && 0 < cd.len() < 46 && old(self).buffer_len() >= 46
                    }
                },
            },
    {
        let ghost cd = self.remaining();
        let left: u64 = (self.end - self.pos) as u64 + (self.central_dir_end_pos - self.offset);
        proof {
            self.lemma_held();
            assert(cd.len() == left);
        }
        if left == 0 {
            return Ok(None);
        }
        if !self.fill(46)? {
            return Err(error_of(ErrorKind::Eof));
        }
        let pos = self.pos;
        proof {
            self.lemma_held();
            assert(self.buffer@.subrange(pos as int, pos + 46) =~= self.held().subrange(0, 46));
            assert(self.buffer@.subrange(pos as int, pos + 46) =~= cd.subrange(0, 46));
            assert(le_u32_at(cd.subrange(0, 46), 0) == le_u32_at(cd, 0));
        }
        match ZipFileHeaderFixed::parse(&self.buffer[pos..pos + 46]) {
            Ok(header) => Ok(Some(header)),
            Err(_) => Ok(None),
        }
    }

    /// Yield the next zip file entry in the central directory if there is
    /// any.
    ///
    /// Where no read fails and the buffer is large enough, the entries are
    /// those that a [`ZipSliceEntries`] yields over the bytes of the
    /// central directory. After an entry was yielded, the iterator stands
    /// behind its record. At the end of the directory it stays where it is.
    pub fn next_entry(&mut self) -> (r: Result<Option<ZipFileHeaderRecord<'_>>, Error>)
        requires
            old(self).wf(),
        ensures
            final(self).wf(),
            final(self).contents() == old(self).contents(),
            final(self).never_fails() == old(self).never_fails(),
            final(self).buffer_len() == old(self).buffer_len(),
            final(self).base() == old(self).base(),
            final(self).directory_end() == old(self).directory_end(),
            match r {
                Ok(Some(record)) => next_record_buffered(
                    old(self).remaining(),
                    old(self).buffer_len(),
                ) matches Ok(Some((_, len))) && is_record_of(
                    record,
                    old(self).remaining(),
                    old(self).base(),
                ) && final(self).position() == old(self).position() + len,
                Ok(None) => next_record_buffered(old(self).remaining(), old(self).buffer_len())
                    == Ok::<Option<(ZipFileHeaderFixed, int)>, ErrorKind>(None)
                    && final(self).position() == old(self).position(),
                Err(e) => if e@ is IO {
                    !old(self).never_fails()
                } else {
                    next_record_buffered(old(self).remaining(), old(self).buffer_len()) == Err::<
                        Option<(ZipFileHeaderFixed, int)>,
                        _,
                    >(e@)
                },
            },
    {
        let ghost cd = self.remaining();
        let file_header = match self.peek_header()? {
            Some(header) => header,
            None => {
                return Ok(None);
            },
        };
        let variable_length = file_header.variable_length();
        self.advance(46);
        proof {
            assert(self.remaining() =~= cd.subrange(46, cd.len() as int));
        }
        if !self.fill(variable_length)? {
            return Err(error_of(ErrorKind::Eof));
        }
        let pos = self.pos;
        proof {
            self.lemma_held();
        }
        let ghost var = self.held().subrange(0, variable_length as int);
        self.advance(variable_length);
        let data = &self.buffer[pos..pos + variable_length];
        proof {
            let n = file_header.file_name_len as int;
            let e = file_header.extra_field_len as int;
            let c = file_header.file_comment_len as int;
            assert(data@ =~= var);
            assert(var =~= cd.subrange(46, 46 + variable_length));
            assert(data@.subrange(0, n) =~= cd.subrange(46, 46 + n));
            assert(data@.subrange(n, n + e) =~= cd.subrange(46 + n, 46 + n + e));
            assert(data@.subrange(n + e, n + e + c) =~= cd.subrange(46 + n + e, 46 + n + e + c));
        }
        let fields = file_header.parse_variable_length(data);
        let (file_name, extra_field, file_comment) = match fields {
            Some((file_name, extra_field, file_comment, _)) => (
                file_name,
                extra_field,
                file_comment,
            ),
            None => {
                return Err(error_of(ErrorKind::Eof));
            },
        };
        let mut record = ZipFileHeaderRecord::from_parts(
            file_header,
            file_name,
            extra_field,
            file_comment,
        );
        record.wide.local_header_offset = record.wide.local_header_offset.saturating_add(
            self.base_offset,
        );
        Ok(Some(record))
    }
}

impl<R: ReaderAt> ZipArchive<R> {
    /// Returns a lending iterator over the entries in the central
    /// directory of the archive.
    ///
    /// Requires a mutable buffer to read directory entries from the
    /// underlying reader.
    pub fn entries<'archive, 'buf>(&'archive self, buffer: &'buf mut [u8]) -> (entries: ZipEntries<
        'archive,
        'buf,
        R,
    >)
        requires
            self.wf(),
        ensures
            entries.wf(),
            entries.contents() == self.reader.contents(),
            entries.never_fails() == self.reader.never_fails(),
            entries.buffer_len() == old(buffer)@.len(),
            entries.base() == self.eocd.spec_base_offset(),
            entries.position() == self.eocd.spec_offset(),
            entries.directory_end() == self.eocd.stream_pos,
    {
        let offset = self.eocd.offset();
        let ghost c = self.reader.contents();
        assert(buffer@.subrange(0, 0) =~= c.subrange(offset as int, offset as int));
        ZipEntries {
            buffer,
            archive: self,
            pos: 0,
            end: 0,
            offset,
            base_offset: self.eocd.base_offset(),
            central_dir_end_pos: self.eocd.end_position(),
        }
    }
}

} // verus!
