//! Writing archives: local headers, data descriptors, the central
//! directory and the end of central directory records, with the zip64
//! records wherever a size, an offset or the number of entries asks for them.

use crate::archive::{is_dir_path, CompressionMethod, CompressionMethodId, ZipLocalFileHeaderFixed};
use crate::crc::{
    crc32_chunk_with,
    crc32_spec,
    gen_crc_table,
    is_crc_table,
    lemma_crc32_chunked,
    lemma_crc32_empty,
};
use crate::errors::{error_of, Error, ErrorKind};
use crate::path::{needs_utf8, normalize_spec, NormalizedPathBuf, ZipFilePath};
use crate::time::{
    dos_date_of,
    dos_time_of,
    lemma_dos_round_trip,
    Civil,
    DosDateTime,
    UtcDateTime,
    EXTENDED_TIMESTAMP_ID,
};
use crate::utils::{
    lemma_le_bytes_len,
    put_bytes,
    put_u16,
    put_u32,
    put_u64,
    u16_le_bytes,
    u32_le_bytes,
    u64_le_bytes,
};
use vstd::prelude::*;
use vstd::utf8::encode_utf8;

verus! {

/// The id of the zip64 extended information extra field.
pub const ZIP64_EXTRA_FIELD_ID: u16 = 0x0001;

/// The version that an entry or an archive with zip64 records needs.
pub const ZIP64_VERSION_NEEDED: u16 = 45;

/// The version that any other entry needs.
pub const DEFAULT_VERSION_NEEDED: u16 = 20;

/// Bit 3 of the flags: a data descriptor follows the data.
pub const FLAG_DATA_DESCRIPTOR: u16 = 0x08;

/// Bit 11 of the flags: the name is UTF-8.
pub const FLAG_UTF8_ENCODING: u16 = 0x800;

/// The size from which on an entry needs zip64 fields.
pub const ZIP64_THRESHOLD_FILE_SIZE: u64 = 0xFFFF_FFFF;

/// The offset from which on an entry or an archive needs zip64 fields.
pub const ZIP64_THRESHOLD_OFFSET: u64 = 0xFFFF_FFFF;

/// The number of entries from which on an archive needs zip64 records.
pub const ZIP64_THRESHOLD_ENTRIES: usize = 0xFFFF;

/// What the central directory records of one entry.
pub struct EntryRecord {
    /// The bytes of the normalized name.
    pub name: Seq<u8>,
    /// The id of the compression method.
    pub method: u16,
    pub local_header_offset: u64,
    pub compressed_size: u64,
    pub uncompressed_size: u64,
    pub crc: u32,
    pub flags: u16,
    pub modified: Option<Civil>,
    pub unix_permissions: Option<u32>,
}

/// The DOS time and date fields of an entry: those of its modification
/// time, or zeros.
pub open spec fn dos_fields(modified: Option<Civil>) -> (int, int) {
    match modified {
        Some(c) => (dos_time_of(c), dos_date_of(c)),
        None => (0, 0),
    }
}

/// The seconds that an extended timestamp field holds for a moment: its
/// Unix seconds in 32 bits, those before the epoch as 0.
pub open spec fn timestamp_seconds(c: Civil) -> int {
    if c.unix_seconds() < 0 {
        0
    } else {
        c.unix_seconds() % 0x1_0000_0000
    }
}

/// The extended timestamp extra field of an entry: nothing for an entry
/// without modification time; else the id, the size 5, the flags 1 and the
/// Unix seconds.
pub open spec fn extended_timestamp_bytes(modified: Option<Civil>) -> Seq<u8> {
    match modified {
        Some(c) => u16_le_bytes(EXTENDED_TIMESTAMP_ID as int) + u16_le_bytes(5) + seq![1u8]
            + u32_le_bytes(timestamp_seconds(c)),
        None => Seq::empty(),
    }
}

/// The bytes that open an entry: its local header, with zeros for
/// checksum and sizes, its name and its extended timestamp.
pub open spec fn local_header_bytes(
    name: Seq<u8>,
    flags: u16,
    method: u16,
    modified: Option<Civil>,
) -> Seq<u8> {
    (ZipLocalFileHeaderFixed {
        signature: 0x04034b50,
        version_needed: DEFAULT_VERSION_NEEDED,
        flags,
        compression_method: CompressionMethodId(method),
        last_mod_time: dos_fields(modified).0 as u16,
        last_mod_date: dos_fields(modified).1 as u16,
        crc32: 0,
        compressed_size: 0,
        uncompressed_size: 0,
        file_name_len: name.len() as u16,
        extra_field_len: extended_timestamp_bytes(modified).len() as u16,
    }).encode() + name + extended_timestamp_bytes(modified)
}

/// Whether the sizes of an entry ask for eight bytes each in its data
/// descriptor.
pub open spec fn wide_sizes(compressed_size: u64, uncompressed_size: u64) -> bool {
    compressed_size >= ZIP64_THRESHOLD_FILE_SIZE || uncompressed_size >= ZIP64_THRESHOLD_FILE_SIZE
}

/// The data descriptor that closes an entry: its signature, the checksum,
/// and the compressed and the uncompressed size.
pub open spec fn data_descriptor_bytes(
    crc: u32,
    compressed_size: u64,
    uncompressed_size: u64,
) -> Seq<u8> {
    u32_le_bytes(0x08074b50) + u32_le_bytes(crc as int) + if wide_sizes(
        compressed_size,
        uncompressed_size,
    ) {
        u64_le_bytes(compressed_size as int) + u64_le_bytes(uncompressed_size as int)
    } else {
        u32_le_bytes(compressed_size as int) + u32_le_bytes(uncompressed_size as int)
    }
}

impl EntryRecord {
    /// Whether the entry needs zip64 fields: a size or its offset does not
    /// fit in 32 bits below the sentinel.
    pub open spec fn needs_zip64(self) -> bool {
        self.compressed_size >= ZIP64_THRESHOLD_FILE_SIZE || self.uncompressed_size
            >= ZIP64_THRESHOLD_FILE_SIZE || self.local_header_offset >= ZIP64_THRESHOLD_OFFSET
    }

    /// The data of the entry's zip64 extra field: the uncompressed size,
    /// the compressed size and the offset, each only where it needs zip64.
    pub open spec fn zip64_data(self) -> Seq<u8> {
        (if self.uncompressed_size >= ZIP64_THRESHOLD_FILE_SIZE {
            u64_le_bytes(self.uncompressed_size as int)
        } else {
            Seq::empty()
        }) + (if self.compressed_size >= ZIP64_THRESHOLD_FILE_SIZE {
            u64_le_bytes(self.compressed_size as int)
        } else {
            Seq::empty()
        }) + (if self.local_header_offset >= ZIP64_THRESHOLD_OFFSET {
            u64_le_bytes(self.local_header_offset as int)
        } else {
            Seq::empty()
        })
    }

    /// The entry's zip64 extra field: nothing where it needs none.
    pub open spec fn zip64_extra(self) -> Seq<u8> {
        if self.needs_zip64() {
            u16_le_bytes(ZIP64_EXTRA_FIELD_ID as int) + u16_le_bytes(
                self.zip64_data().len() as int,
            ) + self.zip64_data()
        } else {
            Seq::empty()
        }
    }

    /// The version that is needed to extract the entry.
    pub open spec fn version_needed(self) -> u16 {
        if self.needs_zip64() {
            ZIP64_VERSION_NEEDED
        } else {
            DEFAULT_VERSION_NEEDED
        }
    }

    /// The "version made by" of the entry: Unix in the upper byte where
    /// the entry has Unix permissions.
    pub open spec fn version_made_by(self) -> u16 {
        if self.unix_permissions is Some {
            (3 * 256 + self.version_needed()) as u16
        } else {
            self.version_needed()
        }
    }

    /// The external file attributes: the Unix permissions in the upper 16
    /// bits.
    pub open spec fn external_attrs(self) -> u32 {
        match self.unix_permissions {
            Some(p) => ((p % 0x1_0000) * 0x1_0000) as u32,
            None => 0,
        }
    }

    /// The extra field of the central directory record.
    pub open spec fn extra(self) -> Seq<u8> {
        self.zip64_extra() + extended_timestamp_bytes(self.modified)
    }

    /// The first 20 bytes of the central directory record: the signature,
    /// the versions, the flags, the method, the DOS time and date, and the
    /// checksum.
    pub open spec fn central_head_bytes(self) -> Seq<u8> {
        u32_le_bytes(0x02014b50) + u16_le_bytes(self.version_made_by() as int) + u16_le_bytes(
            self.version_needed() as int,
        ) + u16_le_bytes(self.flags as int) + u16_le_bytes(self.method as int) + u16_le_bytes(
            dos_fields(self.modified).0,
        ) + u16_le_bytes(dos_fields(self.modified).1) + u32_le_bytes(self.crc as int)
    }

    /// The 26 bytes that follow them: the sizes, the lengths of name, extra
    /// field and comment, the disk, the attributes and the offset. A size or
    /// an offset that needs zip64 holds the sentinel.
    pub open spec fn central_tail_bytes(self) -> Seq<u8> {
        u32_le_bytes(capped32(self.compressed_size)) + u32_le_bytes(
            capped32(self.uncompressed_size),
        ) + u16_le_bytes(self.name.len() as int) + u16_le_bytes(self.extra().len() as int)
            + u16_le_bytes(0) + u32_le_bytes(0) + u32_le_bytes(self.external_attrs() as int)
            + u32_le_bytes(capped32(self.local_header_offset))
    }

    /// The central directory record of the entry: its fixed part, the name
    /// and the extra field.
    pub open spec fn central_record_bytes(self) -> Seq<u8> {
        self.central_head_bytes() + self.central_tail_bytes() + self.name + self.extra()
    }
}

/// A value, or the 32 bit sentinel where it does not fit below it.
pub open spec fn capped32(v: u64) -> int {
    if v >= 0xFFFF_FFFF {
        0xFFFF_FFFF
    } else {
        v as int
    }
}

/// A count of entries, or the 16 bit sentinel where it does not fit below
/// it.
pub open spec fn capped16(n: int) -> int {
    if n >= 0xFFFF {
        0xFFFF
    } else {
        n
    }
}

/// The central directory: the records of the entries, one after the
/// other.
pub open spec fn central_directory_bytes(entries: Seq<EntryRecord>) -> Seq<u8>
    decreases entries.len(),
{
    if entries.len() == 0 {
        Seq::empty()
    } else {
        central_directory_bytes(entries.drop_last()) + entries.last().central_record_bytes()
    }
}

/// Whether an entry of `entries` needs zip64 fields.
pub open spec fn any_needs_zip64(entries: Seq<EntryRecord>) -> bool {
    exists|i: int| 0 <= i < entries.len() && (#[trigger] entries[i]).needs_zip64()
}

/// Whether an archive needs the zip64 records: it has 65535 entries or
/// more, its central directory starts at or beyond the 32 bit sentinel, or
/// an entry needs zip64 fields.
pub open spec fn archive_needs_zip64(entries: Seq<EntryRecord>, directory_offset: u64) -> bool {
    entries.len() >= ZIP64_THRESHOLD_ENTRIES || directory_offset >= ZIP64_THRESHOLD_OFFSET
        || any_needs_zip64(entries)
}

/// The zip64 end of central directory record.
pub open spec fn zip64_eocd_bytes(
    total_entries: u64,
    directory_size: u64,
    directory_offset: u64,
) -> Seq<u8> {
    u32_le_bytes(0x06064b50) + u64_le_bytes(44) + u16_le_bytes(ZIP64_VERSION_NEEDED as int)
        + u16_le_bytes(ZIP64_VERSION_NEEDED as int) + u32_le_bytes(0) + u32_le_bytes(0)
        + u64_le_bytes(total_entries as int) + u64_le_bytes(total_entries as int) + u64_le_bytes(
        directory_size as int,
    ) + u64_le_bytes(directory_offset as int)
}

/// The zip64 end of central directory locator.
pub open spec fn zip64_locator_bytes(zip64_eocd_offset: u64) -> Seq<u8> {
    u32_le_bytes(0x07064b50) + u32_le_bytes(0) + u64_le_bytes(zip64_eocd_offset as int)
        + u32_le_bytes(1)
}

/// The end of central directory record, without comment. The number of
/// entries, the size and the offset of the directory hold the sentinel
/// where they do not fit below it.
pub open spec fn eocd_bytes(total_entries: int, directory_size: u64, directory_offset: u64) -> Seq<
    u8,
> {
    u32_le_bytes(0x06054b50) + u32_le_bytes(0) + u16_le_bytes(capped16(total_entries))
        + u16_le_bytes(capped16(total_entries)) + u32_le_bytes(capped32(directory_size))
        + u32_le_bytes(capped32(directory_offset)) + u16_le_bytes(0)
}

/// What closes an archive whose entries end at `directory_offset`: the
/// central directory, the zip64 records where the archive needs them, and the
/// end of central directory record.
pub open spec fn archive_end_bytes(entries: Seq<EntryRecord>, directory_offset: u64) -> Seq<u8> {
    let directory = central_directory_bytes(entries);
    let size = directory.len() as u64;
    let zip64 = if archive_needs_zip64(entries, directory_offset) {
        zip64_eocd_bytes(entries.len() as u64, size, directory_offset) + zip64_locator_bytes(
            (directory_offset + size) as u64,
        )
    } else {
        Seq::empty()
    };
    directory + zip64 + eocd_bytes(entries.len() as int, size, directory_offset)
}

/// The checksum and the sizes that the data descriptor of an entry holds.
#[derive(Debug, Clone, Copy)]
pub struct DataDescriptorOutput {
    crc: u32,
    compressed_size: u64,
    uncompressed_size: u64,
}

impl DataDescriptorOutput {
    /// The CRC32 checksum of the uncompressed data.
    pub closed spec fn spec_crc(&self) -> u32 {
        self.crc
    }

    /// The uncompressed size of the data.
    pub closed spec fn spec_uncompressed_size(&self) -> u64 {
        self.uncompressed_size
    }

    /// Returns the CRC32 checksum of the uncompressed data.
    #[verifier::when_used_as_spec(spec_crc)]
    pub fn crc(&self) -> (r: u32)
        ensures
            r == self.spec_crc(),
    {
        self.crc
    }

    /// Returns the uncompressed size of the data.
    #[verifier::when_used_as_spec(spec_uncompressed_size)]
    pub fn uncompressed_size(&self) -> (r: u64)
        ensures
            r == self.spec_uncompressed_size(),
    {
        self.uncompressed_size
    }
}

/// What an archive writer keeps of an entry for the central directory.
#[derive(Debug)]
struct FileHeader {
    name: ZipFilePath<NormalizedPathBuf>,
    compression_method: CompressionMethod,
    local_header_offset: u64,
    compressed_size: u64,
    uncompressed_size: u64,
    crc: u32,
    flags: u16,
    modification_time: Option<UtcDateTime>,
    unix_permissions: Option<u32>,
}

impl View for FileHeader {
    type V = EntryRecord;

    closed spec fn view(&self) -> EntryRecord {
        EntryRecord {
            name: self.name.bytes(),
            method: self.compression_method.id(),
            local_header_offset: self.local_header_offset,
            compressed_size: self.compressed_size,
            uncompressed_size: self.uncompressed_size,
            crc: self.crc,
            flags: self.flags,
            modified: crate::time::civil_of(self.modification_time),
            unix_permissions: self.unix_permissions,
        }
    }
}

impl FileHeader {
    fn needs_zip64(&self) -> (b: bool)
        ensures
            b == self@.needs_zip64(),
    {
        self.compressed_size >= ZIP64_THRESHOLD_FILE_SIZE || self.uncompressed_size
            >= ZIP64_THRESHOLD_FILE_SIZE || self.local_header_offset >= ZIP64_THRESHOLD_OFFSET
    }

    /// The data of the ZIP64 extended information extra field of this entry.
    fn zip64_data(&self) -> (data: Vec<u8>)
        ensures
            data@ == self@.zip64_data(),
            data@.len() <= 24,
    {
        proof {
            lemma_extra_len(self@);
        }
        let ghost none = Seq::<u8>::empty();
        let mut data: Vec<u8> = Vec::new();
        // The fields, in the order that the format gives them.
        if self.uncompressed_size >= ZIP64_THRESHOLD_FILE_SIZE {
            put_u64(&mut data, self.uncompressed_size);
            assert(none + u64_le_bytes(self.uncompressed_size as int) =~= u64_le_bytes(
                self.uncompressed_size as int,
            ));
        }
        let ghost first = data@;
        if self.compressed_size >= ZIP64_THRESHOLD_FILE_SIZE {
            put_u64(&mut data, self.compressed_size);
        } else {
            assert(first + none =~= first);
        }
        let ghost second = data@;
        if self.local_header_offset >= ZIP64_THRESHOLD_OFFSET {
            put_u64(&mut data, self.local_header_offset);
        } else {
            assert(second + none =~= second);
        }
        data
    }

    /// Appends the ZIP64 extended information extra field of this entry.
    fn write_zip64_extra_field(&self, writer: &mut Vec<u8>)
        ensures
            final(writer)@ == old(writer)@ + self@.zip64_extra(),
    {
        if !self.needs_zip64() {
            assert(writer@ =~= old(writer)@ + Seq::<u8>::empty());
            return ;
        }
        let data = self.zip64_data();
        let mut field: Vec<u8> = Vec::new();
        put_u16(&mut field, ZIP64_EXTRA_FIELD_ID);
        assert(field@ =~= u16_le_bytes(ZIP64_EXTRA_FIELD_ID as int));
        put_u16(&mut field, data.len() as u16);
        put_bytes(&mut field, data.as_slice());
        put_bytes(writer, field.as_slice());
    }

    /// The size of the ZIP64 extra field of this entry.
    fn zip64_extra_field_size(&self) -> (n: u16)
        ensures
            n == self@.zip64_extra().len(),
    {
        proof {
            lemma_extra_len(self@);
        }
        if !self.needs_zip64() {
            return 0;
        }
        let mut size: u16 = 4;
        if self.uncompressed_size >= ZIP64_THRESHOLD_FILE_SIZE {
            size += 8;
        }
        if self.compressed_size >= ZIP64_THRESHOLD_FILE_SIZE {
            size += 8;
        }
        if self.local_header_offset >= ZIP64_THRESHOLD_OFFSET {
            size += 8;
        }
        size
    }
}

/// The size of the extended timestamp extra field of an entry.
fn extended_timestamp_extra_field_size(modification_time: Option<&UtcDateTime>) -> (n: u16)
    ensures
        n == extended_timestamp_bytes(
            match modification_time {
                Some(t) => Some(t@),
                None => None,
            },
        ).len(),
{
    proof {
        lemma_le_bytes_len(EXTENDED_TIMESTAMP_ID as int);
        lemma_le_bytes_len(5);
        if modification_time is Some {
            lemma_le_bytes_len(timestamp_seconds(modification_time->0@));
        }
    }
    if modification_time.is_some() {
        // 2 bytes of id, 2 of size, 1 of flags, 4 of seconds.
        9
    } else {
        0
    }
}

/// Appends the extended timestamp extra field of an entry.
fn write_extended_timestamp_field(writer: &mut Vec<u8>, datetime: Option<&UtcDateTime>)
    ensures
        final(writer)@ == old(writer)@ + extended_timestamp_bytes(
            match datetime {
                Some(t) => Some(t@),
                None => None,
            },
        ),
{
    let datetime = match datetime {
        Some(datetime) => datetime,
        None => {
            assert(writer@ =~= old(writer)@ + Seq::<u8>::empty());
            return ;
        },
    };
    // The field holds 32 bits of seconds; those before the epoch are 0.
    let seconds = datetime.to_unix();
    let unix_time: u32 = if seconds < 0 {
        0
    } else {
        (seconds % 0x1_0000_0000) as u32
    };
    let mut field: Vec<u8> = Vec::new();
    put_u16(&mut field, EXTENDED_TIMESTAMP_ID);
    assert(field@ =~= u16_le_bytes(EXTENDED_TIMESTAMP_ID as int));
    put_u16(&mut field, 5);
    field.push(1u8);
    assert(field@ == u16_le_bytes(EXTENDED_TIMESTAMP_ID as int) + u16_le_bytes(5) + seq![1u8]);
    put_u32(&mut field, unix_time);
    put_bytes(writer, field.as_slice());
}

/// The DOS time and date of an entry.
fn dos_parts(modification_time: Option<&UtcDateTime>) -> (r: (u16, u16))
    ensures
        r.0 == dos_fields(
            match modification_time {
                Some(t) => Some(t@),
                None => None,
            },
        ).0,
        r.1 == dos_fields(
            match modification_time {
                Some(t) => Some(t@),
                None => None,
            },
        ).1,
{
    match modification_time {
        Some(dt) => {
            let _year = dt.year();
            proof {
                lemma_dos_round_trip(dt@);
            }
            DosDateTime::from(dt).into_parts()
        },
        None => (0, 0),
    }
}

/// Writes the ZIP64 End of Central Directory Record.
fn write_zip64_eocd(
    writer: &mut Vec<u8>,
    total_entries: u64,
    central_directory_size: u64,
    central_directory_offset: u64,
)
    ensures
        final(writer)@ == old(writer)@ + zip64_eocd_bytes(
            total_entries,
            central_directory_size,
            central_directory_offset,
        ),
{
    let mut record: Vec<u8> = Vec::new();
    put_u32(&mut record, 0x06064b50);
    assert(record@ =~= u32_le_bytes(0x06064b50));
    // The size of the record without its signature and this field.
    put_u64(&mut record, 44);
    put_u16(&mut record, ZIP64_VERSION_NEEDED);
    put_u16(&mut record, ZIP64_VERSION_NEEDED);
    // The number of this disk, and of the disk where the directory starts.
    put_u32(&mut record, 0);
    put_u32(&mut record, 0);
    // The number of entries on this disk, and in all.
    put_u64(&mut record, total_entries);
    put_u64(&mut record, total_entries);
    put_u64(&mut record, central_directory_size);
    put_u64(&mut record, central_directory_offset);
    put_bytes(writer, record.as_slice());
}

/// Writes the ZIP64 End of Central Directory Locator.
fn write_zip64_eocd_locator(writer: &mut Vec<u8>, zip64_eocd_offset: u64)
    ensures
        final(writer)@ == old(writer)@ + zip64_locator_bytes(zip64_eocd_offset),
{
    let mut record: Vec<u8> = Vec::new();
    put_u32(&mut record, 0x07064b50);
    assert(record@ =~= u32_le_bytes(0x07064b50));
    // The disk on which the zip64 record starts.
    put_u32(&mut record, 0);
    put_u64(&mut record, zip64_eocd_offset);
    // The number of disks.
    put_u32(&mut record, 1);
    put_bytes(writer, record.as_slice());
}

/// A 64 bit value in 32 bits: the sentinel where it does not fit below it.
fn cap32(v: u64) -> (r: u32)
    ensures
        r == capped32(v),
{
    if v >= 0xFFFF_FFFF {
        0xFFFF_FFFF
    } else {
        v as u32
    }
}

/// Writes the End of Central Directory Record.
fn write_eocd(
    writer: &mut Vec<u8>,
    total_entries: usize,
    central_directory_size: u64,
    central_directory_offset: u64,
)
    ensures
        final(writer)@ == old(writer)@ + eocd_bytes(
            total_entries as int,
            central_directory_size,
            central_directory_offset,
        ),
{
    let mut record: Vec<u8> = Vec::new();
    put_u32(&mut record, 0x06054b50);
    assert(record@ =~= u32_le_bytes(0x06054b50));
    // The disk numbers.
    put_u32(&mut record, 0);
    let entries_count: u16 = if total_entries >= ZIP64_THRESHOLD_ENTRIES {
        0xFFFF
    } else {
        total_entries as u16
    };
    put_u16(&mut record, entries_count);
    put_u16(&mut record, entries_count);
    put_u32(&mut record, cap32(central_directory_size));
    put_u32(&mut record, cap32(central_directory_offset));
    // No comment.
    put_u16(&mut record, 0);
    put_bytes(writer, record.as_slice());
}

/// The zip64 data of an entry has at most 24 bytes, and its extra field
/// at most 37.
pub proof fn lemma_extra_len(e: EntryRecord)
    ensures
        e.zip64_data().len() <= 24,
        e.zip64_data().len() == (if e.uncompressed_size >= ZIP64_THRESHOLD_FILE_SIZE {
            8int
        } else {
            0int
        }) + (if e.compressed_size >= ZIP64_THRESHOLD_FILE_SIZE {
            8int
        } else {
            0int
        }) + (if e.local_header_offset >= ZIP64_THRESHOLD_OFFSET {
            8int
        } else {
            0int
        }),
        e.zip64_extra().len() == if e.needs_zip64() {
            4 + e.zip64_data().len()
        } else {
            0
        },
        extended_timestamp_bytes(e.modified).len() == if e.modified is Some {
            9int
        } else {
            0int
        },
        e.extra().len() == e.zip64_extra().len() + extended_timestamp_bytes(e.modified).len(),
        e.extra().len() <= 37,
{
    lemma_le_bytes_len(e.uncompressed_size as int);
    lemma_le_bytes_len(e.compressed_size as int);
    lemma_le_bytes_len(e.local_header_offset as int);
    lemma_le_bytes_len(ZIP64_EXTRA_FIELD_ID as int);
    lemma_le_bytes_len(e.zip64_data().len() as int);
    lemma_le_bytes_len(EXTENDED_TIMESTAMP_ID as int);
    lemma_le_bytes_len(5);
    if e.modified is Some {
        lemma_le_bytes_len(timestamp_seconds(e.modified->0));
    }
}

/// The extra field of the central directory record of an entry.
fn central_extra(file: &FileHeader) -> (extra: Vec<u8>)
    ensures
        extra@ == file@.extra(),
        extra@.len() <= 37,
{
    proof {
        lemma_extra_len(file@);
    }
    let mut extra: Vec<u8> = Vec::new();
    file.write_zip64_extra_field(&mut extra);
    assert(extra@ =~= file@.zip64_extra());
    write_extended_timestamp_field(&mut extra, file.modification_time.as_ref());
    extra
}

/// The first 20 bytes of the central directory record of an entry.
fn central_head(file: &FileHeader) -> (head: Vec<u8>)
    ensures
        head@ == file@.central_head_bytes(),
{
    let mut record: Vec<u8> = Vec::new();
    put_u32(&mut record, 0x02014b50);
    assert(record@ =~= u32_le_bytes(0x02014b50));
    let version_needed: u16 = if file.needs_zip64() {
        ZIP64_VERSION_NEEDED
    } else {
        DEFAULT_VERSION_NEEDED
    };
    // The upper byte names Unix where Unix permissions are there.
    let version_made_by: u16 = if file.unix_permissions.is_some() {
        3 * 256 + version_needed
    } else {
        version_needed
    };
    put_u16(&mut record, version_made_by);
    put_u16(&mut record, version_needed);
    put_u16(&mut record, file.flags);
    put_u16(&mut record, file.compression_method.as_id().as_u16());
    let (dos_time, dos_date) = dos_parts(file.modification_time.as_ref());
    put_u16(&mut record, dos_time);
    put_u16(&mut record, dos_date);
    put_u32(&mut record, file.crc);
    record
}

/// The 26 bytes that follow them.
fn central_tail(file: &FileHeader, extra_len: u16) -> (tail: Vec<u8>)
    requires
        file@.name.len() <= 0xFFFF,
        extra_len == file@.extra().len(),
    ensures
        tail@ == file@.central_tail_bytes(),
{
    let mut record: Vec<u8> = Vec::new();
    put_u32(&mut record, cap32(file.compressed_size));
    assert(record@ =~= u32_le_bytes(capped32(file.compressed_size)));
    put_u32(&mut record, cap32(file.uncompressed_size));
    put_u16(&mut record, file.name.len() as u16);
    put_u16(&mut record, extra_len);
    // The length of the comment.
    put_u16(&mut record, 0);
    // The disk on which the entry starts, and the internal attributes.
    put_u32(&mut record, 0);
    let external_attrs: u32 = match file.unix_permissions {
        Some(p) => (p % 0x1_0000) * 0x1_0000,
        None => 0,
    };
    put_u32(&mut record, external_attrs);
    put_u32(&mut record, cap32(file.local_header_offset));
    record
}

/// Writes the central directory record of an entry.
fn write_central_record(writer: &mut Vec<u8>, file: &FileHeader)
    requires
        file@.name.len() <= 0xFFFF,
    ensures
        final(writer)@ == old(writer)@ + file@.central_record_bytes(),
{
    proof {
        lemma_extra_len(file@);
    }
    let extra_len: u16 = file.zip64_extra_field_size() + extended_timestamp_extra_field_size(
        file.modification_time.as_ref(),
    );
    let extra = central_extra(file);
    let mut record = central_head(file);
    let tail = central_tail(file, extra_len);
    put_bytes(&mut record, tail.as_slice());
    put_bytes(&mut record, file.name.as_bytes());
    put_bytes(&mut record, extra.as_slice());
    put_bytes(writer, record.as_slice());
}

/// The bytes that open an entry.
fn local_header(
    name: &[u8],
    flags: u16,
    compression_method: CompressionMethod,
    modification_time: Option<&UtcDateTime>,
) -> (header: Vec<u8>)
    requires
        name@.len() <= 0xFFFF,
    ensures
        header@ == local_header_bytes(
            name@,
            flags,
            compression_method.id(),
            match modification_time {
                Some(t) => Some(t@),
                None => None,
            },
        ),
{
    let (dos_time, dos_date) = dos_parts(modification_time);
    let extra_field_len = extended_timestamp_extra_field_size(modification_time);
    let fixed = ZipLocalFileHeaderFixed {
        signature: 0x04034b50,
        version_needed: DEFAULT_VERSION_NEEDED,
        flags,
        compression_method: compression_method.as_id(),
        last_mod_time: dos_time,
        last_mod_date: dos_date,
        crc32: 0,
        compressed_size: 0,
        uncompressed_size: 0,
        file_name_len: name.len() as u16,
        extra_field_len,
    };
    let mut header: Vec<u8> = Vec::new();
    fixed.write(&mut header);
    assert(header@ =~= fixed.encode());
    put_bytes(&mut header, name);
    write_extended_timestamp_field(&mut header, modification_time);
    header
}

/// The data descriptor that closes an entry.
fn data_descriptor(crc: u32, compressed_size: u64, uncompressed_size: u64) -> (descriptor: Vec<
    u8,
>)
    ensures
        descriptor@ == data_descriptor_bytes(crc, compressed_size, uncompressed_size),
{
    let mut descriptor: Vec<u8> = Vec::new();
    put_u32(&mut descriptor, 0x08074b50);
    assert(descriptor@ =~= u32_le_bytes(0x08074b50));
    put_u32(&mut descriptor, crc);
    let ghost head = descriptor@;
    if compressed_size >= ZIP64_THRESHOLD_FILE_SIZE || uncompressed_size
        >= ZIP64_THRESHOLD_FILE_SIZE {
        // 64 bit sizes.
        put_u64(&mut descriptor, compressed_size);
        put_u64(&mut descriptor, uncompressed_size);
        assert(descriptor@ =~= head + (u64_le_bytes(compressed_size as int) + u64_le_bytes(
            uncompressed_size as int,
        )));
    } else {
        // 32 bit sizes.
        put_u32(&mut descriptor, compressed_size as u32);
        put_u32(&mut descriptor, uncompressed_size as u32);
        assert(descriptor@ =~= head + (u32_le_bytes(compressed_size as int) + u32_le_bytes(
            uncompressed_size as int,
        )));
    }
    descriptor
}

/// What an entry may be given beside its name.
#[derive(Debug, Clone, Copy)]
struct ZipEntryOptions {
    compression_method: CompressionMethod,
    modification_time: Option<UtcDateTime>,
    unix_permissions: Option<u32>,
}

/// Builds a `ZipArchiveWriter`.
#[derive(Debug, Clone, Copy)]
pub struct ZipArchiveWriterBuilder {
    count: u64,
}

impl ZipArchiveWriterBuilder {
    /// The offset at which the archive starts.
    pub closed spec fn start(&self) -> u64 {
        self.count
    }

    /// Creates a new `ZipArchiveWriterBuilder`, for an archive that starts
    /// at offset 0.
    pub fn new() -> (b: Self)
        ensures
            b.start() == 0,
    {
        ZipArchiveWriterBuilder { count: 0 }
    }

    /// Builds a `ZipArchiveWriter` that writes behind what `writer` holds.
    pub fn build(&self, writer: Vec<u8>) -> (w: ZipArchiveWriter)
        ensures
            w.wf(),
            w.output() == writer@,
            w.offset() == self.start(),
            w.entries() == Seq::<EntryRecord>::empty(),
    {
        let w = ZipArchiveWriter { files: Vec::new(), writer, count: self.count };
        assert(w.entries() =~= Seq::<EntryRecord>::empty());
        w
    }
}

impl Default for ZipArchiveWriterBuilder {
    fn default() -> (b: Self)
        ensures
            b.start() == 0,
    {
        Self::new()
    }
}

/// Creates a new Zip archive, entry by entry.
///
/// The writer appends to a `Vec<u8>`: the local header of each entry, its
/// data as the caller hands it over, its data descriptor, and at the end the
/// central directory and the end of central directory records. Offsets are
/// counted from the offset that the writer was built with, whatever the
/// vector held before.
#[derive(Debug)]
pub struct ZipArchiveWriter {
    files: Vec<FileHeader>,
    writer: Vec<u8>,
    count: u64,
}

impl ZipArchiveWriter {
    /// All that was written, behind what the vector held at first.
    pub closed spec fn output(&self) -> Seq<u8> {
        self.writer@
    }

    /// The offset in the archive at which the next byte is written.
    pub closed spec fn offset(&self) -> u64 {
        self.count
    }

    /// The entries that were finished, in their order.
    pub closed spec fn entries(&self) -> Seq<EntryRecord> {
        Seq::new(self.files@.len(), |i: int| self.files@[i]@)
    }

    /// Whether the names of the entries fit in their length field.
    pub closed spec fn wf(&self) -> bool {
        forall|i: int| 0 <= i < self.files@.len() ==> (#[trigger] self.files@[i])@.name.len()
            <= 0xFFFF
    }

    /// Creates a `ZipArchiveWriterBuilder` that starts writing at `offset`.
    /// This is useful when the ZIP archive is appended to an existing file.
    pub fn at_offset(offset: u64) -> (b: ZipArchiveWriterBuilder)
        ensures
            b.start() == offset,
    {
        ZipArchiveWriterBuilder { count: offset }
    }

    /// Creates a new `ZipArchiveWriter` that writes behind what `writer`
    /// holds, with offsets that start at 0.
    pub fn new(writer: Vec<u8>) -> (w: Self)
        ensures
            w.wf(),
            w.output() == writer@,
            w.offset() == 0,
            w.entries() == Seq::<EntryRecord>::empty(),
    {
        ZipArchiveWriterBuilder::new().build(writer)
    }

    /// The offset in the archive at which the next byte is written.
    pub fn position(&self) -> (n: u64)
        ensures
            n == self.offset(),
    {
        self.count
    }

    /// Takes what the writer holds out of it, to hand it on to where the
    /// archive goes. The writer goes on at the offset that it has reached,
    /// and keeps the entries for the central directory.
    pub fn take_output(&mut self) -> (out: Vec<u8>)
        ensures
            out@ == old(self).output(),
            final(self).output() == Seq::<u8>::empty(),
            final(self).offset() == old(self).offset(),
            final(self).entries() == old(self).entries(),
            final(self).wf() == old(self).wf(),
    {
        let mut out: Vec<u8> = Vec::new();
        std::mem::swap(&mut out, &mut self.writer);
        assert(self.entries() =~= old(self).entries());
        out
    }

    /// Appends `bytes`, unless the offset behind them would pass the
    /// greatest `u64`.
    fn emit(&mut self, bytes: &[u8]) -> (r: Result<(), Error>)
        ensures
            final(self).entries() == old(self).entries(),
            final(self).wf() == old(self).wf(),
            match r {
                Ok(_) => final(self).output() == old(self).output() + bytes@ && final(self).offset() == old(self).offset() + bytes@.len(),
                Err(e) => old(self).offset() + bytes@.len() > u64::MAX && final(self).output()
                    == old(self).output() && final(self).offset() == old(self).offset()
                    && is_too_large(e@),
            },
    {
        let count = match self.count.checked_add(bytes.len() as u64) {
            Some(count) => count,
            None => {
                return Err(too_large());
            },
        };
        put_bytes(&mut self.writer, bytes);
        self.count = count;
        assert(self.entries() =~= old(self).entries());
        Ok(())
    }
}

/// Whether an error says that the archive has grown beyond what offsets
/// can tell.
pub open spec fn is_too_large(e: ErrorKind) -> bool {
    e matches ErrorKind::InvalidInput { msg } && msg@ == "archive too large"@
}

/// The error of an archive that has grown beyond what offsets can tell.
fn too_large() -> (e: Error)
    ensures
        is_too_large(e@),
{
    error_of(ErrorKind::InvalidInput { msg: "archive too large".to_owned() })
}

/// The flags of an entry: bit 3 for a file, whose data descriptor
/// follows its data, and bit 11 where the name must be marked as UTF-8.
pub open spec fn entry_flags(name: Seq<char>, is_file: bool) -> u16 {
    ((if is_file {
        FLAG_DATA_DESCRIPTOR as int
    } else {
        0int
    }) + (if needs_utf8(name) {
        FLAG_UTF8_ENCODING as int
    } else {
        0int
    })) as u16
}

/// The name under which a file is entered: `name` without the slashes at
/// its end, and normalized.
pub open spec fn file_entry_name(name: Seq<char>) -> Seq<char> {
    normalize_spec(crate::path::without_trailing_slashes(name))
}

/// Whether an error says that the name of a file is too long.
pub open spec fn is_file_name_too_long(e: ErrorKind) -> bool {
    e matches ErrorKind::InvalidInput { msg } && msg@ == "file name too long"@
}

/// Whether an error says that the name of a directory is too long.
pub open spec fn is_directory_name_too_long(e: ErrorKind) -> bool {
    e matches ErrorKind::InvalidInput { msg } && msg@ == "directory name too long"@
}

/// Whether an error says that a name does not name a directory.
pub open spec fn is_not_a_directory(e: ErrorKind) -> bool {
    e matches ErrorKind::InvalidInput { msg } && msg@ == "not a directory"@
}

/// The record of a directory that was entered under `name`.
pub open spec fn directory_record(
    name: Seq<char>,
    offset: u64,
    modified: Option<Civil>,
    unix_permissions: Option<u32>,
) -> EntryRecord {
    EntryRecord {
        name: encode_utf8(normalize_spec(name)),
        method: 0,
        local_header_offset: offset,
        compressed_size: 0,
        uncompressed_size: 0,
        crc: 0,
        flags: entry_flags(normalize_spec(name), false),
        modified,
        unix_permissions,
    }
}

impl ZipArchiveWriter {
    /// Creates a builder for adding a new directory to the archive.
    ///
    /// The name of the directory must end with a `/`.
    #[must_use]
    pub fn new_dir<'a>(&'a mut self, name: &'a str) -> (b: ZipDirBuilder<'a>)
        ensures
            *b.archive == *old(self),
            *final(self) == *final(b.archive),
            b.name@ == name@,
            b.modification_time is None,
            b.unix_permissions is None,
    {
        ZipDirBuilder { archive: self, name, modification_time: None, unix_permissions: None }
    }

    /// Adds a new directory to the archive: its local header is written,
    /// and it is entered in the central directory.
    fn new_dir_with_options(&mut self, name: &str, options: ZipEntryOptions) -> (r: Result<
        (),
        Error,
    >)
        requires
            old(self).wf(),
        ensures
            final(self).wf(),
            ({
                let path = normalize_spec(name@);
                let bytes = encode_utf8(path);
                let modified = crate::time::civil_of(options.modification_time);
                let header = local_header_bytes(bytes, entry_flags(path, false), 0, modified);
                match r {
                    Ok(_) => {
                        &&& is_dir_path(bytes)
                        &&& bytes.len() <= 0xFFFF
                        &&& final(self).output() == old(self).output() + header
                        &&& final(self).offset() == old(self).offset() + header.len()
                        &&& final(self).entries() == old(self).entries().push(
                            directory_record(
                                name@,
                                old(self).offset(),
                                modified,
                                options.unix_permissions,
                            ),
                        )
                    },
                    Err(e) => {
                        &&& final(self).output() == old(self).output()
                        &&& final(self).offset() == old(self).offset()
                        &&& final(self).entries() == old(self).entries()
                        &&& if !is_dir_path(bytes) {
                            is_not_a_directory(e@)
                        } else if bytes.len() > 0xFFFF {
                            is_directory_name_too_long(e@)
                        } else {
                            is_too_large(e@) && old(self).offset() + header.len() > u64::MAX
                        }
                    },
                }
            }),
    {
        let file_path = ZipFilePath::from_str(name);
        if !file_path.is_dir() {
            return Err(
                error_of(ErrorKind::InvalidInput { msg: "not a directory".to_owned() }),
            );
        }
        if file_path.len() > 0xFFFF {
            return Err(
                error_of(ErrorKind::InvalidInput { msg: "directory name too long".to_owned() }),
            );
        }
        let local_header_offset = self.count;
        let flags: u16 = if file_path.needs_utf8_encoding() {
            FLAG_UTF8_ENCODING
        } else {
            0
        };
        let header = local_header(
            file_path.as_bytes(),
            flags,
            CompressionMethod::Store,
            options.modification_time.as_ref(),
        );
        self.emit(header.as_slice())?;
        let file_header = FileHeader {
            name: file_path.into_owned(),
            compression_method: CompressionMethod::Store,
            local_header_offset,
            compressed_size: 0,
            uncompressed_size: 0,
            crc: 0,
            flags,
            modification_time: options.modification_time,
            unix_permissions: options.unix_permissions,
        };
        let ghost before = self.entries();
        self.files.push(file_header);
        assert(self.entries() =~= before.push(file_header@));
        Ok(())
    }

    /// Creates a builder for adding a new file to the archive.
    #[must_use]
    pub fn new_file<'a>(&'a mut self, name: &'a str) -> (b: ZipFileBuilder<'a>)
        ensures
            *b.archive == *old(self),
            *final(self) == *final(b.archive),
            b.name@ == name@,
            b.compression_method == CompressionMethod::Store,
            b.modification_time is None,
            b.unix_permissions is None,
    {
        ZipFileBuilder {
            archive: self,
            name,
            compression_method: CompressionMethod::Store,
            modification_time: None,
            unix_permissions: None,
        }
    }

    /// Adds a new file to the archive: its local header is written, and a
    /// writer for its data is returned.
    fn new_file_with_options<'a>(&'a mut self, name: &str, options: ZipEntryOptions) -> (r: Result<
        ZipEntryWriter<'a>,
        Error,
    >)
        requires
            old(self).wf(),
        ensures
            ({
                let path = file_entry_name(name@);
                let bytes = encode_utf8(path);
                let modified = crate::time::civil_of(options.modification_time);
                let header = local_header_bytes(
                    bytes,
                    entry_flags(path, true),
                    options.compression_method.id(),
                    modified,
                );
                match r {
                    Ok(w) => {
                        &&& w.wf()
                        &&& *final(self) == *final(w.inner)
                        &&& w.inner.output() == old(self).output() + header
                        &&& w.inner.offset() == old(self).offset() + header.len()
                        &&& w.inner.entries() == old(self).entries()
                        &&& w.compressed_bytes == 0
                        &&& w.pending(0, 0, 0) == (EntryRecord {
                            name: bytes,
                            method: options.compression_method.id(),
                            local_header_offset: old(self).offset(),
                            compressed_size: 0,
                            uncompressed_size: 0,
                            crc: 0,
                            flags: entry_flags(path, true),
                            modified,
                            unix_permissions: options.unix_permissions,
                        })
                    },
                    Err(e) => {
                        &&& final(self).wf()
                        &&& final(self).output() == old(self).output()
                        &&& final(self).offset() == old(self).offset()
                        &&& final(self).entries() == old(self).entries()
                        &&& if bytes.len() > 0xFFFF {
                            is_file_name_too_long(e@)
                        } else {
                            is_too_large(e@) && old(self).offset() + header.len() > u64::MAX
                        }
                    },
                }
            }),
    {
        let file_path = ZipFilePath::from_str(crate::path::trim_trailing_slashes(name));
        if file_path.len() > 0xFFFF {
            return Err(
                error_of(ErrorKind::InvalidInput { msg: "file name too long".to_owned() }),
            );
        }
        let local_header_offset = self.count;
        let flags: u16 = if file_path.needs_utf8_encoding() {
            FLAG_DATA_DESCRIPTOR + FLAG_UTF8_ENCODING
        } else {
            FLAG_DATA_DESCRIPTOR
        };
        let header = local_header(
            file_path.as_bytes(),
            flags,
            options.compression_method,
            options.modification_time.as_ref(),
        );
        self.emit(header.as_slice())?;
        Ok(
            ZipEntryWriter::new(
                self,
                file_path.into_owned(),
                local_header_offset,
                options.compression_method,
                flags,
                options.modification_time,
                options.unix_permissions,
            ),
        )
    }

    /// Whether the archive needs the zip64 records.
    fn needs_zip64(&self, central_directory_offset: u64) -> (b: bool)
        ensures
            b == archive_needs_zip64(self.entries(), central_directory_offset),
    {
        if self.files.len() >= ZIP64_THRESHOLD_ENTRIES || central_directory_offset
            >= ZIP64_THRESHOLD_OFFSET {
            return true;
        }
        let n = self.files.len();
        let mut i: usize = 0;
        while i < n
            invariant
                i <= n,
                n == self.files@.len(),
                forall|j: int| 0 <= j < i ==> !(#[trigger] self.entries()[j]).needs_zip64(),
            decreases n - i,
        {
            if self.files[i].needs_zip64() {
                assert(self.entries()[i as int].needs_zip64());
                return true;
            }
            i += 1;
        }
        false
    }

    /// The central directory of the archive.
    fn central_directory(&self) -> (directory: Vec<u8>)
        requires
            self.wf(),
        ensures
            directory@ == central_directory_bytes(self.entries()),
    {
        let mut directory: Vec<u8> = Vec::new();
        let n = self.files.len();
        let mut i: usize = 0;
        while i < n
            invariant
                i <= n,
                n == self.files@.len(),
                self.wf(),
                directory@ == central_directory_bytes(self.entries().subrange(0, i as int)),
            decreases n - i,
        {
            write_central_record(&mut directory, &self.files[i]);
            proof {
                let upto = self.entries().subrange(0, i + 1);
                assert(upto.drop_last() =~= self.entries().subrange(0, i as int));
                assert(upto.last() == self.files@[i as int]@);
            }
            i += 1;
        }
        assert(self.entries().subrange(0, n as int) =~= self.entries());
        directory
    }

    /// Finishes writing the archive and returns the vector that holds it.
    ///
    /// The central directory is written, the zip64 records where the archive
    /// needs them (it has 65535 entries or more, its directory starts at or
    /// beyond offset 0xFFFFFFFF, or an entry needs zip64 fields), and the end
    /// of central directory record.
    ///
    /// Fails where the archive would grow beyond what offsets can tell.
    pub fn finish(self) -> (r: Result<Vec<u8>, Error>)
        requires
            self.wf(),
        ensures
            match r {
                Ok(out) => out@ == self.output() + archive_end_bytes(
                    self.entries(),
                    self.offset(),
                ) && self.offset() + archive_end_bytes(self.entries(), self.offset()).len()
                    <= u64::MAX,
                Err(e) => is_too_large(e@) && self.offset() + archive_end_bytes(
                    self.entries(),
                    self.offset(),
                ).len() > u64::MAX,
            },
    {
        let mut this = self;
        let central_directory_offset = this.count;
        let total_entries = this.files.len();
        let needs_zip64 = this.needs_zip64(central_directory_offset);
        let directory = this.central_directory();
        let mut end: Vec<u8> = Vec::new();
        put_bytes(&mut end, directory.as_slice());
        assert(end@ =~= directory@);
        let central_directory_size = directory.len() as u64;
        if needs_zip64 {
            let zip64_eocd_offset = match central_directory_offset.checked_add(
                central_directory_size,
            ) {
                Some(offset) => offset,
                None => {
                    proof {
                        lemma_archive_end_len(this.entries(), central_directory_offset);
                    }
                    return Err(too_large());
                },
            };
            let ghost before = end@;
            write_zip64_eocd(
                &mut end,
                total_entries as u64,
                central_directory_size,
                central_directory_offset,
            );
            write_zip64_eocd_locator(&mut end, zip64_eocd_offset);
            assert(end@ =~= before + (zip64_eocd_bytes(
                total_entries as u64,
                central_directory_size,
                central_directory_offset,
            ) + zip64_locator_bytes(zip64_eocd_offset)));
        } else {
            assert(end@ =~= end@ + Seq::<u8>::empty());
        }
        write_eocd(&mut end, total_entries, central_directory_size, central_directory_offset);
        this.emit(end.as_slice())?;
        Ok(this.writer)
    }
}

/// What closes an archive is no shorter than its central directory.
proof fn lemma_archive_end_len(entries: Seq<EntryRecord>, directory_offset: u64)
    ensures
        archive_end_bytes(entries, directory_offset).len() >= central_directory_bytes(
            entries,
        ).len(),
{
}

/// A builder for creating a new file entry in a ZIP archive.
pub struct ZipFileBuilder<'a> {
    pub archive: &'a mut ZipArchiveWriter,
    pub name: &'a str,
    pub compression_method: CompressionMethod,
    pub modification_time: Option<UtcDateTime>,
    pub unix_permissions: Option<u32>,
}

impl<'a> ZipFileBuilder<'a> {
    /// Sets the compression method for the file entry.
    pub fn compression_method(self, compression_method: CompressionMethod) -> (b: Self)
        ensures
            b == (ZipFileBuilder { compression_method, ..self }),
    {
        let mut this = self;
        this.compression_method = compression_method;
        this
    }

    /// Sets the modification time for the file entry.
    ///
    /// Only UTC timestamps are accepted: the extended timestamp field holds
    /// such.
    pub fn last_modified(self, modification_time: UtcDateTime) -> (b: Self)
        ensures
            b == (ZipFileBuilder { modification_time: Some(modification_time), ..self }),
    {
        let mut this = self;
        this.modification_time = Some(modification_time);
        this
    }

    /// Sets the Unix permissions for the file entry: permission bits
    /// (0o644), or a full Unix mode with the file type (0o100644).
    ///
    /// The entry is then marked as made on Unix, so that readers take the
    /// permissions for what they are.
    pub fn unix_permissions(self, permissions: u32) -> (b: Self)
        ensures
            b == (ZipFileBuilder { unix_permissions: Some(permissions), ..self }),
    {
        let mut this = self;
        this.unix_permissions = Some(permissions);
        this
    }

    /// Creates the file entry and returns a writer for the file's content.
    ///
    /// The name is entered without the slashes at its end, and normalized.
    /// The local header is written, with bit 3 of the flags set, and bit 11
    /// where the name must be marked as UTF-8.
    ///
    /// Fails where the name has more than 65535 bytes, or where the archive
    /// would grow beyond what offsets can tell. The archive is then as it
    /// was.
    pub fn create(self) -> (r: Result<ZipEntryWriter<'a>, Error>)
        requires
            old(self.archive).wf(),
        ensures
            ({
                let before = *old(self.archive);
                let path = file_entry_name(self.name@);
                let bytes = encode_utf8(path);
                let modified = crate::time::civil_of(self.modification_time);
                let header = local_header_bytes(
                    bytes,
                    entry_flags(path, true),
                    self.compression_method.id(),
                    modified,
                );
                match r {
                    Ok(w) => {
                        &&& w.wf()
                        &&& *final(self.archive) == *final(w.inner)
                        &&& w.inner.output() == before.output() + header
                        &&& w.inner.offset() == before.offset() + header.len()
                        &&& w.inner.entries() == before.entries()
                        &&& w.compressed_bytes == 0
                        &&& w.pending(0, 0, 0) == (EntryRecord {
                            name: bytes,
                            method: self.compression_method.id(),
                            local_header_offset: before.offset(),
                            compressed_size: 0,
                            uncompressed_size: 0,
                            crc: 0,
                            flags: entry_flags(path, true),
                            modified,
                            unix_permissions: self.unix_permissions,
                        })
                    },
                    Err(e) => {
                        &&& final(self.archive).wf()
                        &&& final(self.archive).output() == before.output()
                        &&& final(self.archive).offset() == before.offset()
                        &&& final(self.archive).entries() == before.entries()
                        &&& if bytes.len() > 0xFFFF {
                            is_file_name_too_long(e@)
                        } else {
                            is_too_large(e@) && before.offset() + header.len() > u64::MAX
                        }
                    },
                }
            }),
    {
        let options = ZipEntryOptions {
            compression_method: self.compression_method,
            modification_time: self.modification_time,
            unix_permissions: self.unix_permissions,
        };
        self.archive.new_file_with_options(self.name, options)
    }
}

/// A builder for creating a new directory entry in a ZIP archive.
pub struct ZipDirBuilder<'a> {
    pub archive: &'a mut ZipArchiveWriter,
    pub name: &'a str,
    pub modification_time: Option<UtcDateTime>,
    pub unix_permissions: Option<u32>,
}

impl<'a> ZipDirBuilder<'a> {
    /// Sets the modification time for the directory entry.
    pub fn last_modified(self, modification_time: UtcDateTime) -> (b: Self)
        ensures
            b == (ZipDirBuilder { modification_time: Some(modification_time), ..self }),
    {
        let mut this = self;
        this.modification_time = Some(modification_time);
        this
    }

    /// Sets the Unix permissions for the directory entry.
    pub fn unix_permissions(self, permissions: u32) -> (b: Self)
        ensures
            b == (ZipDirBuilder { unix_permissions: Some(permissions), ..self }),
    {
        let mut this = self;
        this.unix_permissions = Some(permissions);
        this
    }

    /// Creates the directory entry: its local header is written, and it is
    /// entered in the central directory. A directory is stored, and has no
    /// data descriptor.
    ///
    /// Fails where the normalized name does not end with a `/`, where it has
    /// more than 65535 bytes, or where the archive would grow beyond what
    /// offsets can tell. The archive is then as it was.
    pub fn create(self) -> (r: Result<(), Error>)
        requires
            old(self.archive).wf(),
        ensures
            final(self.archive).wf(),
            ({
                let before = *old(self.archive);
                let after = *final(self.archive);
                let path = normalize_spec(self.name@);
                let bytes = encode_utf8(path);
                let modified = crate::time::civil_of(self.modification_time);
                let header = local_header_bytes(bytes, entry_flags(path, false), 0, modified);
                match r {
                    Ok(_) => {
                        &&& is_dir_path(bytes)
                        &&& bytes.len() <= 0xFFFF
                        &&& after.output() == before.output() + header
                        &&& after.offset() == before.offset() + header.len()
                        &&& after.entries() == before.entries().push(
                            directory_record(
                                self.name@,
                                before.offset(),
                                modified,
                                self.unix_permissions,
                            ),
                        )
                    },
                    Err(e) => {
                        &&& after.output() == before.output()
                        &&& after.offset() == before.offset()
                        &&& after.entries() == before.entries()
                        &&& if !is_dir_path(bytes) {
                            is_not_a_directory(e@)
                        } else if bytes.len() > 0xFFFF {
                            is_directory_name_too_long(e@)
                        } else {
                            is_too_large(e@) && before.offset() + header.len() > u64::MAX
                        }
                    },
                }
            }),
    {
        let options = ZipEntryOptions {
            compression_method: CompressionMethod::Store,
            modification_time: self.modification_time,
            unix_permissions: self.unix_permissions,
        };
        self.archive.new_dir_with_options(self.name, options)
    }
}

/// A writer for a file in a ZIP archive, as `ZipArchiveWriter::new_file`
/// creates it.
///
/// What is written to it goes into the archive as it is: it is the
/// compressed data of the entry. `finish` completes the entry.
pub struct ZipEntryWriter<'a> {
    pub inner: &'a mut ZipArchiveWriter,
    pub compressed_bytes: u64,
    pub name: ZipFilePath<NormalizedPathBuf>,
    pub local_header_offset: u64,
    pub compression_method: CompressionMethod,
    pub flags: u16,
    pub modification_time: Option<UtcDateTime>,
    pub unix_permissions: Option<u32>,
}

impl<'a> ZipEntryWriter<'a> {
    /// Whether the archive is in order and the name fits in its length
    /// field.
    pub open spec fn wf(&self) -> bool {
        self.inner.wf() && self.name.bytes().len() <= 0xFFFF
    }

    /// The record that the central directory gets for the entry when it
    /// is finished with the given checksum and sizes.
    pub open spec fn pending(
        &self,
        crc: u32,
        compressed_size: u64,
        uncompressed_size: u64,
    ) -> EntryRecord {
        EntryRecord {
            name: self.name.bytes(),
            method: self.compression_method.id(),
            local_header_offset: self.local_header_offset,
            compressed_size,
            uncompressed_size,
            crc,
            flags: self.flags,
            modified: crate::time::civil_of(self.modification_time),
            unix_permissions: self.unix_permissions,
        }
    }

    /// Creates a writer for the data of an entry whose local header was
    /// written.
    fn new(
        inner: &'a mut ZipArchiveWriter,
        name: ZipFilePath<NormalizedPathBuf>,
        local_header_offset: u64,
        compression_method: CompressionMethod,
        flags: u16,
        modification_time: Option<UtcDateTime>,
        unix_permissions: Option<u32>,
    ) -> (w: Self)
        ensures
            *w.inner == *old(inner),
            *final(inner) == *final(w.inner),
            w.compressed_bytes == 0,
            w.name == name,
            w.local_header_offset == local_header_offset,
            w.compression_method == compression_method,
            w.flags == flags,
            w.modification_time == modification_time,
            w.unix_permissions == unix_permissions,
    {
        ZipEntryWriter {
            inner,
            compressed_bytes: 0,
            name,
            local_header_offset,
            compression_method,
            flags,
            modification_time,
            unix_permissions,
        }
    }

    /// Returns the total number of bytes successfully written (bytes out).
    pub fn compressed_bytes(&self) -> (n: u64)
        ensures
            n == self.compressed_bytes,
    {
        self.compressed_bytes
    }

    /// Writes `buf` into the archive, as compressed data of the entry, and
    /// returns its length.
    ///
    /// Fails where the archive would grow beyond what offsets can tell;
    /// nothing is written then.
    pub fn write(&mut self, buf: &[u8]) -> (r: Result<usize, Error>)
        requires
            old(self).wf(),
            old(self).compressed_bytes <= old(self).inner.offset(),
        ensures
            final(self).wf(),
            *final(final(self).inner) == *final(old(self).inner),
            final(self).inner.entries() == old(self).inner.entries(),
            final(self).name == old(self).name,
            final(self).local_header_offset == old(self).local_header_offset,
            final(self).compression_method == old(self).compression_method,
            final(self).flags == old(self).flags,
            final(self).modification_time == old(self).modification_time,
            final(self).unix_permissions == old(self).unix_permissions,
            final(self).compressed_bytes <= final(self).inner.offset(),
            match r {
                Ok(n) => {
                    &&& n == buf@.len()
                    &&& final(self).inner.output() == old(self).inner.output() + buf@
                    &&& final(self).inner.offset() == old(self).inner.offset() + buf@.len()
                    &&& final(self).compressed_bytes == old(self).compressed_bytes + buf@.len()
                },
                Err(e) => {
                    &&& is_too_large(e@)
                    &&& old(self).inner.offset() + buf@.len() > u64::MAX
                    &&& final(self).inner.output() == old(self).inner.output()
                    &&& final(self).inner.offset() == old(self).inner.offset()
                    &&& final(self).compressed_bytes == old(self).compressed_bytes
                },
            },
    {
        self.inner.emit(buf)?;
        self.compressed_bytes += buf.len() as u64;
        Ok(buf.len())
    }

    /// Finishes writing the file entry.
    ///
    /// The data descriptor is written: its signature, the checksum of
    /// `output`, and the compressed and the uncompressed size, in eight
    /// bytes each where one of them needs zip64. The entry is entered in the
    /// central directory. Returns the number of compressed bytes.
    ///
    /// Fails where the archive would grow beyond what offsets can tell;
    /// nothing is written then and the entry is not entered.
    pub fn finish(self, output: DataDescriptorOutput) -> (r: Result<u64, Error>)
        requires
            old(self.inner).wf(),
            self.name.bytes().len() <= 0xFFFF,
        ensures
            final(self.inner).wf(),
            ({
                let before = *old(self.inner);
                let after = *final(self.inner);
                let descriptor = data_descriptor_bytes(
                    output.spec_crc(),
                    self.compressed_bytes,
                    output.spec_uncompressed_size(),
                );
                match r {
                    Ok(n) => {
                        &&& n == self.compressed_bytes
                        &&& after.output() == before.output() + descriptor
                        &&& after.offset() == before.offset() + descriptor.len()
                        &&& after.entries() == before.entries().push(
                            self.pending(
                                output.spec_crc(),
                                self.compressed_bytes,
                                output.spec_uncompressed_size(),
                            ),
                        )
                    },
                    Err(e) => {
                        &&& is_too_large(e@)
                        &&& before.offset() + descriptor.len() > u64::MAX
                        &&& after.output() == before.output()
                        &&& after.offset() == before.offset()
                        &&& after.entries() == before.entries()
                    },
                }
            }),
    {
        let descriptor = data_descriptor(
            output.crc,
            self.compressed_bytes,
            output.uncompressed_size,
        );
        self.inner.emit(descriptor.as_slice())?;
        let file_header = FileHeader {
            name: self.name,
            compression_method: self.compression_method,
            local_header_offset: self.local_header_offset,
            compressed_size: self.compressed_bytes,
            uncompressed_size: output.uncompressed_size,
            crc: output.crc,
            flags: self.flags,
            modification_time: self.modification_time,
            unix_permissions: self.unix_permissions,
        };
        let ghost before = self.inner.entries();
        self.inner.files.push(file_header);
        assert(self.inner.entries() =~= before.push(file_header@));
        Ok(self.compressed_bytes)
    }
}

/// Keeps account of the uncompressed data of a Zip file entry: the number
/// of its bytes and its CRC32 checksum, which the data descriptor needs.
///
/// The caller writes the data to the writer that this wraps (an entry
/// writer, or a compressor that writes to one), and hands each piece that
/// was written to `record`. `finish` gives the writer back, and the
/// `DataDescriptorOutput` that completes the entry.
pub struct ZipDataWriter<W> {
    inner: W,
    uncompressed_bytes: u64,
    crc: u32,
    table: Vec<Vec<u32>>,
    seen: Ghost<Seq<u8>>,
}

impl<W> ZipDataWriter<W> {
    /// The writer that this wraps.
    pub closed spec fn inner(&self) -> W {
        self.inner
    }

    /// The uncompressed data that was recorded so far.
    pub closed spec fn seen(&self) -> Seq<u8> {
        self.seen@
    }

    /// Whether the account is that of the data recorded.
    pub closed spec fn wf(&self) -> bool {
        &&& is_crc_table(self.table@)
        &&& self.crc == crc32_spec(self.seen@)
        &&& self.uncompressed_bytes == crate::archive::counted(self.seen@)
    }

    /// Creates a new `ZipDataWriter` around a writer.
    pub fn new(inner: W) -> (w: Self)
        ensures
            w.wf(),
            w.inner() == inner,
            w.seen() == Seq::<u8>::empty(),
    {
        proof {
            lemma_crc32_empty(0);
        }
        ZipDataWriter {
            inner,
            uncompressed_bytes: 0,
            crc: 0,
            table: gen_crc_table(),
            seen: Ghost(Seq::empty()),
        }
    }

    /// Gets a mutable reference to the underlying writer.
    pub fn get_mut(&mut self) -> (w: &mut W)
        ensures
            *w == old(self).inner(),
            final(self).inner() == *final(w),
            final(self).seen() == old(self).seen(),
            old(self).wf() ==> final(self).wf(),
    {
        &mut self.inner
    }

    /// Takes note of the piece `data` of uncompressed data that was written
    /// to the underlying writer.
    pub fn record(&mut self, data: &[u8])
        requires
            old(self).wf(),
        ensures
            final(self).wf(),
            final(self).inner() == old(self).inner(),
            final(self).seen() == old(self).seen() + data@,
    {
        proof {
            lemma_crc32_chunked(self.seen@, data@, 0);
        }
        self.uncompressed_bytes = self.uncompressed_bytes.saturating_add(data.len() as u64);
        self.crc = crc32_chunk_with(&self.table, data, self.crc);
        self.seen = Ghost(self.seen@ + data@);
    }

    /// Consumes self and returns the inner writer and the data descriptor
    /// to be passed to a `ZipEntryWriter`: the CRC-32 of the data that was
    /// recorded, and its size.
    ///
    /// The writer is given back so that a compressor can be told that no
    /// more data comes, and can write what it holds back.
    pub fn finish(self) -> (r: Result<(W, DataDescriptorOutput), Error>)
        requires
            self.wf(),
        ensures
            r matches Ok((inner, output)) && inner == self.inner() && output.spec_crc()
                == crc32_spec(self.seen()) && output.spec_uncompressed_size()
                == crate::archive::counted(self.seen()),
    {
        let output = DataDescriptorOutput {
            crc: self.crc,
            compressed_size: 0,
            uncompressed_size: self.uncompressed_bytes,
        };
        Ok((self.inner, output))
    }
}

} // verus!
