//! What the writer writes, the reader reads: the records of the format,
//! encoded and decoded again, are what they were.

use crate::archive::{
    expected_of,
    is_record_of,
    lemma_compressed_data_range,
    next_record,
    next_record_buffered,
    verdict,
    ZipArchive,
    ZipFileHeaderRecord,
    EndOfCentralDirectory,
    VersionMadeBy,
    Zip64EndOfCentralDirectoryRecord,
    zip64_fields,
    CompressionMethodId,
    DataDescriptor,
    Zip64Fields,
    ZipArchiveEntryWayfinder,
    ZipFileHeaderFixed,
    ZipLocalFileHeaderFixed,
    ZipSliceArchive,
    ZipVerification,
};
use crate::crc::crc32_spec;
use crate::errors::ErrorKind;
use crate::locator::{
    eocd_position,
    eocd_signature_bytes,
    lemma_last_occurrence,
    lemma_reader_locates_as_slice,
    lemma_reader_locates_before,
    locate_in_reader_spec,
    locate_in_slice_spec,
    prefix,
    occurs_at,
    search_floor,
    EndOfCentralDirectoryRecordFixed,
    Zip64EndOfCentralDirectoryLocatorRecord,
};
use crate::reader_at::{in_bounds, window};
use crate::utils::{
    le_u16_at,
    le_u32_at,
    le_u64_at,
    lemma_le_bytes_len,
    lemma_le_u16_at_bytes,
    lemma_le_u32_at_bytes,
    lemma_le_u64_at_bytes,
    u16_le_bytes,
    u32_le_bytes,
    u64_le_bytes,
};
use crate::writer::{
    archive_end_bytes,
    archive_needs_zip64,
    capped16,
    capped32,
    central_directory_bytes,
    eocd_bytes,
    zip64_eocd_bytes,
    zip64_locator_bytes,
    data_descriptor_bytes,
    dos_fields,
    extended_timestamp_bytes,
    lemma_extra_len,
    local_header_bytes,
    wide_sizes,
    EntryRecord,
};
use vstd::prelude::*;

verus! {

/// Whether `s` starts with `a`.
pub open spec fn is_prefix(a: Seq<u8>, s: Seq<u8>) -> bool {
    a.len() <= s.len() && s.subrange(0, a.len() as int) == a
}

/// Whether `s` holds `x` at `at`.
pub open spec fn holds_at(s: Seq<u8>, at: int, x: Seq<u8>) -> bool {
    0 <= at && at + x.len() <= s.len() && s.subrange(at, at + x.len()) == x
}

/// A sequence that starts with `a + x` starts with `a` and holds `x`
/// behind it.
pub proof fn lemma_peel(a: Seq<u8>, x: Seq<u8>, s: Seq<u8>)
    requires
        is_prefix(a + x, s),
    ensures
        is_prefix(a, s),
        holds_at(s, a.len() as int, x),
{
    let ax = a + x;
    let n = a.len() as int;
    let m = n + x.len();
    assert(s.subrange(0, n) =~= ax.subrange(0, n));
    assert(ax.subrange(0, n) =~= a);
    assert(s.subrange(n, m) =~= ax.subrange(n, m));
    assert(ax.subrange(n, m) =~= x);
}

/// A sequence starts with itself, also when more follows.
pub proof fn lemma_prefix_of_joined(a: Seq<u8>, rest: Seq<u8>)
    ensures
        is_prefix(a, a + rest),
{
    assert((a + rest).subrange(0, a.len() as int) =~= a);
}

/// Where a sequence holds the encoding of a 16 bit value, it decodes to
/// the value.
pub proof fn lemma_u16_held(s: Seq<u8>, at: int, v: int)
    requires
        0 <= v < 0x1_0000,
        holds_at(s, at, u16_le_bytes(v)),
    ensures
        le_u16_at(s, at) == v,
{
    let x = s.subrange(at, at + 2);
    lemma_le_bytes_len(v);
    assert(x[0] == s[at] && x[1] == s[at + 1]);
    lemma_le_u16_at_bytes(v, Seq::empty(), Seq::empty());
    assert(Seq::<u8>::empty() + u16_le_bytes(v) + Seq::<u8>::empty() =~= u16_le_bytes(v));
}

/// Where a sequence holds the encoding of a 32 bit value, it decodes to
/// the value.
pub proof fn lemma_u32_held(s: Seq<u8>, at: int, v: int)
    requires
        0 <= v < 0x1_0000_0000,
        holds_at(s, at, u32_le_bytes(v)),
    ensures
        le_u32_at(s, at) == v,
{
    let x = s.subrange(at, at + 4);
    lemma_le_bytes_len(v);
    assert(x[0] == s[at] && x[1] == s[at + 1] && x[2] == s[at + 2] && x[3] == s[at + 3]);
    lemma_le_u32_at_bytes(v, Seq::empty(), Seq::empty());
    assert(Seq::<u8>::empty() + u32_le_bytes(v) + Seq::<u8>::empty() =~= u32_le_bytes(v));
}

/// Where a sequence holds the encoding of a 64 bit value, it decodes to
/// the value.
pub proof fn lemma_u64_held(s: Seq<u8>, at: int, v: int)
    requires
        0 <= v < 0x1_0000_0000_0000_0000,
        holds_at(s, at, u64_le_bytes(v)),
    ensures
        le_u64_at(s, at) == v,
{
    let x = s.subrange(at, at + 8);
    lemma_le_bytes_len(v);
    assert(x[0] == s[at] && x[1] == s[at + 1] && x[2] == s[at + 2] && x[3] == s[at + 3]);
    assert(x[4] == s[at + 4] && x[5] == s[at + 5] && x[6] == s[at + 6] && x[7] == s[at + 7]);
    lemma_le_u64_at_bytes(v, Seq::empty(), Seq::empty());
    assert(Seq::<u8>::empty() + u64_le_bytes(v) + Seq::<u8>::empty() =~= u64_le_bytes(v));
}

/// A local file header that is encoded and parsed again, whatever
/// follows it, is the header, where it has the signature of one. Its
/// encoding has 30 bytes.
pub proof fn lemma_local_header_round_trip(h: ZipLocalFileHeaderFixed, s: Seq<u8>)
    requires
        h.signature == 0x04034b50,
        is_prefix(h.encode(), s),
    ensures
        h.encode().len() == 30,
        ZipLocalFileHeaderFixed::parse_spec(s) == Ok::<_, ErrorKind>(h),
{
    let f0 = u32_le_bytes(h.signature as int);
    let f1 = f0 + u16_le_bytes(h.version_needed as int);
    let f2 = f1 + u16_le_bytes(h.flags as int);
    let f3 = f2 + u16_le_bytes(h.compression_method.0 as int);
    let f4 = f3 + u16_le_bytes(h.last_mod_time as int);
    let f5 = f4 + u16_le_bytes(h.last_mod_date as int);
    let f6 = f5 + u32_le_bytes(h.crc32 as int);
    let f7 = f6 + u32_le_bytes(h.compressed_size as int);
    let f8 = f7 + u32_le_bytes(h.uncompressed_size as int);
    let f9 = f8 + u16_le_bytes(h.file_name_len as int);
    let f10 = f9 + u16_le_bytes(h.extra_field_len as int);
    assert(f10 == h.encode());
    lemma_le_bytes_len(h.signature as int);
    lemma_le_bytes_len(h.version_needed as int);
    lemma_le_bytes_len(h.flags as int);
    lemma_le_bytes_len(h.compression_method.0 as int);
    lemma_le_bytes_len(h.last_mod_time as int);
    lemma_le_bytes_len(h.last_mod_date as int);
    lemma_le_bytes_len(h.crc32 as int);
    lemma_le_bytes_len(h.compressed_size as int);
    lemma_le_bytes_len(h.uncompressed_size as int);
    lemma_le_bytes_len(h.file_name_len as int);
    lemma_le_bytes_len(h.extra_field_len as int);
    lemma_peel(f9, u16_le_bytes(h.extra_field_len as int), s);
    lemma_peel(f8, u16_le_bytes(h.file_name_len as int), s);
    lemma_peel(f7, u32_le_bytes(h.uncompressed_size as int), s);
    lemma_peel(f6, u32_le_bytes(h.compressed_size as int), s);
    lemma_peel(f5, u32_le_bytes(h.crc32 as int), s);
    lemma_peel(f4, u16_le_bytes(h.last_mod_date as int), s);
    lemma_peel(f3, u16_le_bytes(h.last_mod_time as int), s);
    lemma_peel(f2, u16_le_bytes(h.compression_method.0 as int), s);
    lemma_peel(f1, u16_le_bytes(h.flags as int), s);
    lemma_peel(f0, u16_le_bytes(h.version_needed as int), s);
    lemma_peel(Seq::empty(), f0, s);
    assert(Seq::<u8>::empty() + f0 =~= f0);
    lemma_u32_held(s, 0, h.signature as int);
    lemma_u16_held(s, 4, h.version_needed as int);
    lemma_u16_held(s, 6, h.flags as int);
    lemma_u16_held(s, 8, h.compression_method.0 as int);
    lemma_u16_held(s, 10, h.last_mod_time as int);
    lemma_u16_held(s, 12, h.last_mod_date as int);
    lemma_u32_held(s, 14, h.crc32 as int);
    lemma_u32_held(s, 18, h.compressed_size as int);
    lemma_u32_held(s, 22, h.uncompressed_size as int);
    lemma_u16_held(s, 26, h.file_name_len as int);
    lemma_u16_held(s, 28, h.extra_field_len as int);
}

/// What is held within a part of a sequence is held by the sequence.
pub proof fn lemma_held_within(s: Seq<u8>, at: int, part: Seq<u8>, within: int, x: Seq<u8>)
    requires
        holds_at(s, at, part),
        holds_at(part, within, x),
    ensures
        holds_at(s, at + within, x),
{
    assert(s.subrange(at + within, at + within + x.len()) =~= s.subrange(
        at,
        at + part.len(),
    ).subrange(within, within + x.len()));
}

/// What a sequence holds at `at` is what starts the rest of it from `at`.
pub proof fn lemma_held_starts_rest(s: Seq<u8>, at: int, x: Seq<u8>)
    requires
        holds_at(s, at, x),
    ensures
        is_prefix(x, s.subrange(at, s.len() as int)),
{
    assert(s.subrange(at, s.len() as int).subrange(0, x.len() as int) =~= s.subrange(
        at,
        at + x.len(),
    ));
}

/// What starts the rest of a sequence from `at`, the sequence holds at
/// `at`, and what the rest holds the sequence holds further on.
pub proof fn lemma_rest_holds(s: Seq<u8>, at: int, within: int, x: Seq<u8>)
    requires
        0 <= at <= s.len(),
        holds_at(s.subrange(at, s.len() as int), within, x),
    ensures
        holds_at(s, at + within, x),
{
    assert(s.subrange(at + within, at + within + x.len()) =~= s.subrange(
        at,
        s.len() as int,
    ).subrange(within, within + x.len()));
}

/// A data descriptor that is encoded and parsed again, whatever follows
/// it, gives its checksum. Its encoding has 16 bytes, or 24 with wide sizes.
pub proof fn lemma_data_descriptor_round_trip(
    crc: u32,
    compressed_size: u64,
    uncompressed_size: u64,
    s: Seq<u8>,
)
    requires
        is_prefix(data_descriptor_bytes(crc, compressed_size, uncompressed_size), s),
    ensures
        data_descriptor_bytes(crc, compressed_size, uncompressed_size).len() == if wide_sizes(
            compressed_size,
            uncompressed_size,
        ) {
            24int
        } else {
            16int
        },
        DataDescriptor::parse_spec(s) == Ok::<_, ErrorKind>(DataDescriptor { crc }),
{
    let d = data_descriptor_bytes(crc, compressed_size, uncompressed_size);
    let head = u32_le_bytes(0x08074b50) + u32_le_bytes(crc as int);
    let sizes = if wide_sizes(compressed_size, uncompressed_size) {
        u64_le_bytes(compressed_size as int) + u64_le_bytes(uncompressed_size as int)
    } else {
        u32_le_bytes(compressed_size as int) + u32_le_bytes(uncompressed_size as int)
    };
    lemma_le_bytes_len(0x08074b50);
    lemma_le_bytes_len(crc as int);
    lemma_le_bytes_len(compressed_size as int);
    lemma_le_bytes_len(uncompressed_size as int);
    assert(d == head + sizes);
    lemma_peel(head, sizes, s);
    lemma_peel(u32_le_bytes(0x08074b50), u32_le_bytes(crc as int), s);
    lemma_peel(Seq::empty(), u32_le_bytes(0x08074b50), s);
    assert(Seq::<u8>::empty() + u32_le_bytes(0x08074b50) =~= u32_le_bytes(0x08074b50));
    lemma_u32_held(s, 0, 0x08074b50);
    lemma_u32_held(s, 4, crc as int);
}

/// The bytes of an entry in an archive: its local header with name and
/// extended timestamp, its data, and its data descriptor where it has one.
pub open spec fn entry_bytes(e: EntryRecord, data: Seq<u8>) -> Seq<u8> {
    local_header_bytes(e.name, e.flags, e.method, e.modified) + data + if has_descriptor(e) {
        data_descriptor_bytes(e.crc, e.compressed_size, e.uncompressed_size)
    } else {
        Seq::empty()
    }
}

/// Whether bit 3 of the flags of an entry is set: a data descriptor
/// follows its data.
pub open spec fn has_descriptor(e: EntryRecord) -> bool {
    (e.flags / 8) % 2 == 1
}

/// The directions to an entry that the central directory gives, in an
/// archive that stands at `origin` in its image.
pub open spec fn wayfinder_of(e: EntryRecord, origin: int) -> ZipArchiveEntryWayfinder {
    ZipArchiveEntryWayfinder {
        uncompressed_size: e.uncompressed_size,
        compressed_size: e.compressed_size,
        local_header_offset: (e.local_header_offset + origin) as u64,
        crc: e.crc,
        has_data_descriptor: has_descriptor(e),
    }
}

/// Whether the moment of an entry, where it has one, is a valid one.
pub open spec fn has_valid_time(e: EntryRecord) -> bool {
    e.modified matches Some(c) ==> c.valid()
}

/// The fixed part of the local header of an entry.
pub open spec fn local_header_of(e: EntryRecord) -> ZipLocalFileHeaderFixed {
    ZipLocalFileHeaderFixed {
        signature: 0x04034b50,
        version_needed: 20,
        flags: e.flags,
        compression_method: CompressionMethodId(e.method),
        last_mod_time: dos_fields(e.modified).0 as u16,
        last_mod_date: dos_fields(e.modified).1 as u16,
        crc32: 0,
        compressed_size: 0,
        uncompressed_size: 0,
        file_name_len: e.name.len() as u16,
        extra_field_len: extended_timestamp_bytes(e.modified).len() as u16,
    }
}

/// Where the parts of an entry stand in an image that holds the entry.
proof fn lemma_entry_layout(image: Seq<u8>, at: int, e: EntryRecord, data: Seq<u8>)
    requires
        e.name.len() <= 0xFFFF,
        has_valid_time(e),
        holds_at(image, at, entry_bytes(e, data)),
    ensures
        ({
            let stamp = extended_timestamp_bytes(e.modified);
            let start = at + 30 + e.name.len() + stamp.len();
            let end = start + data.len();
            &&& stamp.len() <= 9
            &&& local_header_of(e).encode().len() == 30
            &&& is_prefix(local_header_of(e).encode(), image.subrange(at, image.len() as int))
            &&& holds_at(image, start, data)
            &&& has_descriptor(e) ==> is_prefix(
                data_descriptor_bytes(e.crc, e.compressed_size, e.uncompressed_size),
                image.subrange(end, image.len() as int),
            )
        }),
{
    let len = image.len() as int;
    let stamp = extended_timestamp_bytes(e.modified);
    lemma_extra_len(e);
    let fixed = local_header_of(e);
    let header = local_header_bytes(e.name, e.flags, e.method, e.modified);
    assert(header == fixed.encode() + e.name + stamp);
    let descriptor = if has_descriptor(e) {
        data_descriptor_bytes(e.crc, e.compressed_size, e.uncompressed_size)
    } else {
        Seq::empty()
    };
    let whole = entry_bytes(e, data);
    let tail = image.subrange(at, len);
    lemma_held_starts_rest(image, at, whole);
    lemma_peel(header + data, descriptor, tail);
    lemma_peel(header, data, tail);
    lemma_peel(fixed.encode() + e.name, stamp, tail);
    lemma_peel(fixed.encode(), e.name, tail);
    lemma_local_header_round_trip(fixed, tail);
    lemma_rest_holds(image, at, header.len() as int, data);
    if has_descriptor(e) {
        lemma_rest_holds(image, at, (header + data).len() as int, descriptor);
        lemma_held_starts_rest(image, at + header.len() + data.len(), descriptor);
    }
}

/// An entry that stands in an image is got back from it: its data lies
/// behind its local header, its name and its extended timestamp, over its
/// compressed size, and is to be checked against its checksum and its
/// uncompressed size.
pub proof fn lemma_entry_is_got_back(
    image: Seq<u8>,
    origin: int,
    e: EntryRecord,
    data: Seq<u8>,
)
    requires
        e.name.len() <= 0xFFFF,
        has_valid_time(e),
        data.len() == e.compressed_size,
        0 <= e.local_header_offset + origin <= u64::MAX,
        holds_at(image, e.local_header_offset + origin, entry_bytes(e, data)),
    ensures
        ({
            let start = e.local_header_offset + origin + 30 + e.name.len()
                + extended_timestamp_bytes(e.modified).len();
            &&& ZipSliceArchive::entry_spec(image, wayfinder_of(e, origin)) == Ok::<_, ErrorKind>(
                (
                    start,
                    start + e.compressed_size,
                    ZipVerification { crc: e.crc, uncompressed_size: e.uncompressed_size },
                ),
            )
            &&& image.subrange(start, start + e.compressed_size) == data
        }),
{
    let at = e.local_header_offset + origin;
    let len = image.len() as int;
    let fixed = local_header_of(e);
    let start = at + 30 + e.name.len() + extended_timestamp_bytes(e.modified).len();
    let end = start + e.compressed_size;
    lemma_entry_layout(image, at, e, data);
    lemma_local_header_round_trip(fixed, image.subrange(at, len));
    assert(fixed.spec_variable_length() == e.name.len() + extended_timestamp_bytes(
        e.modified,
    ).len());
    if has_descriptor(e) {
        lemma_data_descriptor_round_trip(
            e.crc,
            e.compressed_size,
            e.uncompressed_size,
            image.subrange(end, len),
        );
    }
}

/// The fixed part of the central directory record of an entry.
pub open spec fn central_header_of(e: EntryRecord) -> ZipFileHeaderFixed {
    ZipFileHeaderFixed {
        signature: 0x02014b50,
        version_made_by: e.version_made_by(),
        version_needed: e.version_needed(),
        flags: e.flags,
        compression_method: CompressionMethodId(e.method),
        last_mod_time: dos_fields(e.modified).0 as u16,
        last_mod_date: dos_fields(e.modified).1 as u16,
        crc32: e.crc,
        compressed_size: capped32(e.compressed_size) as u32,
        uncompressed_size: capped32(e.uncompressed_size) as u32,
        file_name_len: e.name.len() as u16,
        extra_field_len: e.extra().len() as u16,
        file_comment_len: 0,
        disk_number_start: 0,
        internal_file_attrs: 0,
        external_file_attrs: e.external_attrs(),
        local_header_offset: capped32(e.local_header_offset) as u32,
    }
}

/// The first 20 bytes of a central directory record decode to its
/// signature, versions, flags, method, DOS time and date, and checksum.
proof fn lemma_central_head_decodes(e: EntryRecord, s: Seq<u8>)
    requires
        has_valid_time(e),
        is_prefix(e.central_head_bytes(), s),
    ensures
        e.central_head_bytes().len() == 20,
        le_u32_at(s, 0) == 0x02014b50,
        le_u16_at(s, 4) == e.version_made_by(),
        le_u16_at(s, 6) == e.version_needed(),
        le_u16_at(s, 8) == e.flags,
        le_u16_at(s, 10) == e.method,
        le_u16_at(s, 12) == dos_fields(e.modified).0,
        le_u16_at(s, 14) == dos_fields(e.modified).1,
        0 <= dos_fields(e.modified).0 <= 0xFFFF,
        0 <= dos_fields(e.modified).1 <= 0xFFFF,
        le_u32_at(s, 16) == e.crc,
{
    if e.modified is Some {
        crate::time::lemma_dos_round_trip(e.modified->0);
    }
    let time = dos_fields(e.modified).0;
    let date = dos_fields(e.modified).1;
    let f0 = u32_le_bytes(0x02014b50);
    let f1 = f0 + u16_le_bytes(e.version_made_by() as int);
    let f2 = f1 + u16_le_bytes(e.version_needed() as int);
    let f3 = f2 + u16_le_bytes(e.flags as int);
    let f4 = f3 + u16_le_bytes(e.method as int);
    let f5 = f4 + u16_le_bytes(time);
    let f6 = f5 + u16_le_bytes(date);
    let f7 = f6 + u32_le_bytes(e.crc as int);
    assert(f7 == e.central_head_bytes());
    lemma_le_bytes_len(0x02014b50);
    lemma_le_bytes_len(e.version_made_by() as int);
    lemma_le_bytes_len(e.version_needed() as int);
    lemma_le_bytes_len(e.flags as int);
    lemma_le_bytes_len(e.method as int);
    lemma_le_bytes_len(time);
    lemma_le_bytes_len(date);
    lemma_le_bytes_len(e.crc as int);
    lemma_peel(f6, u32_le_bytes(e.crc as int), s);
    lemma_peel(f5, u16_le_bytes(date), s);
    lemma_peel(f4, u16_le_bytes(time), s);
    lemma_peel(f3, u16_le_bytes(e.method as int), s);
    lemma_peel(f2, u16_le_bytes(e.flags as int), s);
    lemma_peel(f1, u16_le_bytes(e.version_needed() as int), s);
    lemma_peel(f0, u16_le_bytes(e.version_made_by() as int), s);
    lemma_peel(Seq::empty(), f0, s);
    assert(Seq::<u8>::empty() + f0 =~= f0);
    lemma_u32_held(s, 0, 0x02014b50);
    lemma_u16_held(s, 4, e.version_made_by() as int);
    lemma_u16_held(s, 6, e.version_needed() as int);
    lemma_u16_held(s, 8, e.flags as int);
    lemma_u16_held(s, 10, e.method as int);
    lemma_u16_held(s, 12, time);
    lemma_u16_held(s, 14, date);
    lemma_u32_held(s, 16, e.crc as int);
}

/// The 26 bytes behind them decode to the sizes, the lengths, the disk,
/// the attributes and the offset.
proof fn lemma_central_tail_decodes(e: EntryRecord, s: Seq<u8>)
    requires
        e.name.len() <= 0xFFFF,
        is_prefix(e.central_tail_bytes(), s),
    ensures
        e.central_tail_bytes().len() == 26,
        le_u32_at(s, 0) == capped32(e.compressed_size),
        le_u32_at(s, 4) == capped32(e.uncompressed_size),
        le_u16_at(s, 8) == e.name.len(),
        le_u16_at(s, 10) == e.extra().len(),
        le_u16_at(s, 12) == 0,
        le_u16_at(s, 14) == 0,
        le_u16_at(s, 16) == 0,
        le_u32_at(s, 18) == e.external_attrs(),
        le_u32_at(s, 22) == capped32(e.local_header_offset),
{
    lemma_extra_len(e);
    let f0 = u32_le_bytes(capped32(e.compressed_size));
    let f1 = f0 + u32_le_bytes(capped32(e.uncompressed_size));
    let f2 = f1 + u16_le_bytes(e.name.len() as int);
    let f3 = f2 + u16_le_bytes(e.extra().len() as int);
    let f4 = f3 + u16_le_bytes(0);
    let f5 = f4 + u32_le_bytes(0);
    let f6 = f5 + u32_le_bytes(e.external_attrs() as int);
    let f7 = f6 + u32_le_bytes(capped32(e.local_header_offset));
    assert(f7 == e.central_tail_bytes());
    lemma_le_bytes_len(capped32(e.compressed_size));
    lemma_le_bytes_len(capped32(e.uncompressed_size));
    lemma_le_bytes_len(e.name.len() as int);
    lemma_le_bytes_len(e.extra().len() as int);
    lemma_le_bytes_len(0);
    lemma_le_bytes_len(e.external_attrs() as int);
    lemma_le_bytes_len(capped32(e.local_header_offset));
    lemma_peel(f6, u32_le_bytes(capped32(e.local_header_offset)), s);
    lemma_peel(f5, u32_le_bytes(e.external_attrs() as int), s);
    lemma_peel(f4, u32_le_bytes(0), s);
    lemma_peel(f3, u16_le_bytes(0), s);
    lemma_peel(f2, u16_le_bytes(e.extra().len() as int), s);
    lemma_peel(f1, u16_le_bytes(e.name.len() as int), s);
    lemma_peel(f0, u32_le_bytes(capped32(e.uncompressed_size)), s);
    lemma_peel(Seq::empty(), f0, s);
    assert(Seq::<u8>::empty() + f0 =~= f0);
    lemma_u32_held(s, 0, capped32(e.compressed_size));
    lemma_u32_held(s, 4, capped32(e.uncompressed_size));
    lemma_u16_held(s, 8, e.name.len() as int);
    lemma_u16_held(s, 10, e.extra().len() as int);
    lemma_u16_held(s, 12, 0);
    lemma_u32_held(s, 14, 0);
    lemma_u32_held(s, 18, e.external_attrs() as int);
    lemma_u32_held(s, 22, capped32(e.local_header_offset));
}

/// The central directory record of an entry that is encoded and read
/// again, whatever follows it, is the record of the entry: the next step
/// over the bytes gives the fixed part of the entry, and takes the 46 bytes
/// of the fixed part, the name and the extra field, which stand behind it
/// as they were written.
pub proof fn lemma_central_record_round_trip(e: EntryRecord, s: Seq<u8>)
    requires
        e.name.len() <= 0xFFFF,
        has_valid_time(e),
        is_prefix(e.central_record_bytes(), s),
    ensures
        e.central_record_bytes().len() == 46 + e.name.len() + e.extra().len(),
        next_record(s) == Ok::<_, ErrorKind>(
            Some((central_header_of(e), 46 + e.name.len() as int + e.extra().len())),
        ),
        ZipFileHeaderFixed::decode(s) == central_header_of(e),
        holds_at(s, 46, e.name),
        holds_at(s, 46 + e.name.len() as int, e.extra()),
{
    let head = e.central_head_bytes();
    let tail = e.central_tail_bytes();
    lemma_extra_len(e);
    lemma_peel(head + tail + e.name, e.extra(), s);
    lemma_peel(head + tail, e.name, s);
    lemma_peel(head, tail, s);
    lemma_central_head_decodes(e, s);
    lemma_held_starts_rest(s, 20, tail);
    let behind = s.subrange(20, s.len() as int);
    lemma_central_tail_decodes(e, behind);
    assert(le_u32_at(s, 20) == le_u32_at(behind, 0));
    assert(le_u32_at(s, 24) == le_u32_at(behind, 4));
    assert(le_u16_at(s, 28) == le_u16_at(behind, 8));
    assert(le_u16_at(s, 30) == le_u16_at(behind, 10));
    assert(le_u16_at(s, 32) == le_u16_at(behind, 12));
    assert(le_u16_at(s, 34) == le_u16_at(behind, 14));
    assert(le_u16_at(s, 36) == le_u16_at(behind, 16));
    assert(le_u32_at(s, 38) == le_u32_at(behind, 18));
    assert(le_u32_at(s, 42) == le_u32_at(behind, 22));
}

/// What the zip64 extra field of an entry holds, and where.
proof fn lemma_zip64_extra_layout(e: EntryRecord)
    requires
        e.needs_zip64(),
    ensures
        ({
            let x = e.zip64_extra();
            let data = e.zip64_data();
            &&& x.len() == 4 + data.len()
            &&& data.len() <= 24
            &&& le_u16_at(x, 0) == 1
            &&& le_u16_at(x, 2) == data.len()
            &&& holds_at(x, 4, data)
        }),
{
    let x = e.zip64_extra();
    let data = e.zip64_data();
    lemma_extra_len(e);
    lemma_le_bytes_len(1);
    lemma_le_bytes_len(data.len() as int);
    let head = u16_le_bytes(1) + u16_le_bytes(data.len() as int);
    assert(x == head + data);
    assert(is_prefix(x, x)) by {
        assert(x.subrange(0, x.len() as int) =~= x);
    }
    lemma_peel(head, data, x);
    lemma_peel(u16_le_bytes(1), u16_le_bytes(data.len() as int), x);
    lemma_peel(Seq::empty(), u16_le_bytes(1), x);
    assert(Seq::<u8>::empty() + u16_le_bytes(1) =~= u16_le_bytes(1));
    lemma_u16_held(x, 0, 1);
    lemma_u16_held(x, 2, data.len() as int);
}

/// The values that the zip64 data of an entry holds decode to the sizes
/// and the offset of the entry, each where it is there.
proof fn lemma_zip64_data_decodes(e: EntryRecord)
    ensures
        ({
            let data = e.zip64_data();
            let wide_u = e.uncompressed_size >= 0xFFFF_FFFF;
            let wide_c = e.compressed_size >= 0xFFFF_FFFF;
            let wide_o = e.local_header_offset >= 0xFFFF_FFFF;
            let at_c: int = if wide_u {
                8
            } else {
                0
            };
            let at_o: int = if wide_c {
                at_c + 8
            } else {
                at_c
            };
            &&& data.len() == if wide_o {
                at_o + 8
            } else {
                at_o
            }
            &&& wide_u ==> le_u64_at(data, 0) == e.uncompressed_size
            &&& wide_c ==> le_u64_at(data, at_c) == e.compressed_size
            &&& wide_o ==> le_u64_at(data, at_o) == e.local_header_offset
        }),
{
    let data = e.zip64_data();
    let none = Seq::<u8>::empty();
    let a = if e.uncompressed_size >= 0xFFFF_FFFF {
        u64_le_bytes(e.uncompressed_size as int)
    } else {
        none
    };
    let b = if e.compressed_size >= 0xFFFF_FFFF {
        u64_le_bytes(e.compressed_size as int)
    } else {
        none
    };
    let c = if e.local_header_offset >= 0xFFFF_FFFF {
        u64_le_bytes(e.local_header_offset as int)
    } else {
        none
    };
    assert(data == a + b + c);
    lemma_le_bytes_len(e.uncompressed_size as int);
    lemma_le_bytes_len(e.compressed_size as int);
    lemma_le_bytes_len(e.local_header_offset as int);
    assert(is_prefix(data, data)) by {
        assert(data.subrange(0, data.len() as int) =~= data);
    }
    lemma_peel(a + b, c, data);
    lemma_peel(a, b, data);
    lemma_peel(none, a, data);
    assert(none + a =~= a);
    if e.uncompressed_size >= 0xFFFF_FFFF {
        lemma_u64_held(data, 0, e.uncompressed_size as int);
    }
    if e.compressed_size >= 0xFFFF_FFFF {
        lemma_u64_held(data, a.len() as int, e.compressed_size as int);
    }
    if e.local_header_offset >= 0xFFFF_FFFF {
        lemma_u64_held(data, (a + b).len() as int, e.local_header_offset as int);
    }
}

/// The sizes and the offset of an entry are read back at their full
/// width from its central directory record: from the fixed part where they
/// fit in it, from the zip64 extra field else.
pub proof fn lemma_zip64_round_trip(e: EntryRecord)
    requires
        e.name.len() <= 0xFFFF,
    ensures
        zip64_fields(central_header_of(e), e.extra()) == (Zip64Fields {
            uncompressed_size: e.uncompressed_size,
            compressed_size: e.compressed_size,
            local_header_offset: e.local_header_offset,
            disk_number_start: 0,
            is_zip64: e.needs_zip64(),
        }),
{
    let h = central_header_of(e);
    let extra = e.extra();
    if e.needs_zip64() {
        let x = e.zip64_extra();
        let data = e.zip64_data();
        let stamp = extended_timestamp_bytes(e.modified);
        lemma_zip64_extra_layout(e);
        lemma_zip64_data_decodes(e);
        assert(extra == x + stamp);
        lemma_prefix_of_joined(x, stamp);
        assert(le_u16_at(extra, 0) == le_u16_at(x, 0));
        assert(le_u16_at(extra, 2) == le_u16_at(x, 2));
        let end = 4 + data.len() as int;
        assert(extra.subrange(4, end) =~= x.subrange(4, end));
        assert(crate::archive::extra_block_end(extra) == 4 + data.len());
        assert(crate::archive::find_extra_field(extra, 1) == Some(data));
    }
}

/// The extended timestamp field of a moment is read as that moment, to
/// the second.
proof fn lemma_stamp_is_read(c: crate::time::Civil)
    requires
        c.valid(),
        0 <= c.unix_seconds() <= 0xFFFF_FFFF,
    ensures
        crate::time::last_timestamp(extended_timestamp_bytes(Some(c)), None) == Some(
            crate::time::Civil { nanosecond: 0, ..c },
        ),
{
    let stamp = extended_timestamp_bytes(Some(c));
    let seconds = crate::writer::timestamp_seconds(c);
    let head = u16_le_bytes(0x5455) + u16_le_bytes(5) + seq![1u8];
    lemma_le_bytes_len(0x5455);
    lemma_le_bytes_len(5);
    lemma_le_bytes_len(seconds);
    assert(stamp == head + u32_le_bytes(seconds));
    assert(stamp.len() == 9);
    assert(is_prefix(stamp, stamp)) by {
        assert(stamp.subrange(0, stamp.len() as int) =~= stamp);
    }
    lemma_peel(head, u32_le_bytes(seconds), stamp);
    lemma_peel(u16_le_bytes(0x5455) + u16_le_bytes(5), seq![1u8], stamp);
    lemma_peel(u16_le_bytes(0x5455), u16_le_bytes(5), stamp);
    lemma_peel(Seq::empty(), u16_le_bytes(0x5455), stamp);
    assert(Seq::<u8>::empty() + u16_le_bytes(0x5455) =~= u16_le_bytes(0x5455));
    lemma_u16_held(stamp, 0, 0x5455);
    lemma_u16_held(stamp, 2, 5);
    lemma_u32_held(stamp, 5, seconds);
    let data = stamp.subrange(4, 9);
    assert(data[0] == 1u8) by {
        assert(stamp.subrange(4, 5)[0] == stamp[4]);
        assert(data[0] == stamp[4]);
    }
    assert(le_u32_at(data, 1) == seconds) by {
        assert(data[1] == stamp[5] && data[2] == stamp[6] && data[3] == stamp[7] && data[4]
            == stamp[8]);
    }
    crate::time::lemma_unix_round_trip(c);
    assert(crate::time::extended_timestamp(data) == Some(
        crate::time::Civil { nanosecond: 0, ..c },
    ));
    let rest = stamp.subrange(9, stamp.len() as int);
    assert(rest.len() == 0);
    assert(crate::time::last_timestamp(rest, crate::time::extended_timestamp(data))
        == crate::time::extended_timestamp(data));
    assert(crate::time::block_timestamp(0x5455, data) == crate::time::extended_timestamp(data));
}

/// The walk over the extra field of an entry passes its zip64 block.
proof fn lemma_walk_passes_zip64(e: EntryRecord)
    ensures
        crate::time::last_timestamp(e.extra(), None) == crate::time::last_timestamp(
            extended_timestamp_bytes(e.modified),
            None,
        ),
{
    let extra = e.extra();
    let x = e.zip64_extra();
    let stamp = extended_timestamp_bytes(e.modified);
    assert(extra == x + stamp);
    lemma_extra_len(e);
    if e.needs_zip64() {
        lemma_zip64_extra_layout(e);
        lemma_prefix_of_joined(x, stamp);
        assert(le_u16_at(extra, 0) == le_u16_at(x, 0));
        assert(le_u16_at(extra, 2) == le_u16_at(x, 2));
        assert(extra.subrange(x.len() as int, extra.len() as int) =~= stamp);
        assert(crate::time::block_timestamp(1, extra.subrange(4, x.len() as int)) is None);
    } else {
        assert(extra =~= stamp);
    }
}

/// The modification time of an entry is read back from the extra field
/// of its central directory record, to the second and in UTC, where it lies
/// in the years that 32 bits of Unix seconds reach: from 1970 into 2106. An
/// entry without modification time reads as 1980-01-01T00:00:00, local.
pub proof fn lemma_modification_time_round_trip(e: EntryRecord)
    requires
        has_valid_time(e),
        e.modified matches Some(c) ==> 0 <= c.unix_seconds() <= 0xFFFF_FFFF,
    ensures
        crate::time::best_timestamp(
            e.extra(),
            central_header_of(e).last_mod_time,
            central_header_of(e).last_mod_date,
        ) == match e.modified {
            Some(c) => (crate::time::TimeZone::Utc, crate::time::Civil { nanosecond: 0, ..c }),
            None => (crate::time::TimeZone::Local, crate::time::dos_civil(0, 0)),
        },
{
    lemma_walk_passes_zip64(e);
    match e.modified {
        Some(c) => {
            lemma_stamp_is_read(c);
        },
        None => {},
    }
}

/// Whether the names of the entries fit in their length field, and their
/// moments are valid ones.
pub open spec fn are_writable(entries: Seq<EntryRecord>) -> bool {
    forall|i: int|
        0 <= i < entries.len() ==> (#[trigger] entries[i]).name.len() <= 0xFFFF && has_valid_time(
            entries[i],
        )
}

/// The central directory of the first entries starts the central
/// directory of all, whatever follows it.
pub proof fn lemma_directory_prefix(entries: Seq<EntryRecord>, i: int, rest: Seq<u8>)
    requires
        0 <= i <= entries.len(),
    ensures
        is_prefix(
            central_directory_bytes(entries.subrange(0, i)),
            central_directory_bytes(entries) + rest,
        ),
    decreases entries.len() - i,
{
    let whole = central_directory_bytes(entries) + rest;
    if i == entries.len() {
        assert(entries.subrange(0, i) =~= entries);
        lemma_prefix_of_joined(central_directory_bytes(entries), rest);
    } else {
        lemma_directory_prefix(entries, i + 1, rest);
        let upto = entries.subrange(0, i + 1);
        assert(upto.drop_last() =~= entries.subrange(0, i));
        assert(upto.last() == entries[i]);
        lemma_peel(
            central_directory_bytes(entries.subrange(0, i)),
            entries[i].central_record_bytes(),
            whole,
        );
    }
}

/// The central directory is read back record by record: behind the
/// records of the first `i` entries, the next step gives the fixed part of
/// entry `i`, its name and its extra field, and leads behind its record.
pub proof fn lemma_directory_is_read_back(entries: Seq<EntryRecord>, i: int, rest: Seq<u8>)
    requires
        are_writable(entries),
        0 <= i < entries.len(),
    ensures
        ({
            let whole = central_directory_bytes(entries) + rest;
            let at = central_directory_bytes(entries.subrange(0, i)).len() as int;
            let e = entries[i];
            let len = 46 + e.name.len() as int + e.extra().len();
            let here = whole.subrange(at, whole.len() as int);
            &&& at + len == central_directory_bytes(entries.subrange(0, i + 1)).len()
            &&& at + len <= whole.len()
            &&& next_record(here) == Ok::<_, ErrorKind>(Some((central_header_of(e), len)))
            &&& ZipFileHeaderFixed::decode(here) == central_header_of(e)
            &&& holds_at(here, 46, e.name)
            &&& holds_at(here, 46 + e.name.len() as int, e.extra())
        }),
{
    let whole = central_directory_bytes(entries) + rest;
    let before = central_directory_bytes(entries.subrange(0, i));
    let e = entries[i];
    lemma_directory_prefix(entries, i + 1, rest);
    let upto = entries.subrange(0, i + 1);
    assert(upto.drop_last() =~= entries.subrange(0, i));
    assert(upto.last() == e);
    lemma_peel(before, e.central_record_bytes(), whole);
    lemma_held_starts_rest(whole, before.len() as int, e.central_record_bytes());
    lemma_central_record_round_trip(e, whole.subrange(before.len() as int, whole.len() as int));
}

/// The end of central directory record that is encoded and parsed again
/// is the record, with no comment.
pub proof fn lemma_eocd_round_trip(
    total_entries: int,
    directory_size: u64,
    directory_offset: u64,
    s: Seq<u8>,
)
    requires
        0 <= total_entries,
        is_prefix(eocd_bytes(total_entries, directory_size, directory_offset), s),
    ensures
        eocd_bytes(total_entries, directory_size, directory_offset).len() == 22,
        EndOfCentralDirectoryRecordFixed::parse_spec(s) == Ok::<_, ErrorKind>(
            EndOfCentralDirectoryRecordFixed {
                signature: 0x06054b50,
                disk_number: 0,
                eocd_disk: 0,
                num_entries: capped16(total_entries) as u16,
                total_entries: capped16(total_entries) as u16,
                central_dir_size: capped32(directory_size) as u32,
                central_dir_offset: capped32(directory_offset) as u32,
                comment_len: 0,
            },
        ),
{
    let n = capped16(total_entries);
    let f0 = u32_le_bytes(0x06054b50);
    let f1 = f0 + u32_le_bytes(0);
    let f2 = f1 + u16_le_bytes(n);
    let f3 = f2 + u16_le_bytes(n);
    let f4 = f3 + u32_le_bytes(capped32(directory_size));
    let f5 = f4 + u32_le_bytes(capped32(directory_offset));
    let f6 = f5 + u16_le_bytes(0);
    assert(f6 == eocd_bytes(total_entries, directory_size, directory_offset));
    lemma_le_bytes_len(0x06054b50);
    lemma_le_bytes_len(0);
    lemma_le_bytes_len(n);
    lemma_le_bytes_len(capped32(directory_size));
    lemma_le_bytes_len(capped32(directory_offset));
    lemma_peel(f5, u16_le_bytes(0), s);
    lemma_peel(f4, u32_le_bytes(capped32(directory_offset)), s);
    lemma_peel(f3, u32_le_bytes(capped32(directory_size)), s);
    lemma_peel(f2, u16_le_bytes(n), s);
    lemma_peel(f1, u16_le_bytes(n), s);
    lemma_peel(f0, u32_le_bytes(0), s);
    lemma_peel(Seq::empty(), f0, s);
    assert(Seq::<u8>::empty() + f0 =~= f0);
    lemma_u32_held(s, 0, 0x06054b50);
    lemma_u32_held(s, 4, 0);
    lemma_u16_held(s, 8, n);
    lemma_u16_held(s, 10, n);
    lemma_u32_held(s, 12, capped32(directory_size));
    lemma_u32_held(s, 16, capped32(directory_offset));
    lemma_u16_held(s, 20, 0);
}

/// The zip64 end of central directory locator that is encoded and parsed
/// again names the offset that it was made for.
pub proof fn lemma_zip64_locator_round_trip(zip64_eocd_offset: u64, s: Seq<u8>)
    requires
        is_prefix(zip64_locator_bytes(zip64_eocd_offset), s),
    ensures
        zip64_locator_bytes(zip64_eocd_offset).len() == 20,
        Zip64EndOfCentralDirectoryLocatorRecord::parse_spec(s) == Ok::<_, ErrorKind>(
            Zip64EndOfCentralDirectoryLocatorRecord {
                signature: 0x07064b50,
                eocd_disk: 0,
                directory_offset: zip64_eocd_offset,
                total_disks: 1,
            },
        ),
{
    let f0 = u32_le_bytes(0x07064b50);
    let f1 = f0 + u32_le_bytes(0);
    let f2 = f1 + u64_le_bytes(zip64_eocd_offset as int);
    let f3 = f2 + u32_le_bytes(1);
    assert(f3 == zip64_locator_bytes(zip64_eocd_offset));
    lemma_le_bytes_len(0x07064b50);
    lemma_le_bytes_len(0);
    lemma_le_bytes_len(zip64_eocd_offset as int);
    lemma_le_bytes_len(1);
    lemma_peel(f2, u32_le_bytes(1), s);
    lemma_peel(f1, u64_le_bytes(zip64_eocd_offset as int), s);
    lemma_peel(f0, u32_le_bytes(0), s);
    lemma_peel(Seq::empty(), f0, s);
    assert(Seq::<u8>::empty() + f0 =~= f0);
    lemma_u32_held(s, 0, 0x07064b50);
    lemma_u32_held(s, 4, 0);
    lemma_u64_held(s, 8, zip64_eocd_offset as int);
    lemma_u32_held(s, 16, 1);
}

/// The zip64 end of central directory record that is encoded and parsed
/// again holds the number of entries, the size and the offset of the
/// directory that it was made for.
pub proof fn lemma_zip64_eocd_round_trip(
    total_entries: u64,
    directory_size: u64,
    directory_offset: u64,
    s: Seq<u8>,
)
    requires
        is_prefix(zip64_eocd_bytes(total_entries, directory_size, directory_offset), s),
    ensures
        zip64_eocd_bytes(total_entries, directory_size, directory_offset).len() == 56,
        Zip64EndOfCentralDirectoryRecord::parse_spec(s) == Ok::<_, ErrorKind>(
            Zip64EndOfCentralDirectoryRecord {
                signature: 0x06064b50,
                size: 44,
                version_made_by: VersionMadeBy(45),
                version_needed: 45,
                disk_number: 0,
                cd_disk: 0,
                num_entries: total_entries,
                total_entries,
                central_dir_size: directory_size,
                central_dir_offset: directory_offset,
            },
        ),
{
    let f0 = u32_le_bytes(0x06064b50);
    let f1 = f0 + u64_le_bytes(44);
    let f2 = f1 + u16_le_bytes(45);
    let f3 = f2 + u16_le_bytes(45);
    let f4 = f3 + u32_le_bytes(0);
    let f5 = f4 + u32_le_bytes(0);
    let f6 = f5 + u64_le_bytes(total_entries as int);
    let f7 = f6 + u64_le_bytes(total_entries as int);
    let f8 = f7 + u64_le_bytes(directory_size as int);
    let f9 = f8 + u64_le_bytes(directory_offset as int);
    assert(f9 == zip64_eocd_bytes(total_entries, directory_size, directory_offset));
    lemma_le_bytes_len(0x06064b50);
    lemma_le_bytes_len(44);
    lemma_le_bytes_len(45);
    lemma_le_bytes_len(0);
    lemma_le_bytes_len(total_entries as int);
    lemma_le_bytes_len(directory_size as int);
    lemma_le_bytes_len(directory_offset as int);
    lemma_peel(f8, u64_le_bytes(directory_offset as int), s);
    lemma_peel(f7, u64_le_bytes(directory_size as int), s);
    lemma_peel(f6, u64_le_bytes(total_entries as int), s);
    lemma_peel(f5, u64_le_bytes(total_entries as int), s);
    lemma_peel(f4, u32_le_bytes(0), s);
    lemma_peel(f3, u32_le_bytes(0), s);
    lemma_peel(f2, u16_le_bytes(45), s);
    lemma_peel(f1, u16_le_bytes(45), s);
    lemma_peel(f0, u64_le_bytes(44), s);
    lemma_peel(Seq::empty(), f0, s);
    assert(Seq::<u8>::empty() + f0 =~= f0);
    lemma_u32_held(s, 0, 0x06064b50);
    lemma_u64_held(s, 4, 44);
    lemma_u16_held(s, 12, 45);
    lemma_u16_held(s, 14, 45);
    lemma_u32_held(s, 16, 0);
    lemma_u32_held(s, 20, 0);
    lemma_u64_held(s, 24, total_entries as int);
    lemma_u64_held(s, 32, total_entries as int);
    lemma_u64_held(s, 40, directory_size as int);
    lemma_u64_held(s, 48, directory_offset as int);
}

/// Whether the fields of an end of central directory record spell no
/// signature of such a record: the signature stands at its start only.
pub open spec fn eocd_is_unambiguous(
    total_entries: int,
    directory_size: u64,
    directory_offset: u64,
) -> bool {
    forall|j: int|
        1 <= j ==> !occurs_at(
            eocd_bytes(total_entries, directory_size, directory_offset),
            eocd_signature_bytes(),
            j,
        )
}

/// A sequence starts with itself.
proof fn lemma_prefix_of_itself(a: Seq<u8>)
    ensures
        is_prefix(a, a),
{
    assert(a.subrange(0, a.len() as int) =~= a);
}

/// The lengths of the records that close an archive.
proof fn lemma_end_record_lens(total: int, size: u64, offset: u64, at: u64)
    requires
        0 <= total,
    ensures
        eocd_bytes(total, size, offset).len() == 22,
        zip64_eocd_bytes(total as u64, size, offset).len() == 56,
        zip64_locator_bytes(at).len() == 20,
{
    lemma_prefix_of_itself(eocd_bytes(total, size, offset));
    lemma_prefix_of_itself(zip64_eocd_bytes(total as u64, size, offset));
    lemma_prefix_of_itself(zip64_locator_bytes(at));
    lemma_eocd_round_trip(total, size, offset, eocd_bytes(total, size, offset));
    lemma_zip64_eocd_round_trip(
        total as u64,
        size,
        offset,
        zip64_eocd_bytes(total as u64, size, offset),
    );
    lemma_zip64_locator_round_trip(at, zip64_locator_bytes(at));
}

/// What closes an archive, in parts: the central directory, the zip64
/// records and the end of central directory record.
proof fn lemma_archive_end_layout(entries: Seq<EntryRecord>, offset: u64)
    ensures
        ({
            let end = archive_end_bytes(entries, offset);
            let directory = central_directory_bytes(entries);
            let size = directory.len() as u64;
            let eocd = eocd_bytes(entries.len() as int, size, offset);
            &&& eocd.len() == 22
            &&& holds_at(end, end.len() - 22, eocd)
            &&& is_prefix(directory, end)
            &&& if archive_needs_zip64(entries, offset) {
                &&& end.len() == directory.len() + 98
                &&& holds_at(
                    end,
                    directory.len() as int,
                    zip64_eocd_bytes(entries.len() as u64, size, offset),
                )
                &&& holds_at(
                    end,
                    directory.len() as int + 56,
                    zip64_locator_bytes((offset + size) as u64),
                )
            } else {
                end.len() == directory.len() + 22
            }
        }),
{
    let end = archive_end_bytes(entries, offset);
    let directory = central_directory_bytes(entries);
    let size = directory.len() as u64;
    let eocd = eocd_bytes(entries.len() as int, size, offset);
    let record = zip64_eocd_bytes(entries.len() as u64, size, offset);
    let locator = zip64_locator_bytes((offset + size) as u64);
    lemma_end_record_lens(entries.len() as int, size, offset, (offset + size) as u64);
    lemma_prefix_of_itself(end);
    if archive_needs_zip64(entries, offset) {
        assert(end == directory + (record + locator) + eocd);
        lemma_peel(directory + (record + locator), eocd, end);
        lemma_peel(directory, record + locator, end);
        lemma_prefix_of_itself(record + locator);
        lemma_peel(record, locator, record + locator);
        lemma_peel(Seq::empty(), record, record + locator);
        assert(Seq::<u8>::empty() + record =~= record);
        lemma_held_within(end, directory.len() as int, record + locator, 0, record);
        lemma_held_within(end, directory.len() as int, record + locator, 56, locator);
    } else {
        let none = Seq::<u8>::empty();
        assert(end == directory + none + eocd);
        lemma_peel(directory + none, eocd, end);
        lemma_peel(directory, none, end);
    }
}

/// An archive has the zip64 end of central directory record and its
/// locator, one behind the other between the central directory and the end
/// of central directory record, where it needs them: it has 65535 entries or
/// more, its central directory starts at or beyond offset 2^32 - 1, or an
/// entry has a size or an offset that does not fit below 2^32 - 1. An
/// archive below all of these has neither: the end of central directory
/// record follows the central directory.
pub proof fn lemma_zip64_records_where_needed(entries: Seq<EntryRecord>, offset: u64)
    ensures
        ({
            let end = archive_end_bytes(entries, offset);
            let directory = central_directory_bytes(entries);
            let size = directory.len() as u64;
            let eocd = eocd_bytes(entries.len() as int, size, offset);
            if archive_needs_zip64(entries, offset) {
                &&& end == directory + zip64_eocd_bytes(entries.len() as u64, size, offset)
                    + zip64_locator_bytes((offset + size) as u64) + eocd
                &&& le_u32_at(end, directory.len() as int) == 0x06064b50
                &&& le_u32_at(end, directory.len() as int + 56) == 0x07064b50
            } else {
                end == directory + eocd
            }
        }),
{
    let end = archive_end_bytes(entries, offset);
    let directory = central_directory_bytes(entries);
    let size = directory.len() as u64;
    let eocd = eocd_bytes(entries.len() as int, size, offset);
    let record = zip64_eocd_bytes(entries.len() as u64, size, offset);
    let locator = zip64_locator_bytes((offset + size) as u64);
    lemma_archive_end_layout(entries, offset);
    if archive_needs_zip64(entries, offset) {
        assert(end =~= directory + record + locator + eocd);
        lemma_held_starts_rest(end, directory.len() as int, record);
        lemma_held_starts_rest(end, directory.len() as int + 56, locator);
        let from_record = end.subrange(directory.len() as int, end.len() as int);
        let from_locator = end.subrange(directory.len() as int + 56, end.len() as int);
        lemma_zip64_eocd_round_trip(entries.len() as u64, size, offset, from_record);
        lemma_zip64_locator_round_trip((offset + size) as u64, from_locator);
        assert(le_u32_at(end, directory.len() as int) == le_u32_at(from_record, 0));
        assert(le_u32_at(end, directory.len() as int + 56) == le_u32_at(from_locator, 0));
    } else {
        assert(end =~= directory + eocd);
    }
}

/// The signature of the end of central directory record is what its
/// encoding starts with.
proof fn lemma_signature_starts_eocd(total: int, size: u64, offset: u64)
    requires
        0 <= total,
    ensures
        occurs_at(eocd_bytes(total, size, offset), eocd_signature_bytes(), 0),
{
    let eocd = eocd_bytes(total, size, offset);
    let f0 = u32_le_bytes(0x06054b50);
    let f5 = f0 + u32_le_bytes(0) + u16_le_bytes(capped16(total)) + u16_le_bytes(capped16(total))
        + u32_le_bytes(capped32(size)) + u32_le_bytes(capped32(offset));
    lemma_prefix_of_itself(eocd);
    lemma_peel(f5, u16_le_bytes(0), eocd);
    lemma_peel(
        f0 + u32_le_bytes(0) + u16_le_bytes(capped16(total)) + u16_le_bytes(capped16(total))
            + u32_le_bytes(capped32(size)),
        u32_le_bytes(capped32(offset)),
        eocd,
    );
    lemma_peel(
        f0 + u32_le_bytes(0) + u16_le_bytes(capped16(total)) + u16_le_bytes(capped16(total)),
        u32_le_bytes(capped32(size)),
        eocd,
    );
    lemma_peel(
        f0 + u32_le_bytes(0) + u16_le_bytes(capped16(total)),
        u16_le_bytes(capped16(total)),
        eocd,
    );
    lemma_peel(f0 + u32_le_bytes(0), u16_le_bytes(capped16(total)), eocd);
    lemma_peel(f0, u32_le_bytes(0), eocd);
    assert(f0 =~= eocd_signature_bytes()) by {
        reveal(u32_le_bytes);
        reveal(u16_le_bytes);
    }
}

/// The end of central directory record ends with two bytes of zeros: the
/// length of its comment.
proof fn lemma_eocd_ends_with_zeros(total: int, size: u64, offset: u64)
    requires
        0 <= total,
    ensures
        eocd_bytes(total, size, offset).len() == 22,
        eocd_bytes(total, size, offset)[20] == 0,
        eocd_bytes(total, size, offset)[21] == 0,
{
    let eocd = eocd_bytes(total, size, offset);
    let front = u32_le_bytes(0x06054b50) + u32_le_bytes(0) + u16_le_bytes(capped16(total))
        + u16_le_bytes(capped16(total)) + u32_le_bytes(capped32(size)) + u32_le_bytes(
        capped32(offset),
    );
    let zeros = u16_le_bytes(0);
    lemma_end_record_lens(total, size, offset, 0);
    lemma_le_bytes_len(0);
    lemma_prefix_of_itself(eocd);
    lemma_peel(front, zeros, eocd);
    assert(zeros[0] == 0 && zeros[1] == 0) by {
        reveal(u16_le_bytes);
    }
    assert(eocd.subrange(20, 22)[0] == eocd[20]);
    assert(eocd.subrange(20, 22)[1] == eocd[21]);
}

/// Whether no end of central directory signature stands in `after`.
pub open spec fn holds_no_signature(after: Seq<u8>) -> bool {
    forall|j: int| !occurs_at(after, eocd_signature_bytes(), j)
}

/// In an image that holds, before a tail without signature, an end of
/// central directory record whose fields spell no signature, the record is
/// where the signature stands last.
proof fn lemma_eocd_is_found(
    image: Seq<u8>,
    after: Seq<u8>,
    total: int,
    size: u64,
    offset: u64,
    max: int,
)
    requires
        0 <= total,
        max >= 22 + after.len(),
        image.len() >= 22 + after.len(),
        holds_at(image, image.len() - after.len() - 22, eocd_bytes(total, size, offset)),
        holds_at(image, image.len() - after.len(), after),
        eocd_is_unambiguous(total, size, offset),
        holds_no_signature(after),
    ensures
        eocd_position(image, max) == Some(image.len() - after.len() - 22),
{
    let eocd = eocd_bytes(total, size, offset);
    let sig = eocd_signature_bytes();
    let p = image.len() - after.len() - 22;
    lemma_signature_starts_eocd(total, size, offset);
    lemma_eocd_ends_with_zeros(total, size, offset);
    assert(occurs_at(image, sig, p)) by {
        assert(image.subrange(p, p + 4) =~= eocd.subrange(0, 4));
    }
    assert(image[p + 20] == 0 && image[p + 21] == 0) by {
        assert(image.subrange(p, p + 22)[20] == image[p + 20]);
        assert(image.subrange(p, p + 22)[21] == image[p + 21]);
    }
    assert forall|j: int| p < j implies !occurs_at(image, sig, j) by {
        if occurs_at(image, sig, j) {
            let found = image.subrange(j, j + 4);
            assert(found[0] == image[j] && found[1] == image[j + 1]);
            if j + 4 <= p + 22 {
                assert(eocd.subrange(j - p, j - p + 4) =~= found);
                assert(occurs_at(eocd, sig, j - p));
            } else if j >= p + 22 {
                assert(after.subrange(j - p - 22, j - p - 22 + 4) =~= found);
                assert(occurs_at(after, sig, j - p - 22));
            }
        }
    }
    lemma_last_occurrence(image, sig, search_floor(image.len() as int, max), Some(p));
}

/// Where the records that close an archive stand in its image.
proof fn lemma_image_layout(before: Seq<u8>, entries: Seq<EntryRecord>, offset: u64)
    ensures
        ({
            let image = before + archive_end_bytes(entries, offset);
            let directory = central_directory_bytes(entries);
            let size = directory.len() as u64;
            let at = before.len() as int;
            &&& image.len() >= at + directory.len() + 22
            &&& holds_at(image, at, directory)
            &&& holds_at(
                image,
                image.len() - 22,
                eocd_bytes(entries.len() as int, size, offset),
            )
            &&& if archive_needs_zip64(entries, offset) {
                &&& image.len() == at + directory.len() + 98
                &&& holds_at(
                    image,
                    at + directory.len(),
                    zip64_eocd_bytes(entries.len() as u64, size, offset),
                )
                &&& holds_at(
                    image,
                    image.len() - 42,
                    zip64_locator_bytes((offset + size) as u64),
                )
            } else {
                image.len() == at + directory.len() + 22
            }
        }),
{
    let end = archive_end_bytes(entries, offset);
    let image = before + end;
    let directory = central_directory_bytes(entries);
    let size = directory.len() as u64;
    let at = before.len() as int;
    lemma_archive_end_layout(entries, offset);
    assert(holds_at(image, at, end)) by {
        assert(image.subrange(at, image.len() as int) =~= end);
    }
    lemma_held_within(
        image,
        at,
        end,
        end.len() - 22,
        eocd_bytes(entries.len() as int, size, offset),
    );
    assert(holds_at(end, 0, directory));
    lemma_held_within(image, at, end, 0, directory);
    if archive_needs_zip64(entries, offset) {
        lemma_held_within(
            image,
            at,
            end,
            directory.len() as int,
            zip64_eocd_bytes(entries.len() as u64, size, offset),
        );
        lemma_held_within(
            image,
            at,
            end,
            directory.len() as int + 56,
            zip64_locator_bytes((offset + size) as u64),
        );
    }
}

/// What locating gives where the record that is found holds no sentinel.
proof fn lemma_located_plain(
    image: Seq<u8>,
    max: int,
    p: int,
    record: EndOfCentralDirectoryRecordFixed,
)
    requires
        eocd_position(image, max) == Some(p),
        0 <= p <= u64::MAX,
        EndOfCentralDirectoryRecordFixed::parse_spec(image.subrange(p, image.len() as int))
            == Ok::<_, ErrorKind>(record),
        !record.spec_is_zip64(),
    ensures
        locate_in_slice_spec(image, max) == Ok::<_, ErrorKind>(
            EndOfCentralDirectory {
                zip64: None,
                eocd: record,
                stream_pos: p as u64,
                record_pos: p as u64,
            },
        ),
{
}

/// What locating gives where the record that is found holds a sentinel,
/// and the zip64 records stand where they are looked for.
proof fn lemma_located_zip64(
    image: Seq<u8>,
    max: int,
    p: int,
    record: EndOfCentralDirectoryRecordFixed,
    locator: Zip64EndOfCentralDirectoryLocatorRecord,
    zip64: Zip64EndOfCentralDirectoryRecord,
)
    requires
        eocd_position(image, max) == Some(p),
        20 <= p,
        EndOfCentralDirectoryRecordFixed::parse_spec(image.subrange(p, image.len() as int))
            == Ok::<_, ErrorKind>(record),
        record.spec_is_zip64(),
        Zip64EndOfCentralDirectoryLocatorRecord::parse_spec(
            image.subrange(p - 20, image.len() as int),
        ) == Ok::<_, ErrorKind>(locator),
        locator.directory_offset <= image.len(),
        Zip64EndOfCentralDirectoryRecord::parse_spec(
            image.subrange(locator.directory_offset as int, image.len() as int),
        ) == Ok::<_, ErrorKind>(zip64),
    ensures
        locate_in_slice_spec(image, max) == Ok::<_, ErrorKind>(
            EndOfCentralDirectory {
                zip64: Some(zip64),
                eocd: record,
                stream_pos: locator.directory_offset,
                record_pos: p as u64,
            },
        ),
{
}

/// A central directory record has 46 bytes at least, and a central
/// directory that many for each of its entries.
proof fn lemma_directory_len(entries: Seq<EntryRecord>)
    ensures
        central_directory_bytes(entries).len() >= 46 * entries.len(),
    decreases entries.len(),
{
    if entries.len() > 0 {
        lemma_directory_len(entries.drop_last());
        let e = entries.last();
        lemma_le_bytes_len(0);
        lemma_le_bytes_len(0x02014b50);
        lemma_le_bytes_len(e.version_made_by() as int);
        lemma_le_bytes_len(e.version_needed() as int);
        lemma_le_bytes_len(e.flags as int);
        lemma_le_bytes_len(e.method as int);
        lemma_le_bytes_len(dos_fields(e.modified).0);
        lemma_le_bytes_len(dos_fields(e.modified).1);
        lemma_le_bytes_len(e.crc as int);
        lemma_le_bytes_len(capped32(e.compressed_size));
        lemma_le_bytes_len(capped32(e.uncompressed_size));
        lemma_le_bytes_len(e.name.len() as int);
        lemma_le_bytes_len(e.extra().len() as int);
        lemma_le_bytes_len(e.external_attrs() as int);
        lemma_le_bytes_len(capped32(e.local_header_offset));
        assert(e.central_head_bytes().len() == 20);
        assert(e.central_tail_bytes().len() == 26);
    }
}

/// What the locator finds in an image that holds the records that close
/// an archive where `lemma_image_layout` says.
proof fn lemma_located_by_layout(
    image: Seq<u8>,
    after: Seq<u8>,
    at: int,
    total: int,
    size: u64,
    offset: u64,
    needs_zip64: bool,
    max: int,
)
    requires
        max >= 22 + after.len(),
        0 <= at,
        0 <= total <= u64::MAX,
        image.len() <= u64::MAX,
        offset + size <= u64::MAX,
        eocd_is_unambiguous(total, size, offset),
        holds_no_signature(after),
        holds_at(image, image.len() - after.len(), after),
        holds_at(image, image.len() - after.len() - 22, eocd_bytes(total, size, offset)),
        if needs_zip64 {
            &&& total >= 0xFFFF || offset >= 0xFFFF_FFFF
            &&& offset == at
            &&& image.len() - after.len() == at + size + 98
            &&& holds_at(image, at + size, zip64_eocd_bytes(total as u64, size, offset))
            &&& holds_at(
                image,
                image.len() - after.len() - 42,
                zip64_locator_bytes((offset + size) as u64),
            )
        } else {
            &&& total < 0xFFFF
            &&& offset < 0xFFFF_FFFF
            &&& size < 0xFFFF_FFFF
            &&& offset <= at
            &&& image.len() - after.len() == at + size + 22
        },
    ensures
        locate_in_slice_spec(image, max) matches Ok(eocd) && eocd.spec_offset() == at
            && eocd.stream_pos == at + size && eocd.spec_entries() == total
            && eocd.spec_base_offset() == at - offset && eocd.record_pos + 22 + after.len()
            == image.len() && eocd.eocd.comment_len == 0 && (eocd.zip64 is Some) == needs_zip64,
{
    let len = image.len() as int;
    let p = len - after.len() - 22;
    lemma_eocd_is_found(image, after, total, size, offset, max);
    lemma_held_starts_rest(image, p, eocd_bytes(total, size, offset));
    lemma_eocd_round_trip(total, size, offset, image.subrange(p, len));
    let record = EndOfCentralDirectoryRecordFixed {
        signature: 0x06054b50,
        disk_number: 0,
        eocd_disk: 0,
        num_entries: capped16(total) as u16,
        total_entries: capped16(total) as u16,
        central_dir_size: capped32(size) as u32,
        central_dir_offset: capped32(offset) as u32,
        comment_len: 0,
    };
    if needs_zip64 {
        let z = (offset + size) as u64;
        lemma_held_starts_rest(image, p - 20, zip64_locator_bytes(z));
        lemma_zip64_locator_round_trip(z, image.subrange(p - 20, len));
        lemma_held_starts_rest(image, z as int, zip64_eocd_bytes(total as u64, size, offset));
        lemma_zip64_eocd_round_trip(total as u64, size, offset, image.subrange(z as int, len));
        lemma_located_zip64(
            image,
            max,
            p,
            record,
            Zip64EndOfCentralDirectoryLocatorRecord {
                signature: 0x07064b50,
                eocd_disk: 0,
                directory_offset: z,
                total_disks: 1,
            },
            Zip64EndOfCentralDirectoryRecord {
                signature: 0x06064b50,
                size: 44,
                version_made_by: VersionMadeBy(45),
                version_needed: 45,
                disk_number: 0,
                cd_disk: 0,
                num_entries: total as u64,
                total_entries: total as u64,
                central_dir_size: size,
                central_dir_offset: offset,
            },
        );
    } else {
        lemma_located_plain(image, max, p, record);
    }
}

/// An archive is located in its image: the image of an archive whose
/// entries end at `offset`, behind whatever stands before the archive,
/// leads the locator to the central directory, to the number of the
/// entries, and to the offset at which the archive starts in the image.
///
/// This holds of an archive without zip64 records whose central directory
/// is shorter than 2^32 - 1 bytes, and of an archive with zip64 records that
/// starts where its image starts and whose number of entries or directory
/// offset holds a sentinel. In both the fields of the end of central
/// directory record must spell no signature of their own.
pub proof fn lemma_archive_is_located(
    before: Seq<u8>,
    entries: Seq<EntryRecord>,
    offset: u64,
    max_search_space: int,
)
    requires
        max_search_space >= 22,
        before.len() + archive_end_bytes(entries, offset).len() <= u64::MAX,
        offset + central_directory_bytes(entries).len() <= u64::MAX,
        eocd_is_unambiguous(
            entries.len() as int,
            central_directory_bytes(entries).len() as u64,
            offset,
        ),
        if archive_needs_zip64(entries, offset) {
            (entries.len() >= 0xFFFF || offset >= 0xFFFF_FFFF) && offset == before.len()
        } else {
            central_directory_bytes(entries).len() < 0xFFFF_FFFF && offset <= before.len()
        },
    ensures
        ({
            let image = before + archive_end_bytes(entries, offset);
            let size = central_directory_bytes(entries).len() as int;
            &&& locate_in_slice_spec(image, max_search_space) matches Ok(eocd)
            &&& eocd.spec_offset() == before.len()
            &&& eocd.stream_pos == before.len() + size
            &&& eocd.spec_entries() == entries.len()
            &&& eocd.spec_base_offset() == before.len() - offset
            &&& eocd.record_pos + 22 == image.len()
            &&& eocd.eocd.comment_len == 0
            &&& (eocd.zip64 is Some) == archive_needs_zip64(entries, offset)
            &&& image.subrange(before.len() as int, before.len() + size)
                == central_directory_bytes(entries)
        }),
{
    let none = Seq::<u8>::empty();
    assert(holds_no_signature(none));
    assert(before + archive_end_bytes(entries, offset) + none =~= before + archive_end_bytes(
        entries,
        offset,
    ));
    lemma_archive_is_located_before(before, entries, offset, none, max_search_space);
}

/// A longer sequence holds what a shorter one holds, where it holds it.
proof fn lemma_held_in_longer(s: Seq<u8>, after: Seq<u8>, at: int, x: Seq<u8>)
    requires
        holds_at(s, at, x),
    ensures
        holds_at(s + after, at, x),
{
    assert((s + after).subrange(at, at + x.len()) =~= s.subrange(at, at + x.len()));
}

/// An archive is located in an image that goes on behind it, as long as
/// what follows holds no end of central directory signature and the search
/// reaches back over it: the locator finds the central directory, the
/// number of the entries, the offset at which the archive starts in the
/// image, and the end of central directory record where the archive ends.
///
/// This holds of the archives of which `lemma_archive_is_located` holds.
pub proof fn lemma_archive_is_located_before(
    before: Seq<u8>,
    entries: Seq<EntryRecord>,
    offset: u64,
    after: Seq<u8>,
    max_search_space: int,
)
    requires
        max_search_space >= 22 + after.len(),
        holds_no_signature(after),
        before.len() + archive_end_bytes(entries, offset).len() + after.len() <= u64::MAX,
        offset + central_directory_bytes(entries).len() <= u64::MAX,
        eocd_is_unambiguous(
            entries.len() as int,
            central_directory_bytes(entries).len() as u64,
            offset,
        ),
        if archive_needs_zip64(entries, offset) {
            (entries.len() >= 0xFFFF || offset >= 0xFFFF_FFFF) && offset == before.len()
        } else {
            central_directory_bytes(entries).len() < 0xFFFF_FFFF && offset <= before.len()
        },
    ensures
        ({
            let image = before + archive_end_bytes(entries, offset) + after;
            let size = central_directory_bytes(entries).len() as int;
            &&& locate_in_slice_spec(image, max_search_space) matches Ok(eocd)
            &&& eocd.spec_offset() == before.len()
            &&& eocd.stream_pos == before.len() + size
            &&& eocd.spec_entries() == entries.len()
            &&& eocd.spec_base_offset() == before.len() - offset
            &&& eocd.record_pos + 22 + after.len() == image.len()
            &&& eocd.eocd.comment_len == 0
            &&& (eocd.zip64 is Some) == archive_needs_zip64(entries, offset)
            &&& image.subrange(before.len() as int, before.len() + size)
                == central_directory_bytes(entries)
        }),
{
    let archive = before + archive_end_bytes(entries, offset);
    let image = archive + after;
    let size = central_directory_bytes(entries).len() as u64;
    let at = before.len() as int;
    lemma_directory_len(entries);
    lemma_image_layout(before, entries, offset);
    lemma_held_in_longer(archive, after, at, central_directory_bytes(entries));
    lemma_held_in_longer(
        archive,
        after,
        archive.len() - 22,
        eocd_bytes(entries.len() as int, size, offset),
    );
    if archive_needs_zip64(entries, offset) {
        lemma_held_in_longer(
            archive,
            after,
            at + size,
            zip64_eocd_bytes(entries.len() as u64, size, offset),
        );
        lemma_held_in_longer(
            archive,
            after,
            archive.len() - 42,
            zip64_locator_bytes((offset + size) as u64),
        );
    }
    assert(holds_at(image, image.len() - after.len(), after)) by {
        assert(image.subrange(archive.len() as int, image.len() as int) =~= after);
    }
    lemma_located_by_layout(
        image,
        after,
        at,
        entries.len() as int,
        size,
        offset,
        archive_needs_zip64(entries, offset),
        max_search_space,
    );
}

/// The record that is read from the central directory record of an
/// entry holds the name of the entry, and leads to the entry: its
/// wayfinder holds the sizes and the checksum of the entry, and the offset
/// of its local header in the image.
pub proof fn lemma_record_leads_to_entry(
    record: ZipFileHeaderRecord<'_>,
    here: Seq<u8>,
    e: EntryRecord,
    base_offset: u64,
)
    requires
        e.name.len() <= 0xFFFF,
        has_valid_time(e),
        e.local_header_offset + base_offset <= u64::MAX,
        is_prefix(e.central_record_bytes(), here),
        is_record_of(record, here, base_offset),
    ensures
        record.fixed == central_header_of(e),
        record.file_name@ == e.name,
        record.extra_field@ == e.extra(),
        record.file_comment@.len() == 0,
        record.spec_wayfinder() == wayfinder_of(e, base_offset as int),
        record.wide.is_zip64 == e.needs_zip64(),
{
    lemma_central_record_round_trip(e, here);
    lemma_zip64_round_trip(e);
    lemma_extra_len(e);
}

/// Data that is checked against its own size and checksum passes, at its
/// end and as soon as its size is reached. Against another size it fails
/// with `InvalidSize`, and against another checksum, unless that is 0, with
/// `InvalidChecksum`.
pub proof fn lemma_verdict_of_written(expected: ZipVerification, data: Seq<u8>, last: Seq<u8>)
    requires
        data.len() <= u64::MAX,
    ensures
        ({
            let found = ZipVerification {
                crc: crc32_spec(data),
                uncompressed_size: data.len() as u64,
            };
            let done = last.len() == 0 || data.len() >= expected.uncompressed_size;
            &&& expected == found ==> verdict(expected, data, last) is Ok
            &&& done && expected.uncompressed_size != data.len() ==> verdict(expected, data, last)
                == Err::<(), _>(
                ErrorKind::InvalidSize {
                    expected: expected.uncompressed_size,
                    actual: data.len() as u64,
                },
            )
            &&& done && expected.uncompressed_size == data.len() && expected.crc != 0
                && expected.crc != crc32_spec(data) ==> verdict(expected, data, last) == Err::<
                (),
                _,
            >(ErrorKind::InvalidChecksum { expected: expected.crc, actual: crc32_spec(data) })
        }),
{
}

/// The bytes of the entries of an archive, one after the other.
pub open spec fn entries_bytes(records: Seq<EntryRecord>, data: Seq<Seq<u8>>) -> Seq<u8>
    decreases records.len(),
{
    if records.len() == 0 {
        Seq::empty()
    } else {
        entries_bytes(records.drop_last(), data.drop_last()) + entry_bytes(
            records.last(),
            data.last(),
        )
    }
}

/// Whether the records of the entries tell where the entries stand, in
/// an archive that starts at offset `start`: each local header offset is
/// the offset behind the entries before, and each compressed size is the
/// length of the data.
pub open spec fn is_laid_out(start: u64, records: Seq<EntryRecord>, data: Seq<Seq<u8>>) -> bool {
    &&& records.len() == data.len()
    &&& forall|i: int|
        0 <= i < records.len() ==> (#[trigger] records[i]).local_header_offset == start
            + entries_bytes(records.subrange(0, i), data.subrange(0, i)).len()
            && records[i].compressed_size == data[i].len()
}

/// The image of an archive: what stands before it, its entries, its
/// central directory and what closes it.
pub open spec fn archive_image(
    before: Seq<u8>,
    start: u64,
    records: Seq<EntryRecord>,
    data: Seq<Seq<u8>>,
) -> Seq<u8> {
    before + entries_bytes(records, data) + archive_end_bytes(
        records,
        (start + entries_bytes(records, data).len()) as u64,
    )
}

/// The entries hold each entry behind those before it.
proof fn lemma_entries_hold(records: Seq<EntryRecord>, data: Seq<Seq<u8>>, i: int)
    requires
        records.len() == data.len(),
        0 <= i < records.len(),
    ensures
        holds_at(
            entries_bytes(records, data),
            entries_bytes(records.subrange(0, i), data.subrange(0, i)).len() as int,
            entry_bytes(records[i], data[i]),
        ),
    decreases records.len(),
{
    let all = entries_bytes(records, data);
    let n = records.len() as int;
    let front = entries_bytes(records.drop_last(), data.drop_last());
    lemma_prefix_of_itself(all);
    lemma_peel(front, entry_bytes(records.last(), data.last()), all);
    if i == n - 1 {
        assert(records.subrange(0, i) =~= records.drop_last());
        assert(data.subrange(0, i) =~= data.drop_last());
    } else {
        lemma_entries_hold(records.drop_last(), data.drop_last(), i);
        assert(records.drop_last().subrange(0, i) =~= records.subrange(0, i));
        assert(data.drop_last().subrange(0, i) =~= data.subrange(0, i));
        let piece = entry_bytes(records[i], data[i]);
        let at = entries_bytes(records.subrange(0, i), data.subrange(0, i)).len() as int;
        assert(holds_at(all, 0, front)) by {
            assert(all.subrange(0, front.len() as int) == front);
        }
        lemma_held_within(all, 0, front, at, piece);
    }
}

/// An entry stands in the image of its archive where its record says, and
/// is got back from there: its data lies behind its local header, and is
/// to be checked against the checksum and the size of the entry.
proof fn lemma_entry_of_written(
    before: Seq<u8>,
    start: u64,
    records: Seq<EntryRecord>,
    data: Seq<Seq<u8>>,
    i: int,
)
    requires
        are_writable(records),
        is_laid_out(start, records, data),
        0 <= i < records.len(),
        start <= before.len(),
        archive_image(before, start, records, data).len() <= u64::MAX,
    ensures
        ({
            let image = archive_image(before, start, records, data);
            let e = records[i];
            let origin = before.len() - start;
            let from = e.local_header_offset + origin + 30 + e.name.len()
                + extended_timestamp_bytes(e.modified).len();
            &&& ZipSliceArchive::entry_spec(image, wayfinder_of(e, origin)) == Ok::<_, ErrorKind>(
                (
                    from,
                    from + data[i].len(),
                    ZipVerification { crc: e.crc, uncompressed_size: e.uncompressed_size },
                ),
            )
            &&& image.subrange(from, from + data[i].len()) == data[i]
        }),
{
    let entries = entries_bytes(records, data);
    let offset = (start + entries.len()) as u64;
    let image = archive_image(before, start, records, data);
    let e = records[i];
    let origin = before.len() - start;
    let at = entries_bytes(records.subrange(0, i), data.subrange(0, i)).len() as int;
    lemma_entries_hold(records, data, i);
    assert(holds_at(image, before.len() as int, entries)) by {
        lemma_prefix_of_itself(image);
        lemma_peel(before + entries, archive_end_bytes(records, offset), image);
        lemma_peel(before, entries, image);
    }
    lemma_held_within(image, before.len() as int, entries, at, entry_bytes(e, data[i]));
    lemma_entry_is_got_back(image, origin, e, data[i]);
}

/// Whether an archive is one that is read back as it was written: its
/// records tell where its entries stand, the names fit and the moments
/// are valid, its image is no longer than a `u64` counts, the fields of its
/// end of central directory record spell no signature, and it is one of the
/// archives of which `lemma_archive_is_located` holds.
pub open spec fn is_read_back(
    before: Seq<u8>,
    start: u64,
    records: Seq<EntryRecord>,
    data: Seq<Seq<u8>>,
) -> bool {
    let offset = start + entries_bytes(records, data).len();
    &&& are_writable(records)
    &&& is_laid_out(start, records, data)
    &&& archive_image(before, start, records, data).len() <= u64::MAX
    &&& offset + central_directory_bytes(records).len() <= u64::MAX
    &&& eocd_is_unambiguous(
        records.len() as int,
        central_directory_bytes(records).len() as u64,
        offset as u64,
    )
    &&& if archive_needs_zip64(records, offset as u64) {
        (records.len() >= 0xFFFF || offset >= 0xFFFF_FFFF) && start == before.len()
    } else {
        central_directory_bytes(records).len() < 0xFFFF_FFFF && start <= before.len()
    }
}

/// What was written is what is read: in the image of an archive, the
/// locator finds the central directory; behind the records of the entries
/// before it, the directory gives the record of each entry, with its name;
/// and the wayfinder of that record leads to the data of the entry as it
/// was written, to be checked against the checksum and the size of the
/// entry.
///
pub proof fn lemma_read_what_was_written(
    before: Seq<u8>,
    start: u64,
    records: Seq<EntryRecord>,
    data: Seq<Seq<u8>>,
    i: int,
    max_search_space: int,
)
    requires
        is_read_back(before, start, records, data),
        0 <= i < records.len(),
        max_search_space >= 22,
    ensures
        ({
            let image = archive_image(before, start, records, data);
            let e = records[i];
            &&& locate_in_slice_spec(image, max_search_space) matches Ok(eocd) && ({
                let directory = image.subrange(eocd.spec_offset(), eocd.stream_pos as int);
                let at = central_directory_bytes(records.subrange(0, i)).len() as int;
                let here = directory.subrange(at, directory.len() as int);
                let from = e.local_header_offset + eocd.spec_base_offset() + 30 + e.name.len()
                    + extended_timestamp_bytes(e.modified).len();
                &&& eocd.spec_entries() == records.len()
                &&& directory == central_directory_bytes(records)
                &&& next_record(here) == Ok::<_, ErrorKind>(
                    Some((central_header_of(e), 46 + e.name.len() as int + e.extra().len())),
                )
                &&& holds_at(here, 46, e.name)
                &&& ZipSliceArchive::entry_spec(image, wayfinder_of(e, eocd.spec_base_offset()))
                    == Ok::<_, ErrorKind>(
                    (
                        from,
                        from + data[i].len(),
                        ZipVerification { crc: e.crc, uncompressed_size: e.uncompressed_size },
                    ),
                )
                &&& image.subrange(from, from + data[i].len()) == data[i]
            })
        }),
{
    let entries = entries_bytes(records, data);
    let offset = (start + entries.len()) as u64;
    let image = archive_image(before, start, records, data);
    let directory = central_directory_bytes(records);
    lemma_archive_is_located(before + entries, records, offset, max_search_space);
    let located = locate_in_slice_spec(image, max_search_space)->Ok_0;
    assert(located.spec_base_offset() == before.len() - start);
    assert(image.subrange(located.spec_offset(), located.stream_pos as int) == directory);
    lemma_directory_is_read_back(records, i, Seq::empty());
    assert(directory + Seq::<u8>::empty() =~= directory);
    lemma_entry_of_written(before, start, records, data, i);
}

/// An iterator that reads the central directory through a buffer gets
/// what the iterator over a slice gets, as long as the buffer holds the
/// fixed part of a record and what the lengths in it ask for.
pub proof fn lemma_buffered_as_slice(cd: Seq<u8>, buffer_len: int)
    requires
        buffer_len >= 46,
        ZipFileHeaderFixed::decode(cd).spec_variable_length() <= buffer_len,
    ensures
        next_record_buffered(cd, buffer_len) == next_record(cd),
{
}

/// Behind the record of the last entry the central directory is at its
/// end: both iterators give `None`.
pub proof fn lemma_directory_ends(records: Seq<EntryRecord>, buffer_len: int)
    ensures
        ({
            let directory = central_directory_bytes(records);
            let here = directory.subrange(directory.len() as int, directory.len() as int);
            &&& next_record(here) == Ok::<Option<(ZipFileHeaderFixed, int)>, ErrorKind>(None)
            &&& next_record_buffered(here, buffer_len) == next_record(here)
        }),
{
}

/// Through a reader that serves the image of an archive, with a buffer
/// of 56 bytes or more, the locator finds what it finds in the slice, and an
/// empty comment.
proof fn lemma_located_through_reader(
    before: Seq<u8>,
    start: u64,
    records: Seq<EntryRecord>,
    data: Seq<Seq<u8>>,
    max_search_space: int,
    buffer_len: int,
)
    requires
        is_read_back(before, start, records, data),
        max_search_space >= 22,
        buffer_len >= 56,
    ensures
        ({
            let image = archive_image(before, start, records, data);
            &&& locate_in_slice_spec(image, max_search_space) matches Ok(located)
            &&& located.spec_base_offset() == before.len() - start
            &&& locate_in_reader_spec(image, buffer_len, max_search_space, image.len() as int)
                == Ok::<_, ErrorKind>((located, Seq::<u8>::empty()))
        }),
{
    let entries = entries_bytes(records, data);
    let offset = (start + entries.len()) as u64;
    let image = archive_image(before, start, records, data);
    lemma_archive_is_located(before + entries, records, offset, max_search_space);
    lemma_image_layout(before + entries, records, offset);
    lemma_reader_locates_as_slice(image, max_search_space, buffer_len);
    assert(image.subrange(image.len() as int, image.len() as int) =~= Seq::<u8>::empty());
}

/// Behind a reader that serves the image of an archive, the data of an
/// entry lies where it lies in the slice, and is checked against the
/// checksum and the size of the entry.
proof fn lemma_entry_through_reader(
    before: Seq<u8>,
    start: u64,
    records: Seq<EntryRecord>,
    data: Seq<Seq<u8>>,
    i: int,
)
    requires
        are_writable(records),
        is_laid_out(start, records, data),
        0 <= i < records.len(),
        start <= before.len(),
        archive_image(before, start, records, data).len() <= u64::MAX,
    ensures
        ({
            let image = archive_image(before, start, records, data);
            let e = records[i];
            let way = wayfinder_of(e, before.len() - start);
            let from = e.local_header_offset + (before.len() - start) + 30 + e.name.len()
                + extended_timestamp_bytes(e.modified).len();
            &&& ZipArchive::<Vec<u8>>::entry_spec(image, way) == Ok::<_, ErrorKind>(
                (from, from + data[i].len()),
            )
            &&& in_bounds(image, from, data[i].len() as int)
            &&& window(image, from, data[i].len() as int) == data[i]
            &&& expected_of(image, way, (from + data[i].len()) as u64) == Ok::<_, ErrorKind>(
                ZipVerification { crc: e.crc, uncompressed_size: e.uncompressed_size },
            )
        }),
{
    let image = archive_image(before, start, records, data);
    let way = wayfinder_of(records[i], before.len() - start);
    lemma_entry_of_written(before, start, records, data, i);
    lemma_compressed_data_range(image, way);
    lemma_expected_of_got(image, way);
}

/// What was written is what is read through a reader, too. Through a
/// reader that serves the image of an archive, with a buffer of 56 bytes or
/// more that holds the name and the extra field of the entry:
///
/// - the locator finds what it finds in the slice, and an empty comment;
/// - the iterator gets the record of the entry as the iterator over the
///   slice does;
/// - the entry's data lies in the same range, which holds the data as it
///   was written;
/// - the data is to be checked against the checksum and the size of the
///   entry.
pub proof fn lemma_read_through_reader(
    before: Seq<u8>,
    start: u64,
    records: Seq<EntryRecord>,
    data: Seq<Seq<u8>>,
    i: int,
    max_search_space: int,
    buffer_len: int,
)
    requires
        is_read_back(before, start, records, data),
        0 <= i < records.len(),
        max_search_space >= 22,
        buffer_len >= 56,
        buffer_len >= records[i].name.len() + records[i].extra().len(),
    ensures
        ({
            let image = archive_image(before, start, records, data);
            let e = records[i];
            let located = locate_in_slice_spec(image, max_search_space)->Ok_0;
            let directory = central_directory_bytes(records);
            let at = central_directory_bytes(records.subrange(0, i)).len() as int;
            let here = directory.subrange(at, directory.len() as int);
            let way = wayfinder_of(e, located.spec_base_offset());
            let from = e.local_header_offset + located.spec_base_offset() + 30 + e.name.len()
                + extended_timestamp_bytes(e.modified).len();
            &&& locate_in_reader_spec(image, buffer_len, max_search_space, image.len() as int)
                == Ok::<_, ErrorKind>((located, Seq::<u8>::empty()))
            &&& next_record_buffered(here, buffer_len) == Ok::<_, ErrorKind>(
                Some((central_header_of(e), 46 + e.name.len() as int + e.extra().len())),
            )
            &&& ZipArchive::<Vec<u8>>::entry_spec(image, way) == Ok::<_, ErrorKind>(
                (from, from + data[i].len()),
            )
            &&& in_bounds(image, from, data[i].len() as int)
            &&& window(image, from, data[i].len() as int) == data[i]
            &&& expected_of(image, way, (from + data[i].len()) as u64) == Ok::<_, ErrorKind>(
                ZipVerification { crc: e.crc, uncompressed_size: e.uncompressed_size },
            )
        }),
{
    lemma_located_through_reader(before, start, records, data, max_search_space, buffer_len);
    let directory = central_directory_bytes(records);
    let at = central_directory_bytes(records.subrange(0, i)).len() as int;
    lemma_directory_is_read_back(records, i, Seq::empty());
    assert(directory + Seq::<u8>::empty() =~= directory);
    lemma_buffered_as_slice(directory.subrange(at, directory.len() as int), buffer_len);
    lemma_entry_through_reader(before, start, records, data, i);
}

/// What the data of an entry that is got from a slice is checked against
/// is what it is checked against behind a reader that serves the slice.
proof fn lemma_expected_of_got(image: Seq<u8>, way: ZipArchiveEntryWayfinder)
    requires
        image.len() <= u64::MAX,
        ZipSliceArchive::entry_spec(image, way) is Ok,
    ensures
        ({
            let (_, end, expected) = ZipSliceArchive::entry_spec(image, way)->Ok_0;
            expected_of(image, way, end as u64) == Ok::<_, ErrorKind>(expected)
        }),
{
    let (_, end, _) = ZipSliceArchive::entry_spec(image, way)->Ok_0;
    let len = image.len() as int;
    if way.has_data_descriptor {
        let rest = image.subrange(end, len);
        let eight = image.subrange(end, end + 8);
        assert(eight =~= rest.subrange(0, 8));
        assert(le_u32_at(eight, 0) == le_u32_at(rest, 0));
        assert(le_u32_at(eight, 4) == le_u32_at(rest, 4));
    }
}

/// The pieces joined, one behind the other.
pub open spec fn joined(pieces: Seq<Seq<u8>>) -> Seq<u8>
    decreases pieces.len(),
{
    if pieces.len() == 0 {
        Seq::empty()
    } else {
        joined(pieces.drop_last()) + pieces.last()
    }
}

/// Whether `pieces` are what reads deliver that start at `from` and go on
/// each where the one before it ended.
pub open spec fn are_successive_reads(contents: Seq<u8>, from: int, pieces: Seq<Seq<u8>>) -> bool {
    forall|k: int|
        0 <= k < pieces.len() ==> {
            let at = from + joined(pieces.subrange(0, k)).len();
            in_bounds(contents, at, (#[trigger] pieces[k]).len() as int) && pieces[k] == window(
                contents,
                at,
                pieces[k].len() as int,
            )
        }
}

/// What successive reads deliver, joined, is what the reader holds from
/// where the first read started: nothing is left out, added or altered.
pub proof fn lemma_reads_join(contents: Seq<u8>, from: int, pieces: Seq<Seq<u8>>)
    requires
        0 <= from <= contents.len(),
        are_successive_reads(contents, from, pieces),
    ensures
        in_bounds(contents, from, joined(pieces).len() as int),
        joined(pieces) == window(contents, from, joined(pieces).len() as int),
    decreases pieces.len(),
{
    if pieces.len() > 0 {
        let front = pieces.drop_last();
        let k = pieces.len() - 1;
        assert(pieces.subrange(0, k) =~= front);
        assert forall|j: int| 0 <= j < front.len() implies {
            let at = from + joined(front.subrange(0, j)).len();
            in_bounds(contents, at, (#[trigger] front[j]).len() as int) && front[j] == window(
                contents,
                at,
                front[j].len() as int,
            )
        } by {
            assert(front.subrange(0, j) =~= pieces.subrange(0, j));
            assert(front[j] == pieces[j]);
        }
        lemma_reads_join(contents, from, front);
        let last = pieces[k];
        let n = joined(front).len() as int;
        if last.len() > 0 && n > 0 {
            assert(joined(pieces) =~= contents.subrange(from, from + n + last.len()));
        } else if last.len() > 0 {
            assert(joined(pieces) =~= contents.subrange(from, from + last.len()));
        } else {
            assert(joined(pieces) =~= joined(front));
        }
    }
}

/// Reads that start where the data of an entry starts and deliver as many
/// bytes as the entry has deliver the data of the entry.
pub proof fn lemma_reads_give_written(
    contents: Seq<u8>,
    from: int,
    written: Seq<u8>,
    pieces: Seq<Seq<u8>>,
)
    requires
        0 <= from <= contents.len(),
        in_bounds(contents, from, written.len() as int),
        window(contents, from, written.len() as int) == written,
        are_successive_reads(contents, from, pieces),
        joined(pieces).len() == written.len(),
    ensures
        joined(pieces) == written,
{
    lemma_reads_join(contents, from, pieces);
}

/// However data is cut into pieces, a verifier that expects its size and
/// its checksum accepts each piece of it: the pieces before the end as long
/// as they are not empty, and at the end any piece, the empty one too.
pub proof fn lemma_pieces_pass(data: Seq<u8>, seen: Seq<u8>, piece: Seq<u8>)
    requires
        data.len() <= u64::MAX,
        is_prefix(seen + piece, data),
        piece.len() > 0 || seen.len() == data.len(),
    ensures
        verdict(
            ZipVerification { crc: crc32_spec(data), uncompressed_size: data.len() as u64 },
            seen + piece,
            piece,
        ) is Ok,
{
    let now = seen + piece;
    if now.len() == data.len() {
        assert(now =~= data.subrange(0, now.len() as int));
        assert(data.subrange(0, data.len() as int) =~= data);
    }
}

/// Two archives, one behind the other, each behind a prefix of its own
/// and each written from offset 0. The search that ends at the end of the
/// image finds the second archive, which starts behind the first archive
/// and the second prefix. The search that ends where the second archive
/// starts finds the first archive, which starts behind the first prefix.
/// Each search gives the central directory of its archive.
///
/// This holds where the second prefix holds no end of central directory
/// signature and the search reaches back over it.
pub proof fn lemma_concatenated_archives(
    first_prefix: Seq<u8>,
    first_records: Seq<EntryRecord>,
    first_data: Seq<Seq<u8>>,
    second_prefix: Seq<u8>,
    second_records: Seq<EntryRecord>,
    second_data: Seq<Seq<u8>>,
    max_search_space: int,
    buffer_len: int,
)
    requires
        is_read_back(first_prefix, 0, first_records, first_data),
        is_read_back(
            archive_image(first_prefix, 0, first_records, first_data) + second_prefix,
            0,
            second_records,
            second_data,
        ),
        holds_no_signature(second_prefix),
        max_search_space >= 22 + second_prefix.len(),
        buffer_len >= 56,
    ensures
        ({
            let first = archive_image(first_prefix, 0, first_records, first_data);
            let image = archive_image(first + second_prefix, 0, second_records, second_data);
            let end = (first.len() + second_prefix.len()) as int;
            &&& locate_in_reader_spec(image, buffer_len, max_search_space, image.len() as int)
                matches Ok((second, _)) && second.spec_base_offset() == end
                && second.spec_entries() == second_records.len() && image.subrange(
                second.spec_offset(),
                second.stream_pos as int,
            ) == central_directory_bytes(second_records)
            &&& locate_in_reader_spec(image, buffer_len, max_search_space, end) matches Ok(
                (found, _),
            ) && found.spec_base_offset() == first_prefix.len() && found.spec_entries()
                == first_records.len() && found.record_pos + 22 == first.len() && image.subrange(
                found.spec_offset(),
                found.stream_pos as int,
            ) == central_directory_bytes(first_records)
        }),
{
    let first = archive_image(first_prefix, 0, first_records, first_data);
    let image = archive_image(first + second_prefix, 0, second_records, second_data);
    let end = first.len() + second_prefix.len();
    lemma_last_is_located(
        first + second_prefix,
        second_records,
        second_data,
        max_search_space,
        buffer_len,
    );
    assert(is_prefix(first + second_prefix, image)) by {
        assert(image.subrange(0, (first + second_prefix).len() as int) =~= first + second_prefix);
    }
    let first_entries = entries_bytes(first_records, first_data);
    lemma_first_is_located(
        image,
        first_prefix + first_entries,
        first_records,
        first_entries.len() as u64,
        second_prefix,
        max_search_space,
        buffer_len,
    );
}

/// The search that ends at the end of an image finds the archive that the
/// image ends with.
proof fn lemma_last_is_located(
    before: Seq<u8>,
    records: Seq<EntryRecord>,
    data: Seq<Seq<u8>>,
    max_search_space: int,
    buffer_len: int,
)
    requires
        is_read_back(before, 0, records, data),
        max_search_space >= 22,
        buffer_len >= 56,
    ensures
        ({
            let image = archive_image(before, 0, records, data);
            &&& locate_in_reader_spec(image, buffer_len, max_search_space, image.len() as int)
                matches Ok((found, _)) && found.spec_base_offset() == before.len()
                && found.spec_entries() == records.len() && image.subrange(
                found.spec_offset(),
                found.stream_pos as int,
            ) == central_directory_bytes(records)
        }),
{
    let entries = entries_bytes(records, data);
    lemma_located_through_reader(before, 0, records, data, max_search_space, buffer_len);
    lemma_archive_is_located(before + entries, records, entries.len() as u64, max_search_space);
}

/// In an image that starts with an archive and goes on without a
/// signature for a while, the search that ends there finds the archive.
proof fn lemma_first_is_located(
    image: Seq<u8>,
    before: Seq<u8>,
    entries: Seq<EntryRecord>,
    offset: u64,
    after: Seq<u8>,
    max_search_space: int,
    buffer_len: int,
)
    requires
        max_search_space >= 22 + after.len(),
        buffer_len >= 56,
        holds_no_signature(after),
        image.len() <= u64::MAX,
        is_prefix(before + archive_end_bytes(entries, offset) + after, image),
        offset + central_directory_bytes(entries).len() <= u64::MAX,
        eocd_is_unambiguous(
            entries.len() as int,
            central_directory_bytes(entries).len() as u64,
            offset,
        ),
        if archive_needs_zip64(entries, offset) {
            (entries.len() >= 0xFFFF || offset >= 0xFFFF_FFFF) && offset == before.len()
        } else {
            central_directory_bytes(entries).len() < 0xFFFF_FFFF && offset <= before.len()
        },
    ensures
        ({
            let first = before + archive_end_bytes(entries, offset);
            let end = (first.len() + after.len()) as int;
            &&& locate_in_reader_spec(image, buffer_len, max_search_space, end) matches Ok(
                (found, _),
            ) && found.spec_base_offset() == before.len() - offset && found.spec_entries()
                == entries.len() && found.record_pos + 22 == first.len() && image.subrange(
                found.spec_offset(),
                found.stream_pos as int,
            ) == central_directory_bytes(entries)
        }),
{
    let first = before + archive_end_bytes(entries, offset);
    let searched = first + after;
    let end = searched.len() as int;
    assert(prefix(image, end) == searched);
    lemma_image_layout(before, entries, offset);
    lemma_archive_is_located_before(before, entries, offset, after, max_search_space);
    let found = locate_in_slice_spec(searched, max_search_space)->Ok_0;
    assert(found.zip64 is Some ==> found.record_pos >= 20);
    lemma_reader_locates_before(image, end, max_search_space, buffer_len);
    assert(image.subrange(found.spec_offset(), found.stream_pos as int) =~= searched.subrange(
        found.spec_offset(),
        found.stream_pos as int,
    ));
}

} // verus!
