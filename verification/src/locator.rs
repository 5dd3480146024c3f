//! Finding the end of central directory record.

use crate::archive::{
    comment_of,
    EndOfCentralDirectory,
    Zip64EndOfCentralDirectoryRecord,
    ZipArchive,
    ZipSliceArchive,
    ZipString,
};
use crate::errors::{error_of, outcome, Error, ErrorKind};
use crate::reader_at::{
    move_within,
    read_at_least_at,
    read_exact_at,
    window,
    ReaderAt,
};
use crate::utils::{le_u16_at, le_u32_at, le_u64_at, read_u16, read_u32, read_u64};
use vstd::prelude::*;

verus! {

/// The signature of the end of central directory record.
pub const END_OF_CENTRAL_DIR_SIGNATURE: u32 = 0x06054b50;

/// The signature of the zip64 end of central directory record.
pub const END_OF_CENTRAL_DIR_SIGNATURE64: u32 = 0x06064b50;

/// The signature of the zip64 end of central directory locator.
pub const END_OF_CENTRAL_DIR_LOCATOR_SIGNATURE: u32 = 0x07064b50;

/// How far from the end the record is looked for, unless told otherwise.
pub const END_OF_CENTRAL_DIR_MAX_OFFSET: u64 = 0x10_0000;

/// The four bytes `P K 05 06` that start an end of central directory record.
pub open spec fn eocd_signature_bytes() -> Seq<u8> {
    seq![0x50u8, 0x4bu8, 0x05u8, 0x06u8]
}

/// Whether `needle` stands in `haystack` at index `i`.
pub open spec fn occurs_at(haystack: Seq<u8>, needle: Seq<u8>, i: int) -> bool {
    0 <= i && i + needle.len() <= haystack.len() && haystack.subrange(i, i + needle.len())
        == needle
}

/// Whether `found` is the answer to the question where `needle` stands last
/// in `haystack` at or after `from`: the greatest such index, or `None` where
/// there is no such index.
pub open spec fn is_last_occurrence(
    haystack: Seq<u8>,
    needle: Seq<u8>,
    from: int,
    found: Option<int>,
) -> bool {
    match found {
        Some(i) => from <= i && occurs_at(haystack, needle, i) && forall|j: int|
            i < j ==> !occurs_at(haystack, needle, j),
        None => forall|j: int| from <= j ==> !occurs_at(haystack, needle, j),
    }
}

/// The question has one answer.
pub proof fn lemma_last_occurrence_unique(
    haystack: Seq<u8>,
    needle: Seq<u8>,
    from: int,
    a: Option<int>,
    b: Option<int>,
)
    requires
        is_last_occurrence(haystack, needle, from, a),
        is_last_occurrence(haystack, needle, from, b),
    ensures
        a == b,
{
}

/// The greatest index in `from..=upto` at which `needle` stands in
/// `haystack`.
pub open spec fn last_occurrence_upto(
    haystack: Seq<u8>,
    needle: Seq<u8>,
    from: int,
    upto: int,
) -> Option<int>
    decreases upto - from + 1,
{
    if upto < from {
        None
    } else if occurs_at(haystack, needle, upto) {
        Some(upto)
    } else {
        last_occurrence_upto(haystack, needle, from, upto - 1)
    }
}

/// The greatest index at or after `from` at which `needle` stands in
/// `haystack`.
pub open spec fn last_occurrence(haystack: Seq<u8>, needle: Seq<u8>, from: int) -> Option<int> {
    last_occurrence_upto(haystack, needle, from, haystack.len() - needle.len())
}

proof fn lemma_last_occurrence_upto(haystack: Seq<u8>, needle: Seq<u8>, from: int, upto: int)
    ensures
        match last_occurrence_upto(haystack, needle, from, upto) {
            Some(i) => from <= i <= upto && occurs_at(haystack, needle, i) && forall|j: int|
                i < j <= upto ==> !occurs_at(haystack, needle, j),
            None => forall|j: int| from <= j <= upto ==> !occurs_at(haystack, needle, j),
        },
    decreases upto - from + 1,
{
    if upto >= from && !occurs_at(haystack, needle, upto) {
        lemma_last_occurrence_upto(haystack, needle, from, upto - 1);
    }
}

/// `last_occurrence` is the one answer to the question that
/// `is_last_occurrence` asks.
pub proof fn lemma_last_occurrence(
    haystack: Seq<u8>,
    needle: Seq<u8>,
    from: int,
    found: Option<int>,
)
    ensures
        is_last_occurrence(haystack, needle, from, found) <==> found == last_occurrence(
            haystack,
            needle,
            from,
        ),
{
    lemma_last_occurrence_upto(haystack, needle, from, haystack.len() - needle.len());
    let last = last_occurrence(haystack, needle, from);
    assert(is_last_occurrence(haystack, needle, from, last));
}

/// Where the end of central directory signature stands last in the final
/// `max_search_space` bytes of `data`.
pub open spec fn eocd_position(data: Seq<u8>, max_search_space: int) -> Option<int> {
    last_occurrence(
        data,
        eocd_signature_bytes(),
        search_floor(data.len() as int, max_search_space),
    )
}

/// Where a reader-backed search that ends at `end_offset` finds the end
/// of central directory signature.
pub open spec fn eocd_position_before(
    contents: Seq<u8>,
    max_search_space: int,
    end_offset: int,
) -> Option<int> {
    last_occurrence(
        prefix(contents, end_offset),
        eocd_signature_bytes(),
        search_floor(end_offset, max_search_space),
    )
}

/// Whatever the bytes and the bound: a search through a reader that
/// serves `data` and ends at its end finds the signature where the search
/// in the slice `data` finds it, and finds none where that one finds none.
pub proof fn lemma_locators_agree(data: Seq<u8>, max_search_space: int)
    ensures
        eocd_position_before(data, max_search_space, data.len() as int) == eocd_position(
            data,
            max_search_space,
        ),
{
    assert(prefix(data, data.len() as int) =~= data);
}

/// Where the signature stands last in the final `max_search_space` bytes of
/// `data`.
pub open spec fn is_eocd_position(data: Seq<u8>, max_search_space: int, found: Option<int>) -> bool {
    is_last_occurrence(
        data,
        eocd_signature_bytes(),
        search_floor(data.len() as int, max_search_space),
        found,
    )
}

/// The lowest index at which a search that ends at `end` may find anything.
pub open spec fn search_floor(end: int, max_search_space: int) -> int {
    if max_search_space >= end {
        0
    } else {
        end - max_search_space
    }
}

/// Whether `haystack` holds `needle` at `i`, byte by byte.
fn matches_at(haystack: &[u8], needle: &[u8], i: usize) -> (b: bool)
    requires
        i + needle@.len() <= haystack@.len(),
    ensures
        b == occurs_at(haystack@, needle@, i as int),
{
    let n = needle.len();
    let _h: usize = haystack.len();
    let mut k: usize = 0;
    while k < n
        invariant
            k <= n,
            n == needle@.len(),
            i + n <= haystack@.len(),
            haystack@.len() <= usize::MAX,
            forall|j: int| 0 <= j < k ==> haystack@[i + j] == needle@[j],
        decreases n - k,
    {
        if haystack[i + k] != needle[k] {
            assert(haystack@.subrange(i as int, i + n)[k as int] != needle@[k as int]);
            return false;
        }
        k += 1;
    }
    assert(haystack@.subrange(i as int, i + n) =~= needle@);
    true
}

/// The last index at which `needle` stands in `haystack`.
pub fn backwards_find(haystack: &[u8], needle: &[u8]) -> (r: Option<usize>)
    requires
        needle@.len() > 0,
    ensures
        is_last_occurrence(
            haystack@,
            needle@,
            0,
            match r {
                Some(i) => Some(i as int),
                None => None,
            },
        ),
{
    let n = needle.len();
    if haystack.len() < n {
        return None;
    }
    let mut i: usize = haystack.len() - n + 1;
    while i > 0
        invariant
            n == needle@.len(),
            n > 0,
            n <= haystack@.len(),
            i <= haystack@.len() - n + 1,
            forall|j: int| i <= j ==> !occurs_at(haystack@, needle@, j),
        decreases i,
    {
        i -= 1;
        if matches_at(haystack, needle, i) {
            return Some(i);
        }
    }
    None
}

/// The position of the last end of central directory signature in the
/// final `max_search_space` bytes of `data`.
pub fn find_end_of_central_dir_signature(data: &[u8], max_search_space: usize) -> (r: Option<
    usize,
>)
    ensures
        is_eocd_position(
            data@,
            max_search_space as int,
            match r {
                Some(i) => Some(i as int),
                None => None,
            },
        ),
{
    let start_search = if max_search_space >= data.len() {
        0
    } else {
        data.len() - max_search_space
    };
    let signature: [u8; 4] = [0x50, 0x4b, 0x05, 0x06];
    assert(signature@ =~= eocd_signature_bytes());
    let tail = &data[start_search..data.len()];
    let found = backwards_find(tail, signature.as_slice());
    proof {
        let sig = eocd_signature_bytes();
        assert forall|j: int| #![auto] start_search <= j implies occurs_at(data@, sig, j)
            == occurs_at(tail@, sig, j - start_search) by {
            if start_search <= j && j + 4 <= data@.len() {
                assert(tail@.subrange(j - start_search, j - start_search + 4) =~= data@.subrange(
                    j,
                    j + 4,
                ));
            }
        }
        match found {
            Some(i) => {
                assert(occurs_at(tail@, sig, i as int));
                assert(occurs_at(data@, sig, i + start_search));
                assert forall|j: int| i + start_search < j implies !occurs_at(data@, sig, j) by {
                    assert(!occurs_at(tail@, sig, j - start_search));
                }
            },
            None => {
                assert forall|j: int| start_search <= j implies !occurs_at(data@, sig, j) by {
                    assert(!occurs_at(tail@, sig, j - start_search));
                }
            },
        }
    }
    match found {
        Some(pos) => Some(pos + start_search),
        None => None,
    }
}

/// The part of `contents` that a search which ends at `end` looks at.
pub open spec fn prefix(contents: Seq<u8>, end: int) -> Seq<u8> {
    if 0 <= end <= contents.len() {
        contents.subrange(0, end)
    } else {
        contents
    }
}

/// The position in the stream of what a search returned.
pub open spec fn found_position(found: Option<(u64, usize, usize)>) -> Option<int> {
    match found {
        Some((pos, _, _)) => Some(pos as int),
        None => None,
    }
}

/// How many bytes the next read asks for: what the buffer has room for
/// beside the bytes carried over, or all that remains.
pub open spec fn next_read(buf_len: int, carry: int, remaining: int) -> int {
    if buf_len - carry <= remaining {
        buf_len - carry
    } else {
        remaining
    }
}

/// How many bytes at the front of a window are the end of the signature:
/// the greatest of 3, 2, 1 that fits, or 0.
pub open spec fn carry_of(b0: u8, b1: u8, b2: u8) -> int {
    if b0 == 0x4b && b1 == 0x05 && b2 == 0x06 {
        3
    } else if b0 == 0x05 && b1 == 0x06 {
        2
    } else if b0 == 0x06 {
        1
    } else {
        0
    }
}

/// No signature in `looked` ends after `bound`.
#[verifier::opaque]
pub closed spec fn none_ends_after(looked: Seq<u8>, bound: int) -> bool {
    forall|j: int| j + 4 > bound ==> !occurs_at(looked, eocd_signature_bytes(), j)
}

/// No signature in `looked` starts at or after `from`.
#[verifier::opaque]
pub closed spec fn none_starts_from(looked: Seq<u8>, from: int) -> bool {
    forall|j: int| from <= j ==> !occurs_at(looked, eocd_signature_bytes(), j)
}

proof fn lemma_none_ends_after_end(looked: Seq<u8>, bound: int)
    requires
        looked.len() <= bound,
    ensures
        none_ends_after(looked, bound),
{
    reveal(none_ends_after);
}

/// A window of the searched bytes holds the signature where they do.
proof fn lemma_window_occurrences(looked: Seq<u8>, haystack: Seq<u8>, offset: int)
    requires
        0 <= offset,
        offset + haystack.len() <= looked.len(),
        haystack == looked.subrange(offset, offset + haystack.len()),
    ensures
        forall|j: int|
            offset <= j && j + 4 <= offset + haystack.len() ==> (#[trigger] occurs_at(
                looked,
                eocd_signature_bytes(),
                j,
            ) <==> occurs_at(haystack, eocd_signature_bytes(), j - offset)),
{
    let sig = eocd_signature_bytes();
    assert forall|j: int| offset <= j && j + 4 <= offset + haystack.len() implies (
    #[trigger] occurs_at(looked, sig, j) <==> occurs_at(haystack, sig, j - offset)) by {
        assert(haystack.subrange(j - offset, j - offset + 4) =~= looked.subrange(j, j + 4));
    }
}

/// The last signature of the window is the last of all, where none ends
/// after the window.
proof fn lemma_found_in_window(
    looked: Seq<u8>,
    haystack: Seq<u8>,
    offset: int,
    floor: int,
    i: int,
)
    requires
        0 <= floor <= offset,
        offset + haystack.len() <= looked.len(),
        haystack == looked.subrange(offset, offset + haystack.len()),
        none_ends_after(looked, offset + haystack.len()),
        is_last_occurrence(haystack, eocd_signature_bytes(), 0, Some(i)),
    ensures
        is_last_occurrence(looked, eocd_signature_bytes(), floor, Some(offset + i)),
{
    reveal(none_ends_after);
    let sig = eocd_signature_bytes();
    lemma_window_occurrences(looked, haystack, offset);
    assert(occurs_at(haystack, sig, offset + i - offset));
    assert(occurs_at(looked, sig, offset + i));
    assert forall|j: int| offset + i < j implies !occurs_at(looked, sig, j) by {
        if j + 4 <= offset + haystack.len() {
            assert(!occurs_at(haystack, sig, j - offset));
        }
    }
}

/// Where the window holds no signature and none ends after it, none
/// starts at or after its start.
proof fn lemma_none_in_window(looked: Seq<u8>, haystack: Seq<u8>, offset: int)
    requires
        0 <= offset,
        haystack.len() > 0 ==> offset + haystack.len() <= looked.len() && haystack
            == looked.subrange(offset, offset + haystack.len()),
        none_ends_after(looked, offset + haystack.len()),
        is_last_occurrence(haystack, eocd_signature_bytes(), 0, None),
    ensures
        none_starts_from(looked, offset),
        is_last_occurrence(looked, eocd_signature_bytes(), offset, None),
{
    reveal(none_ends_after);
    reveal(none_starts_from);
    let sig = eocd_signature_bytes();
    if haystack.len() > 0 {
        lemma_window_occurrences(looked, haystack, offset);
    }
    assert forall|j: int| offset <= j implies !occurs_at(looked, sig, j) by {
        if j + 4 <= offset + haystack.len() {
            assert(!occurs_at(haystack, sig, j - offset));
        }
    }
}

/// A signature that starts before `offset` and ends after it ends within
/// the bytes carried over.
proof fn lemma_carry_covers(looked: Seq<u8>, offset: int, carry: int)
    requires
        0 <= offset,
        offset + 3 <= looked.len(),
        carry == carry_of(looked[offset], looked[offset + 1], looked[offset + 2]),
        none_starts_from(looked, offset),
    ensures
        none_ends_after(looked, offset + carry),
{
    reveal(none_ends_after);
    reveal(none_starts_from);
    let sig = eocd_signature_bytes();
    assert forall|j: int| j + 4 > offset + carry implies !occurs_at(looked, sig, j) by {
        if j < offset && occurs_at(looked, sig, j) {
            let w = looked.subrange(j, j + 4);
            assert(w == sig);
            assert(w[0] == looked[j] && w[1] == looked[j + 1] && w[2] == looked[j + 2] && w[3]
                == looked[j + 3]);
            assert(false);
        }
    }
}

/// What the buffer holds after a read in front of the bytes carried over.
proof fn lemma_window_filled(
    whole: Seq<u8>,
    head: Seq<u8>,
    tail: Seq<u8>,
    offset: int,
    carry: int,
)
    requires
        0 <= offset,
        0 <= carry <= tail.len(),
        head.len() + carry > 0,
        offset + head.len() + carry <= whole.len(),
        head.len() > 0 ==> head == whole.subrange(offset, offset + head.len()),
        carry > 0 ==> tail.subrange(0, carry) == whole.subrange(
            offset + head.len(),
            offset + head.len() + carry,
        ),
    ensures
        (head + tail).subrange(0, head.len() + carry) == whole.subrange(
            offset,
            offset + head.len() + carry,
        ),
{
    let valid = head.len() + carry;
    let got = (head + tail).subrange(0, valid as int);
    assert forall|k: int| 0 <= k < valid implies #[trigger] got[k] == whole[offset + k] by {
        if k < head.len() {
            assert(got[k] == head[k]);
        } else {
            assert(got[k] == tail.subrange(0, carry)[k - head.len()]);
        }
    }
    assert(got =~= whole.subrange(offset, offset + valid));
}

/// Searches backwards from `end_offset` for the last end of central
/// directory signature, over at most `max_search_space` bytes, reading
/// through `buffer`.
///
/// Returns the position of the signature in the stream, its index in
/// `buffer`, and how many bytes at the front of `buffer` hold what the
/// reader has from the start of that window on. A signature that lies
/// across two reads is found like any other: the bytes that may start one
/// are carried over to the next window.
///
/// A buffer of fewer than four bytes finds nothing.
#[verifier::rlimit(50)]
pub fn find_end_of_central_dir<R: ReaderAt>(
    reader: &R,
    buffer: &mut [u8],
    max_search_space: u64,
    end_offset: u64,
) -> (r: Result<Option<(u64, usize, usize)>, Error>)
    ensures
        final(buffer)@.len() == old(buffer)@.len(),
        old(buffer)@.len() < 4 ==> r matches Ok(None),
        old(buffer)@.len() >= 4 ==> match r {
            Ok(found) => {
                let floor = search_floor(end_offset as int, max_search_space as int);
                &&& end_offset <= reader.contents().len() || end_offset == floor
                &&& is_last_occurrence(
                    prefix(reader.contents(), end_offset as int),
                    eocd_signature_bytes(),
                    floor,
                    found_position(found),
                )
                &&& found matches Some((pos, index, valid)) ==> {
                    &&& reader.contents().len() <= u64::MAX
                    &&& index + 4 <= valid <= old(buffer)@.len()
                    &&& index <= pos
                    &&& pos - index + valid <= reader.contents().len()
                    &&& final(buffer)@.subrange(0, valid as int) == reader.contents().subrange(
                        pos - index,
                        pos - index + valid,
                    )
                }
            },
            Err(e) => {
                &&& e@ is Eof || e@ is IO
                &&& search_floor(end_offset as int, max_search_space as int) < end_offset
                &&& e@ is Eof ==> end_offset > reader.contents().len()
                &&& e@ is IO ==> !reader.never_fails()
            },
        },
{
    let buf_len = buffer.len();
    if buf_len < 4 {
        return Ok(None);
    }
    let max_back: u64 = if max_search_space >= end_offset {
        0
    } else {
        end_offset - max_search_space
    };
    let mut offset: u64 = end_offset;
    let mut remaining: u64 = end_offset - max_back;
    let mut carry_over: usize = 0;
    let signature: [u8; 4] = [0x50, 0x4b, 0x05, 0x06];
    let ghost sig = eocd_signature_bytes();
    let ghost whole = reader.contents();
    let ghost looked = prefix(whole, end_offset as int);
    proof {
        assert(signature@ =~= sig);
        lemma_none_ends_after_end(looked, end_offset as int);
    }
    loop
        invariant
            buffer@.len() == buf_len,
            buf_len == old(buffer)@.len(),
            buf_len >= 4,
            signature@ == sig,
            sig == eocd_signature_bytes(),
            whole == reader.contents(),
            looked == prefix(whole, end_offset as int),
            max_back == search_floor(end_offset as int, max_search_space as int),
            carry_over <= 3,
            max_back <= offset <= end_offset,
            remaining == offset - max_back,
            remaining == 0 ==> carry_over == 0,
            offset < end_offset ==> end_offset <= whole.len(),
            offset + carry_over <= end_offset,
            carry_over > 0 ==> buffer@.subrange(
                next_read(buf_len as int, carry_over as int, remaining as int),
                next_read(buf_len as int, carry_over as int, remaining as int) + carry_over,
            ) == whole.subrange(offset as int, offset + carry_over),
            none_ends_after(looked, offset + carry_over),
        decreases remaining,
    {
        let room = buf_len - carry_over;
        let read_size: usize = if room as u64 <= remaining {
            room
        } else {
            remaining as usize
        };
        let ghost prev_offset = offset;
        let ghost prev = buffer@;
        offset -= read_size as u64;
        let (head, tail) = buffer.split_at_mut(read_size);
        read_exact_at(reader, head, offset)?;
        remaining -= read_size as u64;
        let valid = read_size + carry_over;
        let ghost haystack = buffer@.subrange(0, valid as int);
        proof {
            if valid > 0 {
                assert(tail@.subrange(0, carry_over as int) =~= prev.subrange(
                    read_size as int,
                    read_size + carry_over,
                ));
                lemma_window_filled(whole, head@, tail@, offset as int, carry_over as int);
                assert(looked.subrange(offset as int, offset + valid) =~= whole.subrange(
                    offset as int,
                    offset + valid,
                ));
            }
        }
        let found = backwards_find(&buffer[0..valid], signature.as_slice());
        if let Some(i) = found {
            let stream_pos = max_back + remaining + i as u64;
            proof {
                lemma_found_in_window(looked, haystack, offset as int, max_back as int, i as int);
            }
            return Ok(Some((stream_pos, i, valid)));
        }
        proof {
            lemma_none_in_window(looked, haystack, offset as int);
        }
        if remaining == 0 {
            return Ok(None);
        }
        let b0 = buffer[0];
        let b1 = buffer[1];
        let b2 = buffer[2];
        proof {
            assert(haystack[0] == looked[offset + 0]);
            assert(haystack[1] == looked[offset + 1]);
            assert(haystack[2] == looked[offset + 2]);
        }
        carry_over =
        if b0 == 0x4b && b1 == 0x05 && b2 == 0x06 {
            3
        } else if b0 == 0x05 && b1 == 0x06 {
            2
        } else if b0 == 0x06 {
            1
        } else {
            0
        };
        proof {
            lemma_carry_covers(looked, offset as int, carry_over as int);
        }
        if carry_over > 0 {
            let ghost searched = buffer@;
            let dest: usize = if (buf_len - carry_over) as u64 <= remaining {
                buf_len - carry_over
            } else {
                remaining as usize
            };
            move_within(buffer, 0, carry_over, dest);
            proof {
                let moved = buffer@.subrange(dest as int, dest + carry_over);
                assert forall|k: int| 0 <= k < carry_over implies #[trigger] moved[k]
                    == whole[offset + k] by {
                    assert(buffer@[dest + k] == searched[dest + k - dest + 0]);
                    assert(searched[k] == haystack[k]);
                    assert(haystack[k] == looked[offset + k]);
                }
                assert(moved =~= whole.subrange(offset as int, offset + carry_over));
            }
        }
    }
}

/// The fixed part of the end of central directory record.
#[derive(Debug, Clone, Copy, PartialEq, Eq, Structural)]
pub struct EndOfCentralDirectoryRecordFixed {
    pub signature: u32,
    pub disk_number: u16,
    pub eocd_disk: u16,
    pub num_entries: u16,
    pub total_entries: u16,
    pub central_dir_size: u32,
    pub central_dir_offset: u32,
    pub comment_len: u16,
}

impl EndOfCentralDirectoryRecordFixed {
    /// The length of the record without its comment.
    pub const SIZE: usize = 22;

    /// The record that the first 22 bytes of `data` encode.
    pub open spec fn decode(data: Seq<u8>) -> Self {
        EndOfCentralDirectoryRecordFixed {
            signature: le_u32_at(data, 0) as u32,
            disk_number: le_u16_at(data, 4) as u16,
            eocd_disk: le_u16_at(data, 6) as u16,
            num_entries: le_u16_at(data, 8) as u16,
            total_entries: le_u16_at(data, 10) as u16,
            central_dir_size: le_u32_at(data, 12) as u32,
            central_dir_offset: le_u32_at(data, 16) as u32,
            comment_len: le_u16_at(data, 20) as u16,
        }
    }

    /// What parsing `data` gives: `Eof` where it is shorter than the record,
    /// `InvalidSignature` where it starts with other bytes than the
    /// signature, else the record.
    pub open spec fn parse_spec(data: Seq<u8>) -> Result<Self, ErrorKind> {
        if data.len() < 22 {
            Err(ErrorKind::Eof)
        } else if le_u32_at(data, 0) != END_OF_CENTRAL_DIR_SIGNATURE {
            Err(
                ErrorKind::InvalidSignature {
                    expected: END_OF_CENTRAL_DIR_SIGNATURE,
                    actual: le_u32_at(data, 0) as u32,
                },
            )
        } else {
            Ok(Self::decode(data))
        }
    }

    /// Parses the record at the start of `data`.
    pub fn parse(data: &[u8]) -> (r: Result<EndOfCentralDirectoryRecordFixed, Error>)
        ensures
            outcome(r) == Self::parse_spec(data@),
    {
        if data.len() < 22 {
            return Err(error_of(ErrorKind::Eof));
        }
        let result = EndOfCentralDirectoryRecordFixed {
            signature: read_u32(data, 0),
            disk_number: read_u16(data, 4),
            eocd_disk: read_u16(data, 6),
            num_entries: read_u16(data, 8),
            total_entries: read_u16(data, 10),
            central_dir_size: read_u32(data, 12),
            central_dir_offset: read_u32(data, 16),
            comment_len: read_u16(data, 20),
        };
        if result.signature != END_OF_CENTRAL_DIR_SIGNATURE {
            return Err(
                error_of(
                    ErrorKind::InvalidSignature {
                        expected: END_OF_CENTRAL_DIR_SIGNATURE,
                        actual: result.signature,
                    },
                ),
            );
        }
        Ok(result)
    }

    /// Whether the record sends the reader on to the zip64 records: its
    /// entry count or its directory offset holds the sentinel.
    pub open spec fn spec_is_zip64(&self) -> bool {
        self.num_entries == 0xFFFF || self.central_dir_offset == 0xFFFF_FFFF
    }

    /// Whether the record sends the reader on to the zip64 records.
    #[verifier::when_used_as_spec(spec_is_zip64)]
    pub fn is_zip64(&self) -> (b: bool)
        ensures
            b == self.spec_is_zip64(),
    {
        self.num_entries == u16::MAX || self.central_dir_offset == u32::MAX
    }
}

/// The zip64 end of central directory locator.
#[derive(Debug, Clone, Copy, PartialEq, Eq, Structural)]
pub struct Zip64EndOfCentralDirectoryLocatorRecord {
    /// zip64 end of central dir locator signature
    pub signature: u32,
    /// number of the disk with the start of the zip64 end of central directory
    pub eocd_disk: u32,
    /// relative offset of the zip64 end of central directory record
    pub directory_offset: u64,
    /// total number of disks
    pub total_disks: u32,
}

impl Zip64EndOfCentralDirectoryLocatorRecord {
    /// The length of the locator.
    pub const SIZE: usize = 20;

    /// The locator that the first 20 bytes of `data` encode.
    pub open spec fn decode(data: Seq<u8>) -> Self {
        Zip64EndOfCentralDirectoryLocatorRecord {
            signature: le_u32_at(data, 0) as u32,
            eocd_disk: le_u32_at(data, 4) as u32,
            directory_offset: le_u64_at(data, 8) as u64,
            total_disks: le_u32_at(data, 16) as u32,
        }
    }

    /// What parsing `data` gives: `Eof` where it is shorter than the
    /// locator, `InvalidSignature` where it starts with other bytes than the
    /// signature, else the locator.
    pub open spec fn parse_spec(data: Seq<u8>) -> Result<Self, ErrorKind> {
        if data.len() < 20 {
            Err(ErrorKind::Eof)
        } else if le_u32_at(data, 0) != END_OF_CENTRAL_DIR_LOCATOR_SIGNATURE {
            Err(
                ErrorKind::InvalidSignature {
                    expected: END_OF_CENTRAL_DIR_LOCATOR_SIGNATURE,
                    actual: le_u32_at(data, 0) as u32,
                },
            )
        } else {
            Ok(Self::decode(data))
        }
    }

    /// Parses the locator at the start of `data`.
    pub fn parse(data: &[u8]) -> (r: Result<Zip64EndOfCentralDirectoryLocatorRecord, Error>)
        ensures
            outcome(r) == Self::parse_spec(data@),
    {
        if data.len() < 20 {
            return Err(error_of(ErrorKind::Eof));
        }
        let result = Zip64EndOfCentralDirectoryLocatorRecord {
            signature: read_u32(data, 0),
            eocd_disk: read_u32(data, 4),
            directory_offset: read_u64(data, 8),
            total_disks: read_u32(data, 16),
        };
        if result.signature != END_OF_CENTRAL_DIR_LOCATOR_SIGNATURE {
            return Err(
                error_of(
                    ErrorKind::InvalidSignature {
                        expected: END_OF_CENTRAL_DIR_LOCATOR_SIGNATURE,
                        actual: result.signature,
                    },
                ),
            );
        }
        Ok(result)
    }
}

/// Locates the End of Central Directory (EOCD) record in a ZIP archive.
#[derive(Debug, Clone, Copy)]
pub struct ZipLocator {
    pub max_search_space: u64,
}

impl Default for ZipLocator {
    fn default() -> (l: Self)
        ensures
            l.max_search_space == END_OF_CENTRAL_DIR_MAX_OFFSET,
    {
        Self::new()
    }
}

/// What locating the archive in the slice `data` gives.
///
/// `MissingEndOfCentralDirectory` where the signature does not stand in
/// the last `max_search_space` bytes. Else the record is parsed at the last
/// place where it stands, which is the `record_pos`. Where the record holds
/// a zip64 sentinel, the locator is parsed from the 20 bytes before the
/// record and the zip64 record at the offset that the locator names, which
/// then is the `stream_pos`. The first parse that fails gives its error.
pub open spec fn locate_in_slice_spec(data: Seq<u8>, max_search_space: int) -> Result<
    EndOfCentralDirectory,
    ErrorKind,
> {
    match eocd_position(data, max_search_space) {
        None => Err(ErrorKind::MissingEndOfCentralDirectory),
        Some(p) => match EndOfCentralDirectoryRecordFixed::parse_spec(
            data.subrange(p, data.len() as int),
        ) {
            Err(e) => Err(e),
            Ok(eocd) => if !eocd.spec_is_zip64() {
                Ok(
                    EndOfCentralDirectory {
                        zip64: None,
                        eocd,
                        stream_pos: p as u64,
                        record_pos: p as u64,
                    },
                )
            } else {
                let l = if p >= 20 {
                    p - 20
                } else {
                    0
                };
                match Zip64EndOfCentralDirectoryLocatorRecord::parse_spec(
                    data.subrange(l, data.len() as int),
                ) {
                    Err(e) => Err(e),
                    Ok(locator) => {
                        let z = if locator.directory_offset <= data.len() {
                            locator.directory_offset as int
                        } else {
                            data.len() as int
                        };
                        match Zip64EndOfCentralDirectoryRecord::parse_spec(
                            data.subrange(z, data.len() as int),
                        ) {
                            Err(e) => Err(e),
                            Ok(zip64) => Ok(
                                EndOfCentralDirectory {
                                    zip64: Some(zip64),
                                    eocd,
                                    stream_pos: locator.directory_offset,
                                    record_pos: p as u64,
                                },
                            ),
                        }
                    },
                }
            },
        },
    }
}

/// What locating the archive through a reader gives, where no read fails:
/// the records and the archive comment.
///
/// The signature is looked for in the `max_search_space` bytes before
/// `end_offset`. The record, its comment and the zip64 records are read
/// where they stand, also beyond `end_offset`. `Eof` where one of them is
/// not whole, `BufferTooSmall` where the buffer cannot hold the record (22
/// bytes) or the zip64 record (56 bytes), and
/// `MissingZip64EndOfCentralDirectory` where a zip64 sentinel stands in a
/// record that has no room for a locator before it.
pub open spec fn locate_in_reader_spec(
    contents: Seq<u8>,
    buffer_len: int,
    max_search_space: int,
    end_offset: int,
) -> Result<(EndOfCentralDirectory, Seq<u8>), ErrorKind> {
    let len = contents.len() as int;
    if buffer_len < 4 {
        Err(ErrorKind::MissingEndOfCentralDirectory)
    } else if end_offset > len && search_floor(end_offset, max_search_space) < end_offset {
        Err(ErrorKind::Eof)
    } else {
        match eocd_position_before(contents, max_search_space, end_offset) {
            None => Err(ErrorKind::MissingEndOfCentralDirectory),
            Some(p) => if buffer_len < 22 {
                Err(ErrorKind::BufferTooSmall)
            } else if p + 22 > len {
                Err(ErrorKind::Eof)
            } else {
                let eocd = EndOfCentralDirectoryRecordFixed::decode(contents.subrange(p, p + 22));
                if p + 22 + eocd.comment_len > len {
                    Err(ErrorKind::Eof)
                } else {
                    let comment = contents.subrange(p + 22, p + 22 + eocd.comment_len);
                    if !eocd.spec_is_zip64() {
                        Ok(
                            (
                                EndOfCentralDirectory {
                                    zip64: None,
                                    eocd,
                                    stream_pos: p as u64,
                                    record_pos: p as u64,
                                },
                                comment,
                            ),
                        )
                    } else if p < 20 {
                        Err(ErrorKind::MissingZip64EndOfCentralDirectory)
                    } else {
                        match Zip64EndOfCentralDirectoryLocatorRecord::parse_spec(
                            contents.subrange(p - 20, p),
                        ) {
                            Err(e) => Err(e),
                            Ok(locator) => {
                                let z = locator.directory_offset as int;
                                if buffer_len < 56 {
                                    Err(ErrorKind::BufferTooSmall)
                                } else if z + 56 > len {
                                    Err(ErrorKind::Eof)
                                } else {
                                    match Zip64EndOfCentralDirectoryRecord::parse_spec(
                                        contents.subrange(z, z + 56),
                                    ) {
                                        Err(e) => Err(e),
                                        Ok(zip64) => Ok(
                                            (
                                                EndOfCentralDirectory {
                                                    zip64: Some(zip64),
                                                    eocd,
                                                    stream_pos: locator.directory_offset,
                                                    record_pos: p as u64,
                                                },
                                                comment,
                                            ),
                                        ),
                                    }
                                }
                            },
                        }
                    }
                }
            },
        }
    }
}

/// A record parsed from more bytes than it needs is the record parsed from
/// those it needs.
pub proof fn lemma_parse_prefix(data: Seq<u8>, shorter: Seq<u8>)
    requires
        shorter.len() <= data.len(),
        shorter == data.subrange(0, shorter.len() as int),
    ensures
        shorter.len() >= 22 ==> EndOfCentralDirectoryRecordFixed::parse_spec(data)
            == EndOfCentralDirectoryRecordFixed::parse_spec(shorter),
        shorter.len() >= 20 ==> Zip64EndOfCentralDirectoryLocatorRecord::parse_spec(data)
            == Zip64EndOfCentralDirectoryLocatorRecord::parse_spec(shorter),
        shorter.len() >= 56 ==> Zip64EndOfCentralDirectoryRecord::parse_spec(data)
            == Zip64EndOfCentralDirectoryRecord::parse_spec(shorter),
{
}

/// Where the signature stands, the record's signature field holds it.
pub proof fn lemma_signature_value(data: Seq<u8>, p: int)
    requires
        occurs_at(data, eocd_signature_bytes(), p),
    ensures
        le_u32_at(data, p) == END_OF_CENTRAL_DIR_SIGNATURE,
{
    let w = data.subrange(p, p + 4);
    assert(w == eocd_signature_bytes());
    assert(w[0] == data[p] && w[1] == data[p + 1] && w[2] == data[p + 2] && w[3] == data[p + 3]);
}

/// The records of an archive that was located in a slice lie within it.
pub proof fn lemma_located_within(data: Seq<u8>, max_search_space: int)
    ensures
        locate_in_slice_spec(data, max_search_space) matches Ok(e) ==> e.stream_pos + 22
            <= data.len() && e.record_pos + 22 <= data.len(),
{
    lemma_last_occurrence(
        data,
        eocd_signature_bytes(),
        search_floor(data.len() as int, max_search_space),
        eocd_position(data, max_search_space),
    );
}

impl ZipLocator {
    /// Creates a new `ZipLocator` with a default maximum search space of 1 MiB.
    pub fn new() -> (l: Self)
        ensures
            l.max_search_space == END_OF_CENTRAL_DIR_MAX_OFFSET,
    {
        ZipLocator { max_search_space: END_OF_CENTRAL_DIR_MAX_OFFSET }
    }

    /// Sets the maximum number of bytes to search for the EOCD signature.
    ///
    /// The search is performed backwards from the end of the data source.
    pub fn max_search_space(self, max_search_space: u64) -> (l: Self)
        ensures
            l.max_search_space == max_search_space,
    {
        ZipLocator { max_search_space }
    }

    /// Locates and resolves the end of central directory in `data`.
    pub fn locate_in_byte_slice(&self, data: &[u8]) -> (r: Result<EndOfCentralDirectory, Error>)
        ensures
            outcome(r) == locate_in_slice_spec(data@, self.max_search_space as int),
    {
        let len = data.len();
        let max: usize = if self.max_search_space > usize::MAX as u64 {
            usize::MAX
        } else {
            self.max_search_space as usize
        };
        let found = find_end_of_central_dir_signature(data, max);
        proof {
            let found_at: Option<int> = match found {
                Some(i) => Some(i as int),
                None => None,
            };
            lemma_last_occurrence(
                data@,
                eocd_signature_bytes(),
                search_floor(data@.len() as int, self.max_search_space as int),
                found_at,
            );
        }
        let location = match found {
            Some(location) => location,
            None => {
                return Err(error_of(ErrorKind::MissingEndOfCentralDirectory));
            },
        };
        let eocd = EndOfCentralDirectoryRecordFixed::parse(&data[location..len])?;
        if !eocd.is_zip64() {
            return Ok(
                EndOfCentralDirectory {
                    zip64: None,
                    eocd,
                    stream_pos: location as u64,
                    record_pos: location as u64,
                },
            );
        }
        let locator_start = if location >= 20 {
            location - 20
        } else {
            0
        };
        let zip64_locator = Zip64EndOfCentralDirectoryLocatorRecord::parse(
            &data[locator_start..len],
        )?;
        let zip64_start: usize = if zip64_locator.directory_offset <= len as u64 {
            zip64_locator.directory_offset as usize
        } else {
            len
        };
        let zip64_record = Zip64EndOfCentralDirectoryRecord::parse(&data[zip64_start..len])?;
        Ok(
            EndOfCentralDirectory {
                zip64: Some(zip64_record),
                eocd,
                stream_pos: zip64_locator.directory_offset,
                record_pos: location as u64,
            },
        )
    }

    /// Locates the EOCD record within a byte slice.
    ///
    /// On success, returns a `ZipSliceArchive` which allows reading the
    /// archive directly from the slice. On failure, returns the slice and
    /// the error.
    pub fn locate_in_slice<'a>(&self, data: &'a [u8]) -> (r: Result<
        ZipSliceArchive<'a>,
        (&'a [u8], Error),
    >)
        ensures
            match r {
                Ok(archive) => archive.data@ == data@ && archive.wf() && locate_in_slice_spec(
                    data@,
                    self.max_search_space as int,
                ) == Ok::<_, ErrorKind>(archive.eocd),
                Err((given, e)) => given@ == data@ && locate_in_slice_spec(
                    data@,
                    self.max_search_space as int,
                ) == Err::<EndOfCentralDirectory, _>(e@),
            },
    {
        proof {
            lemma_located_within(data@, self.max_search_space as int);
        }
        match self.locate_in_byte_slice(data) {
            Ok(eocd) => Ok(ZipSliceArchive { data, eocd }),
            Err(e) => Err((data, e)),
        }
    }
}

/// Whether the front `valid` bytes of `buffer` are what `contents` holds
/// from `pos` on.
pub open spec fn holds_window(buffer: Seq<u8>, valid: int, contents: Seq<u8>, pos: int) -> bool {
    &&& 0 <= valid <= buffer.len()
    &&& 0 <= pos
    &&& pos + valid <= contents.len()
    &&& buffer.subrange(0, valid) == contents.subrange(pos, pos + valid)
}

/// A part of a window holds the part of the contents that belongs to it.
proof fn lemma_window_part(
    buffer: Seq<u8>,
    valid: int,
    contents: Seq<u8>,
    pos: int,
    from: int,
    to: int,
)
    requires
        holds_window(buffer, valid, contents, pos),
        0 <= from <= to <= valid,
    ensures
        buffer.subrange(from, to) == contents.subrange(pos + from, pos + to),
{
    assert(buffer.subrange(from, to) =~= buffer.subrange(0, valid).subrange(from, to));
    assert(contents.subrange(pos + from, pos + to) =~= contents.subrange(
        pos,
        pos + valid,
    ).subrange(from, to));
}

/// Brings the 22 bytes of the record that stands at `stream_pos` into the
/// buffer, unless the window that was searched holds them already. Returns
/// where they start in the buffer, where what the buffer holds from there
/// on ends, and whether anything was read.
fn eocd_window<R: ReaderAt>(
    reader: &R,
    buffer: &mut [u8],
    stream_pos: u64,
    buffer_pos: usize,
    buffer_valid_len: usize,
) -> (r: Result<(usize, usize, bool), Error>)
    requires
        buffer_pos <= buffer_valid_len,
        buffer_pos <= stream_pos,
        holds_window(
            old(buffer)@,
            buffer_valid_len as int,
            reader.contents(),
            stream_pos - buffer_pos,
        ),
    ensures
        final(buffer)@.len() == old(buffer)@.len(),
        match r {
            Ok((start, end, marked)) => {
                &&& start + 22 <= end <= old(buffer)@.len()
                &&& stream_pos + (end - start) <= reader.contents().len()
                &&& final(buffer)@.subrange(start as int, end as int)
                    == reader.contents().subrange(stream_pos as int, stream_pos + (end - start))
                &&& !marked ==> final(buffer)@ == old(buffer)@ && start == buffer_pos && end
                    == buffer_valid_len
            },
            Err(e) => if old(buffer)@.len() < 22 {
                e@ is BufferTooSmall
            } else if e@ is Eof {
                stream_pos + 22 > reader.contents().len()
            } else {
                e@ is IO && !reader.never_fails()
            },
        },
{
    if buffer_valid_len - buffer_pos >= 22 {
        proof {
            lemma_window_part(
                buffer@,
                buffer_valid_len as int,
                reader.contents(),
                stream_pos - buffer_pos,
                buffer_pos as int,
                buffer_valid_len as int,
            );
        }
        return Ok((buffer_pos, buffer_valid_len, false));
    }
    let read = read_at_least_at(reader, buffer, 22, stream_pos)?;
    Ok((0, read, true))
}

/// The `comment_len` bytes that follow the record: from the buffer as far
/// as it holds them, the rest from the reader. Returns the comment and
/// whether anything was read.
fn read_comment<R: ReaderAt>(
    reader: &R,
    buffer: &[u8],
    start: usize,
    end: usize,
    stream_pos: u64,
    comment_len: usize,
) -> (r: Result<(Vec<u8>, bool), Error>)
    requires
        start + 22 <= end <= buffer@.len(),
        stream_pos + (end - start) <= reader.contents().len(),
        reader.contents().len() <= u64::MAX,
        buffer@.subrange(start as int, end as int) == reader.contents().subrange(
            stream_pos as int,
            stream_pos + (end - start),
        ),
    ensures
        match r {
            Ok((comment, marked)) => {
                &&& stream_pos + 22 + comment_len <= reader.contents().len()
                &&& comment@ == reader.contents().subrange(
                    stream_pos + 22,
                    stream_pos + 22 + comment_len,
                )
            },
            Err(e) => if e@ is Eof {
                stream_pos + 22 + comment_len > reader.contents().len()
            } else {
                e@ is IO && !reader.never_fails()
            },
        },
{
    let ghost whole = reader.contents();
    let ghost held = buffer@.subrange(start as int, end as int);
    let available = end - start - 22;
    let comment_start = start + 22;
    if available < comment_len {
        let mut head = vstd::slice::slice_to_vec(&buffer[comment_start..end]);
        let missing = comment_len - available;
        let mut rest: Vec<u8> = vec![0u8; missing];
        let rest_offset = stream_pos + 22 + available as u64;
        read_exact_at(reader, rest.as_mut_slice(), rest_offset)?;
        proof {
            assert(head@ =~= held.subrange(22, end - start));
            assert(head@ =~= whole.subrange(stream_pos + 22, stream_pos + (end - start)));
        }
        head.append(&mut rest);
        assert(head@ =~= whole.subrange(stream_pos + 22, stream_pos + 22 + comment_len));
        Ok((head, true))
    } else {
        let copy = vstd::slice::slice_to_vec(&buffer[comment_start..comment_start + comment_len]);
        proof {
            assert(copy@ =~= held.subrange(22, 22 + comment_len));
            assert(copy@ =~= whole.subrange(stream_pos + 22, stream_pos + 22 + comment_len));
        }
        Ok((copy, false))
    }
}

/// The zip64 locator that stands in the 20 bytes before `stream_pos`:
/// from the buffer where the window that was searched is still in it and
/// reaches back far enough, else from the reader. Returns the locator and
/// whether the buffer was read into.
fn zip64_locator<R: ReaderAt>(
    reader: &R,
    buffer: &mut [u8],
    marked: bool,
    stream_pos: u64,
    buffer_pos: usize,
    buffer_valid_len: usize,
) -> (r: Result<(Zip64EndOfCentralDirectoryLocatorRecord, bool), Error>)
    requires
        old(buffer)@.len() >= 22,
        stream_pos <= reader.contents().len(),
        !marked ==> buffer_pos <= buffer_valid_len && buffer_pos <= stream_pos && holds_window(
            old(buffer)@,
            buffer_valid_len as int,
            reader.contents(),
            stream_pos - buffer_pos,
        ),
    ensures
        final(buffer)@.len() == old(buffer)@.len(),
        match r {
            Ok((locator, now_marked)) => {
                &&& stream_pos >= 20
                &&& Ok::<_, ErrorKind>(locator)
                    == Zip64EndOfCentralDirectoryLocatorRecord::parse_spec(
                    reader.contents().subrange(stream_pos - 20, stream_pos as int),
                )
                &&& marked ==> now_marked
                &&& !now_marked ==> final(buffer)@ == old(buffer)@
            },
            Err(e) => if e@ is IO {
                !reader.never_fails()
            } else if stream_pos < 20 {
                e@ is MissingZip64EndOfCentralDirectory
            } else {
                Err::<Zip64EndOfCentralDirectoryLocatorRecord, _>(e@)
                    == Zip64EndOfCentralDirectoryLocatorRecord::parse_spec(
                    reader.contents().subrange(stream_pos - 20, stream_pos as int),
                )
            },
        },
{
    let ghost whole = reader.contents();
    if marked || 20 > buffer_pos {
        if 20 > stream_pos {
            return Err(error_of(ErrorKind::MissingZip64EndOfCentralDirectory));
        }
        let (front, _) = buffer.split_at_mut(20);
        read_exact_at(reader, front, stream_pos - 20)?;
        assert(buffer@.subrange(0, 20) =~= whole.subrange(stream_pos - 20, stream_pos as int));
        let locator = Zip64EndOfCentralDirectoryLocatorRecord::parse(&buffer[0..20])?;
        Ok((locator, true))
    } else {
        proof {
            lemma_window_part(
                buffer@,
                buffer_valid_len as int,
                whole,
                stream_pos - buffer_pos,
                buffer_pos - 20,
                buffer_pos as int,
            );
        }
        let locator = Zip64EndOfCentralDirectoryLocatorRecord::parse(
            &buffer[buffer_pos - 20..buffer_pos],
        )?;
        Ok((locator, false))
    }
}

/// The zip64 record that stands at `directory_offset`: from the buffer
/// where the window that was searched is still in it and holds the record
/// whole, else from the reader.
fn zip64_record<R: ReaderAt>(
    reader: &R,
    buffer: &mut [u8],
    marked: bool,
    directory_offset: u64,
    stream_pos: u64,
    buffer_pos: usize,
    buffer_valid_len: usize,
) -> (r: Result<Zip64EndOfCentralDirectoryRecord, Error>)
    requires
        !marked ==> buffer_pos <= buffer_valid_len && buffer_pos <= stream_pos && holds_window(
            old(buffer)@,
            buffer_valid_len as int,
            reader.contents(),
            stream_pos - buffer_pos,
        ),
    ensures
        final(buffer)@.len() == old(buffer)@.len(),
        match r {
            Ok(record) => {
                &&& old(buffer)@.len() >= 56
                &&& directory_offset + 56 <= reader.contents().len()
                &&& Ok::<_, ErrorKind>(record) == Zip64EndOfCentralDirectoryRecord::parse_spec(
                    reader.contents().subrange(
                        directory_offset as int,
                        directory_offset + 56,
                    ),
                )
            },
            Err(e) => if e@ is IO {
                !reader.never_fails()
            } else if old(buffer)@.len() < 56 {
                e@ is BufferTooSmall
            } else if directory_offset + 56 > reader.contents().len() {
                e@ is Eof
            } else {
                Err::<Zip64EndOfCentralDirectoryRecord, _>(e@)
                    == Zip64EndOfCentralDirectoryRecord::parse_spec(
                    reader.contents().subrange(
                        directory_offset as int,
                        directory_offset + 56,
                    ),
                )
            },
        },
{
    let ghost whole = reader.contents();
    let in_buffer = !marked && directory_offset <= stream_pos && stream_pos - directory_offset
        <= buffer_pos as u64 && buffer_valid_len - (buffer_pos - (stream_pos
        - directory_offset) as usize) >= 56;
    if in_buffer {
        let record_start = buffer_pos - (stream_pos - directory_offset) as usize;
        proof {
            lemma_window_part(
                buffer@,
                buffer_valid_len as int,
                whole,
                stream_pos - buffer_pos,
                record_start as int,
                record_start + 56,
            );
        }
        Zip64EndOfCentralDirectoryRecord::parse(&buffer[record_start..record_start + 56])
    } else {
        let read = read_at_least_at(reader, buffer, 56, directory_offset)?;
        proof {
            assert(buffer@.subrange(0, 56) =~= buffer@.subrange(0, read as int).subrange(0, 56));
            assert(whole.subrange(directory_offset as int, directory_offset + 56)
                =~= window(whole, directory_offset as int, read as int).subrange(0, 56));
        }
        Zip64EndOfCentralDirectoryRecord::parse(&buffer[0..56])
    }
}

impl ZipLocator {
    /// Locates the EOCD record in a reader, treating the specified end
    /// offset as the starting point when searching backwards.
    ///
    /// This serves an archive that does not end where the reader ends, and
    /// archives that stand one after the other: the start of the one found
    /// is the end offset for the one before it.
    ///
    /// The locator may read beyond the end offset to have the record, its
    /// comment and the zip64 records whole.
    ///
    /// On failure, returns the reader and the error. Where no read fails,
    /// the outcome is that of `locate_in_reader_spec`.
    pub fn locate_in_reader<R: ReaderAt>(
        &self,
        reader: R,
        buffer: &mut [u8],
        end_offset: u64,
    ) -> (r: Result<ZipArchive<R>, (R, Error)>)
        ensures
            final(buffer)@.len() == old(buffer)@.len(),
            match r {
                Ok(archive) => archive.reader == reader && archive.wf() && locate_in_reader_spec(
                    reader.contents(),
                    old(buffer)@.len() as int,
                    self.max_search_space as int,
                    end_offset as int,
                ) == Ok::<_, ErrorKind>((archive.eocd, archive.comment@)),
                Err((given, e)) => given == reader && if e@ is IO {
                    !reader.never_fails()
                } else {
                    locate_in_reader_spec(
                        reader.contents(),
                        old(buffer)@.len() as int,
                        self.max_search_space as int,
                        end_offset as int,
                    ) == Err::<(EndOfCentralDirectory, Seq<u8>), _>(e@)
                },
            },
    {
        let ghost whole = reader.contents();
        let ghost floor = search_floor(end_offset as int, self.max_search_space as int);
        let location = find_end_of_central_dir(
            &reader,
            buffer,
            self.max_search_space,
            end_offset,
        );
        let (stream_pos, buffer_pos, buffer_valid_len) = match location {
            Ok(Some(location_tuple)) => location_tuple,
            Ok(None) => {
                proof {
                    lemma_last_occurrence(
                        prefix(whole, end_offset as int),
                        eocd_signature_bytes(),
                        floor,
                        None,
                    );
                }
                return Err((reader, error_of(ErrorKind::MissingEndOfCentralDirectory)));
            },
            Err(error) => {
                return Err((reader, error));
            },
        };
        proof {
            lemma_last_occurrence(
                prefix(whole, end_offset as int),
                eocd_signature_bytes(),
                floor,
                Some(stream_pos as int),
            );
            assert(occurs_at(whole, eocd_signature_bytes(), stream_pos as int)) by {
                assert(prefix(whole, end_offset as int).subrange(
                    stream_pos as int,
                    stream_pos + 4,
                ) =~= whole.subrange(stream_pos as int, stream_pos + 4));
            }
            lemma_signature_value(whole, stream_pos as int);
        }
        // Most likely the read that found the signature has brought the whole
        // record, and the zip64 records with it: what is in the buffer is used
        // as far as it goes.
        let (start, end, marked) = match eocd_window(
            &reader,
            buffer,
            stream_pos,
            buffer_pos,
            buffer_valid_len,
        ) {
            Ok(window) => window,
            Err(e) => {
                return Err((reader, e));
            },
        };
        let ghost record = whole.subrange(stream_pos as int, stream_pos + 22);
        proof {
            assert(record =~= buffer@.subrange(start as int, end as int).subrange(0, 22));
            assert(record =~= buffer@.subrange(start as int, start + 22));
            assert(le_u32_at(record, 0) == le_u32_at(whole, stream_pos as int));
        }
        let eocd = match EndOfCentralDirectoryRecordFixed::parse(&buffer[start..start + 22]) {
            Ok(record) => record,
            Err(e) => {
                return Err((reader, e));
            },
        };
        let (comment, read) = match read_comment(
            &reader,
            buffer,
            start,
            end,
            stream_pos,
            eocd.comment_len as usize,
        ) {
            Ok(comment) => comment,
            Err(e) => {
                return Err((reader, e));
            },
        };
        let comment = ZipString::new(comment);
        if !eocd.is_zip64() {
            return Ok(
                ZipArchive {
                    reader,
                    comment,
                    eocd: EndOfCentralDirectory {
                        zip64: None,
                        eocd,
                        stream_pos,
                        record_pos: stream_pos,
                    },
                },
            );
        }
        let (zip64_locator, marked) = match zip64_locator(
            &reader,
            buffer,
            marked || read,
            stream_pos,
            buffer_pos,
            buffer_valid_len,
        ) {
            Ok(locator) => locator,
            Err(e) => {
                return Err((reader, e));
            },
        };
        let zip64_record = match zip64_record(
            &reader,
            buffer,
            marked,
            zip64_locator.directory_offset,
            stream_pos,
            buffer_pos,
            buffer_valid_len,
        ) {
            Ok(record) => record,
            Err(e) => {
                return Err((reader, e));
            },
        };
        Ok(
            ZipArchive {
                reader,
                comment,
                eocd: EndOfCentralDirectory {
                    zip64: Some(zip64_record),
                    eocd,
                    stream_pos: zip64_locator.directory_offset,
                    record_pos: stream_pos,
                },
            },
        )
    }
}

/// An archive that is located in the bytes before an offset is located
/// through a reader whose search ends at that offset, with a buffer of 56
/// bytes or more: the records are the same, and so is the comment, which is
/// what follows the end of central directory record, with or without zip64
/// records. What the reader serves behind the offset plays no part.
///
/// This holds where the comment ends before the offset, and where a
/// record with a zip64 sentinel has the 20 bytes of a locator before it.
pub proof fn lemma_reader_locates_before(
    contents: Seq<u8>,
    end_offset: int,
    max_search_space: int,
    buffer_len: int,
)
    requires
        buffer_len >= 56,
        0 <= end_offset <= contents.len() <= u64::MAX,
        locate_in_slice_spec(prefix(contents, end_offset), max_search_space) matches Ok(located)
            && located.record_pos + 22 + located.eocd.comment_len <= end_offset && (located.zip64
            is Some ==> located.record_pos >= 20),
    ensures
        ({
            let data = prefix(contents, end_offset);
            let located = locate_in_slice_spec(data, max_search_space)->Ok_0;
            &&& eocd_position(data, max_search_space) == Some(located.record_pos as int)
            &&& comment_of(data, located) == contents.subrange(
                located.record_pos + 22,
                located.record_pos + 22 + located.eocd.comment_len,
            )
            &&& locate_in_reader_spec(contents, buffer_len, max_search_space, end_offset) == Ok::<
                _,
                ErrorKind,
            >((located, comment_of(data, located)))
        }),
{
    let data = prefix(contents, end_offset);
    let len = data.len() as int;
    assert(len == end_offset);
    let p = eocd_position(data, max_search_space)->0;
    lemma_last_occurrence(
        data,
        eocd_signature_bytes(),
        search_floor(len, max_search_space),
        Some(p),
    );
    let tail = data.subrange(p, len);
    assert(data.subrange(p, p + 22) =~= tail.subrange(0, 22));
    assert(data.subrange(p, p + 22) =~= contents.subrange(p, p + 22));
    lemma_parse_prefix(tail, data.subrange(p, p + 22));
    let record = EndOfCentralDirectoryRecordFixed::decode(data.subrange(p, p + 22));
    assert(record == EndOfCentralDirectoryRecordFixed::decode(tail));
    let located = locate_in_slice_spec(data, max_search_space)->Ok_0;
    assert(located.eocd == record);
    assert(located.record_pos == p);
    assert(data.subrange(p + 22, p + 22 + record.comment_len) =~= contents.subrange(
        p + 22,
        p + 22 + record.comment_len,
    ));
    if record.spec_is_zip64() {
        let before = data.subrange(p - 20, len);
        assert(data.subrange(p - 20, p) =~= before.subrange(0, 20));
        assert(data.subrange(p - 20, p) =~= contents.subrange(p - 20, p));
        lemma_parse_prefix(before, data.subrange(p - 20, p));
        let locator = Zip64EndOfCentralDirectoryLocatorRecord::parse_spec(before)->Ok_0;
        let z = locator.directory_offset as int;
        assert(z + 56 <= len);
        let from = data.subrange(z, len);
        assert(data.subrange(z, z + 56) =~= from.subrange(0, 56));
        assert(data.subrange(z, z + 56) =~= contents.subrange(z, z + 56));
        lemma_parse_prefix(from, data.subrange(z, z + 56));
    }
}

/// An archive that is located in a slice is located through a reader
/// that serves the slice, with a search that ends at its end and a buffer
/// of 56 bytes or more: the records are the same, and so is the comment.
///
/// This holds where the comment is whole, and where a record with a zip64
/// sentinel has the 20 bytes of a locator before it.
pub proof fn lemma_reader_locates_as_slice(data: Seq<u8>, max_search_space: int, buffer_len: int)
    requires
        buffer_len >= 56,
        data.len() <= u64::MAX,
        locate_in_slice_spec(data, max_search_space) matches Ok(located) && located.record_pos + 22
            + located.eocd.comment_len <= data.len() && (located.zip64 is Some
            ==> located.record_pos >= 20),
    ensures
        ({
            let located = locate_in_slice_spec(data, max_search_space)->Ok_0;
            &&& comment_of(data, located) == data.subrange(
                located.record_pos + 22,
                located.record_pos + 22 + located.eocd.comment_len,
            )
            &&& locate_in_reader_spec(data, buffer_len, max_search_space, data.len() as int)
                == Ok::<_, ErrorKind>((located, comment_of(data, located)))
        }),
{
    assert(prefix(data, data.len() as int) =~= data);
    lemma_reader_locates_before(data, data.len() as int, max_search_space, buffer_len);
}

} // verus!
