//! Reading bytes at a given offset.

use crate::errors::{error_of, Error, ErrorKind};
use vstd::prelude::*;

verus! {

/// Provides reading bytes at a specific offset.
///
/// Unlike a sequential reader, a positioned reader is not moved by a read, so
/// a shared reference is enough to read from it.
///
/// An implementation stands for a fixed sequence of bytes, `contents`. A read
/// copies some bytes of it, starting at `offset`, to the front of `buf`, and
/// returns how many. It may copy fewer than fit. It returns 0 only where
/// nothing can be copied: `buf` is empty or `offset` is at or past the end.
/// Every byte that it serves has an offset that fits in `u64`.
pub trait ReaderAt {
    /// The bytes that this reader serves. A reader that does not say what
    /// they are serves some bytes that are not known.
    open spec fn contents(&self) -> Seq<u8> {
        choose|s: Seq<u8>| s.len() <= u64::MAX
    }

    /// Whether every read succeeds, as for bytes held in memory. A reader
    /// that does not say so may fail.
    open spec fn never_fails(&self) -> bool {
        false
    }

    /// Read bytes from the reader at a specific offset.
    fn read_at(&self, buf: &mut [u8], offset: u64) -> (r: Result<usize, std::io::Error>)
        ensures
            final(buf)@.len() == old(buf)@.len(),
            self.never_fails() ==> r is Ok,
            r matches Ok(n) ==> {
                &&& n <= old(buf)@.len()
                &&& in_bounds(self.contents(), offset as int, n as int)
                &&& final(buf)@.subrange(0, n as int) == window(
                    self.contents(),
                    offset as int,
                    n as int,
                )
                &&& n == 0 ==> old(buf)@.len() == 0 || offset >= self.contents().len()
                &&& n > 0 ==> self.contents().len() <= u64::MAX
            },
    ;

    /// Fills `buf` from `offset`, with as many reads as it takes.
    ///
    /// Fails with `Eof` where the reader ends before `buf` is full, and with
    /// the reader's own error where a read fails.
    fn read_exact_at(&self, buf: &mut [u8], offset: u64) -> (r: Result<(), Error>) where
        Self: Sized,

        ensures
            final(buf)@.len() == old(buf)@.len(),
            old(buf)@.len() == 0 ==> r is Ok,
            r is Ok ==> in_bounds(self.contents(), offset as int, old(buf)@.len() as int)
                && final(buf)@ == window(self.contents(), offset as int, old(buf)@.len() as int),
            r matches Err(e) ==> (e@ is Eof || e@ is IO),
            r matches Err(e) && e@ is Eof ==> !in_bounds(
                self.contents(),
                offset as int,
                old(buf)@.len() as int,
            ),
            r matches Err(e) && e@ is IO ==> !self.never_fails(),
            r is Ok && old(buf)@.len() > 0 ==> self.contents().len() <= u64::MAX,
    {
        let total = buf.len();
        let mut pos: usize = 0;
        while pos < total
            invariant
                buf@.len() == total,
                total == old(buf)@.len(),
                pos <= total,
                pos > 0 ==> self.contents().len() <= u64::MAX,
                in_bounds(self.contents(), offset as int, pos as int),
                buf@.subrange(0, pos as int) == window(self.contents(), offset as int, pos as int),
            decreases total - pos,
        {
            let ghost before = buf@;
            let (head, tail) = buf.split_at_mut(pos);
            let read = match self.read_at(tail, offset + pos as u64) {
                Ok(read) => read,
                Err(e) => {
                    return Err(Error::io(e));
                },
            };
            assert(buf@ == head@ + tail@);
            assert(head@ == before.subrange(0, pos as int));
            if read == 0 {
                return Err(error_of(ErrorKind::Eof));
            }
            proof {
                let c = self.contents();
                let got = buf@.subrange(0, pos + read);
                assert forall|i: int| 0 <= i < pos + read implies got[i] == c[offset + i] by {
                    if i < pos {
                        assert(got[i] == head@[i]);
                        assert(head@[i] == before.subrange(0, pos as int)[i]);
                        assert(before.subrange(0, pos as int)[i] == window(
                            c,
                            offset as int,
                            pos as int,
                        )[i]);
                    } else {
                        assert(got[i] == tail@[i - pos]);
                        assert(tail@[i - pos] == tail@.subrange(0, read as int)[i - pos]);
                        assert(c.subrange(offset + pos, offset + pos + read)[i - pos] == c[offset
                            + i]);
                    }
                }
                assert(got =~= window(c, offset as int, pos + read));
            }
            pos += read;
        }
        assert(buf@.subrange(0, total as int) =~= buf@);
        Ok(())
    }
}

/// What a read of `len` bytes at `offset` must deliver.
pub open spec fn window(contents: Seq<u8>, offset: int, len: int) -> Seq<u8> {
    if len <= 0 {
        Seq::empty()
    } else {
        contents.subrange(offset, offset + len)
    }
}

/// Whether `len` bytes are there to be read at `offset`. No bytes are there
/// at any offset.
pub open spec fn in_bounds(contents: Seq<u8>, offset: int, len: int) -> bool {
    len <= 0 || (0 <= offset && offset + len <= contents.len())
}

/// Fills `buf` from `offset`, with as many reads as it takes.
///
/// Fails with `Eof` where the reader ends before `buf` is full, and with the
/// reader's own error where a read fails.
pub fn read_exact_at<R: ReaderAt>(reader: &R, buf: &mut [u8], offset: u64) -> (r: Result<
    (),
    Error,
>)
    ensures
        final(buf)@.len() == old(buf)@.len(),
        old(buf)@.len() == 0 ==> r is Ok,
        r is Ok ==> in_bounds(reader.contents(), offset as int, old(buf)@.len() as int)
            && final(buf)@ == window(reader.contents(), offset as int, old(buf)@.len() as int),
        r matches Err(e) ==> (e@ is Eof || e@ is IO),
        r matches Err(e) && e@ is Eof ==> !in_bounds(
            reader.contents(),
            offset as int,
            old(buf)@.len() as int,
        ),
        r matches Err(e) && e@ is IO ==> !reader.never_fails(),
        r is Ok && old(buf)@.len() > 0 ==> reader.contents().len() <= u64::MAX,
{
    reader.read_exact_at(buf, offset)
}

/// Reads from `offset` into the front of `buffer` until at least `size`
/// bytes are there, or the buffer is full, or the reader has ended.
/// Returns how many bytes were read.
pub fn try_read_at_least_at<R: ReaderAt>(
    reader: &R,
    buffer: &mut [u8],
    size: usize,
    offset: u64,
) -> (r: Result<usize, std::io::Error>)
    ensures
        final(buffer)@.len() == old(buffer)@.len(),
        reader.never_fails() ==> r is Ok,
        size == 0 || old(buffer)@.len() == 0 ==> r is Ok,
        r matches Ok(n) ==> {
            &&& n <= old(buffer)@.len()
            &&& in_bounds(reader.contents(), offset as int, n as int)
            &&& final(buffer)@.subrange(0, n as int) == window(
                reader.contents(),
                offset as int,
                n as int,
            )
            &&& n < size && n < old(buffer)@.len() ==> offset + n >= reader.contents().len()
            &&& n > 0 ==> reader.contents().len() <= u64::MAX
        },
{
    let total = buffer.len();
    let want = if size < total {
        size
    } else {
        total
    };
    let mut pos: usize = 0;
    while pos < want
        invariant
            buffer@.len() == total,
            total == old(buffer)@.len(),
            want <= total,
            want <= size,
            pos <= total,
            pos > 0 ==> reader.contents().len() <= u64::MAX,
            in_bounds(reader.contents(), offset as int, pos as int),
            buffer@.subrange(0, pos as int) == window(reader.contents(), offset as int, pos as int),
        decreases total - pos,
    {
        let ghost before = buffer@;
        let (head, tail) = buffer.split_at_mut(pos);
        let read = reader.read_at(tail, offset + pos as u64)?;
        assert(buffer@ == head@ + tail@);
        assert(head@ == before.subrange(0, pos as int));
        if read == 0 {
            assert(buffer@.subrange(0, pos as int) =~= head@);
            assert(before.subrange(0, pos as int) =~= head@);
            return Ok(pos);
        }
        proof {
            let c = reader.contents();
            let got = buffer@.subrange(0, pos + read);
            assert(tail@.subrange(0, read as int) == c.subrange(offset + pos, offset + pos + read));
            assert forall|i: int| 0 <= i < pos + read implies got[i] == c[offset + i] by {
                if i < pos {
                    assert(got[i] == head@[i]);
                    assert(head@[i] == before.subrange(0, pos as int)[i]);
                    assert(before.subrange(0, pos as int)[i] == window(
                        c,
                        offset as int,
                        pos as int,
                    )[i]);
                } else {
                    assert(got[i] == tail@[i - pos]);
                    assert(tail@[i - pos] == tail@.subrange(0, read as int)[i - pos]);
                    assert(c.subrange(offset + pos, offset + pos + read)[i - pos] == c[offset + i]);
                }
            }
            assert(got =~= window(c, offset as int, pos + read));
        }
        pos += read;
    }
    Ok(pos)
}

/// Reads at least `size` bytes from `offset` into the front of `buffer`.
/// Returns how many bytes were read.
///
/// Fails with `BufferTooSmall` where `buffer` cannot hold `size` bytes, and
/// with `Eof` where the reader ends before `size` bytes were read.
pub fn read_at_least_at<R: ReaderAt>(
    reader: &R,
    buffer: &mut [u8],
    size: usize,
    offset: u64,
) -> (r: Result<usize, Error>)
    ensures
        final(buffer)@.len() == old(buffer)@.len(),
        old(buffer)@.len() < size ==> (r matches Err(e) && e@ is BufferTooSmall),
        r matches Ok(n) ==> {
            &&& size <= n <= old(buffer)@.len()
            &&& n > 0 ==> reader.contents().len() <= u64::MAX
            &&& in_bounds(reader.contents(), offset as int, n as int)
            &&& final(buffer)@.subrange(0, n as int) == window(
                reader.contents(),
                offset as int,
                n as int,
            )
        },
        r matches Err(e) ==> (e@ is Eof || e@ is IO || e@ is BufferTooSmall),
        r matches Err(e) && e@ is BufferTooSmall ==> old(buffer)@.len() < size,
        r matches Err(e) && e@ is Eof ==> !in_bounds(reader.contents(), offset as int, size as int),
        r matches Err(e) && e@ is IO ==> !reader.never_fails(),
{
    if buffer.len() < size {
        return Err(error_of(ErrorKind::BufferTooSmall));
    }
    match try_read_at_least_at(reader, buffer, size, offset) {
        Ok(read) => {
            if read < size {
                Err(error_of(ErrorKind::Eof))
            } else {
                Ok(read)
            }
        },
        Err(e) => Err(Error::io(e)),
    }
}

/// Reads up to `size` bytes from `offset` into the front of `buffer`; a
/// reader that ends early is no error. Returns how many bytes were read.
pub fn read_at_most_at<R: ReaderAt>(
    reader: &R,
    buffer: &mut [u8],
    size: usize,
    offset: u64,
) -> (r: Result<usize, std::io::Error>)
    ensures
        final(buffer)@.len() == old(buffer)@.len(),
        reader.never_fails() ==> r is Ok,
        size == 0 || old(buffer)@.len() == 0 ==> r is Ok,
        r matches Ok(n) ==> {
            &&& n <= old(buffer)@.len()
            &&& in_bounds(reader.contents(), offset as int, n as int)
            &&& final(buffer)@.subrange(0, n as int) == window(
                reader.contents(),
                offset as int,
                n as int,
            )
            &&& n < size && n < old(buffer)@.len() ==> offset + n >= reader.contents().len()
            &&& n > 0 ==> reader.contents().len() <= u64::MAX
        },
{
    try_read_at_least_at(reader, buffer, size, offset)
}

/// Copies `src` over the bytes of `dst` that start at `at`.
pub fn copy_into(dst: &mut [u8], at: usize, src: &[u8])
    requires
        at + src@.len() <= old(dst)@.len(),
    ensures
        final(dst)@ == old(dst)@.subrange(0, at as int) + src@ + old(dst)@.subrange(
            at + src@.len(),
            old(dst)@.len() as int,
        ),
{
    let n = src.len();
    let _total: usize = dst.len();
    let mut i: usize = 0;
    while i < n
        invariant
            n == src@.len(),
            i <= n,
            at + n <= dst@.len(),
            dst@.len() == old(dst)@.len(),
            dst@.len() <= usize::MAX,
            forall|j: int| 0 <= j < at ==> dst@[j] == old(dst)@[j],
            forall|j: int| at <= j < at + i ==> dst@[j] == src@[j - at],
            forall|j: int| at + i <= j < dst@.len() ==> dst@[j] == old(dst)@[j],
        decreases n - i,
    {
        dst[at + i] = src[i];
        i += 1;
    }
    assert(dst@ =~= old(dst)@.subrange(0, at as int) + src@ + old(dst)@.subrange(
        at + src@.len(),
        old(dst)@.len() as int,
    ));
}

/// Moves the bytes `from..from + len` of `buf` so that they start at `to`,
/// as `copy_within` does: the bytes that arrive are those that were there
/// before the call.
pub fn move_within(buf: &mut [u8], from: usize, len: usize, to: usize)
    requires
        from + len <= old(buf)@.len(),
        to + len <= old(buf)@.len(),
    ensures
        final(buf)@.len() == old(buf)@.len(),
        forall|j: int|
            0 <= j < old(buf)@.len() ==> final(buf)@[j] == if to <= j < to + len {
                old(buf)@[j - to + from]
            } else {
                old(buf)@[j]
            },
{
    let _total: usize = buf.len();
    if to <= from {
        let mut i: usize = 0;
        while i < len
            invariant
                i <= len,
                to <= from,
                from + len <= buf@.len(),
                buf@.len() == old(buf)@.len(),
                buf@.len() <= usize::MAX,
                forall|j: int|
                    0 <= j < buf@.len() ==> buf@[j] == if to <= j < to + i {
                        old(buf)@[j - to + from]
                    } else {
                        old(buf)@[j]
                    },
            decreases len - i,
        {
            buf[to + i] = buf[from + i];
            i += 1;
        }
    } else {
        let mut i: usize = len;
        while i > 0
            invariant
                i <= len,
                to > from,
                to + len <= buf@.len(),
                buf@.len() == old(buf)@.len(),
                buf@.len() <= usize::MAX,
                forall|j: int|
                    0 <= j < buf@.len() ==> buf@[j] == if to + i <= j < to + len {
                        old(buf)@[j - to + from]
                    } else {
                        old(buf)@[j]
                    },
            decreases i,
        {
            i -= 1;
            buf[to + i] = buf[from + i];
        }
    }
}

impl ReaderAt for &[u8] {
    open spec fn contents(&self) -> Seq<u8> {
        (*self)@
    }

    open spec fn never_fails(&self) -> bool {
        true
    }

    fn read_at(&self, buf: &mut [u8], offset: u64) -> (r: Result<usize, std::io::Error>) {
        let total = self.len();
        let skip: usize = if offset >= total as u64 {
            total
        } else {
            offset as usize
        };
        let rest = total - skip;
        let len = if rest < buf.len() {
            rest
        } else {
            buf.len()
        };
        copy_into(buf, 0, &self[skip..skip + len]);
        assert(buf@.subrange(0, len as int) =~= (*self)@.subrange(skip as int, skip + len));
        Ok(len)
    }
}

impl ReaderAt for Vec<u8> {
    open spec fn contents(&self) -> Seq<u8> {
        self@
    }

    open spec fn never_fails(&self) -> bool {
        true
    }

    fn read_at(&self, buf: &mut [u8], offset: u64) -> (r: Result<usize, std::io::Error>) {
        let data: &[u8] = self.as_slice();
        data.read_at(buf, offset)
    }
}

impl<T: ReaderAt> ReaderAt for &mut T {
    open spec fn contents(&self) -> Seq<u8> {
        (**self).contents()
    }

    open spec fn never_fails(&self) -> bool {
        (**self).never_fails()
    }

    fn read_at(&self, buf: &mut [u8], offset: u64) -> (r: Result<usize, std::io::Error>) {
        (**self).read_at(buf, offset)
    }
}

impl<T: ReaderAt> ReaderAt for &T {
    open spec fn contents(&self) -> Seq<u8> {
        (**self).contents()
    }

    open spec fn never_fails(&self) -> bool {
        (**self).never_fails()
    }

    fn read_at(&self, buf: &mut [u8], offset: u64) -> (r: Result<usize, std::io::Error>) {
        (**self).read_at(buf, offset)
    }
}

} // verus!
