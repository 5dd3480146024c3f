//! Path handling for ZIP archives with raw and normalized paths.
//!
//! A path comes out of an archive as raw bytes: it may climb out of the
//! directory it is extracted to (`../`), be absolute (`/etc/passwd`,
//! `C:\Windows`), or be no text at all. A normalized path is text, and
//! safe to join to a directory:
//!
//! - backslashes are forward slashes,
//! - what stands before the last colon (a drive or device) is gone,
//! - empty and `.` components are gone, and `..` has taken the component
//!   before it with it, never climbing above the root,
//! - leading slashes are gone.

use crate::archive::{is_dir_path, ZipStr};
use crate::errors::Error;
use crate::text::{chars_of, string_of};
use std::borrow::Cow;
use vstd::prelude::*;
use vstd::string::StringSliceAdditionalSpecFns;
use vstd::utf8::{decode_utf8, encode_utf8, valid_utf8};

verus! {

/// Whether the character at `i` of `p` sends the path to the slow way of
/// normalizing: a backslash, a colon, a slash or a dot behind a slash, or a
/// dot behind a dot.
pub open spec fn asks_rewrite_at(p: Seq<char>, i: int) -> bool {
    p[i] == '\\' || p[i] == ':' || (i > 0 && ((p[i - 1] == '/' && (p[i] == '/' || p[i] == '.'))
        || (p[i - 1] == '.' && p[i] == '.')))
}

/// Whether the path needs more than its front taken off.
pub open spec fn needs_rewrite(p: Seq<char>) -> bool {
    exists|i: int| 0 <= i < p.len() && asks_rewrite_at(p, i)
}

/// The index at which what leads the path off ends, from `k` on: behind
/// every `../`, `./` and `/` that stands at the front.
pub open spec fn leading_end(p: Seq<char>, k: int) -> int
    decreases p.len() - k,
{
    if k < 0 {
        k
    } else if k + 3 <= p.len() && p[k] == '.' && p[k + 1] == '.' && p[k + 2] == '/' {
        leading_end(p, k + 3)
    } else if k + 2 <= p.len() && p[k] == '.' && p[k + 1] == '/' {
        leading_end(p, k + 2)
    } else if k + 1 <= p.len() && p[k] == '/' {
        leading_end(p, k + 1)
    } else {
        k
    }
}

/// The path without what leads it off: `../`, `./` and `/`, as often as
/// they stand at its front.
pub open spec fn strip_leading(p: Seq<char>) -> Seq<char> {
    p.subrange(leading_end(p, 0), p.len() as int)
}

/// The path with each backslash turned into a slash.
pub open spec fn slashed(p: Seq<char>) -> Seq<char> {
    Seq::new(
        p.len(),
        |i: int|
            if p[i] == '\\' {
                '/'
            } else {
                p[i]
            },
    )
}

/// The index behind the last `c` at or before index `upto - 1`, or 0.
pub open spec fn after_last(p: Seq<char>, c: char, upto: int) -> int
    decreases upto,
{
    if upto <= 0 {
        0
    } else if p[upto - 1] == c {
        upto
    } else {
        after_last(p, c, upto - 1)
    }
}

/// The index of the first slash of `p` at or after `from`, or its length.
pub open spec fn next_slash(p: Seq<char>, from: int) -> int
    decreases p.len() - from,
{
    if from >= p.len() {
        p.len() as int
    } else if p[from] == '/' {
        from
    } else {
        next_slash(p, from + 1)
    }
}

/// The path `out` without its last component: what stands before its last
/// slash, or nothing.
pub open spec fn without_last(out: Seq<char>) -> Seq<char> {
    let k = after_last(out, '/', out.len() as int);
    if k == 0 {
        Seq::empty()
    } else {
        out.subrange(0, k - 1)
    }
}

/// Whether a component is `.`.
pub open spec fn is_dot(seg: Seq<char>) -> bool {
    seg.len() == 1 && seg[0] == '.'
}

/// Whether a component is `..`.
pub open spec fn is_dot_dot(seg: Seq<char>) -> bool {
    seg.len() == 2 && seg[0] == '.' && seg[1] == '.'
}

/// The path `out` after the component `seg` has had its effect: none for
/// an empty one or `.`, the last component gone for `..`, else the component
/// added, behind a slash where `out` holds any.
pub open spec fn with_component(out: Seq<char>, seg: Seq<char>) -> Seq<char> {
    if seg.len() == 0 || is_dot(seg) {
        out
    } else if is_dot_dot(seg) {
        without_last(out)
    } else if out.len() == 0 {
        seg
    } else {
        out + seq!['/'] + seg
    }
}

/// The path that the components of `p` from `from` on make of `out`.
pub open spec fn resolve_from(p: Seq<char>, from: int, out: Seq<char>) -> Seq<char>
    decreases p.len() - from,
{
    let end = next_slash(p, from);
    if from < 0 || from > p.len() || end < from {
        out
    } else {
        let next = with_component(out, p.subrange(from, end));
        if end >= p.len() {
            next
        } else {
            resolve_from(p, end + 1, next)
        }
    }
}

/// The path made anew: backslashes are slashes, what stands before the
/// last colon is left out, and the components are resolved.
pub open spec fn normalize_alloc_spec(p: Seq<char>) -> Seq<char> {
    let s = slashed(p);
    resolve_from(s, after_last(s, ':', s.len() as int), Seq::empty())
}

/// Whether the path is made anew: it needs more than its front taken off,
/// or what is left behind its front is the component `.`.
pub open spec fn is_made_anew(p: Seq<char>) -> bool {
    needs_rewrite(p) || is_dot(strip_leading(p))
}

/// The normalized path. A path that needs no more than its front taken
/// off keeps the rest as it is, a slash at its end too; any other is made
/// anew.
pub open spec fn normalize_spec(p: Seq<char>) -> Seq<char> {
    if is_made_anew(p) {
        normalize_alloc_spec(p)
    } else {
        strip_leading(p)
    }
}

/// Whether a name must be marked as UTF-8 in an archive: it holds a
/// character outside the range from 0x20 to 0x7D, or a backslash. The tilde
/// is out as well: some code pages have another character in its place.
pub open spec fn needs_utf8(p: Seq<char>) -> bool {
    exists|i: int| 0 <= i < p.len() && !plain_char(p[i])
}

/// Whether a character means the same in all the code pages that archives
/// are read with.
pub open spec fn plain_char(c: char) -> bool {
    0x20 <= c as u32 <= 0x7d && c != '\\'
}

/// Validates `bytes` as UTF-8.
///
/// The wrapped function is `std::str::from_utf8`: it gives the bytes as
/// text where they are valid UTF-8, and an error else.
#[verifier::external_body]
fn text_of_bytes<'a>(bytes: &'a [u8]) -> (r: Result<&'a str, std::str::Utf8Error>)
    ensures
        r is Ok <==> valid_utf8(bytes@),
        r matches Ok(s) ==> s.spec_bytes() == bytes@,
{
    std::str::from_utf8(bytes)
}

/// Whether the path needs more than its front taken off.
fn asks_rewrite(p: &Vec<char>) -> (b: bool)
    ensures
        b == needs_rewrite(p@),
{
    let n = p.len();
    let mut i: usize = 0;
    while i < n
        invariant
            i <= n,
            n == p@.len(),
            forall|j: int| 0 <= j < i ==> !asks_rewrite_at(p@, j),
        decreases n - i,
    {
        let c = p[i];
        if c == '\\' || c == ':' {
            assert(asks_rewrite_at(p@, i as int));
            return true;
        }
        if i > 0 {
            let last = p[i - 1];
            if (last == '/' && (c == '/' || c == '.')) || (last == '.' && c == '.') {
                assert(asks_rewrite_at(p@, i as int));
                return true;
            }
        }
        i += 1;
    }
    false
}

/// How many characters lead the path off.
fn leading_len(p: &Vec<char>) -> (k: usize)
    ensures
        k == leading_end(p@, 0),
        k <= p@.len(),
{
    let n = p.len();
    let mut k: usize = 0;
    loop
        invariant
            k <= n,
            n == p@.len(),
            leading_end(p@, k as int) == leading_end(p@, 0),
        decreases n - k,
    {
        if n - k >= 3 && p[k] == '.' && p[k + 1] == '.' && p[k + 2] == '/' {
            k += 3;
        } else if n - k >= 2 && p[k] == '.' && p[k + 1] == '/' {
            k += 2;
        } else if n - k >= 1 && p[k] == '/' {
            k += 1;
        } else {
            return k;
        }
    }
}

/// The index behind the last `c` of `p`, or 0.
fn index_after_last(p: &Vec<char>, c: char) -> (k: usize)
    ensures
        k == after_last(p@, c, p@.len() as int),
        k <= p@.len(),
{
    let mut k: usize = p.len();
    while k > 0
        invariant
            k <= p@.len(),
            after_last(p@, c, k as int) == after_last(p@, c, p@.len() as int),
        decreases k,
    {
        if p[k - 1] == c {
            return k;
        }
        k -= 1;
    }
    k
}

/// The index of the first slash of `p` at or after `from`, or its length.
fn index_of_slash(p: &Vec<char>, from: usize) -> (k: usize)
    requires
        from <= p@.len(),
    ensures
        k == next_slash(p@, from as int),
        from <= k <= p@.len(),
        forall|j: int| from <= j < k ==> p@[j] != '/',
        k < p@.len() ==> p@[k as int] == '/',
{
    let n = p.len();
    let mut k: usize = from;
    while k < n
        invariant
            from <= k <= n,
            n == p@.len(),
            next_slash(p@, k as int) == next_slash(p@, from as int),
            forall|j: int| from <= j < k ==> p@[j] != '/',
        decreases n - k,
    {
        if p[k] == '/' {
            return k;
        }
        k += 1;
    }
    k
}

/// Lets the component `p[from..end]` have its effect on `out`.
fn push_component(out: &mut Vec<char>, p: &Vec<char>, from: usize, end: usize)
    requires
        from <= end <= p@.len(),
    ensures
        final(out)@ == with_component(old(out)@, p@.subrange(from as int, end as int)),
{
    let ghost seg = p@.subrange(from as int, end as int);
    let len = end - from;
    if len == 0 {
        return ;
    }
    if len == 1 && p[from] == '.' {
        return ;
    }
    if len == 2 && p[from] == '.' && p[from + 1] == '.' {
        let k = index_after_last(out, '/');
        if k == 0 {
            out.clear();
        } else {
            out.truncate(k - 1);
        }
        assert(out@ =~= without_last(old(out)@));
        return ;
    }
    if out.len() > 0 {
        out.push('/');
    }
    let ghost base = out@;
    let mut i: usize = from;
    while i < end
        invariant
            from <= i <= end <= p@.len(),
            out@ == base + p@.subrange(from as int, i as int),
        decreases end - i,
    {
        out.push(p[i]);
        i += 1;
        assert(out@ =~= base + p@.subrange(from as int, i as int));
    }
    assert(out@ =~= with_component(old(out)@, seg));
}

/// Makes the path anew.
fn normalize_alloc_chars(p: &Vec<char>) -> (out: Vec<char>)
    ensures
        out@ == normalize_alloc_spec(p@),
{
    // All slashes are forward slashes.
    let n = p.len();
    let mut s: Vec<char> = Vec::new();
    let mut i: usize = 0;
    while i < n
        invariant
            i <= n,
            n == p@.len(),
            s@ == slashed(p@).subrange(0, i as int),
        decreases n - i,
    {
        let c = p[i];
        s.push(
            if c == '\\' {
                '/'
            } else {
                c
            },
        );
        i += 1;
        assert(s@ =~= slashed(p@).subrange(0, i as int));
    }
    assert(s@ =~= slashed(p@));
    // No drive or device letter.
    let mut from = index_after_last(&s, ':');
    // The components, one by one.
    let mut out: Vec<char> = Vec::new();
    loop
        invariant
            n == s@.len(),
            from <= n,
            resolve_from(s@, from as int, out@) == normalize_alloc_spec(p@),
            s@ == slashed(p@),
        decreases n - from,
    {
        let end = index_of_slash(&s, from);
        push_component(&mut out, &s, from, end);
        if end >= n {
            return out;
        }
        from = end + 1;
    }
}

/// What a path is made of: bytes.
pub trait PathBytes {
    /// The bytes of the path.
    spec fn bytes(&self) -> Seq<u8>;

    /// The bytes of the path.
    fn as_bytes(&self) -> (b: &[u8])
        ensures
            b@ == self.bytes(),
    ;
}

/// A path that is text.
pub trait PathText {
    /// The characters of the path.
    spec fn text(&self) -> Seq<char>;

    /// The path as text.
    fn as_str(&self) -> (s: &str)
        ensures
            s@ == self.text(),
    ;
}

/// Raw path data directly from a ZIP archive.
///
/// **Warning**: the bytes are not validated and may hold malicious path
/// components. [`ZipFilePath::try_normalize()`] makes a safe path of them.
#[derive(Debug, Clone, Copy, PartialEq, Eq, Hash, PartialOrd, Ord)]
pub struct RawPath<'a> {
    data: ZipStr<'a>,
}

/// A normalized and sanitized path from a ZIP archive: one that
/// normalizing leaves as it is.
#[derive(Debug, PartialEq, Eq, Hash, PartialOrd, Ord)]
pub struct NormalizedPath<'a> {
    data: Cow<'a, str>,
}

impl<'a> Clone for NormalizedPath<'a> {
    fn clone(&self) -> (r: Self)
        ensures
            r.text() == self.text(),
    {
        match &self.data {
            Cow::Borrowed(b) => NormalizedPath { data: Cow::Borrowed(*b) },
            Cow::Owned(o) => NormalizedPath { data: Cow::Owned(o.clone()) },
        }
    }
}

/// An owned, normalized path from a ZIP archive.
#[derive(Debug, Clone, PartialEq, Eq, Hash, PartialOrd, Ord)]
pub struct NormalizedPathBuf {
    data: String,
}

impl PathBytes for RawPath<'_> {
    closed spec fn bytes(&self) -> Seq<u8> {
        self.data@
    }

    fn as_bytes(&self) -> (b: &[u8]) {
        self.data.as_bytes()
    }
}

impl PathText for NormalizedPath<'_> {
    closed spec fn text(&self) -> Seq<char> {
        self.data@
    }

    fn as_str(&self) -> (s: &str) {
        match &self.data {
            Cow::Borrowed(b) => b,
            Cow::Owned(o) => o.as_str(),
        }
    }
}

impl PathBytes for NormalizedPath<'_> {
    open spec fn bytes(&self) -> Seq<u8> {
        encode_utf8(self.text())
    }

    fn as_bytes(&self) -> (b: &[u8]) {
        self.as_str().as_bytes()
    }
}

impl PathText for NormalizedPathBuf {
    closed spec fn text(&self) -> Seq<char> {
        self.data@
    }

    fn as_str(&self) -> (s: &str) {
        self.data.as_str()
    }
}

impl PathBytes for NormalizedPathBuf {
    open spec fn bytes(&self) -> Seq<u8> {
        encode_utf8(self.text())
    }

    fn as_bytes(&self) -> (b: &[u8]) {
        self.data.as_str().as_bytes()
    }
}

/// A file path of a ZIP archive, raw or normalized.
#[derive(Debug, Clone, Copy, PartialEq, Eq, Hash, PartialOrd, Ord)]
pub struct ZipFilePath<R> {
    data: R,
}

impl ZipFilePath<()> {
    /// Creates a raw path from bytes.
    ///
    /// **Warning**: The resulting path is unvalidated.
    /// [`ZipFilePath::try_normalize()`] makes a safe path of it.
    pub fn from_bytes(data: &[u8]) -> (p: ZipFilePath<RawPath<'_>>)
        ensures
            p.bytes() == data@,
    {
        ZipFilePath { data: RawPath { data: ZipStr::new(data) } }
    }

    /// Creates a normalized path from a UTF-8 string.
    ///
    /// Where the path needs no more than its front taken off, the text is
    /// borrowed from `name`.
    pub fn from_str(name: &str) -> (p: ZipFilePath<NormalizedPath<'_>>)
        ensures
            p.text() == normalize_spec(name@),
            p.bytes() == encode_utf8(normalize_spec(name@)),
    {
        let chars = chars_of(name);
        let k = leading_len(&chars);
        let lone_dot = chars.len() - k == 1 && chars[k] == '.';
        if lone_dot || asks_rewrite(&chars) {
            // The slow way: the path is made anew.
            return ZipFilePath {
                data: NormalizedPath {
                    data: Cow::Owned(string_of(&normalize_alloc_chars(&chars))),
                },
            };
        }
        let kept: &str = if k == 0 {
            assert(name@.subrange(0, name@.len() as int) =~= name@);
            name
        } else {
            name.substring_char(k, chars.len())
        };
        ZipFilePath { data: NormalizedPath { data: Cow::Borrowed(kept) } }
    }

    /// Makes the path anew: backslashes are slashes, what stands before the
    /// last colon is left out, and the components are resolved.
    pub fn normalize_alloc(s: &str) -> (r: String)
        ensures
            r@ == normalize_alloc_spec(s@),
    {
        string_of(&normalize_alloc_chars(&chars_of(s)))
    }
}

impl<R: PathBytes> ZipFilePath<R> {
    /// The bytes of the path.
    pub closed spec fn bytes(&self) -> Seq<u8> {
        self.data.bytes()
    }

    /// The bytes of the path.
    pub fn as_bytes(&self) -> (b: &[u8])
        ensures
            b@ == self.bytes(),
    {
        self.data.as_bytes()
    }

    /// Returns true if the file path represents a directory: it ends with
    /// a forward slash (`/`).
    pub fn is_dir(&self) -> (b: bool)
        ensures
            b == is_dir_path(self.bytes()),
    {
        let bytes = self.data.as_bytes();
        let n = bytes.len();
        n > 0 && bytes[n - 1] == 0x2f
    }

    /// Returns the length of the path in bytes.
    pub fn len(&self) -> (n: usize)
        ensures
            n == self.bytes().len(),
    {
        self.data.as_bytes().len()
    }

    /// Returns true if the path is empty.
    pub fn is_empty(&self) -> (b: bool)
        ensures
            b == (self.bytes().len() == 0),
    {
        self.data.as_bytes().len() == 0
    }
}

impl<R: PathText> ZipFilePath<R> {
    /// The characters of the path.
    pub closed spec fn text(&self) -> Seq<char> {
        self.data.text()
    }

    /// The path as text.
    pub fn as_str(&self) -> (s: &str)
        ensures
            s@ == self.text(),
    {
        self.data.as_str()
    }

    /// Determines if the path must be marked as UTF-8 in an archive: it
    /// holds a character that does not mean the same in all the code pages
    /// that archives are read with.
    pub fn needs_utf8_encoding(&self) -> (b: bool)
        ensures
            b == needs_utf8(self.text()),
    {
        let chars = chars_of(self.data.as_str());
        let n = chars.len();
        let mut i: usize = 0;
        while i < n
            invariant
                i <= n,
                n == chars@.len(),
                chars@ == self.text(),
                forall|j: int| 0 <= j < i ==> plain_char(chars@[j]),
            decreases n - i,
        {
            let c = chars[i];
            let code_point = c as u32;
            // The tilde and the backslash are localized by some code pages;
            // control characters and all above 0x7d are out as well.
            if !(0x20 <= code_point && code_point <= 0x7d) || c == '\\' {
                assert(!plain_char(chars@[i as int]));
                return true;
            }
            i += 1;
        }
        false
    }
}

impl<'a> ZipFilePath<RawPath<'a>> {
    /// Attempts to normalize this raw path into a safe, validated path.
    ///
    /// Fails with `InvalidUtf8` where the bytes are not valid UTF-8, and
    /// only there.
    pub fn try_normalize(self) -> (r: Result<ZipFilePath<NormalizedPath<'a>>, Error>)
        ensures
            r is Ok <==> valid_utf8(self.bytes()),
            r matches Ok(p) ==> p.text() == normalize_spec(decode_utf8(self.bytes())) && p.bytes()
                == encode_utf8(p.text()),
            r matches Err(e) ==> e@ is InvalidUtf8,
    {
        let raw_data = self.data.data;
        match text_of_bytes(raw_data.as_bytes()) {
            Ok(name) => {
                proof {
                    vstd::utf8::encode_utf8_decode_utf8(name@);
                }
                Ok(ZipFilePath::from_str(name))
            },
            Err(e) => Err(Error::utf8(e)),
        }
    }
}

impl AsRef<[u8]> for ZipFilePath<RawPath<'_>> {
    fn as_ref(&self) -> (b: &[u8])
        ensures
            b@ == self.bytes(),
    {
        self.data.data.as_bytes()
    }
}

impl AsRef<str> for ZipFilePath<NormalizedPath<'_>> {
    fn as_ref(&self) -> (s: &str)
        ensures
            s@ == self.text(),
    {
        self.data.as_str()
    }
}

impl AsRef<str> for ZipFilePath<NormalizedPathBuf> {
    fn as_ref(&self) -> (s: &str)
        ensures
            s@ == self.text(),
    {
        self.data.as_str()
    }
}

impl std::str::FromStr for ZipFilePath<NormalizedPathBuf> {
    type Err = std::convert::Infallible;

    fn from_str(s: &str) -> (r: Result<Self, Self::Err>)
        ensures
            r matches Ok(p) && p.text() == normalize_spec(s@) && p.bytes() == encode_utf8(
                normalize_spec(s@),
            ),
    {
        Ok(ZipFilePath::from_str(s).into_owned())
    }
}

impl ZipFilePath<NormalizedPathBuf> {
    /// Consumes self to return the underlying string.
    pub fn into_string(self) -> (s: String)
        ensures
            s@ == self.text(),
    {
        self.data.data
    }
}

impl<'a> ZipFilePath<NormalizedPath<'a>> {
    /// The text of the path, borrowed where normalizing has left it so.
    pub fn into_cow(self) -> (c: Cow<'a, str>)
        ensures
            c@ == self.text(),
    {
        self.data.data
    }
}

impl ZipFilePath<NormalizedPath<'_>> {
    /// An owned copy of the path.
    pub fn into_owned(self) -> (p: ZipFilePath<NormalizedPathBuf>)
        ensures
            p.text() == self.text(),
            p.bytes() == self.bytes(),
            p.bytes() == encode_utf8(p.text()),
    {
        let data = match self.data.data {
            Cow::Borrowed(b) => b.to_owned(),
            Cow::Owned(o) => o,
        };
        ZipFilePath { data: NormalizedPathBuf { data } }
    }
}

/// The text without the slashes at its end.
pub open spec fn without_trailing_slashes(p: Seq<char>) -> Seq<char>
    decreases p.len(),
{
    if p.len() > 0 && p.last() == '/' {
        without_trailing_slashes(p.drop_last())
    } else {
        p
    }
}

/// The text without the slashes at its end.
pub fn trim_trailing_slashes(name: &str) -> (r: &str)
    ensures
        r@ == without_trailing_slashes(name@),
{
    let chars = chars_of(name);
    let mut n = chars.len();
    assert(chars@.subrange(0, n as int) =~= name@);
    while n > 0 && chars[n - 1] == '/'
        invariant
            n <= chars@.len(),
            chars@ == name@,
            without_trailing_slashes(chars@.subrange(0, n as int)) == without_trailing_slashes(
                name@,
            ),
        decreases n,
    {
        assert(chars@.subrange(0, n as int).drop_last() =~= chars@.subrange(0, n - 1));
        n -= 1;
    }
    if n == chars.len() {
        name
    } else {
        name.substring_char(0, n)
    }
}

/// Whether `i..j` is a component of the path `n`: it reaches from the
/// start or from behind a slash to the end or to a slash, and holds no slash.
pub open spec fn is_component(n: Seq<char>, i: int, j: int) -> bool {
    &&& 0 <= i <= j <= n.len()
    &&& (i == 0 || n[i - 1] == '/')
    &&& (j == n.len() || n[j] == '/')
    &&& forall|k: int| i <= k < j ==> n[k] != '/'
}

/// Whether a path is safe to join to a directory: it holds no backslash
/// and no colon, no two slashes in a row, no slash at its start, and no
/// component `.` or `..`.
pub open spec fn is_safe(n: Seq<char>) -> bool {
    &&& forall|i: int| 0 <= i < n.len() ==> n[i] != '\\' && n[i] != ':'
    &&& forall|i: int| 0 <= i < n.len() - 1 && #[trigger] n[i] == '/' ==> n[i + 1] != '/'
    &&& (n.len() > 0 ==> n[0] != '/')
    &&& forall|i: int, j: int| #[trigger]
        is_component(n, i, j) ==> !is_dot(n.subrange(i, j)) && !is_dot_dot(n.subrange(i, j))
}

/// Whether a path is safe and does not end with a slash.
pub open spec fn is_tidy(n: Seq<char>) -> bool {
    is_safe(n) && (n.len() > 0 ==> n.last() != '/')
}

/// Where the front of a path ends, no `/`, `./` or `../` follows, and a
/// slash stands before unless nothing was taken off.
proof fn lemma_leading_end(p: Seq<char>, k: int)
    requires
        0 <= k <= p.len(),
    ensures
        ({
            let e = leading_end(p, k);
            &&& k <= e <= p.len()
            &&& (e == k || p[e - 1] == '/')
            &&& (e < p.len() ==> p[e] != '/')
            &&& !(e + 2 <= p.len() && p[e] == '.' && p[e + 1] == '/')
            &&& !(e + 3 <= p.len() && p[e] == '.' && p[e + 1] == '.' && p[e + 2] == '/')
        }),
    decreases p.len() - k,
{
    if k + 3 <= p.len() && p[k] == '.' && p[k + 1] == '.' && p[k + 2] == '/' {
        lemma_leading_end(p, k + 3);
    } else if k + 2 <= p.len() && p[k] == '.' && p[k + 1] == '/' {
        lemma_leading_end(p, k + 2);
    } else if k + 1 <= p.len() && p[k] == '/' {
        lemma_leading_end(p, k + 1);
    }
}

/// A path that needs no more than its front taken off is safe without it.
proof fn lemma_stripped_is_safe(p: Seq<char>)
    requires
        !is_made_anew(p),
    ensures
        is_safe(strip_leading(p)),
{
    let e = leading_end(p, 0);
    let n = strip_leading(p);
    lemma_leading_end(p, 0);
    assert forall|i: int| 0 <= i < n.len() implies n[i] != '\\' && n[i] != ':' by {
        assert(!asks_rewrite_at(p, e + i));
    }
    assert forall|i: int| 0 <= i < n.len() - 1 && #[trigger] n[i] == '/' implies n[i + 1]
        != '/' by {
        assert(!asks_rewrite_at(p, e + i + 1));
    }
    assert forall|i: int, j: int| #[trigger] is_component(n, i, j) implies !is_dot(
        n.subrange(i, j),
    ) && !is_dot_dot(n.subrange(i, j)) by {
        let c = n.subrange(i, j);
        if is_dot_dot(c) {
            assert(c[0] == n[i] && c[1] == n[i + 1]);
            assert(asks_rewrite_at(p, e + i + 1));
        }
        if is_dot(c) {
            assert(c[0] == n[i]);
            if i > 0 {
                assert(asks_rewrite_at(p, e + i));
            } else if e > 0 {
                assert(asks_rewrite_at(p, e));
            } else {
                assert(p =~= n);
            }
        }
    }
}

/// Taking the front off a path that has none left does nothing, and what
/// is left of a path that needs no rewriting needs none.
proof fn lemma_stripped_is_fixed(p: Seq<char>)
    requires
        !is_made_anew(p),
    ensures
        normalize_spec(strip_leading(p)) == strip_leading(p),
{
    let e = leading_end(p, 0);
    let n = strip_leading(p);
    lemma_leading_end(p, 0);
    assert forall|i: int| 0 <= i < n.len() implies !asks_rewrite_at(n, i) by {
        assert(!asks_rewrite_at(p, e + i));
    }
    assert(leading_end(n, 0) == 0);
    assert(n.subrange(0, n.len() as int) =~= n);
}

/// The components of a path that a component was added to are those of
/// the path, and the one that was added.
proof fn lemma_components_of_joined(out: Seq<char>, seg: Seq<char>, i: int, j: int)
    requires
        out.len() > 0,
        out.last() != '/',
        forall|k: int| 0 <= k < seg.len() ==> seg[k] != '/',
        is_component(out + seq!['/'] + seg, i, j),
    ensures
        (j <= out.len() && is_component(out, i, j) && (out + seq!['/'] + seg).subrange(i, j)
            == out.subrange(i, j)) || (i == out.len() + 1 && j == out.len() + 1 + seg.len() && (out
            + seq!['/'] + seg).subrange(i, j) == seg),
{
    let n = out + seq!['/'] + seg;
    let m = out.len() as int;
    assert(n[m] == '/');
    if i <= m {
        assert(j <= m) by {
            if j > m {
                assert(n[m] != '/');
            }
        }
        assert(is_component(out, i, j)) by {
            if i > 0 {
                assert(n[i - 1] == out[i - 1]);
            }
            if j < m {
                assert(n[j] == out[j]);
            }
            assert forall|k: int| i <= k < j implies out[k] != '/' by {
                assert(n[k] == out[k]);
            }
        }
        assert(n.subrange(i, j) =~= out.subrange(i, j));
    } else {
        assert(i == m + 1) by {
            if i > m + 1 {
                assert(n[i - 1] == seg[i - 1 - m - 1]);
            }
        }
        assert(j == n.len()) by {
            if j < n.len() {
                assert(n[j] == seg[j - m - 1]);
            }
        }
        assert(n.subrange(i, j) =~= seg);
    }
}

/// The index behind the last slash of a path is that of a slash, and no
/// slash follows.
proof fn lemma_after_last(p: Seq<char>, c: char, upto: int)
    requires
        0 <= upto <= p.len(),
    ensures
        ({
            let k = after_last(p, c, upto);
            &&& 0 <= k <= upto
            &&& (k > 0 ==> p[k - 1] == c)
            &&& forall|t: int| k <= t < upto ==> p[t] != c
        }),
    decreases upto,
{
    if upto > 0 && p[upto - 1] != c {
        lemma_after_last(p, c, upto - 1);
    }
}

/// A tidy path stays tidy when a component has its effect on it, where
/// the component holds no slash, backslash or colon.
proof fn lemma_with_component_tidy(out: Seq<char>, seg: Seq<char>)
    requires
        is_tidy(out),
        forall|k: int| 0 <= k < seg.len() ==> seg[k] != '/' && seg[k] != '\\' && seg[k] != ':',
    ensures
        is_tidy(with_component(out, seg)),
{
    let next = with_component(out, seg);
    if seg.len() == 0 || is_dot(seg) {
    } else if is_dot_dot(seg) {
        let k = after_last(out, '/', out.len() as int);
        lemma_after_last(out, '/', out.len() as int);
        if k > 0 {
            assert(k >= 2);
            assert forall|i: int, j: int| #[trigger] is_component(next, i, j) implies !is_dot(
                next.subrange(i, j),
            ) && !is_dot_dot(next.subrange(i, j)) by {
                assert(is_component(out, i, j)) by {
                    assert forall|t: int| i <= t < j implies out[t] != '/' by {
                        assert(next[t] == out[t]);
                    }
                    if i > 0 {
                        assert(next[i - 1] == out[i - 1]);
                    }
                    if j < next.len() {
                        assert(next[j] == out[j]);
                    }
                }
                assert(next.subrange(i, j) =~= out.subrange(i, j));
            }
        } else {
            assert forall|i: int, j: int| #[trigger] is_component(next, i, j) implies !is_dot(
                next.subrange(i, j),
            ) && !is_dot_dot(next.subrange(i, j)) by {
                assert(next.subrange(i, j).len() == 0);
            }
        }
    } else if out.len() == 0 {
        assert forall|i: int, j: int| #[trigger] is_component(next, i, j) implies !is_dot(
            next.subrange(i, j),
        ) && !is_dot_dot(next.subrange(i, j)) by {
            if i > 0 {
                assert(seg[i - 1] != '/');
            }
            if j < seg.len() {
                assert(seg[j] != '/');
            }
            if i == 0 && j == seg.len() {
                assert(next.subrange(i, j) =~= seg);
            }
        }
    } else {
        assert forall|i: int, j: int| #[trigger] is_component(next, i, j) implies !is_dot(
            next.subrange(i, j),
        ) && !is_dot_dot(next.subrange(i, j)) by {
            lemma_components_of_joined(out, seg, i, j);
        }
        assert forall|i: int| 0 <= i < next.len() - 1 && #[trigger] next[i] == '/' implies next[i
            + 1] != '/' by {
            let m = out.len() as int;
            if i + 1 < m {
                assert(next[i] == out[i] && next[i + 1] == out[i + 1]);
            } else if i + 1 == m {
                assert(next[i] == out.last());
            } else if i == m {
                assert(next[i + 1] == seg[0]);
            } else {
                assert(next[i] == seg[i - m - 1]);
            }
        }
        assert(next[0] == out[0]);
        assert(next.last() == seg.last());
    }
}

/// A tidy path is what its components from `from` on make of what stands
/// before them.
proof fn lemma_resolve_tidy(n: Seq<char>, from: int, out: Seq<char>)
    requires
        is_tidy(n),
        0 <= from <= n.len(),
        from == 0 ==> out.len() == 0,
        from > 0 ==> n[from - 1] == '/' && out == n.subrange(0, from - 1),
    ensures
        resolve_from(n, from, out) == n,
    decreases n.len() - from,
{
    let end = next_slash(n, from);
    lemma_next_slash(n, from);
    let seg = n.subrange(from, end);
    if n.len() == 0 {
        assert(out =~= n);
    } else {
        assert(from < n.len());
        assert(n[from] != '/');
        assert(is_component(n, from, end));
        let next = with_component(out, seg);
        assert(next =~= n.subrange(0, end));
        if end >= n.len() {
            assert(n.subrange(0, end) =~= n);
        } else {
            lemma_resolve_tidy(n, end + 1, next);
        }
    }
}

/// The next slash stands at or behind where it is looked for, and none
/// before it.
proof fn lemma_next_slash(p: Seq<char>, from: int)
    requires
        0 <= from <= p.len(),
    ensures
        ({
            let k = next_slash(p, from);
            &&& from <= k <= p.len()
            &&& (k < p.len() ==> p[k] == '/')
            &&& forall|t: int| from <= t < k ==> p[t] != '/'
        }),
    decreases p.len() - from,
{
    if from < p.len() && p[from] != '/' {
        lemma_next_slash(p, from + 1);
    }
}

/// What the components of a path make of a tidy path is tidy, where the
/// components hold no backslash and no colon.
proof fn lemma_resolve_is_tidy(s: Seq<char>, from: int, out: Seq<char>)
    requires
        is_tidy(out),
        0 <= from <= s.len(),
        forall|k: int| from <= k < s.len() ==> s[k] != '\\' && s[k] != ':',
    ensures
        is_tidy(resolve_from(s, from, out)),
    decreases s.len() - from,
{
    let end = next_slash(s, from);
    lemma_next_slash(s, from);
    let seg = s.subrange(from, end);
    lemma_with_component_tidy(out, seg);
    if end < s.len() {
        lemma_resolve_is_tidy(s, end + 1, with_component(out, seg));
    }
}

/// A path that was made anew is tidy.
proof fn lemma_alloc_is_tidy(p: Seq<char>)
    ensures
        is_tidy(normalize_alloc_spec(p)),
{
    let s = slashed(p);
    let from = after_last(s, ':', s.len() as int);
    lemma_after_last(s, ':', s.len() as int);
    let none = Seq::<char>::empty();
    assert(is_tidy(none)) by {
        assert forall|i: int, j: int| #[trigger] is_component(none, i, j) implies !is_dot(
            none.subrange(i, j),
        ) && !is_dot_dot(none.subrange(i, j)) by {
            assert(none.subrange(i, j).len() == 0);
        }
    }
    lemma_resolve_is_tidy(s, from, none);
}

/// Normalizing leaves a tidy path as it is.
proof fn lemma_tidy_is_fixed(n: Seq<char>)
    requires
        is_tidy(n),
    ensures
        normalize_spec(n) == n,
{
    assert(leading_end(n, 0) == 0) by {
        if n.len() >= 2 && n[0] == '.' && n[1] == '/' {
            assert(is_component(n, 0, 1));
            assert(is_dot(n.subrange(0, 1)));
        }
        if n.len() >= 3 && n[0] == '.' && n[1] == '.' && n[2] == '/' {
            assert(is_component(n, 0, 2));
            assert(is_dot_dot(n.subrange(0, 2)));
        }
    }
    assert(n.subrange(0, n.len() as int) =~= n);
    assert(!is_dot(n)) by {
        if is_dot(n) {
            assert(is_component(n, 0, 1));
        }
    }
    if needs_rewrite(n) {
        assert(slashed(n) =~= n);
        lemma_after_last(n, ':', n.len() as int);
        assert(after_last(n, ':', n.len() as int) == 0);
        lemma_resolve_tidy(n, 0, Seq::empty());
    }
}

/// A normalized path is safe: whatever the path, its normalized form
/// holds no backslash and no colon (so no drive prefix), no two slashes in
/// a row, no slash at its start, and no component `.` or `..`. It may be
/// empty.
pub proof fn lemma_normalized_is_safe(p: Seq<char>)
    ensures
        is_safe(normalize_spec(p)),
{
    if is_made_anew(p) {
        lemma_alloc_is_tidy(p);
    } else {
        lemma_stripped_is_safe(p);
    }
}

/// Normalizing a normalized path leaves it as it is.
pub proof fn lemma_normalize_is_idempotent(p: Seq<char>)
    ensures
        normalize_spec(normalize_spec(p)) == normalize_spec(p),
{
    if is_made_anew(p) {
        lemma_alloc_is_tidy(p);
        lemma_tidy_is_fixed(normalize_spec(p));
    } else {
        lemma_stripped_is_fixed(p);
    }
}

} // verus!
