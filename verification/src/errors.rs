//! The error type shared by the reader and the writer.

use crate::text::{
    decimal,
    hexadecimal,
    push_decimal,
    push_hexadecimal,
    push_text,
    string_of,
};
use vstd::prelude::*;

verus! {

/// `std::io::Error`, the failure of a reader: carried through, never looked
/// into.
#[verifier::external_type_specification]
#[verifier::external_body]
pub struct ExIoError(std::io::Error);

/// `std::str::Utf8Error`, the failure of a UTF-8 validation: carried
/// through, never looked into.
#[verifier::external_type_specification]
#[verifier::external_body]
pub struct ExUtf8Error(std::str::Utf8Error);

/// The kind of error that occurred.
#[derive(Debug)]
#[non_exhaustive]
#[allow(inconsistent_fields)]
pub enum ErrorKind {
    /// Missing end of central directory.
    MissingEndOfCentralDirectory,
    /// Missing zip64 end of central directory.
    MissingZip64EndOfCentralDirectory,
    /// Buffer size too small.
    BufferTooSmall,
    /// A structure does not start with the signature it must have.
    InvalidSignature { expected: u32, actual: u32 },
    /// The checksum of the inflated data is not the recorded one.
    InvalidChecksum { expected: u32, actual: u32 },
    /// The size of the inflated data is not the recorded one.
    InvalidSize { expected: u64, actual: u64 },
    /// Invalid UTF-8 sequence.
    InvalidUtf8(std::str::Utf8Error),
    /// An invalid input error with associated message.
    InvalidInput { msg: String },
    /// An error of the underlying reader.
    IO(std::io::Error),
    /// An unexpected end of file.
    Eof,
}

/// An error that occurred while reading or writing a zip file.
#[derive(Debug)]
pub struct Error {
    inner: Box<ErrorKind>,
}

impl View for Error {
    type V = ErrorKind;

    closed spec fn view(&self) -> ErrorKind {
        *self.inner
    }
}

impl Error {
    /// An error that wraps a failure of the underlying reader.
    pub fn io(err: std::io::Error) -> (e: Error)
        ensures
            e@ == ErrorKind::IO(err),
    {
        Error { inner: Box::new(ErrorKind::IO(err)) }
    }

    /// An error that wraps a failed UTF-8 validation.
    pub fn utf8(err: std::str::Utf8Error) -> (e: Error)
        ensures
            e@ == ErrorKind::InvalidUtf8(err),
    {
        Error { inner: Box::new(ErrorKind::InvalidUtf8(err)) }
    }

    /// Whether the data ended before a structure was complete.
    pub fn is_eof(&self) -> (b: bool)
        ensures
            b == (self@ is Eof),
    {
        match &*self.inner {
            ErrorKind::Eof => true,
            _ => false,
        }
    }

    /// The kind of error that occurred.
    pub fn kind(&self) -> (k: &ErrorKind)
        ensures
            *k == self@,
    {
        &*self.inner
    }
}

impl From<ErrorKind> for Error {
    fn from(kind: ErrorKind) -> (e: Error) {
        Error { inner: Box::new(kind) }
    }
}

impl vstd::std_specs::convert::FromSpecImpl<ErrorKind> for Error {
    open spec fn obeys_from_spec() -> bool {
        true
    }

    closed spec fn from_spec(kind: ErrorKind) -> Error {
        Error { inner: Box::new(kind) }
    }
}

impl From<std::io::Error> for ErrorKind {
    fn from(err: std::io::Error) -> (k: ErrorKind) {
        ErrorKind::IO(err)
    }
}

impl vstd::std_specs::convert::FromSpecImpl<std::io::Error> for ErrorKind {
    open spec fn obeys_from_spec() -> bool {
        true
    }

    open spec fn from_spec(err: std::io::Error) -> ErrorKind {
        ErrorKind::IO(err)
    }
}

/// An error of the given kind.
pub fn error_of(kind: ErrorKind) -> (e: Error)
    ensures
        e@ == kind,
{
    Error { inner: Box::new(kind) }
}

/// What an executable result says, with the error reduced to its kind.
pub open spec fn outcome<T>(r: Result<T, Error>) -> Result<T, ErrorKind> {
    match r {
        Ok(v) => Ok(v),
        Err(e) => Err(e@),
    }
}

/// The text of a failure of the underlying reader.
///
/// The wrapped function is the `Display` of `std::io::Error`.
#[verifier::external_body]
fn io_error_text(err: &std::io::Error) -> (s: String) {
    format!("{}", err)
}

/// The text of a failed UTF-8 validation.
///
/// The wrapped function is the `Display` of `std::str::Utf8Error`.
#[verifier::external_body]
fn utf8_error_text(err: &std::str::Utf8Error) -> (s: String) {
    format!("{}", err)
}

/// The text of an error, but for the kinds that wrap an error of another
/// origin: those have the text of that error, behind `Invalid UTF-8: ` for
/// a failed UTF-8 validation.
pub open spec fn kind_text(kind: ErrorKind) -> Seq<char> {
    match kind {
        ErrorKind::MissingEndOfCentralDirectory => "Missing end of central directory"@,
        ErrorKind::MissingZip64EndOfCentralDirectory => "Missing zip64 end of central directory"@,
        ErrorKind::BufferTooSmall => "Buffer size too small"@,
        ErrorKind::Eof => "Unexpected end of file"@,
        ErrorKind::InvalidSignature { expected, actual } => "Invalid signature: expected 0x"@
            + hexadecimal(expected as nat, 8) + ", got 0x"@ + hexadecimal(actual as nat, 8),
        ErrorKind::InvalidChecksum { expected, actual } => "Invalid checksum: expected 0x"@
            + hexadecimal(expected as nat, 8) + ", got 0x"@ + hexadecimal(actual as nat, 8),
        ErrorKind::InvalidSize { expected, actual } => "Invalid size: expected "@ + decimal(
            expected as nat,
            1,
        ) + ", got "@ + decimal(actual as nat, 1),
        ErrorKind::InvalidInput { msg } => "Invalid input: "@ + msg@,
        ErrorKind::InvalidUtf8(_) => "Invalid UTF-8: "@,
        ErrorKind::IO(_) => Seq::empty(),
    }
}

impl ErrorKind {
    /// The error as text.
    pub fn to_string(&self) -> (s: String)
        ensures
            match self {
                ErrorKind::IO(_) => true,
                ErrorKind::InvalidUtf8(_) => s@.len() >= kind_text(*self).len() && s@.subrange(
                    0,
                    kind_text(*self).len() as int,
                ) == kind_text(*self),
                _ => s@ == kind_text(*self),
            },
    {
        let mut out: Vec<char> = Vec::new();
        match self {
            ErrorKind::IO(err) => {
                return io_error_text(err);
            },
            ErrorKind::MissingEndOfCentralDirectory => {
                push_text(&mut out, "Missing end of central directory");
            },
            ErrorKind::MissingZip64EndOfCentralDirectory => {
                push_text(&mut out, "Missing zip64 end of central directory");
            },
            ErrorKind::BufferTooSmall => {
                push_text(&mut out, "Buffer size too small");
            },
            ErrorKind::Eof => {
                push_text(&mut out, "Unexpected end of file");
            },
            ErrorKind::InvalidSignature { expected, actual } => {
                push_text(&mut out, "Invalid signature: expected 0x");
                assert(out@ =~= "Invalid signature: expected 0x"@);
                push_hexadecimal(&mut out, *expected as u64, 8);
                push_text(&mut out, ", got 0x");
                push_hexadecimal(&mut out, *actual as u64, 8);
            },
            ErrorKind::InvalidChecksum { expected, actual } => {
                push_text(&mut out, "Invalid checksum: expected 0x");
                assert(out@ =~= "Invalid checksum: expected 0x"@);
                push_hexadecimal(&mut out, *expected as u64, 8);
                push_text(&mut out, ", got 0x");
                push_hexadecimal(&mut out, *actual as u64, 8);
            },
            ErrorKind::InvalidSize { expected, actual } => {
                push_text(&mut out, "Invalid size: expected ");
                assert(out@ =~= "Invalid size: expected "@);
                push_decimal(&mut out, *expected, 1);
                push_text(&mut out, ", got ");
                push_decimal(&mut out, *actual, 1);
            },
            ErrorKind::InvalidUtf8(err) => {
                push_text(&mut out, "Invalid UTF-8: ");
                assert(out@ =~= "Invalid UTF-8: "@);
                let detail = utf8_error_text(err);
                push_text(&mut out, detail.as_str());
                assert(out@.subrange(0, "Invalid UTF-8: "@.len() as int) =~= "Invalid UTF-8: "@);
            },
            ErrorKind::InvalidInput { msg } => {
                push_text(&mut out, "Invalid input: ");
                assert(out@ =~= "Invalid input: "@);
                push_text(&mut out, msg.as_str());
            },
        }
        string_of(&out)
    }
}

impl Error {
    /// The error as text.
    pub fn to_string(&self) -> (s: String)
        ensures
            match self@ {
                ErrorKind::IO(_) => true,
                ErrorKind::InvalidUtf8(_) => s@.len() >= kind_text(self@).len() && s@.subrange(
                    0,
                    kind_text(self@).len() as int,
                ) == kind_text(self@),
                _ => s@ == kind_text(self@),
            },
    {
        self.inner.to_string()
    }
}

} // verus!
