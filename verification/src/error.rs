use vstd::prelude::*;

verus! {

/// Why a save could not be read or written.
#[derive(Debug, Clone, Copy, PartialEq, Eq, Structural)]
pub enum Error {
    /// The container names a codec that is not handled (`OTTD`, `OTTZ`), or
    /// its magic is none of the five known ones.
    UnsupportedCompression,
    /// The codec reported an error while compressing or decompressing.
    CompressionFailure,
    /// The input ended inside a value, a gamma, a string or a row.
    Truncated,
    /// A schema repeats a key, uses an unknown type tag, or its number of
    /// sub-schemas differs from its number of struct properties.
    MalformedSchema,
    /// A row and its declared size, or a row and its schema, disagree.
    SizeMismatch,
    /// Bytes that were asked for as text are not valid UTF-8.
    InvalidUtf8,
    /// A length does not fit the width the wire gives it.
    IntegerOverflow,
    /// A chunk whose shape is none of the five known ones, or whose tag is
    /// the all-zero terminator.
    InvalidChunk,
}

/// A parser's outcome `res` is the one its specification `model` gives: the
/// same value, seen through its view, and the same end position, or the same
/// error.
pub open spec fn agrees<T: View>(
    res: Result<(T, usize), Error>,
    model: Result<(T::V, int), Error>,
) -> bool {
    match (res, model) {
        (Ok((v, p)), Ok((m, q))) => v@ == m && p as int == q,
        (Err(e), Err(f)) => e == f,
        _ => false,
    }
}

impl Error {
    /// A short description, fit for a log line.
    pub fn message(&self) -> (s: &'static str)
        ensures
            s@ == spec_message(*self),
    {
        match self {
            Error::UnsupportedCompression => "unsupported compression",
            Error::CompressionFailure => "compression failure",
            Error::Truncated => "truncated input",
            Error::MalformedSchema => "malformed schema",
            Error::SizeMismatch => "size mismatch",
            Error::InvalidUtf8 => "invalid UTF-8",
            Error::IntegerOverflow => "integer overflow",
            Error::InvalidChunk => "invalid chunk",
        }
    }
}

/// The text that [`Error::message`] gives for each kind.
pub open spec fn spec_message(e: Error) -> Seq<char> {
    match e {
        Error::UnsupportedCompression => "unsupported compression"@,
        Error::CompressionFailure => "compression failure"@,
        Error::Truncated => "truncated input"@,
        Error::MalformedSchema => "malformed schema"@,
        Error::SizeMismatch => "size mismatch"@,
        Error::InvalidUtf8 => "invalid UTF-8"@,
        Error::IntegerOverflow => "integer overflow"@,
        Error::InvalidChunk => "invalid chunk"@,
    }
}

} // verus!
