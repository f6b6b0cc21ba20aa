//! The errors of this library.

use vstd::prelude::*;

verus! {

/// The two binary arrays that make up a scan's peaks.
#[derive(Debug, Clone, Copy, PartialEq, Eq)]
pub enum ArrayKind {
    Mz,
    Intensity,
}

/// The categories of index section that a file must have once it has an
/// index at all.
#[derive(Debug, Clone, Copy, PartialEq, Eq)]
pub enum IndexKind {
    Spectrum,
}

/// What went wrong while opening a file or reading one of its scans.
#[derive(Debug, Clone, PartialEq, Eq)]
pub enum MzMLParseError {
    /// The document, or an extracted fragment of it, is not well-formed.
    MzMLFormatError(String),
    /// The file has an index, but no section of the named category.
    IndexMissingError(IndexKind),
    /// No offset is recorded for the scan with this id.
    UnknownIdError(String),
    /// The closing tag was not found before the end of the file or before
    /// the given number of bytes was read.
    BoundaryNotFoundError(usize),
    /// The text of a binary array is not valid standard base64. The kind
    /// of array is given where the array was decoded as part of a scan's
    /// peaks.
    Base64DecodeError(Option<ArrayKind>),
    /// The bytes of a binary array are not a valid zlib stream; the kind is
    /// given as for `Base64DecodeError`.
    ZlibDecodeError(Option<ArrayKind>),
    /// A binary array declares a float width other than 32 or 64 bits; the
    /// kind is given as for `Base64DecodeError`.
    UnsupportedPrecisionError(u8, Option<ArrayKind>),
    /// The scan has no binary array of this kind.
    MissingArrayError(ArrayKind),
    /// Two lengths that must agree do not: the decoded m/z and intensity
    /// lengths, or, where those agree, the decoded length and the scan's
    /// declared peak count (in that order).
    ArrayLengthMismatchError(usize, usize),
}

/// The error of decoding one array, with the kind of that array recorded.
pub open spec fn in_array(e: MzMLParseError, k: ArrayKind) -> MzMLParseError {
    match e {
        MzMLParseError::Base64DecodeError(_) => MzMLParseError::Base64DecodeError(Some(k)),
        MzMLParseError::ZlibDecodeError(_) => MzMLParseError::ZlibDecodeError(Some(k)),
        MzMLParseError::UnsupportedPrecisionError(w, _) => MzMLParseError::UnsupportedPrecisionError(w, Some(k)),
        _ => e,
    }
}

/// Records the kind of array whose decoding failed.
pub fn tag_array(e: MzMLParseError, k: ArrayKind) -> (r: MzMLParseError)
    ensures
        r == in_array(e, k),
{
    match e {
        MzMLParseError::Base64DecodeError(_) => MzMLParseError::Base64DecodeError(Some(k)),
        MzMLParseError::ZlibDecodeError(_) => MzMLParseError::ZlibDecodeError(Some(k)),
        MzMLParseError::UnsupportedPrecisionError(w, _) => MzMLParseError::UnsupportedPrecisionError(w, Some(k)),
        _ => e,
    }
}

} // verus!
