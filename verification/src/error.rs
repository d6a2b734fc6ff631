use vstd::prelude::*;

verus! {

/// Why a byte sequence could not be decoded.
#[derive(Clone, Copy, Debug, PartialEq, Eq, Structural)]
pub enum FormatError {
    /// The file does not start with the magic of the expected format.
    BadMagic,
    /// A field or payload reaches past the bytes that are available.
    Truncated,
    /// A value is out of its range: a palette id, a pixel index or a
    /// pixel position outside the declared image.
    Corrupt,
    /// A type tag that no decoder is known for.
    UnknownType,
}

impl FormatError {
    /// A short reason for summaries.
    pub fn reason(self) -> (text: &'static str)
        ensures
            text@ == match self {
                FormatError::BadMagic => "bad magic"@,
                FormatError::Truncated => "truncated"@,
                FormatError::Corrupt => "corrupt"@,
                FormatError::UnknownType => "unknown type"@,
            },
    {
        match self {
            FormatError::BadMagic => "bad magic",
            FormatError::Truncated => "truncated",
            FormatError::Corrupt => "corrupt",
            FormatError::UnknownType => "unknown type",
        }
    }
}

} // verus!
