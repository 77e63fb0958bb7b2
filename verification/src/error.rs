use vstd::prelude::*;

verus! {

/// Everything that can go wrong while framing, laying out or reading a container.
///
/// Every variant is fatal to the conversion it occurs in; nothing is retried.
#[derive(Clone, Copy, Debug, PartialEq, Eq, Structural)]
pub enum Error {
    /// A key/value entry is truncated or has no NUL terminator after its key.
    MalformedMetadata,
    /// The requested supercompression scheme cannot be framed.
    UnsupportedSupercompressionScheme,
    /// The recorded uncompressed length does not match the decompressed output.
    DecompressionLengthMismatch,
    /// No mapping exists for the requested pixel-format conversion.
    UnsupportedPixelFormat,
    /// The index table or a section runs past the end of the input.
    TruncatedContainer,
    /// The input does not start with the container identifier.
    BadIdentifier,
    /// An outside codec reported that it failed on a level.
    CodecFailed,
    /// A length or offset does not fit the field that has to hold it.
    ContainerTooLarge,
}

impl Error {
    /// What the error says of itself.
    pub open spec fn description(self) -> Seq<char> {
        match self {
            Error::MalformedMetadata => "malformed key/value metadata"@,
            Error::UnsupportedSupercompressionScheme => "unsupported supercompression scheme"@,
            Error::DecompressionLengthMismatch => "decompressed length mismatch"@,
            Error::UnsupportedPixelFormat => "unsupported pixel format"@,
            Error::TruncatedContainer => "truncated container"@,
            Error::BadIdentifier => "bad container identifier"@,
            Error::CodecFailed => "codec failed"@,
            Error::ContainerTooLarge => "container too large"@,
        }
    }

    /// A short description of the error for people to read.
    pub fn message(&self) -> (text: &'static str)
        ensures
            text@ == self.description(),
    {
        match self {
            Error::MalformedMetadata => "malformed key/value metadata",
            Error::UnsupportedSupercompressionScheme => "unsupported supercompression scheme",
            Error::DecompressionLengthMismatch => "decompressed length mismatch",
            Error::UnsupportedPixelFormat => "unsupported pixel format",
            Error::TruncatedContainer => "truncated container",
            Error::BadIdentifier => "bad container identifier",
            Error::CodecFailed => "codec failed",
            Error::ContainerTooLarge => "container too large",
        }
    }
}

} // verus!
