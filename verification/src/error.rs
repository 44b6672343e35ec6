//! Failures of the archive codec and what kind each one is.

use vstd::prelude::*;

verus! {

/// Why an operation on an archive failed.
#[derive(Clone, Copy, Debug, PartialEq, Eq, Structural)]
pub enum Error {
    /// The input is shorter than a trailer.
    TruncatedTrailer,
    /// The trailer does not begin with the magic marker.
    BadMagic,
    /// The trailer names a format version other than this one.
    UnsupportedVersion,
    /// The table of contents would begin behind the place where the trailer begins.
    TocOutOfBounds,
    /// The table-of-contents area does not hold exactly the recorded number of entries.
    MalformedToc,
    /// An entry covers bytes outside the data area.
    EntryOutOfBounds,
    /// Section data would reach beyond the largest offset the format can record.
    OffsetOverflow,
    /// Bytes were written while no section was open.
    NoOpenSection,
    /// The archive was already finished.
    AlreadyFinished,
    /// A reader was told of more bytes than its section has left.
    ReadPastEnd,
}

/// The two kinds of failure that the codec itself can report.
#[derive(Clone, Copy, Debug, PartialEq, Eq, Structural)]
pub enum ErrorKind {
    /// The bytes are not an archive, or the archive cannot be written in this format.
    Format,
    /// The caller used a writer or reader against its protocol.
    Usage,
}

impl Error {
    /// The kind of this failure.
    pub open spec fn spec_kind(self) -> ErrorKind {
        match self {
            Error::NoOpenSection | Error::AlreadyFinished | Error::ReadPastEnd => ErrorKind::Usage,
            _ => ErrorKind::Format,
        }
    }

    /// The kind of this failure.
    #[verifier::when_used_as_spec(spec_kind)]
    pub fn kind(self) -> (kind: ErrorKind)
        ensures
            kind == self.spec_kind(),
    {
        match self {
            Error::NoOpenSection | Error::AlreadyFinished | Error::ReadPastEnd => ErrorKind::Usage,
            _ => ErrorKind::Format,
        }
    }

    /// Whether the failure says that the bytes are not a well-formed archive.
    pub fn is_format(self) -> (b: bool)
        ensures
            b == (self.spec_kind() == ErrorKind::Format),
    {
        self.kind() == ErrorKind::Format
    }

    /// Whether the failure says that the caller broke the protocol.
    pub fn is_usage(self) -> (b: bool)
        ensures
            b == (self.spec_kind() == ErrorKind::Usage),
    {
        self.kind() == ErrorKind::Usage
    }

    /// A sentence for the user.
    pub fn message(self) -> (text: String)
        ensures
            text@ == self.spec_message(),
    {
        match self {
            Error::TruncatedTrailer => "invalid archive: too short to hold a trailer".to_owned(),
            Error::BadMagic => "invalid archive: magic marker not found".to_owned(),
            Error::UnsupportedVersion => "invalid archive: unsupported format version".to_owned(),
            Error::TocOutOfBounds => "invalid archive: table of contents lies outside the file"
                .to_owned(),
            Error::MalformedToc => "invalid archive: malformed table of contents".to_owned(),
            Error::EntryOutOfBounds => "invalid archive: section lies outside the data area"
                .to_owned(),
            Error::OffsetOverflow => "section data exceeds the 64-bit offset range".to_owned(),
            Error::NoOpenSection => "no section is open".to_owned(),
            Error::AlreadyFinished => "the archive is already finished".to_owned(),
            Error::ReadPastEnd => "more bytes consumed than the section has left".to_owned(),
        }
    }

    /// The text of `message`.
    pub open spec fn spec_message(self) -> Seq<char> {
        match self {
            Error::TruncatedTrailer => "invalid archive: too short to hold a trailer"@,
            Error::BadMagic => "invalid archive: magic marker not found"@,
            Error::UnsupportedVersion => "invalid archive: unsupported format version"@,
            Error::TocOutOfBounds => "invalid archive: table of contents lies outside the file"@,
            Error::MalformedToc => "invalid archive: malformed table of contents"@,
            Error::EntryOutOfBounds => "invalid archive: section lies outside the data area"@,
            Error::OffsetOverflow => "section data exceeds the 64-bit offset range"@,
            Error::NoOpenSection => "no section is open"@,
            Error::AlreadyFinished => "the archive is already finished"@,
            Error::ReadPastEnd => "more bytes consumed than the section has left"@,
        }
    }
}

} // verus!
