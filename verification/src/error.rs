//! The ways in which reading an archive can fail.

use vstd::prelude::*;
use vstd::string::StringExecFns;

verus! {

/// Why a read was abandoned.
#[derive(Debug, PartialEq, Eq)]
pub enum ReadError {
    /// The bytes are not a 7z archive, or break the layout of one.
    Invalid7z,
    /// A stored checksum does not match the bytes it guards.
    CrcInvalid,
    /// The archive is well formed but uses something this crate cannot read.
    UnsupportedFeature { feat: String, reason: String },
    /// The byte source ended before the bytes asked for.
    Io,
}

/// The mathematical value of a [`ReadError`]: the same cases, with the texts
/// as character sequences.
pub enum ReadFailure {
    Invalid7z,
    CrcInvalid,
    UnsupportedFeature { feat: Seq<char>, reason: Seq<char> },
    Io,
}

impl View for ReadError {
    type V = ReadFailure;

    open spec fn view(&self) -> ReadFailure {
        match self {
            ReadError::Invalid7z => ReadFailure::Invalid7z,
            ReadError::CrcInvalid => ReadFailure::CrcInvalid,
            ReadError::UnsupportedFeature { feat, reason } => ReadFailure::UnsupportedFeature {
                feat: feat@,
                reason: reason@,
            },
            ReadError::Io => ReadFailure::Io,
        }
    }
}

/// What is reported when an archive header carries archive properties.
pub open spec fn archive_properties_unsupported() -> ReadFailure {
    ReadFailure::UnsupportedFeature {
        feat: "ArchiveProperties in Header"@,
        reason: "I cannot find any actual information on what data this contains or how to implement it."@,
    }
}

/// What is reported when the folders of an unpack-info block are stored
/// outside of it.
pub open spec fn external_folders_unsupported() -> ReadFailure {
    ReadFailure::UnsupportedFeature {
        feat: "Non-inline folder information"@,
        reason: "This feature is more complex, and is being omitted in the initial implementation."@,
    }
}

/// What is reported for a substream-info block.
pub open spec fn substream_info_unsupported() -> ReadFailure {
    ReadFailure::UnsupportedFeature {
        feat: "SubstreamInfo"@,
        reason: "The layout of this block is not settled."@,
    }
}

/// What is reported for a files-info block.
pub open spec fn files_info_unsupported() -> ReadFailure {
    ReadFailure::UnsupportedFeature {
        feat: "FilesInfo"@,
        reason: "The layout of this block is not settled."@,
    }
}

/// The text that describes a failure.
pub open spec fn message_of(failure: ReadFailure) -> Seq<char> {
    match failure {
        ReadFailure::Invalid7z => "The file is not valid 7z!"@,
        ReadFailure::CrcInvalid => "CRC validation failed! File corruption suspected."@,
        ReadFailure::UnsupportedFeature { feat, reason } =>
            "A feature has been encountered that is unsupported.\nFeature: "@ + feat
                + "\nReason: "@ + reason,
        ReadFailure::Io => "An I/O error has occurred."@,
    }
}

impl ReadError {
    /// The text that describes the error.
    pub fn message(&self) -> (r: String)
        ensures
            r@ == message_of(self@),
    {
        match self {
            ReadError::Invalid7z => "The file is not valid 7z!".to_owned(),
            ReadError::CrcInvalid => "CRC validation failed! File corruption suspected.".to_owned(),
            ReadError::UnsupportedFeature { feat, reason } => {
                let mut text =
                    "A feature has been encountered that is unsupported.\nFeature: ".to_owned();
                text.append(feat.as_str());
                text.append("\nReason: ");
                text.append(reason.as_str());
                text
            },
            ReadError::Io => "An I/O error has occurred.".to_owned(),
        }
    }

    /// The error for archive properties in an archive header.
    pub fn archive_properties() -> (e: ReadError)
        ensures
            e@ == archive_properties_unsupported(),
    {
        ReadError::UnsupportedFeature {
            feat: "ArchiveProperties in Header".to_owned(),
            reason: "I cannot find any actual information on what data this contains or how to implement it.".to_owned(),
        }
    }

    /// The error for folders that are stored outside of their block.
    pub fn external_folders() -> (e: ReadError)
        ensures
            e@ == external_folders_unsupported(),
    {
        ReadError::UnsupportedFeature {
            feat: "Non-inline folder information".to_owned(),
            reason: "This feature is more complex, and is being omitted in the initial implementation.".to_owned(),
        }
    }

    /// The error for a substream-info block.
    pub fn substream_info() -> (e: ReadError)
        ensures
            e@ == substream_info_unsupported(),
    {
        ReadError::UnsupportedFeature {
            feat: "SubstreamInfo".to_owned(),
            reason: "The layout of this block is not settled.".to_owned(),
        }
    }

    /// The error for a files-info block.
    pub fn files_info() -> (e: ReadError)
        ensures
            e@ == files_info_unsupported(),
    {
        ReadError::UnsupportedFeature {
            feat: "FilesInfo".to_owned(),
            reason: "The layout of this block is not settled.".to_owned(),
        }
    }
}

} // verus!
