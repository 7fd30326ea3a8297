//! Error taxonomy of the collection pipeline.
//!
//! Every error aborts the whole in-progress collection: the virtual
//! filesystem is treated as either fully self-consistent or broken.

use vstd::prelude::*;

verus! {

/// Mathematical form of a discovery error.
pub enum GDiscoveryError {
    /// A root entry that is not a canonical filesystem identifier.
    MalformedIdentifier { name: Seq<char> },
    /// A `dev-` entry whose suffix is not a non-negative integer.
    MalformedDeviceName { name: Seq<char> },
}

/// Enumerating filesystems or devices failed.
#[derive(Debug, PartialEq, Eq)]
pub enum DiscoveryError {
    /// A root entry that is not a canonical filesystem identifier.
    MalformedIdentifier { name: String },
    /// A `dev-` entry whose suffix is not a non-negative integer.
    MalformedDeviceName { name: String },
}

impl View for DiscoveryError {
    type V = GDiscoveryError;

    open spec fn view(&self) -> GDiscoveryError {
        match self {
            DiscoveryError::MalformedIdentifier { name } => GDiscoveryError::MalformedIdentifier {
                name: name@,
            },
            DiscoveryError::MalformedDeviceName { name } => GDiscoveryError::MalformedDeviceName {
                name: name@,
            },
        }
    }
}

/// Mathematical form of an extraction error.
pub enum GExtractionError {
    MissingLink,
    MissingAttribute,
    UnexpectedFormat,
    InvalidNumber { text: Seq<char> },
}

/// Reading one device's pseudo-files failed.
#[derive(Debug, PartialEq, Eq)]
pub enum ExtractionError {
    /// The block-device symlink is absent or carries no final segment.
    MissingLink,
    /// An expected attribute file is absent.
    MissingAttribute,
    /// The allocation table's header or a row shape does not match the
    /// on-disk contract.
    UnexpectedFormat,
    /// Numeric or unit text that does not parse, kept for diagnostics.
    InvalidNumber { text: String },
}

impl View for ExtractionError {
    type V = GExtractionError;

    open spec fn view(&self) -> GExtractionError {
        match self {
            ExtractionError::MissingLink => GExtractionError::MissingLink,
            ExtractionError::MissingAttribute => GExtractionError::MissingAttribute,
            ExtractionError::UnexpectedFormat => GExtractionError::UnexpectedFormat,
            ExtractionError::InvalidNumber { text } => GExtractionError::InvalidNumber {
                text: text@,
            },
        }
    }
}

/// Mathematical form of a collection error.
pub enum GCollectError {
    Discovery(GDiscoveryError),
    Extraction(GExtractionError),
}

/// Any failure of a full collection pass.
#[derive(Debug, PartialEq, Eq)]
pub enum CollectError {
    Discovery(DiscoveryError),
    Extraction(ExtractionError),
}

impl View for CollectError {
    type V = GCollectError;

    open spec fn view(&self) -> GCollectError {
        match self {
            CollectError::Discovery(e) => GCollectError::Discovery(e@),
            CollectError::Extraction(e) => GCollectError::Extraction(e@),
        }
    }
}

} // verus!
