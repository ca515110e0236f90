//! What can go wrong while a query is answered.

use crate::column::FieldEnum;
use crate::doc_address::DocAddress;
use crate::segment_component::SegmentComponent;
use vstd::prelude::*;

verus! {

/// Why a query failed.
#[derive(Clone, Copy, Debug, PartialEq, Eq)]
pub enum Error {
    /// A collector was asked for a segment before it was given the opened
    /// columns.
    MissingColumnFields,
    /// A collector was asked for a segment before it was told its shard.
    MissingShardId,
    /// A collector that collapses hosts was asked for a segment before it
    /// was told the field that holds the host.
    MissingHostField,
    /// The columns of a segment were not opened.
    SegmentNotWarmed,
    /// A field that the query cannot do without has no column in a segment.
    FieldNotFound(FieldEnum),
    /// An address names a segment or a document that the shard does not
    /// have.
    DocumentNotFound(DocAddress),
    /// A stored edge could not be read.
    CorruptDocument(DocAddress),
    /// A document that was to be explained does not match the query.
    DocumentDoesNotMatch(u32),
    /// A part of a segment that must be there is not: the segment is
    /// corrupt, or the schema was changed.
    DataCorruption(MissingPart),
    /// The file of a component of a segment does not exist.
    FileDoesNotExist(SegmentComponent),
}

/// A part of the inverted index of a field.
#[derive(Clone, Copy, Debug, PartialEq, Eq)]
pub enum MissingPart {
    TermDictionary,
    Positions,
}

impl Error {
    /// The message of the error.
    pub open spec fn message_text(&self) -> Seq<char> {
        match *self {
            Error::MissingColumnFields => {
                "Warmed column fields must be set to construct segment collector"@
            },
            Error::MissingShardId => "Shard id must be set to construct segment collector"@,
            Error::MissingHostField => "Host field must be set to deduplicate by host"@,
            Error::SegmentNotWarmed => "Column fields of the segment were not warmed"@,
            Error::FieldNotFound(FieldEnum::SortScore) => "sort_score column not found"@,
            Error::FieldNotFound(_) => "Field missing from index"@,
            Error::DocumentNotFound(_) => "Document not found"@,
            Error::CorruptDocument(_) => "Stored document could not be read"@,
            Error::DocumentDoesNotMatch(_) => "Document does not match"@,
            Error::DataCorruption(MissingPart::TermDictionary) => {
                "Failed to open the field's term dictionary in the composite file. Has the schema been modified?"@
            },
            Error::DataCorruption(MissingPart::Positions) => {
                "Failed to open the field's positions in the composite file. Has the schema been modified?"@
            },
            Error::FileDoesNotExist(_) => "File does not exist"@,
        }
    }

    /// The message of the error.
    pub fn message(&self) -> (r: &'static str)
        ensures
            r@ == self.message_text(),
    {
        match *self {
            Error::MissingColumnFields => {
                "Warmed column fields must be set to construct segment collector"
            },
            Error::MissingShardId => "Shard id must be set to construct segment collector",
            Error::MissingHostField => "Host field must be set to deduplicate by host",
            Error::SegmentNotWarmed => "Column fields of the segment were not warmed",
            Error::FieldNotFound(FieldEnum::SortScore) => "sort_score column not found",
            Error::FieldNotFound(_) => "Field missing from index",
            Error::DocumentNotFound(_) => "Document not found",
            Error::CorruptDocument(_) => "Stored document could not be read",
            Error::DocumentDoesNotMatch(_) => "Document does not match",
            Error::DataCorruption(MissingPart::TermDictionary) => {
                "Failed to open the field's term dictionary in the composite file. Has the schema been modified?"
            },
            Error::DataCorruption(MissingPart::Positions) => {
                "Failed to open the field's positions in the composite file. Has the schema been modified?"
            },
            Error::FileDoesNotExist(_) => "File does not exist",
        }
    }
}

} // verus!
