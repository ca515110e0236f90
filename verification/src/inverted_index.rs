//! The inverted index of a field in a segment: which of its parts are
//! read.

use crate::error::{Error, MissingPart};
use crate::segment_files::FileSlice;
use vstd::prelude::*;

verus! {

/// What is recorded of a term in a document.
#[derive(Clone, Copy, Debug, PartialEq, Eq)]
pub enum IndexRecordOption {
    /// That the term occurs.
    Basic,
    /// How often the term occurs.
    WithFreqs,
    /// How often and where the term occurs.
    WithFreqsAndPositions,
}

/// The parts of a segment that hold the inverted index of one field, as
/// far as the segment has them.
#[derive(Clone, Copy, Debug, PartialEq, Eq)]
pub struct FieldFiles {
    pub postings: Option<FileSlice>,
    pub termdict: Option<FileSlice>,
    pub positions: Option<FileSlice>,
}

/// What the inverted index of a field is read from.
#[derive(Clone, Copy, Debug, PartialEq, Eq)]
pub enum InvertedIndexReader {
    /// Nothing: no document of the segment has the field, or the field is
    /// not indexed.
    Empty(IndexRecordOption),
    /// The three parts.
    Files { termdict: FileSlice, postings: FileSlice, positions: FileSlice, record_option: IndexRecordOption },
}

/// What the inverted index of a field is read from. A field that is not
/// indexed, and a field without postings, has an empty index, which records
/// what the field records, or the least where the field is not indexed.
/// Where there are postings, the term dictionary and the positions must be
/// there too.
pub open spec fn reader_for(record_option: Option<IndexRecordOption>, files: FieldFiles) -> Result<
    InvertedIndexReader,
    Error,
> {
    match (record_option, files.postings) {
        (Some(record_option), Some(postings)) => match files.termdict {
            None => Err(Error::DataCorruption(MissingPart::TermDictionary)),
            Some(termdict) => match files.positions {
                None => Err(Error::DataCorruption(MissingPart::Positions)),
                Some(positions) => Ok(
                    InvertedIndexReader::Files { termdict, postings, positions, record_option },
                ),
            },
        },
        (Some(record_option), None) => Ok(InvertedIndexReader::Empty(record_option)),
        (None, _) => Ok(InvertedIndexReader::Empty(IndexRecordOption::Basic)),
    }
}

/// Decides what the inverted index of a field is read from. `record_option`
/// says what the field records, if it is indexed.
pub fn inverted_index(record_option_opt: Option<IndexRecordOption>, files: FieldFiles) -> (r: Result<
    InvertedIndexReader,
    Error,
>)
    ensures
        r == reader_for(record_option_opt, files),
{
    let postings_file_opt = files.postings;

    if postings_file_opt.is_none() || record_option_opt.is_none() {
        // no document of the segment has the field: an empty inverted index
        let record_option = match record_option_opt {
            Some(record_option) => record_option,
            None => IndexRecordOption::Basic,
        };
        return Ok(InvertedIndexReader::Empty(record_option));
    }
    let record_option = record_option_opt.unwrap();
    let postings = postings_file_opt.unwrap();

    let termdict = match files.termdict {
        Some(termdict) => termdict,
        None => {
            return Err(Error::DataCorruption(MissingPart::TermDictionary));
        },
    };

    let positions = match files.positions {
        Some(positions) => positions,
        None => {
            return Err(Error::DataCorruption(MissingPart::Positions));
        },
    };

    Ok(InvertedIndexReader::Files { termdict, postings, positions, record_option })
}

} // verus!
