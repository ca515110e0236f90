//! The files of a segment: which of them must be there to open it, and how
//! much room they take.

use crate::error::Error;
use crate::segment_component::SegmentComponent;
use vstd::prelude::*;

verus! {

/// A part of a file, by the places of its first byte and of the byte
/// behind its last.
#[derive(Clone, Copy, Debug, PartialEq, Eq)]
pub struct FileSlice {
    pub start: u64,
    pub stop: u64,
}

impl FileSlice {
    /// The number of bytes; none where the part ends before it starts.
    pub open spec fn size(&self) -> u64 {
        if self.start <= self.stop {
            (self.stop - self.start) as u64
        } else {
            0
        }
    }

    /// The number of bytes.
    pub fn len(&self) -> (r: u64)
        ensures
            r == self.size(),
    {
        if self.start <= self.stop {
            self.stop - self.start
        } else {
            0
        }
    }
}

/// The files of a segment, as far as they were found.
#[derive(Clone, Copy, Debug, PartialEq, Eq)]
pub struct FoundFiles {
    pub terms: Option<FileSlice>,
    pub store: Option<FileSlice>,
    pub postings: Option<FileSlice>,
    pub positions: Option<FileSlice>,
    pub column_fields: Option<FileSlice>,
    pub field_norms: Option<FileSlice>,
    pub row_fields: Option<FileSlice>,
}

/// The files of an opened segment. A segment without positions has no
/// file for them.
#[derive(Clone, Copy, Debug, PartialEq, Eq)]
pub struct SegmentFiles {
    pub terms: FileSlice,
    pub store: FileSlice,
    pub postings: FileSlice,
    pub positions: Option<FileSlice>,
    pub column_fields: FileSlice,
    pub field_norms: FileSlice,
    pub row_fields: FileSlice,
}

/// How much room a segment takes, in bytes.
#[derive(Clone, Copy, Debug, PartialEq, Eq)]
pub struct SegmentSpaceUsage {
    pub num_docs: u32,
    pub termdict: u64,
    pub postings: u64,
    pub positions: u64,
    pub column_fields: u64,
    pub row_fields: u64,
    pub fieldnorms: u64,
    pub store: u64,
    pub total: u128,
}

/// The files of a segment that is opened, or the first file that is not
/// there of those that must be: terms, store, postings, column fields, field
/// norms and row fields, in that order.
pub open spec fn opened_files(found: FoundFiles) -> Result<SegmentFiles, Error> {
    match found.terms {
        None => Err(Error::FileDoesNotExist(SegmentComponent::Terms)),
        Some(terms) => match found.store {
            None => Err(Error::FileDoesNotExist(SegmentComponent::Store)),
            Some(store) => match found.postings {
                None => Err(Error::FileDoesNotExist(SegmentComponent::Postings)),
                Some(postings) => match found.column_fields {
                    None => Err(Error::FileDoesNotExist(SegmentComponent::ColumnFields)),
                    Some(column_fields) => match found.field_norms {
                        None => Err(Error::FileDoesNotExist(SegmentComponent::FieldNorms)),
                        Some(field_norms) => match found.row_fields {
                            None => Err(Error::FileDoesNotExist(SegmentComponent::RowFields)),
                            Some(row_fields) => Ok(
                                SegmentFiles {
                                    terms,
                                    store,
                                    postings,
                                    positions: found.positions,
                                    column_fields,
                                    field_norms,
                                    row_fields,
                                },
                            ),
                        },
                    },
                },
            },
        },
    }
}

impl SegmentFiles {
    /// Open a new segment for reading.
    pub fn open(found: FoundFiles) -> (r: Result<SegmentFiles, Error>)
        ensures
            r == opened_files(found),
    {
        let terms = match found.terms {
            Some(file) => file,
            None => {
                return Err(Error::FileDoesNotExist(SegmentComponent::Terms));
            },
        };
        let store = match found.store {
            Some(file) => file,
            None => {
                return Err(Error::FileDoesNotExist(SegmentComponent::Store));
            },
        };
        let postings = match found.postings {
            Some(file) => file,
            None => {
                return Err(Error::FileDoesNotExist(SegmentComponent::Postings));
            },
        };
        let positions = found.positions;
        let column_fields = match found.column_fields {
            Some(file) => file,
            None => {
                return Err(Error::FileDoesNotExist(SegmentComponent::ColumnFields));
            },
        };
        let field_norms = match found.field_norms {
            Some(file) => file,
            None => {
                return Err(Error::FileDoesNotExist(SegmentComponent::FieldNorms));
            },
        };
        let row_fields = match found.row_fields {
            Some(file) => file,
            None => {
                return Err(Error::FileDoesNotExist(SegmentComponent::RowFields));
            },
        };
        Ok(SegmentFiles { terms, store, postings, positions, column_fields, field_norms, row_fields })
    }

    /// The room that the positions take: none where there are none.
    pub open spec fn positions_size(&self) -> u64 {
        match self.positions {
            Some(file) => file.size(),
            None => 0,
        }
    }

    /// Summarize total space usage of this segment.
    pub fn space_usage(&self, num_docs: u32) -> (r: SegmentSpaceUsage)
        ensures
            r.num_docs == num_docs,
            r.termdict == self.terms.size(),
            r.postings == self.postings.size(),
            r.positions == self.positions_size(),
            r.column_fields == self.column_fields.size(),
            r.row_fields == self.row_fields.size(),
            r.fieldnorms == self.field_norms.size(),
            r.store == self.store.size(),
            r.total == r.termdict + r.postings + r.positions + r.column_fields + r.row_fields
                + r.fieldnorms + r.store,
    {
        let termdict = self.terms.len();
        let postings = self.postings.len();
        let positions = match self.positions {
            Some(file) => file.len(),
            None => 0,
        };
        let column_fields = self.column_fields.len();
        let row_fields = self.row_fields.len();
        let fieldnorms = self.field_norms.len();
        let store = self.store.len();
        let total: u128 = termdict as u128 + postings as u128 + positions as u128
            + column_fields as u128 + row_fields as u128 + fieldnorms as u128 + store as u128;
        SegmentSpaceUsage {
            num_docs,
            termdict,
            postings,
            positions,
            column_fields,
            row_fields,
            fieldnorms,
            store,
            total,
        }
    }
}

} // verus!
