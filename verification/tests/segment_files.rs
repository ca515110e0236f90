use webgraph_core::error::{Error, MissingPart};
use webgraph_core::inverted_index::{inverted_index, FieldFiles, IndexRecordOption, InvertedIndexReader};
use webgraph_core::segment_component::SegmentComponent;
use webgraph_core::segment_files::{FileSlice, FoundFiles, SegmentFiles};

fn slice(start: u64, stop: u64) -> FileSlice {
    FileSlice { start, stop }
}

fn all_found() -> FoundFiles {
    FoundFiles {
        terms: Some(slice(0, 10)),
        store: Some(slice(10, 30)),
        postings: Some(slice(30, 60)),
        positions: Some(slice(60, 100)),
        column_fields: Some(slice(100, 150)),
        field_norms: Some(slice(150, 210)),
        row_fields: Some(slice(210, 280)),
    }
}

#[test]
fn a_segment_opens_with_all_files_but_positions() {
    let files = SegmentFiles::open(all_found()).unwrap();
    assert_eq!(files.terms, slice(0, 10));
    assert_eq!(files.positions, Some(slice(60, 100)));
    assert_eq!(files.row_fields, slice(210, 280));

    let without = FoundFiles { positions: None, ..all_found() };
    assert_eq!(SegmentFiles::open(without).unwrap().positions, None);

    let missing = |found: FoundFiles| SegmentFiles::open(found).err();
    assert_eq!(missing(FoundFiles { terms: None, ..all_found() }), Some(Error::FileDoesNotExist(SegmentComponent::Terms)));
    assert_eq!(missing(FoundFiles { store: None, ..all_found() }), Some(Error::FileDoesNotExist(SegmentComponent::Store)));
    assert_eq!(
        missing(FoundFiles { postings: None, ..all_found() }),
        Some(Error::FileDoesNotExist(SegmentComponent::Postings))
    );
    assert_eq!(
        missing(FoundFiles { column_fields: None, ..all_found() }),
        Some(Error::FileDoesNotExist(SegmentComponent::ColumnFields))
    );
    assert_eq!(
        missing(FoundFiles { field_norms: None, ..all_found() }),
        Some(Error::FileDoesNotExist(SegmentComponent::FieldNorms))
    );
    assert_eq!(
        missing(FoundFiles { row_fields: None, ..all_found() }),
        Some(Error::FileDoesNotExist(SegmentComponent::RowFields))
    );
    // the first file that is not there is named
    assert_eq!(
        missing(FoundFiles { store: None, row_fields: None, terms: None, ..all_found() }),
        Some(Error::FileDoesNotExist(SegmentComponent::Terms))
    );
    assert_eq!(
        missing(FoundFiles { row_fields: None, postings: None, ..all_found() }),
        Some(Error::FileDoesNotExist(SegmentComponent::Postings))
    );
    assert!(!Error::FileDoesNotExist(SegmentComponent::Terms).message().is_empty());
}

#[test]
fn the_room_of_a_segment_is_that_of_its_files() {
    let files = SegmentFiles::open(all_found()).unwrap();
    let usage = files.space_usage(4);
    assert_eq!(usage.num_docs, 4);
    assert_eq!(usage.termdict, 10);
    assert_eq!(usage.store, 20);
    assert_eq!(usage.postings, 30);
    assert_eq!(usage.positions, 40);
    assert_eq!(usage.column_fields, 50);
    assert_eq!(usage.fieldnorms, 60);
    assert_eq!(usage.row_fields, 70);
    assert_eq!(usage.total, 280);

    let without = SegmentFiles::open(FoundFiles { positions: None, ..all_found() }).unwrap();
    assert_eq!(without.space_usage(0).positions, 0);
    assert_eq!(without.space_usage(0).total, 240);

    let large = SegmentFiles { terms: slice(0, u64::MAX), store: slice(0, u64::MAX), ..files };
    assert_eq!(large.space_usage(0).total, 2 * u64::MAX as u128 + 250);
    assert_eq!(slice(7, 3).len(), 0);
    assert_eq!(slice(3, 3).len(), 0);
}

#[test]
fn the_inverted_index_of_a_field() {
    let a = slice(0, 5);
    let b = slice(5, 9);
    let c = slice(9, 20);
    let all = FieldFiles { postings: Some(a), termdict: Some(b), positions: Some(c) };
    assert_eq!(
        inverted_index(Some(IndexRecordOption::WithFreqs), all),
        Ok(InvertedIndexReader::Files {
            termdict: b,
            postings: a,
            positions: c,
            record_option: IndexRecordOption::WithFreqs
        })
    );
    // a field that is not indexed has an empty index
    assert_eq!(inverted_index(None, all), Ok(InvertedIndexReader::Empty(IndexRecordOption::Basic)));
    // so has a field that no document has
    let none = FieldFiles { postings: None, termdict: None, positions: None };
    assert_eq!(
        inverted_index(Some(IndexRecordOption::WithFreqsAndPositions), none),
        Ok(InvertedIndexReader::Empty(IndexRecordOption::WithFreqsAndPositions))
    );
    assert_eq!(inverted_index(None, none), Ok(InvertedIndexReader::Empty(IndexRecordOption::Basic)));
    assert_eq!(
        inverted_index(Some(IndexRecordOption::Basic), FieldFiles { termdict: None, ..all }),
        Err(Error::DataCorruption(MissingPart::TermDictionary))
    );
    assert_eq!(
        inverted_index(Some(IndexRecordOption::Basic), FieldFiles { positions: None, ..all }),
        Err(Error::DataCorruption(MissingPart::Positions))
    );
    assert_eq!(
        inverted_index(Some(IndexRecordOption::Basic), FieldFiles { positions: None, termdict: None, ..all }),
        Err(Error::DataCorruption(MissingPart::TermDictionary))
    );
    assert!(Error::DataCorruption(MissingPart::Positions).message().contains("positions"));
}
