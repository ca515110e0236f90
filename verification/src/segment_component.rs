//! The parts that a segment is stored in.

use vstd::prelude::*;

verus! {

/// Enum describing each component of a segment. Each component is stored
/// in its own file.
#[derive(Copy, Clone, Debug, Eq, PartialEq, Structural)]
pub enum SegmentComponent {
    /// Postings (or inverted list). Sorted lists of document ids, associated with terms
    Postings,
    /// Positions of terms in each document.
    Positions,
    /// Column-oriented random-access storage of fields.
    ColumnFields,
    /// Row-oriented random-access storage of fields.
    RowFields,
    /// Stores the sum of the length (in terms) of each field for each document.
    FieldNorms,
    /// Dictionary associating terms to the places of their postings and
    /// positions.
    Terms,
    /// Row-oriented, compressed storage of the documents.
    Store,
    /// Temporary storage of the documents, before streamed to `Store`.
    TempStore,
}

/// The components, in the order in which they are gone through.
pub open spec fn segment_components() -> Seq<SegmentComponent> {
    seq![
        SegmentComponent::Postings,
        SegmentComponent::Positions,
        SegmentComponent::ColumnFields,
        SegmentComponent::RowFields,
        SegmentComponent::FieldNorms,
        SegmentComponent::Terms,
        SegmentComponent::Store,
        SegmentComponent::TempStore,
    ]
}

impl SegmentComponent {
    /// The components to go through.
    pub fn iterator() -> (r: Vec<SegmentComponent>)
        ensures
            r@ == segment_components(),
    {
        let mut components: Vec<SegmentComponent> = Vec::new();
        components.push(SegmentComponent::Postings);
        components.push(SegmentComponent::Positions);
        components.push(SegmentComponent::ColumnFields);
        components.push(SegmentComponent::RowFields);
        components.push(SegmentComponent::FieldNorms);
        components.push(SegmentComponent::Terms);
        components.push(SegmentComponent::Store);
        components.push(SegmentComponent::TempStore);
        proof {
            assert(components@ =~= segment_components());
        }
        components
    }
}

} // verus!
