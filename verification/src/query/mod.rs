//! Queries: what is asked of the graph, and how the answer is put together
//! from the shards.




pub mod backlink;
pub mod forwardlink;
pub mod group_by;
pub mod links;

use crate::doc_address::ShardId;
use crate::error::Error;
use crate::index_query::{IndexQuery, IndexQueryView};
use crate::searcher::Searcher;
use vstd::prelude::*;

verus! {

/// A question to the graph, with the way to answer it in two phases: each
/// shard collects a fruit, which is cheap; the fruits are merged; then each
/// shard retrieves what is left of its own part, which is not cheap, and the
/// results are merged into the answer.
pub trait Query: Sized {
    /// What one shard collects, and what the merge of such is.
    type Fruit;

    /// What a fruit holds.
    type FruitView;

    /// What one shard retrieves for a fruit.
    type IntermediateOutput;

    /// What an intermediate output holds.
    type IntermediateView;

    /// The answer.
    type Output;

    /// What an answer holds.
    type OutputView;

    /// What a fruit holds.
    spec fn fruit_view(fruit: &Self::Fruit) -> Self::FruitView;

    /// What an intermediate output holds.
    spec fn intermediate_view(output: &Self::IntermediateOutput) -> Self::IntermediateView;

    /// What an answer holds.
    spec fn output_view(output: &Self::Output) -> Self::OutputView;

    /// The query that a shard's index is scanned with.
    spec fn scan(&self) -> IndexQueryView;

    /// What a shard collects.
    spec fn local_fruit(&self, searcher: &Searcher) -> Result<Self::FruitView, Error>;

    /// The merge of fruits.
    spec fn merged_fruit(&self, fruits: Seq<Self::FruitView>) -> Self::FruitView;

    /// The part of a merged fruit that belongs to a shard.
    spec fn shard_fruit(&self, shard_id: ShardId, fruit: Self::FruitView) -> Self::FruitView;

    /// What a shard retrieves for a fruit.
    spec fn retrieved(&self, searcher: &Searcher, fruit: Self::FruitView) -> Result<
        Self::IntermediateView,
        Error,
    >;

    /// The answer that the shards' results merge into.
    spec fn merged_results(results: Seq<Self::IntermediateView>) -> Self::OutputView;

    /// Builds the query that a shard's index is scanned with.
    fn index_query(&self, searcher: &Searcher) -> (q: IndexQuery)
        ensures
            q@ == self.scan(),
    ;

    /// The local phase on one shard: scans the index and collects what the
    /// scan gives.
    fn search_shard(&self, searcher: &Searcher) -> (r: Result<Self::Fruit, Error>)
        requires
            searcher.segments@.len() <= u32::MAX,
        ensures
            match self.local_fruit(searcher) {
                Ok(f) => r matches Ok(x) && Self::fruit_view(&x) == f,
                Err(e) => r matches Err(x) && x == e,
            },
    ;

    /// Merges the fruits of shards, or of the replicas of a shard.
    fn merge_fruits(&self, fruits: Vec<Self::Fruit>) -> (r: Self::Fruit)
        ensures
            Self::fruit_view(&r) == self.merged_fruit(
                fruits@.map_values(|f: Self::Fruit| Self::fruit_view(&f)),
            ),
    ;

    /// A copy of a fruit.
    fn copy_fruit(fruit: &Self::Fruit) -> (r: Self::Fruit)
        ensures
            Self::fruit_view(&r) == Self::fruit_view(fruit),
    ;

    /// Drops from a merged fruit what does not belong to the shard.
    fn filter_fruit_shards(&self, shard_id: ShardId, fruit: Self::Fruit) -> (r: Self::Fruit)
        ensures
            Self::fruit_view(&r) == self.shard_fruit(shard_id, Self::fruit_view(&fruit)),
    ;

    /// Turns what a fruit refers to into nodes and edges.
    fn retrieve(&self, searcher: &Searcher, fruit: Self::Fruit) -> (r: Result<
        Self::IntermediateOutput,
        Error,
    >)
        ensures
            match self.retrieved(searcher, Self::fruit_view(&fruit)) {
                Ok(o) => r matches Ok(x) && Self::intermediate_view(&x) == o,
                Err(e) => r matches Err(x) && x == e,
            },
    ;

    /// Merges the results of the shards into the answer.
    fn merge_results(results: Vec<Self::IntermediateOutput>) -> (r: Self::Output)
        ensures
            Self::output_view(&r) == Self::merged_results(
                results@.map_values(|o: Self::IntermediateOutput| Self::intermediate_view(&o)),
            ),
    ;
}

} // verus!
