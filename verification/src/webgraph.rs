//! The graph as a set of shards, and the answering of queries across them.

use crate::error::Error;
use crate::query::Query;
use crate::searcher::Searcher;
use vstd::prelude::*;

verus! {

/// What the nodes of the graph are: hosts, or pages.
#[derive(Clone, Copy, Debug, PartialEq, Eq)]
pub enum WebgraphGranularity {
    Host,
    Page,
}

/// The graph: one searcher for each shard.
#[derive(Debug)]
pub struct Webgraph {
    pub shards: Vec<Searcher>,
}

impl Webgraph {
    /// The graph of these shards.
    pub fn new(shards: Vec<Searcher>) -> (r: Webgraph)
        ensures
            r.shards@ == shards@,
    {
        Webgraph { shards }
    }

    /// Every shard has one searcher, and no shard has more segments than
    /// can be numbered.
    pub open spec fn wf(&self) -> bool {
        &&& forall|i: int|
            0 <= i < self.shards@.len() ==> (#[trigger] self.shards@[i]).segments@.len() <= u32::MAX
        &&& forall|i: int, j: int|
            0 <= i < j < self.shards@.len() ==> (#[trigger] self.shards@[i]).shard != (
            #[trigger] self.shards@[j]).shard
    }

    /// Whether every shard has one searcher, and no shard has more segments
    /// than can be numbered.
    pub fn is_valid(&self) -> (r: bool)
        ensures
            r == self.wf(),
    {
        let mut i: usize = 0;
        while i < self.shards.len()
            invariant
                i <= self.shards.len(),
                forall|k: int|
                    0 <= k < i ==> (#[trigger] self.shards@[k]).segments@.len() <= u32::MAX,
                forall|k: int, l: int|
                    0 <= k < l < i ==> (#[trigger] self.shards@[k]).shard != (
                    #[trigger] self.shards@[l]).shard,
            decreases self.shards.len() - i,
        {
            if self.shards[i].segments.len() > u32::MAX as usize {
                return false;
            }
            let mut k: usize = 0;
            while k < i
                invariant
                    k <= i < self.shards.len(),
                    forall|l: int| 0 <= l < k ==> (#[trigger] self.shards@[l]).shard != self.shards@[i as int].shard,
                decreases i - k,
            {
                if self.shards[k].shard == self.shards[i].shard {
                    return false;
                }
                k += 1;
            }
            i += 1;
        }
        true
    }

    /// What the first `n` shards collect, shard by shard, or the first
    /// reason why one of them fails.
    pub open spec fn fruits<Q: Query>(&self, query: &Q, n: nat) -> Result<Seq<Q::FruitView>, Error>
        decreases n,
    {
        if n == 0 {
            Ok(Seq::empty())
        } else {
            match self.fruits(query, (n - 1) as nat) {
                Err(e) => Err(e),
                Ok(fruits) => match query.local_fruit(&self.shards@[n - 1]) {
                    Err(e) => Err(e),
                    Ok(fruit) => Ok(fruits.push(fruit)),
                },
            }
        }
    }

    /// What the first `n` shards retrieve, each for its own part of the
    /// merged fruit, or the first reason why one of them fails.
    pub open spec fn outputs<Q: Query>(&self, query: &Q, merged: Q::FruitView, n: nat) -> Result<
        Seq<Q::IntermediateView>,
        Error,
    >
        decreases n,
    {
        if n == 0 {
            Ok(Seq::empty())
        } else {
            match self.outputs(query, merged, (n - 1) as nat) {
                Err(e) => Err(e),
                Ok(outputs) => match query.retrieved(
                    &self.shards@[n - 1],
                    query.shard_fruit(self.shards@[n - 1].shard, merged),
                ) {
                    Err(e) => Err(e),
                    Ok(output) => Ok(outputs.push(output)),
                },
            }
        }
    }

    /// The answer to a query: every shard collects its fruit; the fruits are
    /// merged; every shard retrieves what the merged fruit holds of its own;
    /// and what the shards retrieved is merged. Fails with the first failure
    /// of a shard.
    pub open spec fn answer<Q: Query>(&self, query: &Q) -> Result<Q::OutputView, Error> {
        match self.fruits(query, self.shards@.len()) {
            Err(e) => Err(e),
            Ok(fruits) => match self.outputs(
                query,
                query.merged_fruit(fruits),
                self.shards@.len(),
            ) {
                Err(e) => Err(e),
                Ok(outputs) => Ok(Q::merged_results(outputs)),
            },
        }
    }

    proof fn lemma_fruits_fail<Q: Query>(&self, query: &Q, i: nat, n: nat)
        requires
            i < n,
            self.fruits(query, i) is Ok,
            query.local_fruit(&self.shards@[i as int]) is Err,
        ensures
            self.fruits(query, n) is Err,
            self.fruits(query, n)->Err_0 == query.local_fruit(&self.shards@[i as int])->Err_0,
        decreases n,
    {
        if n > i + 1 {
            self.lemma_fruits_fail(query, i, (n - 1) as nat);
        }
    }

    proof fn lemma_outputs_fail<Q: Query>(&self, query: &Q, merged: Q::FruitView, i: nat, n: nat)
        requires
            i < n,
            self.outputs(query, merged, i) is Ok,
            query.retrieved(
                &self.shards@[i as int],
                query.shard_fruit(self.shards@[i as int].shard, merged),
            ) is Err,
        ensures
            self.outputs(query, merged, n) is Err,
            self.outputs(query, merged, n)->Err_0 == query.retrieved(
                &self.shards@[i as int],
                query.shard_fruit(self.shards@[i as int].shard, merged),
            )->Err_0,
        decreases n,
    {
        if n > i + 1 {
            self.lemma_outputs_fail(query, merged, i, (n - 1) as nat);
        }
    }

    /// Answers a query.
    pub fn search<Q: Query>(&self, query: &Q) -> (r: Result<Q::Output, Error>)
        requires
            self.wf(),
        ensures
            match self.answer(query) {
                Ok(o) => r matches Ok(x) && Q::output_view(&x) == o,
                Err(e) => r matches Err(x) && x == e,
            },
    {
        let n = self.shards.len();
        let mut fruits: Vec<Q::Fruit> = Vec::new();
        let mut i: usize = 0;
        proof {
            assert(fruits@.map_values(|f: Q::Fruit| Q::fruit_view(&f)) =~= Seq::<
                Q::FruitView,
            >::empty());
        }
        while i < n
            invariant
                i <= n,
                n == self.shards@.len(),
                self.wf(),
                self.fruits(query, i as nat) == Ok::<Seq<Q::FruitView>, Error>(
                    fruits@.map_values(|f: Q::Fruit| Q::fruit_view(&f)),
                ),
            decreases n - i,
        {
            let ghost before = fruits@.map_values(|f: Q::Fruit| Q::fruit_view(&f));
            match query.search_shard(&self.shards[i]) {
                Err(e) => {
                    proof {
                        self.lemma_fruits_fail(query, i as nat, n as nat);
                    }
                    return Err(e);
                },
                Ok(fruit) => {
                    let ghost view = Q::fruit_view(&fruit);
                    fruits.push(fruit);
                    proof {
                        assert(fruits@.map_values(|f: Q::Fruit| Q::fruit_view(&f)) =~= before.push(
                            view,
                        ));
                    }
                },
            }
            i += 1;
        }
        let merged = query.merge_fruits(fruits);
        let ghost merged_view = Q::fruit_view(&merged);
        let mut outputs: Vec<Q::IntermediateOutput> = Vec::new();
        let mut j: usize = 0;
        proof {
            assert(outputs@.map_values(|o: Q::IntermediateOutput| Q::intermediate_view(&o))
                =~= Seq::<Q::IntermediateView>::empty());
        }
        while j < n
            invariant
                j <= n,
                n == self.shards@.len(),
                self.fruits(query, n as nat) is Ok,
                merged_view == Q::fruit_view(&merged),
                merged_view == query.merged_fruit(self.fruits(query, n as nat)->Ok_0),
                self.outputs(query, merged_view, j as nat) == Ok::<Seq<Q::IntermediateView>, Error>(
                    outputs@.map_values(|o: Q::IntermediateOutput| Q::intermediate_view(&o)),
                ),
            decreases n - j,
        {
            let ghost before = outputs@.map_values(
                |o: Q::IntermediateOutput| Q::intermediate_view(&o),
            );
            let searcher = &self.shards[j];
            let part = query.filter_fruit_shards(searcher.shard(), Q::copy_fruit(&merged));
            match query.retrieve(searcher, part) {
                Err(e) => {
                    proof {
                        self.lemma_outputs_fail(query, merged_view, j as nat, n as nat);
                    }
                    return Err(e);
                },
                Ok(output) => {
                    let ghost view = Q::intermediate_view(&output);
                    outputs.push(output);
                    proof {
                        assert(outputs@.map_values(
                            |o: Q::IntermediateOutput| Q::intermediate_view(&o),
                        ) =~= before.push(view));
                    }
                },
            }
            j += 1;
        }
        Ok(Q::merge_results(outputs))
    }
}

} // verus!
