//! Scorers: the steps of a ranking pipeline, each of which may change the
//! pages that it is given.

use vstd::prelude::*;

verus! {

/// What is asked of the search.
#[derive(Clone, Debug, Default, PartialEq, Eq)]
pub struct SearchQuery {
    pub query: String,
}

/// A step of a ranking pipeline.
pub trait Scorer<T> {
    /// What the scorer makes of pages. As long as a scorer does not say
    /// otherwise, it leaves them as they are.
    open spec fn scored(&self, pages: Seq<T>) -> Seq<T> {
        pages
    }

    /// What the scorer makes of pages once it was told what is asked. As
    /// long as a scorer does not say otherwise, that changes nothing.
    open spec fn scored_for(&self, query: SearchQuery, pages: Seq<T>) -> Seq<T> {
        self.scored(pages)
    }

    /// Scores the pages.
    fn score(&self, webpages: &mut [T])
        ensures
            final(webpages)@ == self.scored(old(webpages)@),
    ;

    /// Tells the scorer what is asked.
    fn set_query_info(&mut self, query: &SearchQuery)
        ensures
            forall|pages: Seq<T>| #[trigger]
                final(self).scored(pages) == old(self).scored_for(*query, pages),
    ;
}

/// The scorer that leaves every page as it is.
#[derive(Clone, Copy, Debug)]
pub struct IdentityScorer;

impl<T> Scorer<T> for IdentityScorer {
    fn score(&self, _webpages: &mut [T]) {
    }

    fn set_query_info(&mut self, _query: &SearchQuery) {
    }
}

/// What scorers make of pages, scoring one after the other.
pub open spec fn scored_in_turn<T>(scorers: Seq<Box<dyn Scorer<T>>>, pages: Seq<T>) -> Seq<T>
    decreases scorers.len(),
{
    if scorers.len() == 0 {
        pages
    } else {
        scorers.last().scored(scored_in_turn(scorers.drop_last(), pages))
    }
}

/// What scorers make of pages, scoring one after the other, once each was
/// told what is asked.
pub open spec fn scored_in_turn_for<T>(
    scorers: Seq<Box<dyn Scorer<T>>>,
    query: SearchQuery,
    pages: Seq<T>,
) -> Seq<T>
    decreases scorers.len(),
{
    if scorers.len() == 0 {
        pages
    } else {
        scorers.last().scored_for(query, scored_in_turn_for(scorers.drop_last(), query, pages))
    }
}

/// Where each scorer of `after` scores as the scorer of `before` in its
/// place does once told what is asked, so do all of them in turn.
proof fn lemma_told_in_turn<T>(
    before: Seq<Box<dyn Scorer<T>>>,
    after: Seq<Box<dyn Scorer<T>>>,
    query: SearchQuery,
    pages: Seq<T>,
)
    requires
        before.len() == after.len(),
        forall|j: int, p: Seq<T>|
            0 <= j < before.len() ==> #[trigger] after[j].scored(p) == before[j].scored_for(
                query,
                p,
            ),
    ensures
        scored_in_turn(after, pages) == scored_in_turn_for(before, query, pages),
    decreases before.len(),
{
    if before.len() > 0 {
        lemma_told_in_turn(before.drop_last(), after.drop_last(), query, pages);
        let so_far = scored_in_turn(after.drop_last(), pages);
        assert(after[after.len() - 1].scored(so_far) == before[before.len() - 1].scored_for(
            query,
            so_far,
        ));
    }
}

/// Scorers that score one after the other.
#[verifier::reject_recursive_types(T)]
pub struct MultiScorer<T> {
    pub scorers: Vec<Box<dyn Scorer<T>>>,
}

impl<T> MultiScorer<T> {
    /// The scorer that scores with each of `scorers` in turn.
    pub fn new(scorers: Vec<Box<dyn Scorer<T>>>) -> (r: Self)
        ensures
            r.scorers@ == scorers@,
    {
        Self { scorers }
    }
}

impl<T> Scorer<T> for MultiScorer<T> {
    open spec fn scored(&self, pages: Seq<T>) -> Seq<T> {
        scored_in_turn(self.scorers@, pages)
    }

    open spec fn scored_for(&self, query: SearchQuery, pages: Seq<T>) -> Seq<T> {
        scored_in_turn_for(self.scorers@, query, pages)
    }

    fn score(&self, webpages: &mut [T]) {
        let mut i: usize = 0;
        while i < self.scorers.len()
            invariant
                i <= self.scorers.len(),
                webpages@ == scored_in_turn(self.scorers@.take(i as int), old(webpages)@),
            decreases self.scorers.len() - i,
        {
            proof {
                assert(self.scorers@.take(i + 1).drop_last() =~= self.scorers@.take(i as int));
            }
            self.scorers[i].score(webpages);
            i += 1;
        }
        proof {
            assert(self.scorers@.take(i as int) =~= self.scorers@);
        }
    }

    fn set_query_info(&mut self, query: &SearchQuery) {
        let mut i: usize = 0;
        while i < self.scorers.len()
            invariant
                i <= self.scorers.len(),
                self.scorers@.len() == old(self).scorers@.len(),
                forall|j: int, p: Seq<T>|
                    0 <= j < i ==> #[trigger] self.scorers@[j].scored(p) == old(
                        self,
                    ).scorers@[j].scored_for(*query, p),
                forall|j: int| i <= j < self.scorers@.len() ==> self.scorers@[j] == old(self).scorers@[j],
            decreases self.scorers.len() - i,
        {
            self.scorers[i].set_query_info(query);
            i += 1;
        }
        proof {
            assert forall|pages: Seq<T>| #[trigger]
                self.scored(pages) == old(self).scored_for(*query, pages) by {
                lemma_told_in_turn(old(self).scorers@, self.scorers@, *query, pages);
            }
        }
    }
}

} // verus!
