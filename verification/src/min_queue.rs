//! A queue that hands out its entries smallest first.

use vstd::multiset::Multiset;
use vstd::prelude::*;

verus! {

/// Whether `a` comes no later than `b`: by cost, then by node.
pub open spec fn at_most(a: (u8, u128), b: (u8, u128)) -> bool {
    a.0 < b.0 || (a.0 == b.0 && a.1 <= b.1)
}

/// No entries.
pub open spec fn no_entries() -> Multiset<(u8, u128)> {
    Multiset::empty()
}

/// Every entry but the first comes no earlier than its parent, the entry at
/// half its index.
pub open spec fn heap_ordered(s: Seq<(u8, u128)>) -> bool {
    forall|k: int| 0 < k < s.len() ==> at_most(s[(k - 1) / 2], #[trigger] s[k])
}

proof fn lemma_root_is_least(s: Seq<(u8, u128)>, k: int)
    requires
        heap_ordered(s),
        0 <= k < s.len(),
    ensures
        at_most(s[0], s[k]),
    decreases k,
{
    if k > 0 {
        lemma_root_is_least(s, (k - 1) / 2);
        assert(at_most(s[(k - 1) / 2], s[k]));
    }
}

/// A queue of pairs of cost and node, which hands out the pair of least
/// cost first and, of pairs of equal cost, that of the least node.
#[derive(Debug)]
pub struct MinQueue {
    entries: Vec<(u8, u128)>,
}

impl View for MinQueue {
    type V = Multiset<(u8, u128)>;

    closed spec fn view(&self) -> Multiset<(u8, u128)> {
        self.entries@.to_multiset()
    }
}

fn entry_at_most(a: (u8, u128), b: (u8, u128)) -> (r: bool)
    ensures
        r == at_most(a, b),
{
    a.0 < b.0 || (a.0 == b.0 && a.1 <= b.1)
}

impl MinQueue {
    /// The entries are ordered as a heap.
    pub closed spec fn wf(&self) -> bool {
        heap_ordered(self.entries@)
    }

    /// A queue without entries.
    pub fn new() -> (r: MinQueue)
        ensures
            r.wf(),
            r@ == no_entries(),
    {
        broadcast use vstd::seq_lib::group_to_multiset_ensures;

        MinQueue { entries: Vec::new() }
    }

    /// The number of entries.
    pub fn len(&self) -> (r: usize)
        ensures
            r == self@.len(),
    {
        broadcast use vstd::seq_lib::group_to_multiset_ensures;

        self.entries.len()
    }

    fn swap(&mut self, i: usize, j: usize)
        requires
            i < old(self).entries@.len(),
            j < old(self).entries@.len(),
        ensures
            final(self).entries@ == old(self).entries@.update(i as int, old(self).entries@[j as int]).update(
                j as int,
                old(self).entries@[i as int],
            ),
            final(self)@ == old(self)@,
    {
        broadcast use vstd::seq_lib::group_to_multiset_ensures;

        let a = self.entries[i];
        let b = self.entries[j];
        let ghost s = self.entries@;
        self.entries[i] = b;
        self.entries[j] = a;
        proof {
            vstd::seq_lib::to_multiset_update(s, i as int, b);
            vstd::seq_lib::to_multiset_update(s.update(i as int, b), j as int, a);
            assert(s.to_multiset().count(a) > 0) by {
                assert(s.contains(s[i as int]));
            }
            assert(s.to_multiset().count(b) > 0) by {
                assert(s.contains(s[j as int]));
            }
            assert(self.entries@.to_multiset() =~= s.to_multiset());
        }
    }

    /// Puts an entry into the queue.
    pub fn push(&mut self, entry: (u8, u128))
        requires
            old(self).wf(),
        ensures
            final(self).wf(),
            final(self)@ == old(self)@.insert(entry),
    {
        broadcast use vstd::seq_lib::group_to_multiset_ensures;

        let ghost before = self.entries@;
        self.entries.push(entry);
        let ghost target = self@;
        let mut i: usize = self.entries.len() - 1;
        while i > 0
            invariant
                i < self.entries@.len(),
                self@ == target,
                target == old(self)@.insert(entry),
                forall|k: int|
                    0 < k < self.entries@.len() && k != i ==> at_most(
                        self.entries@[(k - 1) / 2],
                        #[trigger] self.entries@[k],
                    ),
                forall|k: int|
                    0 < k < self.entries@.len() && (k - 1) / 2 == i && i > 0 ==> at_most(
                        self.entries@[(i - 1) / 2],
                        #[trigger] self.entries@[k],
                    ),
            decreases i,
        {
            let parent = (i - 1) / 2;
            if entry_at_most(self.entries[parent], self.entries[i]) {
                return ;
            }
            let ghost s = self.entries@;
            self.swap(i, parent);
            proof {
                let t = self.entries@;
                assert forall|k: int| 0 < k < t.len() && k != parent implies at_most(
                    t[(k - 1) / 2],
                    #[trigger] t[k],
                ) by {
                    if k == i {
                    } else if (k - 1) / 2 == i {
                        assert(at_most(s[(i - 1) / 2], s[k]));
                    } else if (k - 1) / 2 == parent {
                        assert(at_most(s[(k - 1) / 2], s[k]));
                    } else {
                        assert(at_most(s[(k - 1) / 2], s[k]));
                    }
                }
                assert forall|k: int|
                    0 < k < t.len() && (k - 1) / 2 == parent && parent > 0 implies at_most(
                    t[(parent - 1) / 2],
                    #[trigger] t[k],
                ) by {
                    assert(at_most(s[(parent - 1) / 2], s[parent as int]));
                    if k != i {
                        assert(at_most(s[(k - 1) / 2], s[k]));
                    }
                }
            }
            i = parent;
        }
    }

    /// Takes the least entry out of the queue, if it has an entry.
    pub fn pop(&mut self) -> (r: Option<(u8, u128)>)
        requires
            old(self).wf(),
        ensures
            final(self).wf(),
            match r {
                Some(least) => old(self)@.count(least) > 0 && final(self)@ == old(self)@.remove(least)
                    && forall|e: (u8, u128)| old(self)@.count(e) > 0 ==> at_most(least, e),
                None => old(self)@.len() == 0 && final(self)@ == old(self)@,
            },
    {
        broadcast use vstd::seq_lib::group_to_multiset_ensures;

        let ghost s = self.entries@;
        if self.entries.len() == 0 {
            return None;
        }
        let least = self.entries[0];
        proof {
            assert(s.contains(s[0]));
            assert forall|e: (u8, u128)| s.to_multiset().count(e) > 0 implies at_most(least, e) by {
                assert(s.contains(e));
                let k = choose|k: int| 0 <= k < s.len() && s[k] == e;
                lemma_root_is_least(s, k);
            }
        }
        let last = self.entries.pop().unwrap();
        proof {
            assert(s =~= s.drop_last().push(last));
            assert(s.to_multiset() == s.drop_last().to_multiset().insert(last));
        }
        let len = self.entries.len();
        if len == 0 {
            proof {
                assert(self.entries@.to_multiset() =~= s.to_multiset().remove(least));
            }
            return Some(least);
        }
        self.entries[0] = last;
        proof {
            vstd::seq_lib::to_multiset_update(s.drop_last(), 0, last);
            assert(self.entries@.to_multiset() =~= s.to_multiset().remove(least));
        }
        let ghost target = self@;
        let mut i: usize = 0;
        while i < len / 2
            invariant
                i < len,
                len == self.entries@.len(),
                self@ == target,
                old(self)@.count(least) > 0,
                target == old(self)@.remove(least),
                forall|e: (u8, u128)| old(self)@.count(e) > 0 ==> at_most(least, e),
                forall|k: int|
                    0 < k < len && (k - 1) / 2 != i ==> at_most(
                        self.entries@[(k - 1) / 2],
                        #[trigger] self.entries@[k],
                    ),
                forall|k: int|
                    0 < k < len && (k - 1) / 2 == i && i > 0 ==> at_most(
                        self.entries@[(i - 1) / 2],
                        #[trigger] self.entries@[k],
                    ),
            decreases len - i,
        {
            let left = 2 * i + 1;
            let right = left + 1;
            let child = if right < len && !entry_at_most(self.entries[left], self.entries[right]) {
                right
            } else {
                left
            };
            let ghost s = self.entries@;
            if entry_at_most(self.entries[i], self.entries[child]) {
                proof {
                    assert forall|k: int| 0 < k < len implies at_most(
                        s[(k - 1) / 2],
                        #[trigger] s[k],
                    ) by {
                        if (k - 1) / 2 == i {
                            assert(k == left || k == right);
                        }
                    }
                }
                return Some(least);
            }
            self.swap(i, child);
            proof {
                let t = self.entries@;
                assert forall|k: int| 0 < k < len && (k - 1) / 2 != child implies at_most(
                    t[(k - 1) / 2],
                    #[trigger] t[k],
                ) by {
                    if (k - 1) / 2 == i {
                        assert(k == left || k == right);
                    } else if k == i {
                        assert(at_most(s[(i - 1) / 2], s[child as int]));
                    } else {
                        assert(at_most(s[(k - 1) / 2], s[k]));
                    }
                }
                assert forall|k: int|
                    0 < k < len && (k - 1) / 2 == child && child > 0 implies at_most(
                    t[(child - 1) / 2],
                    #[trigger] t[k],
                ) by {
                    assert(at_most(s[(k - 1) / 2], s[k]));
                }
            }
            i = child;
        }
        proof {
            assert forall|k: int| 0 < k < len implies at_most(
                self.entries@[(k - 1) / 2],
                #[trigger] self.entries@[k],
            ) by {
                if (k - 1) / 2 == i {
                    assert(k >= 2 * i + 1);
                }
            }
        }
        Some(least)
    }
}

} // verus!
