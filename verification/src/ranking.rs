//! Stable ranking of candidates: the order in which results leave the
//! collectors and the final merge.

use vstd::prelude::*;

verus! {

/// A value with a rank. `precedes` is "strictly better than"; it must be a
/// strict weak order, which the two lemmas state.
pub trait Ranked: Sized {
    /// Whether `self` ranks strictly before `other`.
    spec fn precedes(&self, other: &Self) -> bool;

    /// Computes `precedes`.
    fn ranks_before(&self, other: &Self) -> (b: bool)
        ensures
            b == self.precedes(other),
    ;

    /// Nothing precedes itself, and what precedes a value that precedes a
    /// third precedes the third.
    proof fn lemma_strict(a: &Self, b: &Self, c: &Self)
        ensures
            !a.precedes(a),
            a.precedes(b) && b.precedes(c) ==> a.precedes(c),
    ;

    /// Being tied or worse is transitive.
    proof fn lemma_tied_or_worse(a: &Self, b: &Self, c: &Self)
        ensures
            !a.precedes(b) && !b.precedes(c) ==> !a.precedes(c),
    ;
}

/// `r` with `x` put behind every element that `x` does not precede, up to
/// the first one that it does precede.
pub open spec fn place<T: Ranked>(r: Seq<T>, x: T) -> Seq<T>
    decreases r.len(),
{
    if r.len() == 0 {
        seq![x]
    } else if x.precedes(&r[0]) {
        seq![x] + r
    } else {
        seq![r[0]] + place(r.drop_first(), x)
    }
}

/// The stable ranking of `s`: its elements, best first, those that tie in
/// the order in which they stand in `s`.
pub open spec fn ranked<T: Ranked>(s: Seq<T>) -> Seq<T>
    decreases s.len(),
{
    if s.len() == 0 {
        Seq::empty()
    } else {
        place(ranked(s.drop_last()), s.last())
    }
}

/// No element is preceded by a later one.
pub open spec fn ordered<T: Ranked>(r: Seq<T>) -> bool {
    forall|i: int, j: int| 0 <= i < j < r.len() ==> !(#[trigger] r[j]).precedes(#[trigger] &r[i])
}

/// The index at which `place` puts `x`.
pub open spec fn place_index<T: Ranked>(r: Seq<T>, x: T) -> int
    decreases r.len(),
{
    if r.len() == 0 {
        0
    } else if x.precedes(&r[0]) {
        0
    } else {
        1 + place_index(r.drop_first(), x)
    }
}

/// Two ranked sequences merged; on a tie the element of `a` goes first.
pub open spec fn merge<T: Ranked>(a: Seq<T>, b: Seq<T>) -> Seq<T>
    decreases a.len() + b.len(),
{
    if a.len() == 0 {
        b
    } else if b.len() == 0 {
        a
    } else if b[0].precedes(&a[0]) {
        seq![b[0]] + merge(a, b.drop_first())
    } else {
        seq![a[0]] + merge(a.drop_first(), b)
    }
}

/// `place` is an insertion at `place_index`, which is the first index whose
/// element `x` precedes.
pub proof fn lemma_place_is_insert<T: Ranked>(r: Seq<T>, x: T)
    ensures
        0 <= place_index(r, x) <= r.len(),
        place(r, x) == r.insert(place_index(r, x), x),
        forall|j: int| 0 <= j < place_index(r, x) ==> !x.precedes(#[trigger] &r[j]),
        place_index(r, x) < r.len() ==> x.precedes(&r[place_index(r, x)]),
    decreases r.len(),
{
    if r.len() == 0 {
        assert(seq![x] =~= r.insert(0, x));
    } else if x.precedes(&r[0]) {
        assert(seq![x] + r =~= r.insert(0, x));
    } else {
        let t = r.drop_first();
        lemma_place_is_insert(t, x);
        let k = place_index(t, x);
        assert(seq![r[0]] + t.insert(k, x) =~= r.insert(k + 1, x));
        assert forall|j: int| 0 <= j < k + 1 implies !x.precedes(#[trigger] &r[j]) by {
            if j > 0 {
                assert(r[j] == t[j - 1]);
            }
        }
        if k + 1 < r.len() {
            assert(r[k + 1] == t[k]);
        }
    }
}

/// The first index whose element `x` precedes is `place_index`.
pub proof fn lemma_place_index_unique<T: Ranked>(r: Seq<T>, x: T, k: int)
    requires
        0 <= k <= r.len(),
        forall|j: int| 0 <= j < k ==> !x.precedes(#[trigger] &r[j]),
        k < r.len() ==> x.precedes(&r[k]),
    ensures
        place_index(r, x) == k,
{
    lemma_place_is_insert(r, x);
    let p = place_index(r, x);
    if p < k {
        assert(!x.precedes(&r[p]));
    } else if k < p {
        assert(!x.precedes(&r[k]));
    }
}

/// Placing keeps a ranked sequence ranked.
pub proof fn lemma_place_ordered<T: Ranked>(r: Seq<T>, x: T)
    requires
        ordered(r),
    ensures
        ordered(place(r, x)),
{
    lemma_place_is_insert(r, x);
    let k = place_index(r, x);
    let p = place(r, x);
    assert forall|i: int, j: int| 0 <= i < j < p.len() implies !(#[trigger] p[j]).precedes(
        #[trigger] &p[i],
    ) by {
        if j == k {
            // x against an earlier element, which x does not precede
            assert(p[i] == r[i]);
            if x.precedes(&r[i]) {
            }
        } else if i == k {
            // a later element against x
            assert(p[j] == r[j - 1]);
            if k < j - 1 {
                assert(!r[j - 1].precedes(&r[k]));
            }
            if r[j - 1].precedes(&x) {
                T::lemma_strict(&r[j - 1], &x, &r[k]);
            }
        } else {
            let ii = if i < k { i } else { i - 1 };
            let jj = if j < k { j } else { j - 1 };
            assert(p[i] == r[ii]);
            assert(p[j] == r[jj]);
        }
    }
}

/// A ranking is ranked and holds what was given, each as often.
pub proof fn lemma_ranked<T: Ranked>(s: Seq<T>)
    ensures
        ordered(ranked(s)),
        ranked(s).len() == s.len(),
        ranked(s).to_multiset() == s.to_multiset(),
    decreases s.len(),
{
    broadcast use vstd::seq_lib::group_to_multiset_ensures;

    if s.len() == 0 {
    } else {
        let t = s.drop_last();
        let x = s.last();
        lemma_ranked(t);
        lemma_place_ordered(ranked(t), x);
        lemma_place_is_insert(ranked(t), x);
        let k = place_index(ranked(t), x);
        vstd::seq_lib::to_multiset_insert(ranked(t), k, x);
        assert(s =~= t.push(x));
        assert(s.to_multiset() == t.to_multiset().insert(x));
    }
}

/// The first `n` elements of `s`, or all of `s` where it has no more.
pub open spec fn prefix<T>(s: Seq<T>, n: int) -> Seq<T> {
    if 0 <= n < s.len() {
        s.take(n)
    } else if n < 0 {
        Seq::empty()
    } else {
        s
    }
}

/// Of a placement only the first `n` elements are needed to know the first
/// `n` elements of the result.
pub proof fn lemma_place_prefix<T: Ranked>(r: Seq<T>, x: T, n: int)
    requires
        0 <= n,
    ensures
        prefix(place(r, x), n) == prefix(place(prefix(r, n), x), n),
{
    if n < r.len() {
        let t = r.take(n);
        lemma_place_is_insert(r, x);
        lemma_place_is_insert(t, x);
        let k = place_index(r, x);
        if k < n {
            assert(x.precedes(&t[k]));
            lemma_place_index_unique(t, x, k);
        } else {
            lemma_place_index_unique(t, x, n);
        }
        assert(prefix(place(r, x), n) =~= prefix(place(t, x), n));
    }
}

/// Placing into a merge is placing into its second part.
pub proof fn lemma_place_merge<T: Ranked>(a: Seq<T>, b: Seq<T>, x: T)
    ensures
        place(merge(a, b), x) == merge(a, place(b, x)),
    decreases a.len() + b.len(),
{
    if a.len() == 0 {
    } else if b.len() == 0 {
        let t = a.drop_first();
        if x.precedes(&a[0]) {
            let sx = seq![x];
            assert(sx.drop_first() =~= Seq::<T>::empty());
            assert(merge(a, sx.drop_first()) == a);
            assert(sx[0].precedes(&a[0]));
            assert(merge(a, sx) == seq![sx[0]] + merge(a, sx.drop_first()));
        } else {
            lemma_place_merge(t, b, x);
            assert(merge(t, b) == t) by {
                if t.len() == 0 {
                }
            }
        }
    } else {
        let a0 = a[0];
        let b0 = b[0];
        let p = place(b, x);
        if b0.precedes(&a0) {
            let m = merge(a, b.drop_first());
            assert(merge(a, b) == seq![b0] + m);
            assert((seq![b0] + m).drop_first() =~= m);
            if x.precedes(&b0) {
                T::lemma_strict(&x, &b0, &a0);
                assert(p == seq![x] + b);
                assert(p.drop_first() =~= b);
            } else {
                lemma_place_merge(a, b.drop_first(), x);
                assert(p == seq![b0] + place(b.drop_first(), x));
                assert(p.drop_first() =~= place(b.drop_first(), x));
            }
        } else {
            let m = merge(a.drop_first(), b);
            assert(merge(a, b) == seq![a0] + m);
            assert((seq![a0] + m).drop_first() =~= m);
            if x.precedes(&a0) {
                if !x.precedes(&b0) {
                    T::lemma_tied_or_worse(&x, &b0, &a0);
                }
                assert(p == seq![x] + b);
                assert(p.drop_first() =~= b);
            } else {
                lemma_place_merge(a.drop_first(), b, x);
                if x.precedes(&b0) {
                    assert(p[0] == x);
                } else {
                    assert(p[0] == b0);
                }
            }
        }
    }
}

/// Merging with nothing changes nothing.
pub proof fn lemma_merge_empty<T: Ranked>(a: Seq<T>)
    ensures
        merge(a, Seq::<T>::empty()) == a,
        merge(Seq::<T>::empty(), a) == a,
{
}

/// The ranking of a concatenation is the merge of the two rankings.
pub proof fn lemma_ranked_concat<T: Ranked>(a: Seq<T>, b: Seq<T>)
    ensures
        ranked(a + b) == merge(ranked(a), ranked(b)),
    decreases b.len(),
{
    if b.len() == 0 {
        assert(a + b =~= a);
        lemma_merge_empty(ranked(a));
    } else {
        let t = b.drop_last();
        let x = b.last();
        assert((a + b).drop_last() =~= a + t);
        lemma_ranked_concat(a, t);
        lemma_place_merge(ranked(a), ranked(t), x);
    }
}

/// Of two elements of `s`, one precedes the other unless they are the
/// same.
pub open spec fn ties_are_equal<T: Ranked>(s: Seq<T>) -> bool {
    forall|i: int, j: int|
        0 <= i < s.len() && 0 <= j < s.len() && !(#[trigger] s[i]).precedes(&s[j]) && !(
        #[trigger] s[j]).precedes(&s[i]) ==> s[i] == s[j]
}

/// Two ranked sequences that hold the same elements, each as often, are
/// the same, where no two different elements tie.
pub proof fn lemma_ordered_unique<T: Ranked>(x: Seq<T>, y: Seq<T>)
    requires
        ordered(x),
        ordered(y),
        x.to_multiset() == y.to_multiset(),
        ties_are_equal(x),
    ensures
        x == y,
    decreases x.len(),
{
    broadcast use vstd::seq_lib::group_to_multiset_ensures;

    assert(x.len() == y.len()) by {
        x.to_multiset_ensures();
        y.to_multiset_ensures();
    }
    if x.len() > 0 {
        assert(x.contains(x[0]));
        assert(y.contains(y[0]));
        assert(x.to_multiset().count(y[0]) > 0);
        assert(y.to_multiset().count(x[0]) > 0);
        assert(x.contains(y[0]));
        assert(y.contains(x[0]));
        let i = choose|i: int| 0 <= i < x.len() && x[i] == y[0];
        let j = choose|j: int| 0 <= j < y.len() && y[j] == x[0];
        if i > 0 {
            assert(!x[i].precedes(&x[0]));
        } else {
            T::lemma_strict(&x[0], &x[0], &x[0]);
        }
        if j > 0 {
            assert(!y[j].precedes(&y[0]));
        } else {
            T::lemma_strict(&y[0], &y[0], &y[0]);
        }
        assert(x[0] == x[i]);
        let xs = x.drop_first();
        let ys = y.drop_first();
        assert(xs.to_multiset() =~= x.to_multiset().remove(x[0])) by {
            vstd::seq_lib::to_multiset_remove(x, 0);
            assert(x.remove(0) =~= xs);
        }
        assert(ys.to_multiset() =~= y.to_multiset().remove(y[0])) by {
            vstd::seq_lib::to_multiset_remove(y, 0);
            assert(y.remove(0) =~= ys);
        }
        assert forall|a: int, b: int| 0 <= a < b < xs.len() implies !(#[trigger] xs[b]).precedes(
            #[trigger] &xs[a],
        ) by {
            assert(!x[b + 1].precedes(&x[a + 1]));
        }
        assert forall|a: int, b: int| 0 <= a < b < ys.len() implies !(#[trigger] ys[b]).precedes(
            #[trigger] &ys[a],
        ) by {
            assert(!y[b + 1].precedes(&y[a + 1]));
        }
        assert forall|a: int, b: int|
            0 <= a < xs.len() && 0 <= b < xs.len() && !(#[trigger] xs[a]).precedes(&xs[b]) && !(
            #[trigger] xs[b]).precedes(&xs[a]) implies xs[a] == xs[b] by {
            assert(xs[a] == x[a + 1] && xs[b] == x[b + 1]);
        }
        lemma_ordered_unique(xs, ys);
        assert(x =~= seq![x[0]] + xs);
        assert(y =~= seq![y[0]] + ys);
    }
}

/// The ranking does not depend on the order in which the elements are
/// given, where no two different elements tie.
pub proof fn lemma_ranked_any_order<T: Ranked>(a: Seq<T>, b: Seq<T>)
    requires
        a.to_multiset() == b.to_multiset(),
        ties_are_equal(a),
    ensures
        ranked(a) == ranked(b),
{
    broadcast use vstd::seq_lib::group_to_multiset_ensures;

    lemma_ranked(a);
    lemma_ranked(b);
    let x = ranked(a);
    assert forall|i: int, j: int|
        0 <= i < x.len() && 0 <= j < x.len() && !(#[trigger] x[i]).precedes(&x[j]) && !(
        #[trigger] x[j]).precedes(&x[i]) implies x[i] == x[j] by {
        assert(x.contains(x[i]));
        assert(x.contains(x[j]));
        assert(a.to_multiset().count(x[i]) > 0);
        assert(a.to_multiset().count(x[j]) > 0);
        assert(a.contains(x[i]));
        assert(a.contains(x[j]));
        let k = choose|k: int| 0 <= k < a.len() && a[k] == x[i];
        let l = choose|l: int| 0 <= l < a.len() && a[l] == x[j];
        assert(!a[k].precedes(&a[l]) && !a[l].precedes(&a[k]));
    }
    lemma_ordered_unique(ranked(a), ranked(b));
}

/// Puts `x` into the ranked vector `best`, which keeps its `cap` best
/// elements.
pub fn place_bounded<T: Ranked>(best: &mut Vec<T>, x: T, cap: usize)
    requires
        ordered(old(best)@),
        old(best).len() <= cap,
    ensures
        final(best)@ == prefix(place(old(best)@, x), cap as int),
        ordered(final(best)@),
        final(best).len() <= cap,
{
    let n = best.len();
    proof {
        lemma_place_is_insert(best@, x);
        lemma_place_ordered(best@, x);
    }
    if n == cap {
        if n == 0 {
            return ;
        }
        if !x.ranks_before(&best[n - 1]) {
            proof {
                // x precedes nothing that is kept, so it would come last and fall out
                assert forall|j: int| 0 <= j < n implies !x.precedes(#[trigger] &best@[j]) by {
                    if j < n - 1 {
                        T::lemma_tied_or_worse(&x, &best@[n - 1], &best@[j]);
                    }
                }
                lemma_place_index_unique(best@, x, n as int);
                assert(best@.insert(n as int, x).take(n as int) =~= best@);
            }
            return ;
        }
    }
    let mut i: usize = 0;
    while i < n && !x.ranks_before(&best[i])
        invariant
            i <= n,
            n == best.len(),
            forall|j: int| 0 <= j < i ==> !x.precedes(#[trigger] &best@[j]),
        decreases n - i,
    {
        i += 1;
    }
    proof {
        lemma_place_index_unique(best@, x, i as int);
    }
    let ghost before = best@;
    best.insert(i, x);
    if best.len() > cap {
        best.truncate(cap);
        proof {
            assert(best@ =~= prefix(place(before, x), cap as int));
        }
    }
    proof {
        let p = place(before, x);
        assert forall|a: int, b: int| 0 <= a < b < best@.len() implies !(#[trigger] best@[b]).precedes(
            #[trigger] &best@[a],
        ) by {
            assert(best@[a] == p[a] && best@[b] == p[b]);
        }
    }
}

/// The elements of `v`, last first.
pub fn reversed<T>(v: Vec<T>) -> (r: Vec<T>)
    ensures
        r@ == v@.reverse(),
{
    let mut v = v;
    let ghost all = v@;
    let mut r: Vec<T> = Vec::new();
    while v.len() > 0
        invariant
            v@ == all.take(v.len() as int),
            v.len() + r.len() == all.len(),
            forall|j: int| 0 <= j < r.len() ==> r@[j] == all[all.len() - 1 - j],
        decreases v.len(),
    {
        let x = v.pop().unwrap();
        r.push(x);
        proof {
            assert(v@ =~= all.take(v.len() as int));
        }
    }
    proof {
        assert(r@ =~= all.reverse());
    }
    r
}

/// Merges two ranked vectors; on a tie the element of `a` goes first.
pub fn merge_ranked<T: Ranked>(a: Vec<T>, b: Vec<T>) -> (r: Vec<T>)
    ensures
        r@ == merge(a@, b@),
{
    let ghost target = merge(a@, b@);
    let mut ra = reversed(a);
    let mut rb = reversed(b);
    let mut out: Vec<T> = Vec::new();
    proof {
        assert(ra@.reverse() =~= a@);
        assert(rb@.reverse() =~= b@);
        assert(out@ + target =~= target);
    }
    while ra.len() > 0 && rb.len() > 0
        invariant
            out@ + merge(ra@.reverse(), rb@.reverse()) == target,
        decreases ra.len() + rb.len(),
    {
        let ghost fa = ra@.reverse();
        let ghost fb = rb@.reverse();
        let ghost before = out@;
        let second_first = rb[rb.len() - 1].ranks_before(&ra[ra.len() - 1]);
        if second_first {
            let y = rb.pop().unwrap();
            out.push(y);
            proof {
                assert(rb@.reverse() =~= fb.drop_first());
                assert(out@ + merge(fa, fb.drop_first()) =~= before + (seq![fb[0]] + merge(
                    fa,
                    fb.drop_first(),
                )));
            }
        } else {
            let y = ra.pop().unwrap();
            out.push(y);
            proof {
                assert(ra@.reverse() =~= fa.drop_first());
                assert(out@ + merge(fa.drop_first(), fb) =~= before + (seq![fa[0]] + merge(
                    fa.drop_first(),
                    fb,
                )));
            }
        }
    }
    proof {
        lemma_merge_empty(ra@.reverse());
        lemma_merge_empty(rb@.reverse());
        if ra.len() == 0 {
            assert(ra@.reverse() =~= Seq::<T>::empty());
        } else {
            assert(rb@.reverse() =~= Seq::<T>::empty());
        }
    }
    while ra.len() > 0
        invariant
            out@ + ra@.reverse() + rb@.reverse() == target,
            ra.len() > 0 ==> rb.len() == 0,
        decreases ra.len(),
    {
        let ghost fa = ra@.reverse();
        let ghost before = out@;
        let y = ra.pop().unwrap();
        out.push(y);
        proof {
            assert(rb@.reverse() =~= Seq::<T>::empty());
            assert(ra@.reverse() =~= fa.drop_first());
            assert(out@ + ra@.reverse() + rb@.reverse() =~= before + fa + rb@.reverse());
        }
    }
    while rb.len() > 0
        invariant
            out@ + rb@.reverse() == target,
            ra.len() == 0,
        decreases rb.len(),
    {
        let ghost fb = rb@.reverse();
        let ghost before = out@;
        let y = rb.pop().unwrap();
        out.push(y);
        proof {
            assert(rb@.reverse() =~= fb.drop_first());
            assert(out@ + rb@.reverse() =~= before + fb);
        }
    }
    proof {
        assert(rb@.reverse() =~= Seq::<T>::empty());
        assert(out@ + rb@.reverse() =~= out@);
    }
    out
}

/// Ranks `v`: best first, ties in the order given.
pub fn sort_ranked<T: Ranked>(v: Vec<T>) -> (r: Vec<T>)
    ensures
        r@ == ranked(v@),
    decreases v.len(),
{
    let n = v.len();
    if n <= 1 {
        proof {
            if n == 1 {
                assert(v@.drop_last() =~= Seq::<T>::empty());
                assert(ranked(v@.drop_last()) =~= Seq::<T>::empty());
                assert(place(Seq::<T>::empty(), v@[0]) =~= v@);
            } else {
                assert(v@ =~= Seq::<T>::empty());
            }
        }
        return v;
    }
    let mut left = v;
    let ghost all = left@;
    let right = left.split_off(n / 2);
    proof {
        assert(all =~= left@ + right@);
        lemma_ranked_concat(left@, right@);
    }
    let l = sort_ranked(left);
    let r = sort_ranked(right);
    merge_ranked(l, r)
}

/// A value with its score ranks by the score: the larger score first.
impl<T> Ranked for (u64, T) {
    open spec fn precedes(&self, other: &Self) -> bool {
        self.0 > other.0
    }

    fn ranks_before(&self, other: &Self) -> (b: bool) {
        self.0 > other.0
    }

    proof fn lemma_strict(a: &Self, b: &Self, c: &Self) {
    }

    proof fn lemma_tied_or_worse(a: &Self, b: &Self, c: &Self) {
    }
}

/// Scored values with `f` applied to each value.
pub open spec fn map_scored<T, U>(s: Seq<(u64, T)>, f: spec_fn(T) -> U) -> Seq<(u64, U)> {
    s.map_values(|p: (u64, T)| (p.0, f(p.1)))
}

/// The values of scored values.
pub open spec fn values<T>(s: Seq<(u64, T)>) -> Seq<T> {
    s.map_values(|p: (u64, T)| p.1)
}

/// Ranking scored values and applying a function to each value can be done
/// in either order.
pub proof fn lemma_ranked_map_scored<T, U>(s: Seq<(u64, T)>, f: spec_fn(T) -> U)
    ensures
        ranked(map_scored(s, f)) == map_scored(ranked(s), f),
    decreases s.len(),
{
    if s.len() == 0 {
        assert(map_scored(s, f) =~= Seq::<(u64, U)>::empty());
        assert(map_scored(ranked(s), f) =~= Seq::<(u64, U)>::empty());
    } else {
        let t = s.drop_last();
        let x = s.last();
        lemma_ranked_map_scored(t, f);
        assert(map_scored(s, f).drop_last() =~= map_scored(t, f));
        lemma_place_map_scored(ranked(t), x, f);
    }
}

proof fn lemma_place_map_scored<T, U>(r: Seq<(u64, T)>, x: (u64, T), f: spec_fn(T) -> U)
    ensures
        place(map_scored(r, f), (x.0, f(x.1))) == map_scored(place(r, x), f),
    decreases r.len(),
{
    let y = (x.0, f(x.1));
    let m = map_scored(r, f);
    if r.len() == 0 {
        assert(map_scored(place(r, x), f) =~= seq![y]);
    } else if x.precedes(&r[0]) {
        assert(y.precedes(&m[0]));
        assert(map_scored(seq![x] + r, f) =~= seq![y] + m);
    } else {
        assert(!y.precedes(&m[0]));
        lemma_place_map_scored(r.drop_first(), x, f);
        assert(m.drop_first() =~= map_scored(r.drop_first(), f));
        assert(map_scored(seq![r[0]] + place(r.drop_first(), x), f) =~= seq![m[0]] + map_scored(
            place(r.drop_first(), x),
            f,
        ));
    }
}

/// Ranked scored values have no score before a larger one.
pub proof fn lemma_ranked_scores_descend<T>(s: Seq<(u64, T)>)
    ensures
        forall|i: int, j: int|
            0 <= i < j < ranked(s).len() ==> (#[trigger] ranked(s)[i]).0 >= (#[trigger] ranked(s)[j]).0,
        ranked(s).to_multiset() == s.to_multiset(),
{
    lemma_ranked(s);
}

/// Sequences one after the other.
pub open spec fn concat_all<T>(parts: Seq<Seq<T>>) -> Seq<T>
    decreases parts.len(),
{
    if parts.len() == 0 {
        Seq::empty()
    } else {
        concat_all(parts.drop_last()) + parts.last()
    }
}

/// What vectors hold.
pub open spec fn views_of<T>(parts: Seq<Vec<T>>) -> Seq<Seq<T>> {
    parts.map_values(|p: Vec<T>| p@)
}

/// The elements of vectors, vector after vector.
pub fn flatten<T>(parts: Vec<Vec<T>>) -> (r: Vec<T>)
    ensures
        r@ == concat_all(views_of(parts@)),
{
    let ghost views = views_of(parts@);
    let n = parts.len();
    let mut rest = reversed(parts);
    let mut all: Vec<T> = Vec::new();
    while rest.len() > 0
        invariant
            rest.len() <= n,
            n == views.len(),
            forall|k: int| 0 <= k < rest.len() ==> (#[trigger] rest@[k])@ == views[n - 1 - k],
            all@ == concat_all(views.take(n - rest.len())),
        decreases rest.len(),
    {
        let ghost i = n - rest.len();
        let mut part = rest.pop().unwrap();
        proof {
            assert(part@ == views[i]);
            assert(views.take(i + 1).drop_last() =~= views.take(i));
        }
        all.append(&mut part);
    }
    proof {
        assert(views.take(n as int) =~= views);
    }
    all
}

/// The values of scored values, in their order.
pub fn into_values<T>(scored: Vec<(u64, T)>) -> (r: Vec<T>)
    ensures
        r@ == values(scored@),
{
    let ghost all = scored@;
    let n = scored.len();
    let mut rest = reversed(scored);
    let mut out: Vec<T> = Vec::new();
    while rest.len() > 0
        invariant
            rest.len() <= n,
            n == all.len(),
            forall|k: int| 0 <= k < rest.len() ==> #[trigger] rest@[k] == all[n - 1 - k],
            out@ == values(all.take(n - rest.len())),
        decreases rest.len(),
    {
        let ghost i = n - rest.len();
        let x = rest.pop().unwrap();
        out.push(x.1);
        proof {
            assert(values(all.take(i + 1)) =~= values(all.take(i)).push(all[i].1));
        }
    }
    proof {
        assert(all.take(n as int) =~= all);
    }
    out
}

/// Applying a function to each element of a concatenation is
/// concatenating what the function gives for each part.
pub proof fn lemma_concat_all_map<T, U>(parts: Seq<Seq<T>>, f: spec_fn(T) -> U)
    ensures
        concat_all(parts).map_values(f) == concat_all(
            parts.map_values(|p: Seq<T>| p.map_values(f)),
        ),
    decreases parts.len(),
{
    let mapped = parts.map_values(|p: Seq<T>| p.map_values(f));
    if parts.len() == 0 {
        assert(concat_all(parts).map_values(f) =~= concat_all(mapped));
    } else {
        lemma_concat_all_map(parts.drop_last(), f);
        assert(mapped.drop_last() =~= parts.drop_last().map_values(|p: Seq<T>| p.map_values(f)));
        assert(concat_all(parts).map_values(f) =~= concat_all(parts.drop_last()).map_values(f)
            + parts.last().map_values(f));
    }
}

} // verus!
