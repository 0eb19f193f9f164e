//! Sorting by rank, keeping the order of what ranks alike.

use vstd::prelude::*;

verus! {

/// Values with a rank, and with an identity by which they are merged.
pub trait Ranked: Sized {
    /// `self` ranks before `other`.
    spec fn under(&self, other: &Self) -> bool;

    /// `self` and `other` are the same finding.
    spec fn alike(&self, other: &Self) -> bool;

    fn is_under(&self, other: &Self) -> (yes: bool)
        ensures
            yes == self.under(other),
    ;

    fn is_alike(&self, other: &Self) -> (yes: bool)
        ensures
            yes == self.alike(other),
    ;

    /// Everything is the same finding as itself.
    proof fn reflexive(a: Self)
        ensures
            a.alike(&a),
    ;

    /// Nothing ranks before what ranks before it.
    proof fn asymmetric(a: Self, b: Self)
        requires
            a.under(&b),
        ensures
            !b.under(&a),
    ;

    /// Ranks are transitive, and so is ranking no later.
    proof fn transitive(a: Self, b: Self, c: Self)
        ensures
            a.under(&b) && b.under(&c) ==> a.under(&c),
            !b.under(&a) && !c.under(&b) ==> !c.under(&a),
    ;
}

/// A sorted list with `x` after everything that does not rank behind it.
pub open spec fn placed<T: Ranked>(s: Seq<T>, x: T) -> Seq<T>
    decreases s.len(),
{
    if s.len() > 0 && x.under(&s.last()) {
        placed(s.drop_last(), x).push(s.last())
    } else {
        s.push(x)
    }
}

/// The items by rank; what ranks alike keeps its order.
pub open spec fn ranked<T: Ranked>(s: Seq<T>) -> Seq<T>
    decreases s.len(),
{
    if s.len() == 0 {
        seq![]
    } else {
        placed(ranked(s.drop_last()), s.last())
    }
}

/// The items without those that are like the one kept before them.
pub open spec fn merged<T: Ranked>(s: Seq<T>) -> Seq<T>
    decreases s.len(),
{
    if s.len() == 0 {
        seq![]
    } else {
        let head = merged(s.drop_last());
        if head.len() > 0 && s.last().alike(&head.last()) {
            head
        } else {
            head.push(s.last())
        }
    }
}

/// The items by rank, with neighbours that are alike merged into the first.
pub open spec fn settled<T: Ranked>(s: Seq<T>) -> Seq<T> {
    merged(ranked(s))
}

/// `x` is like one of the items.
pub open spec fn among<T: Ranked>(s: Seq<T>, x: T) -> bool {
    exists|i: int| 0 <= i < s.len() && x.alike(&#[trigger] s[i])
}

/// The items without those that are like one that is kept before them.
pub open spec fn firsts<T: Ranked>(s: Seq<T>) -> Seq<T>
    decreases s.len(),
{
    if s.len() == 0 {
        seq![]
    } else {
        let head = firsts(s.drop_last());
        if among(head, s.last()) {
            head
        } else {
            head.push(s.last())
        }
    }
}

/// The items by rank, with all that are alike merged into the first; what ranks alike keeps
/// its order.
pub open spec fn collected<T: Ranked>(s: Seq<T>) -> Seq<T> {
    firsts(ranked(s))
}

/// No item ranks before an earlier one.
pub open spec fn in_order<T: Ranked>(s: Seq<T>) -> bool {
    forall|i: int, j: int|
        #![trigger s[i], s[j]]
        0 <= i < j < s.len() ==> !s[j].under(&s[i])
}

/// The list before `at` does not rank behind `x`, and the rest does.
pub open spec fn splits<T: Ranked>(s: Seq<T>, x: T, at: int) -> bool {
    &&& 0 <= at <= s.len()
    &&& forall|j: int| #![trigger s[j]] 0 <= j < at ==> !x.under(&s[j])
    &&& forall|j: int| #![trigger s[j]] at <= j < s.len() ==> x.under(&s[j])
}

proof fn lemma_placed<T: Ranked>(s: Seq<T>, x: T, at: int)
    requires
        splits(s, x, at),
    ensures
        placed(s, x) == s.insert(at, x),
    decreases s.len(),
{
    if s.len() > 0 && x.under(&s.last()) {
        assert(at < s.len());
        assert(splits(s.drop_last(), x, at)) by {
            assert forall|j: int| #![trigger s.drop_last()[j]] 0 <= j < at implies !x.under(
                &s.drop_last()[j],
            ) by {
                assert(s.drop_last()[j] == s[j]);
            }
            assert forall|j: int|
                #![trigger s.drop_last()[j]]
                at <= j < s.drop_last().len() implies x.under(&s.drop_last()[j]) by {
                assert(s.drop_last()[j] == s[j]);
            }
        }
        lemma_placed(s.drop_last(), x, at);
        assert(s.drop_last().insert(at, x).push(s.last()) =~= s.insert(at, x));
    } else {
        if at < s.len() {
            assert(x.under(&s[s.len() - 1]));
        }
        assert(s.push(x) =~= s.insert(at, x));
    }
}

proof fn lemma_insert_in_order<T: Ranked>(s: Seq<T>, x: T, at: int)
    requires
        in_order(s),
        splits(s, x, at),
    ensures
        in_order(s.insert(at, x)),
{
    let now = s.insert(at, x);
    assert forall|i: int, j: int| #![trigger now[i], now[j]] 0 <= i < j < now.len() implies !now[j].under(&now[i]) by {
        if i == at {
            assert(now[j] == s[j - 1]);
            assert(x.under(&s[j - 1]));
            T::asymmetric(x, s[j - 1]);
        } else if j == at {
            assert(now[i] == s[i]);
        } else {
            let i0 = if i < at { i } else { i - 1 };
            let j0 = if j < at { j } else { j - 1 };
            assert(now[i] == s[i0] && now[j] == s[j0]);
        }
    }
}

/// Where `x` goes in a sorted list.
fn place<T: Ranked>(v: &Vec<T>, x: &T) -> (at: usize)
    requires
        in_order(v@),
    ensures
        splits(v@, *x, at as int),
{
    let mut lo: usize = 0;
    let mut hi: usize = v.len();
    while lo < hi
        invariant
            lo <= hi <= v@.len(),
            in_order(v@),
            forall|j: int| #![trigger v@[j]] 0 <= j < lo ==> !x.under(&v@[j]),
            forall|j: int| #![trigger v@[j]] hi <= j < v@.len() ==> x.under(&v@[j]),
        decreases hi - lo,
    {
        let mid: usize = lo + (hi - lo) / 2;
        if x.is_under(&v[mid]) {
            proof {
                assert forall|j: int| #![trigger v@[j]] mid <= j < v@.len() implies x.under(&v@[j]) by {
                    if j > mid {
                        assert(!v@[j].under(&v@[mid as int]));
                        T::transitive(v@[mid as int], v@[j], *x);
                        T::asymmetric(*x, v@[mid as int]);
                        if !x.under(&v@[j]) {
                            T::transitive(v@[mid as int], v@[j], *x);
                            assert(!x.under(&v@[mid as int]));
                        }
                    }
                }
            }
            hi = mid;
        } else {
            proof {
                assert forall|j: int| #![trigger v@[j]] 0 <= j < mid + 1 implies !x.under(&v@[j]) by {
                    if j < mid {
                        assert(!v@[mid as int].under(&v@[j]));
                        T::transitive(v@[j], v@[mid as int], *x);
                    }
                }
            }
            lo = mid + 1;
        }
    }
    lo
}

/// The items from the last to the first.
fn reversed<T>(items: Vec<T>) -> (out: Vec<T>)
    ensures
        out@ == items@.reverse(),
{
    let mut items = items;
    let ghost all = items@;
    let mut out: Vec<T> = Vec::new();
    let mut n: usize = items.len();
    while n > 0
        invariant
            n == items@.len(),
            n <= all.len(),
            items@ == all.take(n as int),
            out@.len() == all.len() - n,
            forall|j: int| 0 <= j < out@.len() ==> #[trigger] out@[j] == all[all.len() - 1 - j],
        decreases n,
    {
        match items.pop() {
            Some(x) => {
                out.push(x);
            },
            None => {},
        }
        n = n - 1;
        assert(items@ =~= all.take(n as int));
    }
    assert(out@ =~= all.reverse());
    out
}

/// The items by rank; what ranks alike keeps its order.
pub fn sort<T: Ranked>(items: Vec<T>) -> (out: Vec<T>)
    ensures
        out@ == ranked(items@),
{
    let ghost all = items@;
    let mut back = reversed(items);
    let mut out: Vec<T> = Vec::new();
    let mut m: usize = back.len();
    assert(out@ =~= ranked(all.take(0)));
    while m > 0
        invariant
            m == back@.len(),
            m <= all.len(),
            back@ == all.reverse().take(m as int),
            out@ == ranked(all.take(all.len() - m)),
            in_order(out@),
        decreases m,
    {
        let ghost k = all.len() - m;
        assert(back@[m - 1] == all[k]);
        match back.pop() {
            Some(x) => {
                let at = place(&out, &x);
                proof {
                    lemma_placed(out@, x, at as int);
                    lemma_insert_in_order(out@, x, at as int);
                    assert(all.take(k + 1).drop_last() =~= all.take(k));
                }
                out.insert(at, x);
            },
            None => {},
        }
        m = m - 1;
        assert(back@ =~= all.reverse().take(m as int));
    }
    assert(all.take(all.len() as int) =~= all);
    out
}

/// The items without those that are like the one kept before them.
pub fn merge<T: Ranked>(items: Vec<T>) -> (out: Vec<T>)
    ensures
        out@ == merged(items@),
{
    let ghost all = items@;
    let mut back = reversed(items);
    let mut out: Vec<T> = Vec::new();
    let mut m: usize = back.len();
    assert(out@ =~= merged(all.take(0)));
    while m > 0
        invariant
            m == back@.len(),
            m <= all.len(),
            back@ == all.reverse().take(m as int),
            out@ == merged(all.take(all.len() - m)),
        decreases m,
    {
        let ghost k = all.len() - m;
        assert(back@[m - 1] == all[k]);
        match back.pop() {
            Some(x) => {
                assert(all.take(k + 1).drop_last() =~= all.take(k));
                let keep = if out.len() > 0 {
                    !x.is_alike(&out[out.len() - 1])
                } else {
                    true
                };
                if keep {
                    out.push(x);
                }
            },
            None => {},
        }
        m = m - 1;
        assert(back@ =~= all.reverse().take(m as int));
    }
    assert(all.take(all.len() as int) =~= all);
    out
}

/// The items by rank, with neighbours that are alike merged into the first.
pub fn settle<T: Ranked>(items: Vec<T>) -> (out: Vec<T>)
    ensures
        out@ == settled(items@),
{
    merge(sort(items))
}

fn is_among<T: Ranked>(items: &Vec<T>, x: &T) -> (yes: bool)
    ensures
        yes == among(items@, *x),
{
    let mut i: usize = 0;
    while i < items.len()
        invariant
            i <= items@.len(),
            forall|j: int| 0 <= j < i ==> !x.alike(&#[trigger] items@[j]),
        decreases items@.len() - i,
    {
        if x.is_alike(&items[i]) {
            return true;
        }
        i = i + 1;
    }
    false
}

/// The items by rank, with all that are alike merged into the first; what ranks alike keeps
/// its order.
pub fn collect<T: Ranked>(items: Vec<T>) -> (out: Vec<T>)
    ensures
        out@ == collected(items@),
{
    let sorted = sort(items);
    let ghost all = sorted@;
    let mut back = reversed(sorted);
    let mut out: Vec<T> = Vec::new();
    let mut m: usize = back.len();
    assert(out@ =~= firsts(all.take(0)));
    while m > 0
        invariant
            m == back@.len(),
            m <= all.len(),
            back@ == all.reverse().take(m as int),
            out@ == firsts(all.take(all.len() - m)),
        decreases m,
    {
        let ghost k = all.len() - m;
        assert(back@[m - 1] == all[k]);
        match back.pop() {
            Some(x) => {
                assert(all.take(k + 1).drop_last() =~= all.take(k));
                if !is_among(&out, &x) {
                    out.push(x);
                }
            },
            None => {},
        }
        m = m - 1;
        assert(back@ =~= all.reverse().take(m as int));
    }
    assert(all.take(all.len() as int) =~= all);
    out
}

proof fn lemma_ranked<T: Ranked>(s: Seq<T>)
    ensures
        in_order(ranked(s)),
        ranked(s).to_multiset() == s.to_multiset(),
    decreases s.len(),
{
    broadcast use vstd::seq_lib::group_to_multiset_ensures;

    if s.len() > 0 {
        let head = ranked(s.drop_last());
        let x = s.last();
        lemma_ranked(s.drop_last());
        lemma_placed_keeps(head, x);
        assert(s =~= s.drop_last().push(x));
        assert(s.to_multiset() =~= s.drop_last().to_multiset().insert(x));
    } else {
        assert(s =~= seq![]);
    }
}

proof fn lemma_placed_keeps<T: Ranked>(s: Seq<T>, x: T)
    requires
        in_order(s),
    ensures
        in_order(placed(s, x)),
        placed(s, x).to_multiset() == s.to_multiset().insert(x),
        forall|i: int| 0 <= i < placed(s, x).len() ==> #[trigger] placed(s, x)[i] == x || s.contains(
            placed(s, x)[i],
        ),
    decreases s.len(),
{
    broadcast use vstd::seq_lib::group_to_multiset_ensures;

    let now = placed(s, x);
    if s.len() > 0 && x.under(&s.last()) {
        let head = s.drop_last();
        lemma_placed_keeps(head, x);
        let before = placed(head, x);
        assert(s =~= head.push(s.last()));
        assert(now.to_multiset() =~= before.to_multiset().insert(s.last()));
        assert(s.to_multiset() =~= head.to_multiset().insert(s.last()));
        assert(now.to_multiset() =~= s.to_multiset().insert(x));
        assert forall|i: int, j: int| #![trigger now[i], now[j]] 0 <= i < j < now.len() implies !now[j].under(&now[i]) by {
            assert(now[i] == before[i]);
            if j < before.len() {
                assert(now[j] == before[j]);
            } else if before[i] == x {
                T::asymmetric(x, s.last());
            } else {
                let k = choose|k: int| 0 <= k < head.len() && head[k] == before[i];
                assert(s[k] == head[k]);
                assert(!s[s.len() - 1].under(&s[k]));
            }
        }
        assert forall|i: int| 0 <= i < now.len() implies #[trigger] now[i] == x || s.contains(
            now[i],
        ) by {
            if i < before.len() {
                assert(now[i] == before[i]);
                if before[i] != x {
                    let k = choose|k: int| 0 <= k < head.len() && head[k] == before[i];
                    assert(s[k] == now[i]);
                }
            } else {
                assert(s[s.len() - 1] == now[i]);
            }
        }
    } else {
        assert forall|i: int, j: int| #![trigger now[i], now[j]] 0 <= i < j < now.len() implies !now[j].under(&now[i]) by {
            assert(now[i] == s[i]);
            if j < s.len() {
                assert(now[j] == s[j]);
            } else if i < s.len() - 1 {
                assert(!s[s.len() - 1].under(&s[i]));
                T::transitive(s[i], s[s.len() - 1], x);
            }
        }
        assert forall|i: int| 0 <= i < now.len() implies #[trigger] now[i] == x || s.contains(
            now[i],
        ) by {
            if i < s.len() {
                assert(s[i] == now[i]);
            }
        }
    }
}

proof fn lemma_merged<T: Ranked>(s: Seq<T>)
    requires
        in_order(s),
    ensures
        in_order(merged(s)),
        merged(s).len() <= s.len(),
        s.len() > 0 ==> merged(s).len() > 0,
        forall|i: int| 0 <= i < merged(s).len() ==> s.contains(#[trigger] merged(s)[i]),
        forall|i: int, j: int|
            #![trigger merged(s)[i], merged(s)[j]]
            0 <= i < merged(s).len() && j == i + 1 && j < merged(s).len() ==> !merged(s)[j].alike(
                &merged(s)[i],
            ),
    decreases s.len(),
{
    if s.len() > 0 {
        let head = s.drop_last();
        let was = merged(head);
        let now = merged(s);
        assert forall|i: int, j: int| #![trigger head[i], head[j]] 0 <= i < j < head.len() implies !head[j].under(&head[i]) by {
            assert(head[i] == s[i] && head[j] == s[j]);
        }
        lemma_merged(head);
        assert forall|i: int| 0 <= i < now.len() implies s.contains(#[trigger] now[i]) by {
            if i < was.len() {
                assert(now[i] == was[i]);
                let k = choose|k: int| 0 <= k < head.len() && head[k] == was[i];
                assert(s[k] == now[i]);
            } else {
                assert(s[s.len() - 1] == now[i]);
            }
        }
        assert forall|i: int, j: int| #![trigger now[i], now[j]] 0 <= i < j < now.len() implies !now[j].under(&now[i]) by {
            assert(now[i] == was[i]);
            if j < was.len() {
                assert(now[j] == was[j]);
            } else {
                let k = choose|k: int| 0 <= k < head.len() && head[k] == was[i];
                assert(s[k] == was[i]);
                assert(!s[s.len() - 1].under(&s[k]));
            }
        }
    }
}

proof fn lemma_merged_covers<T: Ranked>(s: Seq<T>, i: int)
    requires
        0 <= i < s.len(),
    ensures
        exists|k: int| 0 <= k < merged(s).len() && s[i].alike(&merged(s)[k]),
    decreases s.len(),
{
    let head = s.drop_last();
    let was = merged(head);
    let now = merged(s);
    if i < s.len() - 1 {
        lemma_merged_covers(head, i);
        assert(head[i] == s[i]);
        let k = choose|k: int| 0 <= k < was.len() && head[i].alike(&was[k]);
        assert(now[k] == was[k]);
    } else if was.len() > 0 && s.last().alike(&was.last()) {
        assert(s[i].alike(&now[was.len() - 1]));
    } else {
        T::reflexive(s.last());
        assert(s[i].alike(&now[was.len() as int]));
    }
}

/// Nothing is lost: every item is the same finding as one that is kept.
pub proof fn law_nothing_lost<T: Ranked>(s: Seq<T>, i: int)
    requires
        0 <= i < s.len(),
    ensures
        exists|k: int| 0 <= k < settled(s).len() && s[i].alike(&settled(s)[k]),
{
    broadcast use vstd::seq_lib::group_to_multiset_ensures;

    lemma_ranked(s);
    let r = ranked(s);
    let x = s[i];
    assert(s.contains(x));
    assert(s.to_multiset().count(x) > 0);
    assert(r.contains(x));
    let j = choose|j: int| 0 <= j < r.len() && r[j] == x;
    lemma_merged_covers(r, j);
    let k = choose|k: int| 0 <= k < merged(r).len() && r[j].alike(&merged(r)[k]);
    assert(s[i].alike(&settled(s)[k]));
}

/// Sorting loses and adds nothing and leaves the items in order; merging then
/// keeps only items that were there, in order, with no two neighbours alike.
pub proof fn law_settled<T: Ranked>(s: Seq<T>)
    ensures
        in_order(ranked(s)),
        ranked(s).to_multiset() == s.to_multiset(),
        in_order(settled(s)),
        settled(s).len() <= s.len(),
        s.len() > 0 ==> settled(s).len() > 0,
        forall|i: int| 0 <= i < settled(s).len() ==> s.contains(#[trigger] settled(s)[i]),
        forall|i: int, j: int|
            #![trigger settled(s)[i], settled(s)[j]]
            0 <= i < settled(s).len() && j == i + 1 && j < settled(s).len() ==> !settled(s)[j].alike(
                &settled(s)[i],
            ),
{
    broadcast use vstd::seq_lib::group_to_multiset_ensures;

    lemma_ranked(s);
    lemma_merged(ranked(s));
    let r = ranked(s);
    assert(r.len() == r.to_multiset().len() && s.len() == s.to_multiset().len());
    assert forall|i: int| 0 <= i < settled(s).len() implies s.contains(#[trigger] settled(s)[i]) by {
        let x = settled(s)[i];
        assert(r.contains(x));
        assert(r.to_multiset().count(x) > 0);
        assert(s.to_multiset().count(x) > 0);
    }
}

proof fn lemma_firsts<T: Ranked>(s: Seq<T>)
    requires
        in_order(s),
    ensures
        in_order(firsts(s)),
        firsts(s).len() <= s.len(),
        s.len() > 0 ==> firsts(s).len() > 0,
        forall|i: int| 0 <= i < firsts(s).len() ==> s.contains(#[trigger] firsts(s)[i]),
        forall|i: int, j: int|
            #![trigger firsts(s)[i], firsts(s)[j]]
            0 <= i < j < firsts(s).len() ==> !firsts(s)[j].alike(&firsts(s)[i]),
        forall|i: int| 0 <= i < s.len() ==> among(firsts(s), #[trigger] s[i]),
    decreases s.len(),
{
    if s.len() > 0 {
        let head = s.drop_last();
        let was = firsts(head);
        let now = firsts(s);
        assert forall|i: int, j: int| #![trigger head[i], head[j]] 0 <= i < j < head.len() implies !head[j].under(&head[i]) by {
            assert(head[i] == s[i] && head[j] == s[j]);
        }
        lemma_firsts(head);
        assert forall|i: int| 0 <= i < now.len() implies s.contains(#[trigger] now[i]) by {
            if i < was.len() {
                assert(now[i] == was[i]);
                let k = choose|k: int| 0 <= k < head.len() && head[k] == was[i];
                assert(s[k] == now[i]);
            } else {
                assert(s[s.len() - 1] == now[i]);
            }
        }
        assert forall|i: int, j: int| #![trigger now[i], now[j]] 0 <= i < j < now.len() implies !now[j].under(&now[i])
            && !now[j].alike(&now[i]) by {
            assert(now[i] == was[i]);
            if j < was.len() {
                assert(now[j] == was[j]);
            } else {
                let k = choose|k: int| 0 <= k < head.len() && head[k] == was[i];
                assert(s[k] == was[i]);
                assert(!s[s.len() - 1].under(&s[k]));
            }
        }
        assert forall|i: int| 0 <= i < s.len() implies among(now, #[trigger] s[i]) by {
            if i < head.len() {
                assert(head[i] == s[i]);
                let k = choose|k: int| 0 <= k < was.len() && head[i].alike(&#[trigger] was[k]);
                assert(now[k] == was[k]);
            } else if !among(was, s.last()) {
                T::reflexive(s.last());
                assert(now[was.len() as int] == s.last());
            }
        }
    }
}

/// Accepts what ranks like `x`.
pub open spec fn ties_with<T: Ranked>(x: T) -> spec_fn(T) -> bool {
    |y: T| !x.under(&y) && !y.under(&x)
}

proof fn lemma_filter_push<T: Ranked>(s: Seq<T>, x: T, keep: spec_fn(T) -> bool)
    ensures
        s.push(x).filter(keep) == if keep(x) {
            s.filter(keep).push(x)
        } else {
            s.filter(keep)
        },
{
    reveal(Seq::filter);
    assert(s.push(x).drop_last() =~= s);
}

proof fn lemma_placed_ties<T: Ranked>(s: Seq<T>, y: T, x: T)
    ensures
        placed(s, y).filter(ties_with(x)) == s.push(y).filter(ties_with(x)),
    decreases s.len(),
{
    let keep = ties_with(x);
    if s.len() > 0 && y.under(&s.last()) {
        let head = s.drop_last();
        let last = s.last();
        lemma_placed_ties(head, y, x);
        lemma_filter_push(placed(head, y), last, keep);
        lemma_filter_push(head, y, keep);
        lemma_filter_push(head, last, keep);
        lemma_filter_push(s, y, keep);
        assert(head.push(last) =~= s);
        T::transitive(last, x, y);
    }
}

/// Sorting keeps the order of what ranks alike.
pub proof fn law_ties_keep_their_order<T: Ranked>(s: Seq<T>, x: T)
    ensures
        ranked(s).filter(ties_with(x)) == s.filter(ties_with(x)),
    decreases s.len(),
{
    if s.len() > 0 {
        let head = s.drop_last();
        law_ties_keep_their_order(head, x);
        lemma_placed_ties(ranked(head), s.last(), x);
        lemma_filter_push(ranked(head), s.last(), ties_with(x));
        lemma_filter_push(head, s.last(), ties_with(x));
        assert(head.push(s.last()) =~= s);
    } else {
        assert(ranked(s) =~= s);
    }
}

/// What is collected was there, in order, each finding once and none of them lost.
pub proof fn law_collected<T: Ranked>(s: Seq<T>)
    ensures
        in_order(collected(s)),
        collected(s).len() <= s.len(),
        s.len() > 0 ==> collected(s).len() > 0,
        forall|i: int| 0 <= i < collected(s).len() ==> s.contains(#[trigger] collected(s)[i]),
        forall|i: int, j: int|
            #![trigger collected(s)[i], collected(s)[j]]
            0 <= i < j < collected(s).len() ==> !collected(s)[j].alike(&collected(s)[i]),
        forall|i: int| 0 <= i < s.len() ==> among(collected(s), #[trigger] s[i]),
{
    broadcast use vstd::seq_lib::group_to_multiset_ensures;

    lemma_ranked(s);
    let r = ranked(s);
    lemma_firsts(r);
    assert(r.len() == r.to_multiset().len() && s.len() == s.to_multiset().len());
    assert forall|i: int| 0 <= i < collected(s).len() implies s.contains(
        #[trigger] collected(s)[i],
    ) by {
        let x = collected(s)[i];
        assert(r.contains(x));
        assert(r.to_multiset().count(x) > 0);
        assert(s.to_multiset().count(x) > 0);
    }
    assert forall|i: int| 0 <= i < s.len() implies among(collected(s), #[trigger] s[i]) by {
        let x = s[i];
        assert(s.contains(x));
        assert(s.to_multiset().count(x) > 0);
        assert(r.contains(x));
        let j = choose|j: int| 0 <= j < r.len() && r[j] == x;
        assert(among(firsts(r), r[j]));
    }
}

/// Every item is the same finding as one that is collected.
pub proof fn lemma_find_collected<T: Ranked>(s: Seq<T>, i: int) -> (k: int)
    requires
        0 <= i < s.len(),
    ensures
        0 <= k < collected(s).len(),
        s[i].alike(&collected(s)[k]),
{
    law_collected(s);
    assert(among(collected(s), s[i]));
    choose|k: int| 0 <= k < collected(s).len() && s[i].alike(&#[trigger] collected(s)[k])
}

} // verus!
