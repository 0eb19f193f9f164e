//! The order of texts, and lists kept in it.

use vstd::prelude::*;
use crate::text;
use crate::text::{chars_of, same};

verus! {

/// `a` comes before `b`: the first character in which they differ is smaller,
/// or `a` ends first.
pub open spec fn before(a: Seq<char>, b: Seq<char>) -> bool
    decreases a.len(),
{
    if b.len() == 0 {
        false
    } else if a.len() == 0 {
        true
    } else if a[0] != b[0] {
        a[0] < b[0]
    } else {
        before(a.drop_first(), b.drop_first())
    }
}

/// Of two different texts exactly one comes before the other.
pub proof fn lemma_before_total(a: Seq<char>, b: Seq<char>)
    ensures
        a == b ==> !before(a, b) && !before(b, a),
        a != b ==> before(a, b) != before(b, a),
    decreases a.len(),
{
    if a.len() > 0 && b.len() > 0 && a[0] == b[0] {
        lemma_before_total(a.drop_first(), b.drop_first());
        if a.drop_first() == b.drop_first() {
            assert(a =~= seq![a[0]] + a.drop_first());
            assert(b =~= seq![b[0]] + b.drop_first());
        }
    } else if a.len() == 0 && b.len() == 0 {
        assert(a =~= b);
    }
}

/// The order is transitive.
pub proof fn lemma_before_transitive(a: Seq<char>, b: Seq<char>, c: Seq<char>)
    requires
        before(a, b),
        before(b, c),
    ensures
        before(a, c),
    decreases a.len(),
{
    if a.len() > 0 && b.len() > 0 && c.len() > 0 && a[0] == b[0] && b[0] == c[0] {
        lemma_before_transitive(a.drop_first(), b.drop_first(), c.drop_first());
    }
}

/// `a` comes before `b`.
pub fn comes_before(a: &str, b: &str) -> (yes: bool)
    ensures
        yes == before(a@, b@),
{
    let x = chars_of(a);
    let y = chars_of(b);
    let mut i: usize = 0;
    assert(a@.skip(0) =~= a@);
    assert(b@.skip(0) =~= b@);
    while i < x.len() && i < y.len()
        invariant
            i <= x@.len(),
            i <= y@.len(),
            x@ == a@,
            y@ == b@,
            before(a@, b@) == before(a@.skip(i as int), b@.skip(i as int)),
        decreases x@.len() - i,
    {
        if x[i] != y[i] {
            return x[i] < y[i];
        }
        assert(a@.skip(i as int).drop_first() =~= a@.skip(i + 1));
        assert(b@.skip(i as int).drop_first() =~= b@.skip(i + 1));
        i = i + 1;
    }
    i < y.len()
}

/// Every text comes before those after it, so none occurs twice.
pub open spec fn ascending(v: Seq<Seq<char>>) -> bool {
    forall|i: int, j: int| 0 <= i < j < v.len() ==> before(#[trigger] v[i], #[trigger] v[j])
}

/// Some entry is `x`.
pub open spec fn holds(v: Seq<Seq<char>>, x: Seq<char>) -> bool {
    exists|i: int| 0 <= i < v.len() && v[i] == x
}

/// Adds `x` to an ascending list, at its place, unless it is there.
pub fn insert_ascending(list: &mut Vec<String>, x: String)
    requires
        ascending(text::views(old(list)@)),
    ensures
        ascending(text::views(final(list)@)),
        forall|y: Seq<char>|
            holds(text::views(final(list)@), y) <==> holds(text::views(old(list)@), y) || y == x@,
{
    let ghost start = text::views(list@);
    let mut i: usize = 0;
    while i < list.len() && comes_before(list[i].as_str(), x.as_str())
        invariant
            i <= list@.len(),
            text::views(list@) == start,
            forall|j: int| 0 <= j < i ==> before(#[trigger] start[j], x@),
        decreases list@.len() - i,
    {
        assert(start[i as int] == list@[i as int]@);
        i = i + 1;
    }
    if i < list.len() && same(list[i].as_str(), x.as_str()) {
        assert(start[i as int] == x@);
        return;
    }
    let ghost xs = x@;
    list.insert(i, x);
    proof {
        let now = text::views(list@);
        assert(now =~= start.insert(i as int, xs));
        if i < start.len() {
            lemma_before_total(start[i as int], xs);
            assert(before(xs, start[i as int]));
        }
        assert forall|a: int, b: int| 0 <= a < b < now.len() implies before(
            #[trigger] now[a],
            #[trigger] now[b],
        ) by {
            if a == i {
                assert(now[b] == start[b - 1]);
                if b - 1 > i {
                    lemma_before_transitive(xs, start[i as int], start[b - 1]);
                }
            } else if b == i {
                assert(now[a] == start[a]);
            } else {
                let a0 = if a < i { a } else { a - 1 };
                let b0 = if b < i { b } else { b - 1 };
                assert(now[a] == start[a0] && now[b] == start[b0]);
            }
        }
        assert forall|y: Seq<char>| holds(now, y) <==> holds(start, y) || y == xs by {
            if holds(start, y) {
                let k = choose|k: int| 0 <= k < start.len() && start[k] == y;
                assert(now[if k < i { k } else { k + 1 }] == y);
            }
            if y == xs {
                assert(now[i as int] == y);
            }
            if holds(now, y) {
                let k = choose|k: int| 0 <= k < now.len() && now[k] == y;
                if k != i {
                    assert(start[if k < i { k } else { k - 1 }] == y);
                }
            }
        }
    }
}

/// An ascending list with `x` in its place.
pub open spec fn with(v: Seq<Seq<char>>, x: Seq<char>) -> Seq<Seq<char>>
    decreases v.len(),
{
    if v.len() == 0 {
        seq![x]
    } else if v.last() == x {
        v
    } else if before(x, v.last()) {
        with(v.drop_last(), x).push(v.last())
    } else {
        v.push(x)
    }
}

/// The texts of `v` in ascending order, each once.
pub open spec fn distinct(v: Seq<Seq<char>>) -> Seq<Seq<char>>
    decreases v.len(),
{
    if v.len() == 0 {
        seq![]
    } else {
        with(distinct(v.drop_last()), v.last())
    }
}

proof fn lemma_with(v: Seq<Seq<char>>, x: Seq<char>)
    requires
        ascending(v),
    ensures
        ascending(with(v, x)),
        forall|y: Seq<char>|
            #![trigger holds(with(v, x), y)]
            #![trigger holds(v, y)]
            holds(with(v, x), y) <==> holds(v, y) || y == x,
    decreases v.len(),
{
    let now = with(v, x);
    if v.len() == 0 {
        assert forall|y: Seq<char>| holds(now, y) <==> holds(v, y) || y == x by {
            if y == x {
                assert(now[0] == y);
            }
        }
    } else if v.last() == x {
        assert(holds(v, x)) by {
            assert(v[v.len() - 1] == x);
        }
    } else if before(x, v.last()) {
        let head = with(v.drop_last(), x);
        assert(ascending(v.drop_last()));
        lemma_with(v.drop_last(), x);
        assert forall|i: int, j: int| 0 <= i < j < now.len() implies before(
            #[trigger] now[i],
            #[trigger] now[j],
        ) by {
            assert(now[i] == head[i]);
            if j < head.len() {
                assert(now[j] == head[j]);
            } else {
                let y = head[i];
                assert(holds(head, y));
                assert(now[j] == v.last());
                if y != x {
                    assert(holds(v.drop_last(), y));
                    let k = choose|k: int|
                        0 <= k < v.drop_last().len() && v.drop_last()[k] == y;
                    assert(before(v[k], v[v.len() - 1]));
                }
            }
        }
        assert forall|y: Seq<char>| holds(now, y) <==> holds(v, y) || y == x by {
            if holds(v, y) {
                let k = choose|k: int| 0 <= k < v.len() && v[k] == y;
                if k < v.len() - 1 {
                    assert(v.drop_last()[k] == y);
                    assert(holds(v.drop_last(), y));
                    let m = choose|m: int| 0 <= m < head.len() && head[m] == y;
                    assert(now[m] == y);
                } else {
                    assert(now[now.len() - 1] == y);
                }
            }
            if y == x {
                assert(holds(v.drop_last(), y) || holds(head, y));
                let m = choose|m: int| 0 <= m < head.len() && head[m] == y;
                assert(now[m] == y);
            }
            if holds(now, y) {
                let k = choose|k: int| 0 <= k < now.len() && now[k] == y;
                if k < head.len() {
                    assert(head[k] == y);
                    assert(holds(head, y));
                    if y != x {
                        let m = choose|m: int|
                            0 <= m < v.drop_last().len() && v.drop_last()[m] == y;
                        assert(v[m] == y);
                    }
                } else {
                    assert(v[v.len() - 1] == y);
                }
            }
        }
    } else {
        lemma_before_total(v.last(), x);
        assert forall|i: int, j: int| 0 <= i < j < now.len() implies before(
            #[trigger] now[i],
            #[trigger] now[j],
        ) by {
            assert(now[i] == v[i]);
            if j < v.len() {
                assert(now[j] == v[j]);
            } else if i < v.len() - 1 {
                lemma_before_transitive(v[i], v[v.len() - 1], x);
            }
        }
        assert forall|y: Seq<char>| holds(now, y) <==> holds(v, y) || y == x by {
            if holds(v, y) {
                let k = choose|k: int| 0 <= k < v.len() && v[k] == y;
                assert(now[k] == y);
            }
            if y == x {
                assert(now[now.len() - 1] == y);
            }
            if holds(now, y) {
                let k = choose|k: int| 0 <= k < now.len() && now[k] == y;
                if k < v.len() {
                    assert(v[k] == y);
                }
            }
        }
    }
}

/// Sorting keeps every text, once, in ascending order.
pub proof fn lemma_distinct(v: Seq<Seq<char>>)
    ensures
        ascending(distinct(v)),
        forall|y: Seq<char>| holds(distinct(v), y) <==> holds(v, y),
    decreases v.len(),
{
    if v.len() > 0 {
        let head = v.drop_last();
        lemma_distinct(head);
        lemma_with(distinct(head), v.last());
        assert forall|y: Seq<char>| holds(distinct(v), y) <==> holds(v, y) by {
            if holds(v, y) {
                let k = choose|k: int| 0 <= k < v.len() && v[k] == y;
                if k < v.len() - 1 {
                    assert(head[k] == y);
                }
            }
            if holds(head, y) {
                let k = choose|k: int| 0 <= k < head.len() && head[k] == y;
                assert(v[k] == y);
            }
            if y == v.last() {
                assert(v[v.len() - 1] == y);
            }
        }
    }
}

/// The texts of `v` in ascending order, each once.
pub fn sorted_distinct(v: &Vec<String>) -> (out: Vec<String>)
    ensures
        text::views(out@) == distinct(text::views(v@)),
{
    let mut out: Vec<String> = Vec::new();
    let mut i: usize = 0;
    while i < v.len()
        invariant
            i <= v@.len(),
            ascending(text::views(out@)),
            forall|y: Seq<char>| holds(text::views(out@), y) <==> holds(text::views(v@).take(i as int), y),
        decreases v@.len() - i,
    {
        let ghost was = text::views(out@);
        insert_ascending(&mut out, v[i].clone());
        proof {
            let all = text::views(v@);
            let next = all.take(i + 1);
            assert forall|y: Seq<char>| holds(text::views(out@), y) <==> holds(next, y) by {
                if holds(all.take(i as int), y) {
                    let k = choose|k: int| 0 <= k < i && all.take(i as int)[k] == y;
                    assert(next[k] == y);
                }
                if y == all[i as int] {
                    assert(next[i as int] == y);
                }
                if holds(next, y) {
                    let k = choose|k: int| 0 <= k < i + 1 && #[trigger] next[k] == y;
                    if k < i {
                        assert(all.take(i as int)[k] == y);
                    }
                }
            }
        }
        i = i + 1;
    }
    assert(text::views(v@).take(i as int) =~= text::views(v@));
    proof {
        lemma_distinct(text::views(v@));
        lemma_ascending_unique(text::views(out@), distinct(text::views(v@)));
    }
    out
}

/// Two ascending lists with the same entries are equal.
pub proof fn lemma_ascending_unique(a: Seq<Seq<char>>, b: Seq<Seq<char>>)
    requires
        ascending(a),
        ascending(b),
        forall|y: Seq<char>| holds(a, y) <==> holds(b, y),
    ensures
        a == b,
    decreases a.len(),
{
    if a.len() == 0 {
        if b.len() > 0 {
            assert(holds(b, b[0]));
        }
        assert(a =~= b);
    } else {
        assert(holds(a, a[0]));
        let p = choose|p: int| 0 <= p < b.len() && b[p] == a[0];
        assert(holds(b, b[0]));
        let q = choose|q: int| 0 <= q < a.len() && a[q] == b[0];
        lemma_before_total(a[0], b[0]);
        assert(a[0] == b[0]);
        let a1 = a.drop_first();
        let b1 = b.drop_first();
        assert forall|y: Seq<char>| holds(a1, y) <==> holds(b1, y) by {
            lemma_before_total(a[0], y);
            if holds(a1, y) {
                let k = choose|k: int| 0 <= k < a1.len() && a1[k] == y;
                assert(a[k + 1] == y && before(a[0], a[k + 1]));
                assert(holds(a, y));
                let m = choose|m: int| 0 <= m < b.len() && b[m] == y;
                assert(b1[m - 1] == y);
            }
            if holds(b1, y) {
                let k = choose|k: int| 0 <= k < b1.len() && b1[k] == y;
                assert(b[k + 1] == y && before(b[0], b[k + 1]));
                assert(holds(b, y));
                let m = choose|m: int| 0 <= m < a.len() && a[m] == y;
                assert(a1[m - 1] == y);
            }
        }
        lemma_ascending_unique(a1, b1);
        assert(a =~= seq![a[0]] + a1);
        assert(b =~= seq![b[0]] + b1);
    }
}

/// A list in order with `x` behind everything that does not come after it.
pub open spec fn inserted(v: Seq<Seq<char>>, x: Seq<char>) -> Seq<Seq<char>>
    decreases v.len(),
{
    if v.len() > 0 && before(x, v.last()) {
        inserted(v.drop_last(), x).push(v.last())
    } else {
        v.push(x)
    }
}

/// The texts of `v` in order, each as often as it occurs.
pub open spec fn sorted(v: Seq<Seq<char>>) -> Seq<Seq<char>>
    decreases v.len(),
{
    if v.len() == 0 {
        seq![]
    } else {
        inserted(sorted(v.drop_last()), v.last())
    }
}

proof fn lemma_inserted(v: Seq<Seq<char>>, x: Seq<char>, k: int)
    requires
        0 <= k <= v.len(),
        k > 0 ==> !before(x, v[k - 1]),
        forall|j: int| k <= j < v.len() ==> before(x, #[trigger] v[j]),
    ensures
        inserted(v, x) == v.insert(k, x),
    decreases v.len(),
{
    if k < v.len() {
        assert(before(x, v[v.len() - 1]));
        lemma_inserted(v.drop_last(), x, k);
        assert(v.drop_last().insert(k, x).push(v.last()) =~= v.insert(k, x));
    } else {
        assert(v.push(x) =~= v.insert(k, x));
    }
}

/// The texts of `v` in order, each as often as it occurs.
pub fn sort_texts(v: &Vec<String>) -> (out: Vec<String>)
    ensures
        text::views(out@) == sorted(text::views(v@)),
{
    let ghost all = text::views(v@);
    let mut out: Vec<String> = Vec::new();
    let mut i: usize = 0;
    assert(text::views(out@) =~= sorted(all.take(0)));
    while i < v.len()
        invariant
            i <= v@.len(),
            all == text::views(v@),
            text::views(out@) == sorted(all.take(i as int)),
        decreases v@.len() - i,
    {
        let ghost was = text::views(out@);
        assert(all.take(i + 1).drop_last() =~= all.take(i as int));
        assert(all[i as int] == v@[i as int]@);
        let mut k: usize = out.len();
        while k > 0 && comes_before(v[i].as_str(), out[k - 1].as_str())
            invariant
                i < v@.len(),
                k <= out@.len(),
                was == text::views(out@),
                forall|j: int| k <= j < was.len() ==> before(v@[i as int]@, #[trigger] was[j]),
            ensures
                k > 0 ==> !before(v@[i as int]@, out@[k - 1]@),
            decreases k,
        {
            assert(was[k - 1] == out@[k - 1]@);
            k = k - 1;
        }
        proof {
            if k > 0 {
                assert(was[k - 1] == out@[k - 1]@);
            }
            lemma_inserted(was, v@[i as int]@, k as int);
        }
        out.insert(k, v[i].clone());
        assert(text::views(out@) =~= was.insert(k as int, v@[i as int]@));
        i = i + 1;
    }
    assert(all.take(i as int) =~= all);
    out
}

} // verus!
