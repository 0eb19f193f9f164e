//! Tables whose keys are texts, kept in the order of their keys.

use vstd::prelude::*;
use crate::order;
use crate::order::comes_before;
use crate::text::same;

verus! {

pub struct Table<V> {
    pub rows: Vec<(String, V)>,
}

/// The keys of rows.
pub open spec fn keys<V>(rows: Seq<(String, V)>) -> Seq<Seq<char>> {
    rows.map_values(|r: (String, V)| r.0@)
}

/// The place of a key, from the `i`-th row on.
pub open spec fn find<V>(rows: Seq<(String, V)>, key: Seq<char>, i: int) -> Option<int>
    decreases rows.len() - i,
{
    if i < 0 || i >= rows.len() {
        None
    } else if rows[i].0@ == key {
        Some(i)
    } else {
        find(rows, key, i + 1)
    }
}

pub proof fn lemma_find<V>(rows: Seq<(String, V)>, key: Seq<char>, i: int)
    requires
        0 <= i,
    ensures
        match find(rows, key, i) {
            Some(j) => i <= j < rows.len() && rows[j].0@ == key && forall|k: int|
                i <= k < j ==> (#[trigger] rows[k]).0@ != key,
            None => forall|j: int| i <= j < rows.len() ==> (#[trigger] rows[j]).0@ != key,
        },
    decreases rows.len() - i,
{
    if i < rows.len() && rows[i].0@ != key {
        lemma_find(rows, key, i + 1);
    }
}

/// In ordered rows a key stands where it is found.
pub proof fn lemma_found<V>(rows: Seq<(String, V)>, j: int)
    requires
        order::ascending(keys(rows)),
        0 <= j < rows.len(),
    ensures
        find(rows, rows[j].0@, 0) == Some(j),
{
    lemma_find(rows, rows[j].0@, 0);
    match find(rows, rows[j].0@, 0) {
        Some(i) => {
            if i < j {
                assert(order::before(keys(rows)[i], keys(rows)[j]));
                order::lemma_before_total(rows[i].0@, rows[j].0@);
            }
        },
        None => {},
    }
}

/// The ordered rows with `row` in its place, where it takes the place of a row under the
/// same key.
pub open spec fn with_row(
    rows: Seq<(Seq<char>, Seq<char>)>,
    row: (Seq<char>, Seq<char>),
) -> Seq<(Seq<char>, Seq<char>)>
    decreases rows.len(),
{
    if rows.len() == 0 || order::before(rows.last().0, row.0) {
        rows.push(row)
    } else if rows.last().0 == row.0 {
        rows.drop_last().push(row)
    } else {
        with_row(rows.drop_last(), row).push(rows.last())
    }
}

/// The rows that a map hands out, by key, when these were put into it one after the other.
pub open spec fn entered(rows: Seq<(Seq<char>, Seq<char>)>) -> Seq<(Seq<char>, Seq<char>)>
    decreases rows.len(),
{
    if rows.len() == 0 {
        seq![]
    } else {
        with_row(entered(rows.drop_last()), rows.last())
    }
}

/// Rows in the order of their keys, each of them once, come out of a map as they went in.
pub proof fn law_ordered_rows_stay(rows: Seq<(Seq<char>, Seq<char>)>)
    requires
        order::ascending(rows.map_values(|r: (Seq<char>, Seq<char>)| r.0)),
    ensures
        entered(rows) == rows,
    decreases rows.len(),
{
    let names = |r: (Seq<char>, Seq<char>)| r.0;
    if rows.len() > 0 {
        let head = rows.drop_last();
        let ks = rows.map_values(names);
        assert(head.map_values(names) =~= ks.drop_last());
        law_ordered_rows_stay(head);
        if head.len() > 0 {
            assert(order::before(ks[head.len() - 1], ks[head.len() as int]));
        }
        assert(head.push(rows.last()) =~= rows);
    } else {
        assert(entered(rows) =~= rows);
    }
}

/// What rows hold under their keys.
pub open spec fn held<V>(rows: Seq<(String, V)>) -> Map<Seq<char>, V> {
    Map::new(
        |k: Seq<char>| find(rows, k, 0) is Some,
        |k: Seq<char>| rows[find(rows, k, 0)->0].1,
    )
}

impl<V> View for Table<V> {
    type V = Map<Seq<char>, V>;

    open spec fn view(&self) -> Map<Seq<char>, V> {
        held(self.rows@)
    }
}

impl<V> Table<V> {
    /// The keys are in order, each of them once.
    pub open spec fn wf(self) -> bool {
        order::ascending(keys(self.rows@))
    }

    pub fn new() -> (out: Table<V>)
        ensures
            out.wf(),
            out@ == Map::<Seq<char>, V>::empty(),
            out.rows@.len() == 0,
    {
        let out = Table { rows: Vec::new() };
        assert(out@ =~= Map::<Seq<char>, V>::empty());
        out
    }

    /// The place of a key.
    pub fn place(&self, key: &str) -> (out: Option<usize>)
        ensures
            match out {
                Some(i) => find(self.rows@, key@, 0) == Some(i as int) && i < self.rows@.len(),
                None => find(self.rows@, key@, 0) is None,
            },
    {
        let mut i: usize = 0;
        while i < self.rows.len()
            invariant
                i <= self.rows@.len(),
                find(self.rows@, key@, 0) == find(self.rows@, key@, i as int),
            decreases self.rows@.len() - i,
        {
            if same(self.rows[i].0.as_str(), key) {
                return Some(i);
            }
            i = i + 1;
        }
        None
    }

    /// What stands under a key.
    pub fn get(&self, key: &str) -> (out: Option<&V>)
        ensures
            match out {
                Some(v) => self@.dom().contains(key@) && *v == self@[key@],
                None => !self@.dom().contains(key@),
            },
    {
        match self.place(key) {
            Some(i) => Some(&self.rows[i].1),
            None => None,
        }
    }

    pub fn contains_key(&self, key: &str) -> (yes: bool)
        ensures
            yes == self@.dom().contains(key@),
    {
        self.place(key).is_some()
    }

    /// The first key.
    pub fn first_key(&self) -> (out: Option<String>)
        requires
            self.wf(),
        ensures
            match out {
                Some(k) => self.rows@.len() > 0 && k@ == self.rows@[0].0@ && self@.dom().contains(
                    k@,
                ),
                None => self.rows@.len() == 0,
            },
    {
        if self.rows.len() == 0 {
            None
        } else {
            proof {
                lemma_found(self.rows@, 0);
            }
            Some(self.rows[0].0.clone())
        }
    }

    /// Puts a value under a key, in place of what stood there.
    pub fn insert(&mut self, key: String, value: V)
        requires
            old(self).wf(),
        ensures
            final(self).wf(),
            final(self)@ == old(self)@.insert(key@, value),
            final(self).rows@.len() == old(self).rows@.len() + (if old(self)@.dom().contains(key@) {
                0int
            } else {
                1int
            }),
    {
        let ghost start = self.rows@;
        let ghost ks = keys(start);
        let ghost name = key@;
        let mut i: usize = 0;
        while i < self.rows.len() && comes_before(self.rows[i].0.as_str(), key.as_str())
            invariant
                i <= self.rows@.len(),
                self.rows@ == start,
                ks == keys(start),
                forall|j: int| 0 <= j < i ==> order::before(#[trigger] ks[j], key@),
            decreases self.rows@.len() - i,
        {
            assert(ks[i as int] == start[i as int].0@);
            i = i + 1;
        }
        let there = i < self.rows.len() && same(self.rows[i].0.as_str(), key.as_str());
        proof {
            lemma_find(start, name, 0);
            if there {
                lemma_found(start, i as int);
            } else {
                match find(start, name, 0) {
                    Some(j) => {
                        if j < i {
                            order::lemma_before_total(ks[j], name);
                        } else {
                            order::lemma_before_total(ks[i as int], name);
                            if j > i {
                                assert(order::before(ks[i as int], ks[j]));
                                order::lemma_before_total(ks[i as int], ks[j]);
                            }
                        }
                    },
                    None => {},
                }
            }
        }
        if there {
            let _previous = self.rows.remove(i);
            self.rows.insert(i, (key, value));
            proof {
                let now = self.rows@;
                assert(keys(now) =~= ks);
                assert(now =~= start.update(i as int, now[i as int]));
                assert forall|p: Seq<char>| #[trigger] find(now, p, 0) == find(start, p, 0) by {
                    lemma_find(now, p, 0);
                    lemma_find(start, p, 0);
                    match find(start, p, 0) {
                        Some(j) => {
                            assert(keys(now)[j] == ks[j]);
                            lemma_found(now, j);
                        },
                        None => {
                            match find(now, p, 0) {
                                Some(j) => {
                                    assert(keys(now)[j] == ks[j]);
                                },
                                None => {},
                            }
                        },
                    }
                }
                assert forall|p: Seq<char>| #[trigger] held(now).dom().contains(p) implies held(
                    now,
                )[p] == held(start).insert(name, value)[p] by {
                    lemma_find(start, p, 0);
                    assert(find(now, p, 0) == find(start, p, 0));
                }
                assert forall|p: Seq<char>| #[trigger]
                    held(now).dom().contains(p) == held(start).insert(name, value).dom().contains(
                        p,
                    ) by {
                    assert(find(now, p, 0) == find(start, p, 0));
                }
                assert(held(now) =~= held(start).insert(name, value));
            }
        } else {
            self.rows.insert(i, (key, value));
            proof {
                let now = self.rows@;
                assert(keys(now) =~= ks.insert(i as int, name));
                if i < ks.len() {
                    order::lemma_before_total(ks[i as int], name);
                    assert(start[i as int].0@ == ks[i as int]);
                }
                let kn = keys(now);
                assert forall|a: int, b: int| 0 <= a < b < kn.len() implies order::before(
                    #[trigger] kn[a],
                    #[trigger] kn[b],
                ) by {
                    if a == i {
                        assert(kn[b] == ks[b - 1]);
                        if b - 1 > i {
                            order::lemma_before_transitive(name, ks[i as int], ks[b - 1]);
                        }
                    } else if b == i {
                        assert(kn[a] == ks[a]);
                    } else {
                        let a0 = if a < i {
                            a
                        } else {
                            a - 1
                        };
                        let b0 = if b < i {
                            b
                        } else {
                            b - 1
                        };
                        assert(kn[a] == ks[a0] && kn[b] == ks[b0]);
                    }
                }
                assert forall|p: Seq<char>| #[trigger]
                    held(now).dom().contains(p) == held(start).insert(name, value).dom().contains(
                        p,
                    ) by {
                    lemma_place_after(start, now, i as int, p);
                }
                assert forall|p: Seq<char>| #[trigger] held(now).dom().contains(p) implies held(
                    now,
                )[p] == held(start).insert(name, value)[p] by {
                    lemma_place_after(start, now, i as int, p);
                }
                assert(held(now) =~= held(start).insert(name, value));
            }
        }
    }

    /// Takes out what stands under a key.
    pub fn remove(&mut self, key: &str) -> (out: Option<V>)
        requires
            old(self).wf(),
        ensures
            final(self).wf(),
            final(self)@ == old(self)@.remove(key@),
            match out {
                Some(v) => old(self)@.dom().contains(key@) && v == old(self)@[key@],
                None => !old(self)@.dom().contains(key@),
            },
    {
        let ghost start = self.rows@;
        match self.place(key) {
            Some(i) => {
                let row = self.rows.remove(i);
                proof {
                    let now = self.rows@;
                    let ks = keys(start);
                    let kn = keys(now);
                    assert(kn =~= ks.remove(i as int));
                    assert forall|a: int, b: int| 0 <= a < b < kn.len() implies order::before(
                        #[trigger] kn[a],
                        #[trigger] kn[b],
                    ) by {
                        let a0 = if a < i {
                            a
                        } else {
                            a + 1
                        };
                        let b0 = if b < i {
                            b
                        } else {
                            b + 1
                        };
                        assert(kn[a] == ks[a0] && kn[b] == ks[b0]);
                    }
                    lemma_find(start, key@, 0);
                    assert(start =~= now.insert(i as int, start[i as int]));
                    assert forall|p: Seq<char>| #[trigger]
                        held(now).dom().contains(p) == held(start).remove(key@).dom().contains(
                            p,
                        ) by {
                        lemma_place_after(now, start, i as int, p);
                        lemma_absent(now, start, i as int);
                    }
                    assert forall|p: Seq<char>| #[trigger] held(now).dom().contains(p) implies held(
                        now,
                    )[p] == held(start).remove(key@)[p] by {
                        lemma_place_after(now, start, i as int, p);
                        lemma_absent(now, start, i as int);
                    }
                    assert(held(now) =~= held(start).remove(key@));
                }
                Some(row.1)
            },
            None => {
                assert(held(start) =~= held(start).remove(key@));
                None
            },
        }
    }
}

/// The longer rows hold one more row at `i`: other keys are found where they were, or
/// one further.
proof fn lemma_place_after<V>(
    short: Seq<(String, V)>,
    long: Seq<(String, V)>,
    i: int,
    p: Seq<char>,
)
    requires
        0 <= i <= short.len(),
        long == short.insert(i, long[i]),
        order::ascending(keys(long)),
        order::ascending(keys(short)),
    ensures
        p == long[i].0@ ==> find(long, p, 0) == Some(i),
        p != long[i].0@ ==> match find(short, p, 0) {
            Some(j) => {
                let k = if j < i {
                    j
                } else {
                    j + 1
                };
                find(long, p, 0) == Some(k) && long[k] == short[j]
            },
            None => find(long, p, 0) is None,
        },
{
    lemma_find(short, p, 0);
    lemma_find(long, p, 0);
    if p == long[i].0@ {
        lemma_found(long, i);
    } else {
        match find(short, p, 0) {
            Some(j) => {
                let k = if j < i {
                    j
                } else {
                    j + 1
                };
                assert(long[k] == short[j]);
                lemma_found(long, k);
            },
            None => {
                match find(long, p, 0) {
                    Some(k) => {
                        let j = if k < i {
                            k
                        } else {
                            k - 1
                        };
                        assert(long[k] == short[j]);
                    },
                    None => {},
                }
            },
        }
    }
}

/// The key of the row that only the longer rows hold is not among the others.
proof fn lemma_absent<V>(short: Seq<(String, V)>, long: Seq<(String, V)>, i: int)
    requires
        0 <= i <= short.len(),
        long == short.insert(i, long[i]),
        order::ascending(keys(long)),
    ensures
        find(short, long[i].0@, 0) is None,
{
    lemma_find(short, long[i].0@, 0);
    match find(short, long[i].0@, 0) {
        Some(j) => {
            let k = if j < i {
                j
            } else {
                j + 1
            };
            assert(long[k] == short[j]);
            assert(keys(long)[k] == keys(long)[i]);
            order::lemma_before_total(keys(long)[k], keys(long)[i]);
            if k < i {
                assert(order::before(keys(long)[k], keys(long)[i]));
            } else {
                assert(order::before(keys(long)[i], keys(long)[k]));
            }
        },
        None => {},
    }
}

} // verus!
