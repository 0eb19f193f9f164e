//! JSON values as plain data.

use vstd::prelude::*;
use crate::text;
use crate::text::same;

verus! {

/// A JSON value. Numbers that are no 64-bit integers keep their text.
pub enum Json {
    Null,
    Bool(bool),
    Unsigned(u64),
    Negative(i64),
    Decimal(String),
    Text(String),
    List(Vec<Json>),
    Object(Vec<(String, Json)>),
}

/// What a [`Json`] holds.
#[verifier::ext_equal]
pub ghost enum JsonView {
    Null,
    Bool(bool),
    Unsigned(u64),
    Negative(i64),
    Decimal(Seq<char>),
    Text(Seq<char>),
    List(Seq<JsonView>),
    Object(Seq<(Seq<char>, JsonView)>),
}

impl View for Json {
    type V = JsonView;

    open spec fn view(&self) -> JsonView
        decreases self,
    {
        match self {
            Json::Null => JsonView::Null,
            Json::Bool(b) => JsonView::Bool(*b),
            Json::Unsigned(n) => JsonView::Unsigned(*n),
            Json::Negative(n) => JsonView::Negative(*n),
            Json::Decimal(s) => JsonView::Decimal(s@),
            Json::Text(s) => JsonView::Text(s@),
            Json::List(v) => JsonView::List(
                Seq::new(
                    v@.len(),
                    |i: int|
                        if 0 <= i < v@.len() {
                            v@[i].view()
                        } else {
                            JsonView::Null
                        },
                ),
            ),
            Json::Object(v) => JsonView::Object(
                Seq::new(
                    v@.len(),
                    |i: int|
                        if 0 <= i < v@.len() {
                            (v@[i].0@, v@[i].1.view())
                        } else {
                            (Seq::empty(), JsonView::Null)
                        },
                ),
            ),
        }
    }
}

/// What each value holds.
pub open spec fn values(v: Seq<Json>) -> Seq<JsonView> {
    v.map_values(|j: Json| j@)
}

/// What each entry holds.
pub open spec fn rows(v: Seq<(String, Json)>) -> Seq<(Seq<char>, JsonView)> {
    v.map_values(|row: (String, Json)| (row.0@, row.1@))
}

/// A list holds what its items hold.
pub broadcast proof fn lemma_list_view(v: Vec<Json>)
    ensures
        (#[trigger] Json::List(v)@) == JsonView::List(values(v@)),
{
    reveal_with_fuel(<Json as View>::view, 2);
    assert(Json::List(v)@->List_0 =~= values(v@));
}

/// An object holds what its entries hold.
pub broadcast proof fn lemma_object_view(v: Vec<(String, Json)>)
    ensures
        (#[trigger] Json::Object(v)@) == JsonView::Object(rows(v@)),
{
    reveal_with_fuel(<Json as View>::view, 2);
    assert(Json::Object(v)@->Object_0 =~= rows(v@));
}

/// A list of texts.
pub open spec fn text_list(v: Seq<Seq<char>>) -> JsonView {
    JsonView::List(v.map_values(|s: Seq<char>| JsonView::Text(s)))
}

/// An object of texts.
pub open spec fn text_object(v: Seq<(Seq<char>, Seq<char>)>) -> JsonView {
    JsonView::Object(v.map_values(|r: (Seq<char>, Seq<char>)| (r.0, JsonView::Text(r.1))))
}

/// The text of a number that is no integer, where zero has no sign.
pub open spec fn unsigned_zero(s: Seq<char>) -> Seq<char> {
    if s == "-0.0"@ {
        "0.0"@
    } else {
        s
    }
}

/// The value with every zero that is no integer written without a sign: two values are
/// equal where these are the same.
pub open spec fn by_value(j: JsonView) -> JsonView
    decreases j,
{
    match j {
        JsonView::Decimal(s) => JsonView::Decimal(unsigned_zero(s)),
        JsonView::List(v) => JsonView::List(
            Seq::new(
                v.len(),
                |i: int|
                    if 0 <= i < v.len() {
                        by_value(v[i])
                    } else {
                        JsonView::Null
                    },
            ),
        ),
        JsonView::Object(v) => JsonView::Object(
            Seq::new(
                v.len(),
                |i: int|
                    if 0 <= i < v.len() {
                        (v[i].0, by_value(v[i].1))
                    } else {
                        (Seq::empty(), JsonView::Null)
                    },
            ),
        ),
        _ => j,
    }
}

/// The first entry at or after `i` under `key`.
pub open spec fn entry_from(rows: Seq<(Seq<char>, JsonView)>, key: Seq<char>, i: int) -> Option<
    JsonView,
>
    decreases rows.len() - i,
{
    if i < 0 || i >= rows.len() {
        None
    } else if rows[i].0 == key {
        Some(rows[i].1)
    } else {
        entry_from(rows, key, i + 1)
    }
}

/// The position of the first entry at or after `i` under `key`.
pub open spec fn position_from(rows: Seq<(Seq<char>, JsonView)>, key: Seq<char>, i: int) -> Option<
    int,
>
    decreases rows.len() - i,
{
    if i < 0 || i >= rows.len() {
        None
    } else if rows[i].0 == key {
        Some(i)
    } else {
        position_from(rows, key, i + 1)
    }
}

/// The entries with `value` under `key`, in place of what stood there first.
pub open spec fn put(
    rows: Seq<(Seq<char>, JsonView)>,
    key: Seq<char>,
    value: JsonView,
) -> Seq<(Seq<char>, JsonView)> {
    match position_from(rows, key, 0) {
        Some(i) => rows.update(i, (key, value)),
        None => rows.push((key, value)),
    }
}

/// An entry is part of the entries that it stands in.
pub proof fn lemma_entry_smaller(rows: Seq<(Seq<char>, JsonView)>, key: Seq<char>, i: int)
    ensures
        entry_from(rows, key, i) matches Some(v) ==> decreases_to!(rows => v),
    decreases rows.len() - i,
{
    if 0 <= i < rows.len() {
        if rows[i].0 == key {
            assert(decreases_to!(rows => rows[i]));
            assert(decreases_to!(rows[i] => rows[i].1));
        } else {
            lemma_entry_smaller(rows, key, i + 1);
        }
    }
}

/// What `pick` takes from the values, in their order.
pub open spec fn picked<T>(v: Seq<JsonView>, pick: spec_fn(JsonView) -> Option<T>) -> Seq<T>
    decreases v.len(),
{
    if v.len() == 0 {
        seq![]
    } else {
        let head = picked(v.drop_last(), pick);
        match pick(v.last()) {
            Some(x) => head.push(x),
            None => head,
        }
    }
}

impl JsonView {
    /// The values of a list, or none.
    pub open spec fn items(self) -> Seq<JsonView> {
        match self {
            JsonView::List(v) => v,
            _ => seq![],
        }
    }

    /// The value under `key` of an object.
    pub open spec fn field(self, key: Seq<char>) -> Option<JsonView> {
        match self {
            JsonView::Object(rows) => entry_from(rows, key, 0),
            _ => None,
        }
    }

    /// The value under `key` of an object, or null.
    pub open spec fn get(self, key: Seq<char>) -> JsonView {
        match self.field(key) {
            Some(v) => v,
            None => JsonView::Null,
        }
    }

    pub open spec fn text(self) -> Option<Seq<char>> {
        match self {
            JsonView::Text(s) => Some(s),
            _ => None,
        }
    }

    pub open spec fn unsigned(self) -> Option<u64> {
        match self {
            JsonView::Unsigned(n) => Some(n),
            _ => None,
        }
    }

    pub open spec fn integer(self) -> Option<int> {
        match self {
            JsonView::Unsigned(n) => if n <= i64::MAX {
                Some(n as int)
            } else {
                None
            },
            JsonView::Negative(n) => Some(n as int),
            _ => None,
        }
    }

    pub open spec fn truth(self) -> Option<bool> {
        match self {
            JsonView::Bool(b) => Some(b),
            _ => None,
        }
    }

    pub open spec fn list(self) -> Option<Seq<JsonView>> {
        match self {
            JsonView::List(v) => Some(v),
            _ => None,
        }
    }

    /// The text under `key`.
    pub open spec fn text_at(self, key: Seq<char>) -> Option<Seq<char>> {
        self.get(key).text()
    }
}

impl Json {
    /// The value under `key` of an object.
    pub fn field(&self, key: &str) -> (out: Option<&Json>)
        ensures
            match out {
                Some(v) => self@.field(key@) == Some(v@),
                None => self@.field(key@) is None,
            },
    {
        match self {
            Json::Object(v) => {
                proof {
                    lemma_object_view(*v);
                }
                let mut i: usize = 0;
                while i < v.len()
                    invariant
                        i <= v@.len(),
                        self@ == JsonView::Object(rows(v@)),
                        self@.field(key@) == entry_from(rows(v@), key@, i as int),
                    decreases v@.len() - i,
                {
                    if same(v[i].0.as_str(), key) {
                        return Some(&v[i].1);
                    }
                    i = i + 1;
                }
                None
            },
            _ => None,
        }
    }

    pub fn text(&self) -> (out: Option<&String>)
        ensures
            match out {
                Some(s) => self@.text() == Some(s@),
                None => self@.text() is None,
            },
    {
        match self {
            Json::Text(s) => Some(s),
            _ => None,
        }
    }

    pub fn unsigned(&self) -> (out: Option<u64>)
        ensures
            out == self@.unsigned(),
    {
        match self {
            Json::Unsigned(n) => Some(*n),
            _ => None,
        }
    }

    pub fn integer(&self) -> (out: Option<i64>)
        ensures
            match out {
                Some(n) => self@.integer() == Some(n as int),
                None => self@.integer() is None,
            },
    {
        match self {
            Json::Unsigned(n) => if *n <= i64::MAX as u64 {
                Some(*n as i64)
            } else {
                None
            },
            Json::Negative(n) => Some(*n),
            _ => None,
        }
    }

    pub fn truth(&self) -> (out: Option<bool>)
        ensures
            out == self@.truth(),
    {
        match self {
            Json::Bool(b) => Some(*b),
            _ => None,
        }
    }

    pub fn list(&self) -> (out: Option<&Vec<Json>>)
        ensures
            match out {
                Some(v) => self@.list() == Some(values(v@)) && *self == Json::List(*v),
                None => self@.list() is None,
            },
    {
        match self {
            Json::List(v) => {
                proof {
                    lemma_list_view(*v);
                }
                Some(v)
            },
            _ => None,
        }
    }

    /// The text under `key`.
    pub fn text_at(&self, key: &str) -> (out: Option<&String>)
        ensures
            match out {
                Some(s) => self@.text_at(key@) == Some(s@),
                None => self@.text_at(key@) is None,
            },
    {
        match self.field(key) {
            Some(v) => v.text(),
            None => None,
        }
    }

    /// The two values are equal.
    pub fn matches(&self, other: &Json) -> (yes: bool)
        ensures
            yes == (by_value(self@) == by_value(other@)),
        decreases self,
    {
        match (self, other) {
            (Json::Null, Json::Null) => true,
            (Json::Bool(a), Json::Bool(b)) => *a == *b,
            (Json::Unsigned(a), Json::Unsigned(b)) => *a == *b,
            (Json::Negative(a), Json::Negative(b)) => *a == *b,
            (Json::Decimal(a), Json::Decimal(b)) => {
                let x = if same(a.as_str(), "-0.0") {
                    "0.0"
                } else {
                    a.as_str()
                };
                let y = if same(b.as_str(), "-0.0") {
                    "0.0"
                } else {
                    b.as_str()
                };
                same(x, y)
            },
            (Json::Text(a), Json::Text(b)) => same(a.as_str(), b.as_str()),
            (Json::List(a), Json::List(b)) => {
                proof {
                    lemma_list_view(*a);
                    lemma_list_view(*b);
                }
                let ghost x = by_value(self@)->List_0;
                let ghost y = by_value(other@)->List_0;
                if a.len() != b.len() {
                    assert(x.len() != y.len());
                    return false;
                }
                let mut i: usize = 0;
                while i < a.len()
                    invariant
                        i <= a@.len(),
                        a@.len() == b@.len(),
                        *self == Json::List(*a),
                        self@ == JsonView::List(values(a@)),
                        other@ == JsonView::List(values(b@)),
                        by_value(self@) == JsonView::List(x),
                        by_value(other@) == JsonView::List(y),
                        forall|j: int| 0 <= j < i ==> #[trigger] x[j] == y[j],
                    decreases a@.len() - i,
                {
                    proof {
                        assert(decreases_to!(*self => self->List_0));
                        assert(decreases_to!(self->List_0 => self->List_0@));
                        assert(decreases_to!(self->List_0@ => self->List_0@[i as int]));
                    }
                    assert(x[i as int] == by_value(a@[i as int]@));
                    assert(y[i as int] == by_value(b@[i as int]@));
                    if !a[i].matches(&b[i]) {
                        return false;
                    }
                    i = i + 1;
                }
                assert(x =~= y);
                true
            },
            (Json::Object(a), Json::Object(b)) => {
                proof {
                    lemma_object_view(*a);
                    lemma_object_view(*b);
                }
                let ghost x = by_value(self@)->Object_0;
                let ghost y = by_value(other@)->Object_0;
                if a.len() != b.len() {
                    assert(x.len() != y.len());
                    return false;
                }
                let mut i: usize = 0;
                while i < a.len()
                    invariant
                        i <= a@.len(),
                        a@.len() == b@.len(),
                        *self == Json::Object(*a),
                        self@ == JsonView::Object(rows(a@)),
                        other@ == JsonView::Object(rows(b@)),
                        by_value(self@) == JsonView::Object(x),
                        by_value(other@) == JsonView::Object(y),
                        forall|j: int| 0 <= j < i ==> #[trigger] x[j] == y[j],
                    decreases a@.len() - i,
                {
                    proof {
                        assert(decreases_to!(*self => self->Object_0));
                        assert(decreases_to!(self->Object_0 => self->Object_0@));
                        assert(decreases_to!(self->Object_0@ => self->Object_0@[i as int]));
                    }
                    assert(x[i as int] == (a@[i as int].0@, by_value(a@[i as int].1@)));
                    assert(y[i as int] == (b@[i as int].0@, by_value(b@[i as int].1@)));
                    if !same(a[i].0.as_str(), b[i].0.as_str()) || !a[i].1.matches(&b[i].1) {
                        return false;
                    }
                    i = i + 1;
                }
                assert(x =~= y);
                true
            },
            _ => false,
        }
    }

    /// A value that holds the same.
    pub fn copy(&self) -> (out: Json)
        ensures
            out@ == self@,
        decreases self,
    {
        match self {
            Json::Null => Json::Null,
            Json::Bool(b) => Json::Bool(*b),
            Json::Unsigned(n) => Json::Unsigned(*n),
            Json::Negative(n) => Json::Negative(*n),
            Json::Decimal(s) => Json::Decimal(s.clone()),
            Json::Text(s) => Json::Text(s.clone()),
            Json::List(v) => {
                let mut out: Vec<Json> = Vec::new();
                let mut i: usize = 0;
                while i < v.len()
                    invariant
                        i <= v@.len(),
                        *self == Json::List(*v),
                        out@.len() == i,
                        forall|j: int| 0 <= j < i ==> (#[trigger] out@[j])@ == v@[j]@,
                    decreases v@.len() - i,
                {
                    proof {
                        assert(decreases_to!(*self => self->List_0));
                        assert(decreases_to!(self->List_0 => self->List_0@));
                        assert(decreases_to!(self->List_0@ => self->List_0@[i as int]));
                    }
                    out.push(v[i].copy());
                    i = i + 1;
                }
                proof {
                    lemma_list_view(*v);
                    lemma_list_view(out);
                    assert(values(out@) =~= values(v@));
                }
                Json::List(out)
            },
            Json::Object(v) => {
                let mut out: Vec<(String, Json)> = Vec::new();
                let mut i: usize = 0;
                while i < v.len()
                    invariant
                        i <= v@.len(),
                        *self == Json::Object(*v),
                        out@.len() == i,
                        forall|j: int|
                            0 <= j < i ==> (#[trigger] out@[j]).0@ == v@[j].0@ && out@[j].1@
                                == v@[j].1@,
                    decreases v@.len() - i,
                {
                    proof {
                        assert(decreases_to!(*self => self->Object_0));
                        assert(decreases_to!(self->Object_0 => self->Object_0@));
                        assert(decreases_to!(self->Object_0@ => self->Object_0@[i as int]));
                    }
                    out.push((v[i].0.clone(), v[i].1.copy()));
                    i = i + 1;
                }
                proof {
                    lemma_object_view(*v);
                    lemma_object_view(out);
                    assert(rows(out@) =~= rows(v@));
                }
                Json::Object(out)
            },
        }
    }
}

/// Sets `value` under `key`, in place of what stood there first.
pub fn put_entry(v: &mut Vec<(String, Json)>, key: &str, value: Json)
    ensures
        rows(final(v)@) == put(rows(old(v)@), key@, value@),
{
    let ghost was = v@;
    let ghost val = value@;
    let mut i: usize = 0;
    while i < v.len()
        invariant
            i <= v@.len(),
            v@ == was,
            was == old(v)@,
            val == value@,
            position_from(rows(was), key@, 0) == position_from(rows(was), key@, i as int),
        decreases v@.len() - i,
    {
        if same(v[i].0.as_str(), key) {
            v.set(i, (key.to_owned(), value));
            assert(rows(v@) =~= rows(was).update(i as int, (key@, val)));
            return;
        }
        i = i + 1;
    }
    v.push((key.to_owned(), value));
    assert(rows(v@) =~= rows(was).push((key@, val)));
}

/// The object without entries.
pub fn object0() -> (out: Json)
    ensures
        out@ == JsonView::Object(seq![]),
{
    let v: Vec<(String, Json)> = Vec::new();
    proof {
        lemma_object_view(v);
        assert(rows(v@) =~= seq![]);
    }
    Json::Object(v)
}

/// An object of one entry.
pub fn object1(k1: &str, v1: Json) -> (out: Json)
    ensures
        out@ == JsonView::Object(seq![(k1@, v1@)]),
{
    let mut v: Vec<(String, Json)> = Vec::new();
    let ghost want = seq![(k1@, v1@)];
    v.push((k1.to_owned(), v1));
    proof {
        lemma_object_view(v);
        assert(rows(v@) =~= want);
    }
    Json::Object(v)
}

/// An object of two entries.
pub fn object2(k1: &str, v1: Json, k2: &str, v2: Json) -> (out: Json)
    ensures
        out@ == JsonView::Object(seq![(k1@, v1@), (k2@, v2@)]),
{
    let mut v: Vec<(String, Json)> = Vec::new();
    let ghost want = seq![(k1@, v1@), (k2@, v2@)];
    v.push((k1.to_owned(), v1));
    v.push((k2.to_owned(), v2));
    proof {
        lemma_object_view(v);
        assert(rows(v@) =~= want);
    }
    Json::Object(v)
}

/// An object of three entries.
pub fn object3(k1: &str, v1: Json, k2: &str, v2: Json, k3: &str, v3: Json) -> (out: Json)
    ensures
        out@ == JsonView::Object(seq![(k1@, v1@), (k2@, v2@), (k3@, v3@)]),
{
    let mut v: Vec<(String, Json)> = Vec::new();
    let ghost want = seq![(k1@, v1@), (k2@, v2@), (k3@, v3@)];
    v.push((k1.to_owned(), v1));
    v.push((k2.to_owned(), v2));
    v.push((k3.to_owned(), v3));
    proof {
        lemma_object_view(v);
        assert(rows(v@) =~= want);
    }
    Json::Object(v)
}

/// An object of four entries.
pub fn object4(k1: &str, v1: Json, k2: &str, v2: Json, k3: &str, v3: Json, k4: &str, v4: Json) -> (out: Json)
    ensures
        out@ == JsonView::Object(seq![(k1@, v1@), (k2@, v2@), (k3@, v3@), (k4@, v4@)]),
{
    let mut v: Vec<(String, Json)> = Vec::new();
    let ghost want = seq![(k1@, v1@), (k2@, v2@), (k3@, v3@), (k4@, v4@)];
    v.push((k1.to_owned(), v1));
    v.push((k2.to_owned(), v2));
    v.push((k3.to_owned(), v3));
    v.push((k4.to_owned(), v4));
    proof {
        lemma_object_view(v);
        assert(rows(v@) =~= want);
    }
    Json::Object(v)
}

/// An object of five entries.
pub fn object5(k1: &str, v1: Json, k2: &str, v2: Json, k3: &str, v3: Json, k4: &str, v4: Json, k5: &str, v5: Json) -> (out: Json)
    ensures
        out@ == JsonView::Object(seq![(k1@, v1@), (k2@, v2@), (k3@, v3@), (k4@, v4@), (k5@, v5@)]),
{
    let mut v: Vec<(String, Json)> = Vec::new();
    let ghost want = seq![(k1@, v1@), (k2@, v2@), (k3@, v3@), (k4@, v4@), (k5@, v5@)];
    v.push((k1.to_owned(), v1));
    v.push((k2.to_owned(), v2));
    v.push((k3.to_owned(), v3));
    v.push((k4.to_owned(), v4));
    v.push((k5.to_owned(), v5));
    proof {
        lemma_object_view(v);
        assert(rows(v@) =~= want);
    }
    Json::Object(v)
}

/// An object of six entries.
pub fn object6(k1: &str, v1: Json, k2: &str, v2: Json, k3: &str, v3: Json, k4: &str, v4: Json, k5: &str, v5: Json, k6: &str, v6: Json) -> (out: Json)
    ensures
        out@ == JsonView::Object(seq![(k1@, v1@), (k2@, v2@), (k3@, v3@), (k4@, v4@), (k5@, v5@), (k6@, v6@)]),
{
    let mut v: Vec<(String, Json)> = Vec::new();
    let ghost want = seq![(k1@, v1@), (k2@, v2@), (k3@, v3@), (k4@, v4@), (k5@, v5@), (k6@, v6@)];
    v.push((k1.to_owned(), v1));
    v.push((k2.to_owned(), v2));
    v.push((k3.to_owned(), v3));
    v.push((k4.to_owned(), v4));
    v.push((k5.to_owned(), v5));
    v.push((k6.to_owned(), v6));
    proof {
        lemma_object_view(v);
        assert(rows(v@) =~= want);
    }
    Json::Object(v)
}

/// A text value.
pub fn string(s: &str) -> (out: Json)
    ensures
        out@ == JsonView::Text(s@),
{
    Json::Text(s.to_owned())
}

/// A text value, or null where there is none.
pub open spec fn text_or_null(s: Option<Seq<char>>) -> JsonView {
    match s {
        Some(t) => JsonView::Text(t),
        None => JsonView::Null,
    }
}

/// A list value.
pub fn array(v: Vec<Json>) -> (out: Json)
    ensures
        out@ == JsonView::List(values(v@)),
{
    proof {
        lemma_list_view(v);
    }
    Json::List(v)
}

/// A list of texts.
pub fn array_of_texts(v: &Vec<String>) -> (out: Json)
    ensures
        out@ == text_list(text::views(v@)),
{
    let mut items: Vec<Json> = Vec::new();
    let mut i: usize = 0;
    while i < v.len()
        invariant
            i <= v@.len(),
            items@.len() == i,
            forall|j: int| 0 <= j < i ==> (#[trigger] items@[j])@ == JsonView::Text(v@[j]@),
        decreases v@.len() - i,
    {
        items.push(Json::Text(v[i].clone()));
        i = i + 1;
    }
    proof {
        lemma_list_view(items);
        assert(values(items@) =~= text::views(v@).map_values(|s: Seq<char>| JsonView::Text(s)));
    }
    Json::List(items)
}

} // verus!
