//! JSON values as text.

use vstd::prelude::*;
use vstd::string::*;
use crate::json;
use crate::json::{Json, JsonView};
use crate::number;
use crate::number::{show, show_signed};
use crate::text::cat2;

verus! {

/// One character as it stands inside a JSON string.
pub open spec fn escaped(c: char) -> Seq<char> {
    if c == '"' {
        seq!['\\', '"']
    } else if c == '\\' {
        seq!['\\', '\\']
    } else if c == '\u{8}' {
        seq!['\\', 'b']
    } else if c == '\u{c}' {
        seq!['\\', 'f']
    } else if c == '\n' {
        seq!['\\', 'n']
    } else if c == '\r' {
        seq!['\\', 'r']
    } else if c == '\t' {
        seq!['\\', 't']
    } else if ' ' > c {
        seq![
            '\\',
            'u',
            '0',
            '0',
            number::hex_digit(c as int / 16),
            number::hex_digit(c as int % 16),
        ]
    } else {
        seq![c]
    }
}

/// The characters of a JSON string, without the quotes around it.
pub open spec fn escaped_text(s: Seq<char>) -> Seq<char>
    decreases s.len(),
{
    if s.len() == 0 {
        seq![]
    } else {
        escaped_text(s.drop_last()) + escaped(s.last())
    }
}

/// A JSON string.
pub open spec fn quoted(s: Seq<char>) -> Seq<char> {
    seq!['"'] + escaped_text(s) + seq!['"']
}

/// The text of a value.
pub open spec fn rendered(v: JsonView) -> Seq<char>
    decreases v,
{
    match v {
        JsonView::Null => "null"@,
        JsonView::Bool(b) => if b {
            "true"@
        } else {
            "false"@
        },
        JsonView::Unsigned(n) => number::decimal(n as nat),
        JsonView::Negative(n) => number::signed_decimal(n as int),
        JsonView::Decimal(s) => s,
        JsonView::Text(s) => quoted(s),
        JsonView::List(items) => seq!['['] + rendered_items(items) + seq![']'],
        JsonView::Object(rows) => seq!['{'] + rendered_rows(rows) + seq!['}'],
    }
}

/// The texts of values, with commas between them.
pub open spec fn rendered_items(v: Seq<JsonView>) -> Seq<char>
    decreases v,
{
    if v.len() == 0 {
        seq![]
    } else if v.len() == 1 {
        rendered(v[0])
    } else {
        rendered_items(v.drop_last()) + seq![','] + rendered(v.last())
    }
}

/// The texts of entries, with commas between them.
pub open spec fn rendered_rows(v: Seq<(Seq<char>, JsonView)>) -> Seq<char>
    decreases v,
{
    if v.len() == 0 {
        seq![]
    } else if v.len() == 1 {
        quoted(v[0].0) + seq![':'] + rendered(v[0].1)
    } else {
        rendered_rows(v.drop_last()) + seq![','] + (quoted(v.last().0) + seq![':'] + rendered(
            v.last().1,
        ))
    }
}

/// [`serde_json::to_string`] of a text: the text as a JSON string. A quote, a backslash
/// and the characters below the space are escaped, the others stand as they are.
#[verifier::external_body]
pub(crate) fn quote(s: &str) -> (out: String)
    ensures
        out@ == quoted(s@),
{
    serde_json::to_string(s).unwrap_or_default()
}

/// The text of a value.
pub fn render(v: &Json) -> (out: String)
    ensures
        out@ == rendered(v@),
    decreases v,
{
    match v {
        Json::Null => "null".to_owned(),
        Json::Bool(b) => if *b {
            "true".to_owned()
        } else {
            "false".to_owned()
        },
        Json::Unsigned(n) => show(*n),
        Json::Negative(n) => show_signed(*n),
        Json::Decimal(s) => s.clone(),
        Json::Text(s) => quote(s.as_str()),
        Json::List(items) => {
            proof {
                json::lemma_list_view(*items);
            }
            let ghost all = json::values(items@);
            let mut out = String::new();
            out.push('[');
            let mut i: usize = 0;
            assert(out@ =~= seq!['['] + rendered_items(all.take(0)));
            while i < items.len()
                invariant
                    i <= items@.len(),
                    *v == Json::List(*items),
                    all == json::values(items@),
                    out@ == seq!['['] + rendered_items(all.take(i as int)),
                decreases items@.len() - i,
            {
                proof {
                    assert(decreases_to!(*v => v->List_0));
                    assert(decreases_to!(v->List_0 => v->List_0@));
                    assert(decreases_to!(v->List_0@ => v->List_0@[i as int]));
                    assert(all.take(i + 1).drop_last() =~= all.take(i as int));
                }
                if i > 0 {
                    out.push(',');
                }
                out.append(render(&items[i]).as_str());
                i = i + 1;
                assert(out@ =~= seq!['['] + rendered_items(all.take(i as int)));
            }
            assert(all.take(i as int) =~= all);
            out.push(']');
            assert(out@ =~= rendered(v@));
            out
        },
        Json::Object(rows) => {
            proof {
                json::lemma_object_view(*rows);
            }
            let ghost all = json::rows(rows@);
            let mut out = String::new();
            out.push('{');
            let mut i: usize = 0;
            assert(out@ =~= seq!['{'] + rendered_rows(all.take(0)));
            while i < rows.len()
                invariant
                    i <= rows@.len(),
                    *v == Json::Object(*rows),
                    all == json::rows(rows@),
                    out@ == seq!['{'] + rendered_rows(all.take(i as int)),
                decreases rows@.len() - i,
            {
                proof {
                    assert(decreases_to!(*v => v->Object_0));
                    assert(decreases_to!(v->Object_0 => v->Object_0@));
                    assert(decreases_to!(v->Object_0@ => v->Object_0@[i as int]));
                    assert(all.take(i + 1).drop_last() =~= all.take(i as int));
                }
                if i > 0 {
                    out.push(',');
                }
                out.append(quote(rows[i].0.as_str()).as_str());
                out.push(':');
                out.append(render(&rows[i].1).as_str());
                i = i + 1;
                assert(out@ =~= seq!['{'] + rendered_rows(all.take(i as int)));
            }
            assert(all.take(i as int) =~= all);
            out.push('}');
            assert(out@ =~= rendered(v@));
            out
        },
    }
}

/// The text of a value over several lines, each level two spaces further in.
pub open spec fn laid_out(v: JsonView, indent: Seq<char>) -> Seq<char>
    decreases v,
{
    match v {
        JsonView::List(items) => if items.len() == 0 {
            "[]"@
        } else {
            "[\n"@ + laid_out_items(items, indent + "  "@) + "\n"@ + indent + "]"@
        },
        JsonView::Object(rows) => if rows.len() == 0 {
            "{}"@
        } else {
            "{\n"@ + laid_out_rows(rows, indent + "  "@) + "\n"@ + indent + "}"@
        },
        _ => rendered(v),
    }
}

/// The texts of values, one to a line.
pub open spec fn laid_out_items(v: Seq<JsonView>, indent: Seq<char>) -> Seq<char>
    decreases v,
{
    if v.len() == 0 {
        seq![]
    } else if v.len() == 1 {
        indent + laid_out(v[0], indent)
    } else {
        laid_out_items(v.drop_last(), indent) + ",\n"@ + (indent + laid_out(v.last(), indent))
    }
}

/// The texts of entries, one to a line.
pub open spec fn laid_out_rows(v: Seq<(Seq<char>, JsonView)>, indent: Seq<char>) -> Seq<char>
    decreases v,
{
    if v.len() == 0 {
        seq![]
    } else if v.len() == 1 {
        indent + quoted(v[0].0) + ": "@ + laid_out(v[0].1, indent)
    } else {
        laid_out_rows(v.drop_last(), indent) + ",\n"@ + (indent + quoted(v.last().0) + ": "@
            + laid_out(v.last().1, indent))
    }
}

/// The text of a value over several lines, each level two spaces further in.
pub fn lay_out(v: &Json, indent: &str) -> (out: String)
    ensures
        out@ == laid_out(v@, indent@),
    decreases v,
{
    match v {
        Json::List(items) => {
            proof {
                json::lemma_list_view(*items);
            }
            let ghost all = json::values(items@);
            assert(all.len() == items@.len());
            if items.len() == 0 {
                return "[]".to_owned();
            }
            let inner = cat2(indent, "  ");
            let mut out = "[\n".to_owned();
            let mut i: usize = 0;
            assert(out@ =~= "[\n"@ + laid_out_items(all.take(0), inner@));
            while i < items.len()
                invariant
                    i <= items@.len(),
                    *v == Json::List(*items),
                    all == json::values(items@),
                    out@ == "[\n"@ + laid_out_items(all.take(i as int), inner@),
                decreases items@.len() - i,
            {
                proof {
                    assert(decreases_to!(*v => v->List_0));
                    assert(decreases_to!(v->List_0 => v->List_0@));
                    assert(decreases_to!(v->List_0@ => v->List_0@[i as int]));
                    assert(all.take(i + 1).drop_last() =~= all.take(i as int));
                }
                if i > 0 {
                    out.append(",\n");
                }
                out.append(inner.as_str());
                out.append(lay_out(&items[i], inner.as_str()).as_str());
                i = i + 1;
                assert(out@ =~= "[\n"@ + laid_out_items(all.take(i as int), inner@));
            }
            assert(all.take(i as int) =~= all);
            out.append("\n");
            out.append(indent);
            out.append("]");
            assert(out@ =~= laid_out(v@, indent@));
            out
        },
        Json::Object(rows) => {
            proof {
                json::lemma_object_view(*rows);
            }
            let ghost all = json::rows(rows@);
            assert(all.len() == rows@.len());
            if rows.len() == 0 {
                return "{}".to_owned();
            }
            let inner = cat2(indent, "  ");
            let mut out = "{\n".to_owned();
            let mut i: usize = 0;
            assert(out@ =~= "{\n"@ + laid_out_rows(all.take(0), inner@));
            while i < rows.len()
                invariant
                    i <= rows@.len(),
                    *v == Json::Object(*rows),
                    all == json::rows(rows@),
                    out@ == "{\n"@ + laid_out_rows(all.take(i as int), inner@),
                decreases rows@.len() - i,
            {
                proof {
                    assert(decreases_to!(*v => v->Object_0));
                    assert(decreases_to!(v->Object_0 => v->Object_0@));
                    assert(decreases_to!(v->Object_0@ => v->Object_0@[i as int]));
                    assert(all.take(i + 1).drop_last() =~= all.take(i as int));
                }
                if i > 0 {
                    out.append(",\n");
                }
                out.append(inner.as_str());
                out.append(quote(rows[i].0.as_str()).as_str());
                out.append(": ");
                out.append(lay_out(&rows[i].1, inner.as_str()).as_str());
                i = i + 1;
                assert(out@ =~= "{\n"@ + laid_out_rows(all.take(i as int), inner@));
            }
            assert(all.take(i as int) =~= all);
            out.append("\n");
            out.append(indent);
            out.append("}");
            assert(out@ =~= laid_out(v@, indent@));
            out
        },
        other => render(other),
    }
}

/// The value is made of texts, lists and objects alone.
pub open spec fn of_texts(v: JsonView) -> bool
    decreases v,
{
    match v {
        JsonView::Text(_) => true,
        JsonView::List(items) => forall|i: int| 0 <= i < items.len() ==> of_texts(#[trigger] items[i]),
        JsonView::Object(rows) => forall|i: int|
            0 <= i < rows.len() ==> of_texts((#[trigger] rows[i]).1),
        _ => false,
    }
}

/// What stands before `x` and `y` in two texts that are the same, where it is the same.
proof fn lemma_cut(a: Seq<char>, x: Seq<char>, b: Seq<char>, y: Seq<char>)
    requires
        a + x == b + y,
        a.len() == b.len(),
    ensures
        a == b,
        x == y,
{
    let n = a.len() as int;
    assert(a =~= (a + x).take(n) && b =~= (b + y).take(n));
    assert(x =~= (a + x).skip(n) && y =~= (b + y).skip(n));
}

proof fn lemma_escaped_tells(c: char, x: Seq<char>, d: char, y: Seq<char>)
    requires
        escaped(c) + x == escaped(d) + y,
    ensures
        c == d,
        x == y,
{
    let (s, t) = (escaped(c) + x, escaped(d) + y);
    assert(s[0] == escaped(c)[0] && t[0] == escaped(d)[0]);
    if escaped(c).len() > 1 && escaped(d).len() > 1 {
        assert(s[1] == escaped(c)[1] && t[1] == escaped(d)[1]);
        if escaped(c).len() == 6 && escaped(d).len() == 6 {
            assert(s[4] == escaped(c)[4] && t[4] == escaped(d)[4]);
            assert(s[5] == escaped(c)[5] && t[5] == escaped(d)[5]);
            number::lemma_hex_digit(c as int / 16);
            number::lemma_hex_digit(c as int % 16);
            number::lemma_hex_digit(d as int / 16);
            number::lemma_hex_digit(d as int % 16);
        }
    }
    lemma_cut(escaped(c), x, escaped(d), y);
}

proof fn lemma_escaped_front(s: Seq<char>)
    requires
        s.len() > 0,
    ensures
        escaped_text(s) == escaped(s[0]) + escaped_text(s.drop_first()),
    decreases s.len(),
{
    let (head, tail) = (s.drop_last(), s.drop_first());
    if s.len() > 1 {
        lemma_escaped_front(head);
        assert(head.drop_first() =~= tail.drop_last());
    } else {
        assert(escaped_text(head) =~= seq![]);
        assert(escaped_text(tail) =~= seq![]);
    }
    assert(escaped_text(s) =~= escaped(s[0]) + escaped_text(tail));
}

proof fn lemma_string_tells(s: Seq<char>, x: Seq<char>, t: Seq<char>, y: Seq<char>)
    requires
        escaped_text(s) + (seq!['"'] + x) == escaped_text(t) + (seq!['"'] + y),
    ensures
        s == t,
        x == y,
    decreases s.len(),
{
    let (u, v) = (escaped_text(s) + (seq!['"'] + x), escaped_text(t) + (seq!['"'] + y));
    if s.len() == 0 && t.len() == 0 {
        assert(s =~= t);
        lemma_cut(escaped_text(s) + seq!['"'], x, escaped_text(t) + seq!['"'], y);
    } else if s.len() == 0 {
        lemma_escaped_front(t);
        assert(u[0] == '"');
        assert(v[0] == escaped(t[0])[0]);
    } else if t.len() == 0 {
        lemma_escaped_front(s);
        assert(v[0] == '"');
        assert(u[0] == escaped(s[0])[0]);
    } else {
        lemma_escaped_front(s);
        lemma_escaped_front(t);
        let (a, b) = (s.drop_first(), t.drop_first());
        assert(u =~= escaped(s[0]) + (escaped_text(a) + (seq!['"'] + x)));
        assert(v =~= escaped(t[0]) + (escaped_text(b) + (seq!['"'] + y)));
        lemma_escaped_tells(
            s[0],
            escaped_text(a) + (seq!['"'] + x),
            t[0],
            escaped_text(b) + (seq!['"'] + y),
        );
        lemma_string_tells(a, x, b, y);
        assert(s =~= seq![s[0]] + a && t =~= seq![t[0]] + b);
    }
}

/// A JSON string ends where it says, and tells its text.
proof fn lemma_quoted_tells(s: Seq<char>, x: Seq<char>, t: Seq<char>, y: Seq<char>)
    requires
        quoted(s) + x == quoted(t) + y,
    ensures
        s == t,
        x == y,
{
    let (a, b) = (
        escaped_text(s) + (seq!['"'] + x),
        escaped_text(t) + (seq!['"'] + y),
    );
    assert(quoted(s) + x =~= seq!['"'] + a);
    assert(quoted(t) + y =~= seq!['"'] + b);
    lemma_cut(seq!['"'], a, seq!['"'], b);
    lemma_string_tells(s, x, t, y);
}

/// What follows the first of the values.
spec fn items_after(v: Seq<JsonView>) -> Seq<char> {
    if v.len() <= 1 {
        seq![]
    } else {
        seq![','] + rendered_items(v.drop_first())
    }
}

/// What follows the first of the entries.
spec fn rows_after(v: Seq<(Seq<char>, JsonView)>) -> Seq<char> {
    if v.len() <= 1 {
        seq![]
    } else {
        seq![','] + rendered_rows(v.drop_first())
    }
}

spec fn rendered_row(r: (Seq<char>, JsonView)) -> Seq<char> {
    quoted(r.0) + seq![':'] + rendered(r.1)
}

proof fn lemma_items_front(v: Seq<JsonView>)
    requires
        v.len() > 0,
    ensures
        rendered_items(v) == rendered(v[0]) + items_after(v),
    decreases v.len(),
{
    if v.len() > 1 {
        let (head, tail) = (v.drop_last(), v.drop_first());
        lemma_items_front(head);
        if v.len() == 2 {
            assert(tail[0] == v.last());
            assert(rendered_items(tail) == rendered(v.last()));
        } else {
            assert(head.drop_first() =~= tail.drop_last());
            assert(tail.last() == v.last());
        }
        assert(rendered_items(v) =~= rendered(v[0]) + items_after(v));
    } else {
        assert(rendered_items(v) =~= rendered(v[0]) + items_after(v));
    }
}

proof fn lemma_rows_front(v: Seq<(Seq<char>, JsonView)>)
    requires
        v.len() > 0,
    ensures
        rendered_rows(v) == rendered_row(v[0]) + rows_after(v),
    decreases v.len(),
{
    if v.len() > 1 {
        let (head, tail) = (v.drop_last(), v.drop_first());
        lemma_rows_front(head);
        if v.len() == 2 {
            assert(tail[0] == v.last());
            assert(rendered_rows(tail) == rendered_row(v.last()));
        } else {
            assert(head.drop_first() =~= tail.drop_last());
            assert(tail.last() == v.last());
        }
        assert(rendered_rows(v) =~= rendered_row(v[0]) + rows_after(v));
    } else {
        assert(rendered_rows(v) =~= rendered_row(v[0]) + rows_after(v));
    }
}

proof fn lemma_first_char(v: JsonView)
    requires
        of_texts(v),
    ensures
        rendered(v).len() > 0,
        rendered(v)[0] == match v {
            JsonView::Text(_) => '"',
            JsonView::List(_) => '[',
            _ => '{',
        },
{
}

proof fn lemma_value_tells(u: JsonView, x: Seq<char>, v: JsonView, y: Seq<char>)
    requires
        of_texts(u),
        of_texts(v),
        rendered(u) + x == rendered(v) + y,
    ensures
        u == v,
        x == y,
    decreases u, 0nat,
{
    lemma_first_char(u);
    lemma_first_char(v);
    assert((rendered(u) + x)[0] == rendered(u)[0]);
    assert((rendered(v) + y)[0] == rendered(v)[0]);
    match (u, v) {
        (JsonView::Text(s), JsonView::Text(t)) => {
            lemma_quoted_tells(s, x, t, y);
        },
        (JsonView::List(a), JsonView::List(b)) => {
            let (p, q) = (seq![']'] + x, seq![']'] + y);
            assert(rendered(u) + x =~= seq!['['] + (rendered_items(a) + p));
            assert(rendered(v) + y =~= seq!['['] + (rendered_items(b) + q));
            lemma_cut(seq!['['], rendered_items(a) + p, seq!['['], rendered_items(b) + q);
            lemma_items_tell(a, p, b, q);
            lemma_cut(seq![']'], x, seq![']'], y);
        },
        (JsonView::Object(a), JsonView::Object(b)) => {
            let (p, q) = (seq!['}'] + x, seq!['}'] + y);
            assert(rendered(u) + x =~= seq!['{'] + (rendered_rows(a) + p));
            assert(rendered(v) + y =~= seq!['{'] + (rendered_rows(b) + q));
            lemma_cut(seq!['{'], rendered_rows(a) + p, seq!['{'], rendered_rows(b) + q);
            lemma_rows_tell(a, p, b, q);
            lemma_cut(seq!['}'], x, seq!['}'], y);
        },
        _ => {},
    }
}

proof fn lemma_items_tell(a: Seq<JsonView>, x: Seq<char>, b: Seq<JsonView>, y: Seq<char>)
    requires
        forall|i: int| 0 <= i < a.len() ==> of_texts(#[trigger] a[i]),
        forall|i: int| 0 <= i < b.len() ==> of_texts(#[trigger] b[i]),
        x.len() > 0 && x[0] == ']',
        y.len() > 0 && y[0] == ']',
        rendered_items(a) + x == rendered_items(b) + y,
    ensures
        a == b,
        x == y,
    decreases a, a.len(),
{
    let (s, t) = (rendered_items(a) + x, rendered_items(b) + y);
    if a.len() == 0 && b.len() == 0 {
        assert(a =~= b);
        assert(s =~= x && t =~= y);
    } else if a.len() == 0 {
        lemma_items_front(b);
        lemma_first_char(b[0]);
        assert(s[0] == ']');
        assert(t[0] == rendered(b[0])[0]);
    } else if b.len() == 0 {
        lemma_items_front(a);
        lemma_first_char(a[0]);
        assert(t[0] == ']');
        assert(s[0] == rendered(a[0])[0]);
    } else {
        lemma_items_front(a);
        lemma_items_front(b);
        let (p, q) = (items_after(a) + x, items_after(b) + y);
        assert(s =~= rendered(a[0]) + p);
        assert(t =~= rendered(b[0]) + q);
        lemma_value_tells(a[0], p, b[0], q);
        let (c, d) = (a.drop_first(), b.drop_first());
        assert(p[0] == if a.len() > 1 { ',' } else { ']' });
        assert(q[0] == if b.len() > 1 { ',' } else { ']' });
        if a.len() > 1 {
            assert(p =~= seq![','] + (rendered_items(c) + x));
            assert(q =~= seq![','] + (rendered_items(d) + y));
            lemma_cut(seq![','], rendered_items(c) + x, seq![','], rendered_items(d) + y);
            assert forall|i: int| 0 <= i < c.len() implies of_texts(#[trigger] c[i]) by {
                assert(c[i] == a[i + 1]);
            }
            assert forall|i: int| 0 <= i < d.len() implies of_texts(#[trigger] d[i]) by {
                assert(d[i] == b[i + 1]);
            }
            lemma_items_tell(c, x, d, y);
        } else {
            assert(c =~= d);
            assert(p =~= x && q =~= y);
        }
        assert(a =~= seq![a[0]] + c && b =~= seq![b[0]] + d);
    }
}

proof fn lemma_rows_tell(
    a: Seq<(Seq<char>, JsonView)>,
    x: Seq<char>,
    b: Seq<(Seq<char>, JsonView)>,
    y: Seq<char>,
)
    requires
        forall|i: int| 0 <= i < a.len() ==> of_texts((#[trigger] a[i]).1),
        forall|i: int| 0 <= i < b.len() ==> of_texts((#[trigger] b[i]).1),
        x.len() > 0 && x[0] == '}',
        y.len() > 0 && y[0] == '}',
        rendered_rows(a) + x == rendered_rows(b) + y,
    ensures
        a == b,
        x == y,
    decreases a, a.len(),
{
    let (s, t) = (rendered_rows(a) + x, rendered_rows(b) + y);
    if a.len() == 0 && b.len() == 0 {
        assert(a =~= b);
        assert(s =~= x && t =~= y);
    } else if a.len() == 0 {
        lemma_rows_front(b);
        assert(s[0] == '}');
        assert(t[0] == rendered_row(b[0])[0]);
    } else if b.len() == 0 {
        lemma_rows_front(a);
        assert(t[0] == '}');
        assert(s[0] == rendered_row(a[0])[0]);
    } else {
        lemma_rows_front(a);
        lemma_rows_front(b);
        let (p, q) = (rows_after(a) + x, rows_after(b) + y);
        let (m, n) = (seq![':'] + (rendered(a[0].1) + p), seq![':'] + (rendered(b[0].1) + q));
        assert(s =~= quoted(a[0].0) + m);
        assert(t =~= quoted(b[0].0) + n);
        lemma_quoted_tells(a[0].0, m, b[0].0, n);
        lemma_cut(seq![':'], rendered(a[0].1) + p, seq![':'], rendered(b[0].1) + q);
        assert(decreases_to!(a => a[0]));
        assert(decreases_to!(a[0] => a[0].1));
        lemma_value_tells(a[0].1, p, b[0].1, q);
        let (c, d) = (a.drop_first(), b.drop_first());
        assert(p[0] == if a.len() > 1 { ',' } else { '}' });
        assert(q[0] == if b.len() > 1 { ',' } else { '}' });
        if a.len() > 1 {
            assert(p =~= seq![','] + (rendered_rows(c) + x));
            assert(q =~= seq![','] + (rendered_rows(d) + y));
            lemma_cut(seq![','], rendered_rows(c) + x, seq![','], rendered_rows(d) + y);
            assert forall|i: int| 0 <= i < c.len() implies of_texts((#[trigger] c[i]).1) by {
                assert(c[i] == a[i + 1]);
            }
            assert forall|i: int| 0 <= i < d.len() implies of_texts((#[trigger] d[i]).1) by {
                assert(d[i] == b[i + 1]);
            }
            lemma_rows_tell(c, x, d, y);
        } else {
            assert(c =~= d);
            assert(p =~= x && q =~= y);
        }
        assert(a =~= seq![a[0]] + c && b =~= seq![b[0]] + d);
    }
}

/// The text of a value that is made of texts, lists and objects tells the value.
pub proof fn law_text_tells_value(u: JsonView, v: JsonView)
    requires
        of_texts(u),
        of_texts(v),
        rendered(u) == rendered(v),
    ensures
        u == v,
{
    let none: Seq<char> = seq![];
    assert(rendered(u) + none =~= rendered(u));
    assert(rendered(v) + none =~= rendered(v));
    lemma_value_tells(u, none, v, none);
}

} // verus!
