//! Text edits: positions in UTF-16 units, and the smallest change from one text
//! to another.

use vstd::prelude::*;
use crate::json;
use crate::json::{object2, Json, JsonView};
use crate::lsp::types::{Position, Range};
use crate::text;
use crate::text::{chars_of, text_slice};

verus! {

/// The UTF-16 units that a character takes.
pub open spec fn width(c: char) -> nat {
    if c as u32 >= 0x10000 {
        2
    } else {
        1
    }
}

/// The UTF-16 units after the last newline of `s`.
pub open spec fn column(s: Seq<char>) -> nat
    decreases s.len(),
{
    if s.len() == 0 || s.last() == '\n' {
        0
    } else {
        column(s.drop_last()) + width(s.last())
    }
}

/// The position behind the first `n` characters of `s`.
pub open spec fn position_of(s: Seq<char>, n: int) -> Position {
    Position { line: text::newlines(s.take(n)) as u32, character: column(s.take(n)) as u32 }
}

proof fn lemma_bounds(s: Seq<char>)
    ensures
        text::newlines(s) <= s.len(),
        column(s) <= 2 * s.len(),
    decreases s.len(),
{
    if s.len() > 0 {
        lemma_bounds(s.drop_last());
    }
}

/// The position behind the first `n` characters of a text.
pub fn position_at(s: &Vec<char>, n: usize) -> (out: Position)
    requires
        n <= s@.len(),
    ensures
        out == position_of(s@, n as int),
{
    let mut line: u128 = 0;
    let mut character: u128 = 0;
    let mut i: usize = 0;
    while i < n
        invariant
            i <= n <= s@.len(),
            line == text::newlines(s@.take(i as int)),
            character == column(s@.take(i as int)),
        decreases n - i,
    {
        proof {
            assert(s@.take(i + 1).drop_last() =~= s@.take(i as int));
            lemma_bounds(s@.take(i as int));
        }
        let c = s[i];
        if c == '\n' {
            line = line + 1;
            character = 0;
        } else if (c as u32) >= 0x10000 {
            character = character + 2;
        } else {
            character = character + 1;
        }
        i = i + 1;
    }
    Position { line: line as u32, character: character as u32 }
}

/// How many characters two texts begin with in common.
pub open spec fn common_start(a: Seq<char>, b: Seq<char>) -> nat
    decreases a.len(),
{
    if a.len() > 0 && b.len() > 0 && a[0] == b[0] {
        1 + common_start(a.drop_first(), b.drop_first())
    } else {
        0
    }
}

/// How many characters two texts end with in common.
pub open spec fn common_end(a: Seq<char>, b: Seq<char>) -> nat
    decreases a.len(),
{
    if a.len() > 0 && b.len() > 0 && a.last() == b.last() {
        1 + common_end(a.drop_last(), b.drop_last())
    } else {
        0
    }
}

proof fn lemma_common_start(a: Seq<char>, b: Seq<char>)
    ensures
        common_start(a, b) <= a.len(),
        common_start(a, b) <= b.len(),
        a.take(common_start(a, b) as int) == b.take(common_start(a, b) as int),
    decreases a.len(),
{
    if a.len() > 0 && b.len() > 0 && a[0] == b[0] {
        lemma_common_start(a.drop_first(), b.drop_first());
        let k = common_start(a.drop_first(), b.drop_first()) as int;
        assert(a.take(k + 1) =~= seq![a[0]] + a.drop_first().take(k));
        assert(b.take(k + 1) =~= seq![b[0]] + b.drop_first().take(k));
    } else {
        assert(a.take(0) =~= b.take(0));
    }
}

proof fn lemma_common_end(a: Seq<char>, b: Seq<char>)
    ensures
        common_end(a, b) <= a.len(),
        common_end(a, b) <= b.len(),
        a.skip(a.len() - common_end(a, b)) == b.skip(b.len() - common_end(a, b)),
    decreases a.len(),
{
    if a.len() > 0 && b.len() > 0 && a.last() == b.last() {
        lemma_common_end(a.drop_last(), b.drop_last());
        let k = common_end(a.drop_last(), b.drop_last());
        assert(a.skip(a.len() - 1 - k) =~= a.drop_last().skip(a.len() - 1 - k).push(a.last()));
        assert(b.skip(b.len() - 1 - k) =~= b.drop_last().skip(b.len() - 1 - k).push(b.last()));
    } else {
        assert(a.skip(a.len() as int) =~= b.skip(b.len() as int));
    }
}

/// The smallest stretch of one text whose replacement gives another: its start,
/// its end, and the end of what replaces it in the other text.
pub struct Change {
    pub start: usize,
    pub old_end: usize,
    pub new_end: usize,
}

/// How many characters end both texts behind what begins both.
pub open spec fn common_rest(old: Seq<char>, new: Seq<char>) -> nat {
    let p = common_start(old, new) as int;
    common_end(old.skip(p), new.skip(p))
}

/// The change from one text to another.
pub fn change_between(old: &Vec<char>, new: &Vec<char>) -> (out: Change)
    ensures
        out.start == common_start(old@, new@),
        out.old_end == old@.len() - common_rest(old@, new@),
        out.new_end == new@.len() - common_rest(old@, new@),
        out.start <= out.old_end <= old@.len(),
        out.start <= out.new_end <= new@.len(),
{
    let mut p: usize = 0;
    assert(old@.skip(0) =~= old@);
    assert(new@.skip(0) =~= new@);
    while p < old.len() && p < new.len() && old[p] == new[p]
        invariant
            p <= old@.len(),
            p <= new@.len(),
            common_start(old@, new@) == p + common_start(
                old@.skip(p as int),
                new@.skip(p as int),
            ),
        decreases old@.len() - p,
    {
        assert(old@.skip(p as int).drop_first() =~= old@.skip(p + 1));
        assert(new@.skip(p as int).drop_first() =~= new@.skip(p + 1));
        p = p + 1;
    }
    let ghost a = old@.skip(p as int);
    let ghost b = new@.skip(p as int);
    let mut i: usize = old.len();
    let mut j: usize = new.len();
    let ghost mut k: nat = 0;
    assert(a.take(i - p) =~= a);
    assert(b.take(j - p) =~= b);
    while i > p && j > p && old[i - 1] == new[j - 1]
        invariant
            p <= i <= old@.len(),
            p <= j <= new@.len(),
            a == old@.skip(p as int),
            b == new@.skip(p as int),
            k == old@.len() - i,
            k == new@.len() - j,
            common_end(a, b) == k + common_end(a.take(i - p), b.take(j - p)),
        decreases i,
    {
        proof {
            assert(a.take(i - p).drop_last() =~= a.take(i - 1 - p));
            assert(b.take(j - p).drop_last() =~= b.take(j - 1 - p));
            assert(a.take(i - p).last() == old@[i - 1]);
            assert(b.take(j - p).last() == new@[j - 1]);
            k = k + 1;
        }
        i = i - 1;
        j = j - 1;
    }
    proof {
        if i > p && j > p {
            assert(a.take(i - p).last() == old@[i - 1]);
            assert(b.take(j - p).last() == new@[j - 1]);
        }
    }
    Change { start: p, old_end: i, new_end: j }
}

/// A position as JSON.
pub open spec fn position_json(p: Position) -> JsonView {
    JsonView::Object(
        seq![
            ("line"@, JsonView::Unsigned(p.line as u64)),
            ("character"@, JsonView::Unsigned(p.character as u64)),
        ],
    )
}

/// A range as JSON.
pub open spec fn range_json(r: Range) -> JsonView {
    JsonView::Object(
        seq![("start"@, position_json(r.start)), ("end"@, position_json(r.end))],
    )
}

/// A position as JSON.
pub fn position_value(p: Position) -> (out: Json)
    ensures
        out@ == position_json(p),
{
    object2(
        "line",
        Json::Unsigned(p.line as u64),
        "character",
        Json::Unsigned(p.character as u64),
    )
}

/// A range as JSON.
pub fn range_value(r: Range) -> (out: Json)
    ensures
        out@ == range_json(r),
{
    object2("start", position_value(r.start), "end", position_value(r.end))
}

/// The content change that a server is sent.
pub open spec fn content_change(old: Seq<char>, new: Seq<char>) -> JsonView {
    let p = common_start(old, new) as int;
    let s = common_rest(old, new) as int;
    JsonView::Object(
        seq![
            (
                "range"@,
                range_json(
                    Range {
                        start: position_of(old, p),
                        end: position_of(old, old.len() - s),
                    },
                ),
            ),
            ("text"@, JsonView::Text(new.subrange(p, new.len() - s))),
        ],
    )
}

/// The content change that a server is sent.
pub fn incremental_content_change(old_text: &str, new_text: &str) -> (out: Json)
    ensures
        out@ == content_change(old_text@, new_text@),
{
    let old = chars_of(old_text);
    let new = chars_of(new_text);
    let c = change_between(&old, &new);
    let range = Range { start: position_at(&old, c.start), end: position_at(&old, c.old_end) };
    object2(
        "range",
        range_value(range),
        "text",
        Json::Text(text_slice(&new, c.start, c.new_end)),
    )
}

/// Replacing the changed stretch of the old text gives the new text.
pub proof fn law_change_rebuilds(old: Seq<char>, new: Seq<char>)
    ensures
        ({
            let p = common_start(old, new) as int;
            let s = common_rest(old, new) as int;
            old.take(p) + new.subrange(p, new.len() - s) + old.skip(old.len() - s) == new
        }),
{
    let p = common_start(old, new) as int;
    let s = common_rest(old, new) as int;
    lemma_common_start(old, new);
    lemma_common_end(old.skip(p), new.skip(p));
    assert(old.skip(p).skip(old.skip(p).len() - s) =~= old.skip(old.len() - s));
    assert(new.skip(p).skip(new.skip(p).len() - s) =~= new.skip(new.len() - s));
    assert(old.take(p) + new.subrange(p, new.len() - s) + old.skip(old.len() - s) =~= new);
}

proof fn lemma_start_is_longest(a: Seq<char>, b: Seq<char>, k: int)
    requires
        0 <= k <= a.len(),
        k <= b.len(),
        a.take(k) == b.take(k),
    ensures
        k <= common_start(a, b),
    decreases a.len(),
{
    if k > 0 {
        assert(a[0] == a.take(k)[0] && b[0] == b.take(k)[0]);
        assert(a.drop_first().take(k - 1) =~= a.take(k).drop_first());
        assert(b.drop_first().take(k - 1) =~= b.take(k).drop_first());
        lemma_start_is_longest(a.drop_first(), b.drop_first(), k - 1);
    }
}

proof fn lemma_end_is_longest(a: Seq<char>, b: Seq<char>, k: int)
    requires
        0 <= k <= a.len(),
        k <= b.len(),
        a.skip(a.len() - k) == b.skip(b.len() - k),
    ensures
        k <= common_end(a, b),
    decreases a.len(),
{
    if k > 0 {
        assert(a.last() == a.skip(a.len() - k)[k - 1] && b.last() == b.skip(b.len() - k)[k - 1]);
        assert(a.drop_last().skip(a.len() - k) =~= a.skip(a.len() - k).drop_last());
        assert(b.drop_last().skip(b.len() - k) =~= b.skip(b.len() - k).drop_last());
        lemma_end_is_longest(a.drop_last(), b.drop_last(), k - 1);
    }
}

/// No replacement of one stretch of the old text that gives the new text has a shorter
/// text than the change.
pub proof fn law_change_is_smallest(
    old: Seq<char>,
    new: Seq<char>,
    from: int,
    to: int,
    text: Seq<char>,
)
    requires
        0 <= from <= to <= old.len(),
        old.take(from) + text + old.skip(to) == new,
    ensures
        ({
            let p = common_start(old, new) as int;
            let s = common_rest(old, new) as int;
            new.subrange(p, new.len() - s).len() <= text.len()
        }),
{
    let p = common_start(old, new) as int;
    let s = common_rest(old, new) as int;
    let q = old.len() - to;
    lemma_common_start(old, new);
    lemma_common_end(old.skip(p), new.skip(p));
    assert(new.len() == from + text.len() + q);
    assert(old.take(from) =~= new.take(from));
    lemma_start_is_longest(old, new, from);
    let (a, b) = (old.skip(p), new.skip(p));
    let k = if q <= a.len() && q <= b.len() {
        q
    } else if a.len() <= b.len() {
        a.len() as int
    } else {
        b.len() as int
    };
    assert(a.skip(a.len() - k) =~= b.skip(b.len() - k)) by {
        let (x, y) = (a.skip(a.len() - k), b.skip(b.len() - k));
        assert forall|j: int| 0 <= j < k implies x[j] == #[trigger] y[j] by {
            assert(old[old.len() - k + j] == old.skip(to)[q - k + j]);
            assert(new[new.len() - k + j] == (old.take(from) + text + old.skip(to))[new.len() - k
                + j]);
        }
    }
    lemma_end_is_longest(a, b, k);
}

/// The line and the UTF-16 column behind the first `n` characters.
pub open spec fn place(s: Seq<char>, n: int) -> (nat, nat) {
    (text::newlines(s.take(n)), column(s.take(n)))
}

proof fn lemma_place_grows(s: Seq<char>, m: int, n: int)
    requires
        0 <= m < n <= s.len(),
    ensures
        place(s, m).0 < place(s, n).0 || (place(s, m).0 == place(s, n).0 && place(s, m).1 < place(
            s,
            n,
        ).1),
    decreases n,
{
    assert(s.take(n).drop_last() =~= s.take(n - 1));
    if m < n - 1 {
        lemma_place_grows(s, m, n - 1);
    }
}

/// The line and the column behind the first `n` characters can be written in a position.
pub open spec fn in_range(s: Seq<char>, n: int) -> bool {
    place(s, n).0 <= u32::MAX && place(s, n).1 <= u32::MAX
}

/// A position names one place of a text only, wherever lines and columns can be written in
/// a position.
pub proof fn law_positions_are_unambiguous(s: Seq<char>, m: int, n: int)
    requires
        0 <= m <= s.len(),
        0 <= n <= s.len(),
        in_range(s, m),
        in_range(s, n),
        position_of(s, m) == position_of(s, n),
    ensures
        m == n,
{
    if m < n {
        lemma_place_grows(s, m, n);
    } else if n < m {
        lemma_place_grows(s, n, m);
    }
}

/// A position names the place behind the first `n` characters.
pub open spec fn names_place(p: Position, s: Seq<char>, n: int) -> bool {
    0 <= n <= s.len() && place(s, n) == (p.line as nat, p.character as nat)
}

/// Whoever replaces in the old text what stands between the two positions of the change by
/// its text has the new text, wherever these lines and columns can be written in a position.
pub proof fn law_change_applies(old: Seq<char>, new: Seq<char>, m: int, n: int)
    requires
        ({
            let p = common_start(old, new) as int;
            let q = old.len() - common_rest(old, new) as int;
            &&& in_range(old, p) && in_range(old, q)
            &&& names_place(position_of(old, p), old, m)
            &&& names_place(position_of(old, q), old, n)
        }),
    ensures
        ({
            let p = common_start(old, new) as int;
            let s = common_rest(old, new) as int;
            old.take(m) + new.subrange(p, new.len() - s) + old.skip(n) == new
        }),
{
    let p = common_start(old, new) as int;
    let q = old.len() - common_rest(old, new) as int;
    lemma_common_start(old, new);
    lemma_common_end(old.skip(p), new.skip(p));
    law_positions_are_unambiguous(old, m, p);
    law_positions_are_unambiguous(old, n, q);
    law_change_rebuilds(old, new);
}

/// The UTF-16 units of a text: two for a character beyond the first 65536, else one.
pub open spec fn units(s: Seq<char>) -> nat
    decreases s.len(),
{
    if s.len() == 0 {
        0
    } else {
        units(s.drop_last()) + if s.last() as u32 > 0xFFFF {
            2nat
        } else {
            1nat
        }
    }
}

/// The place behind the first `n` characters of a text is on this line, at this column:
/// so many newlines stand before it, and so many UTF-16 units between the beginning of its
/// line and it.
pub open spec fn lies_at(s: Seq<char>, n: int, line: nat, character: nat) -> bool {
    &&& 0 <= n <= s.len()
    &&& s.take(n).filter(|c: char| c == '\n').len() == line
    &&& exists|k: int| #[trigger] begins_line(s, k, n) && units(s.subrange(k, n)) == character
}

/// The line of the place behind the first `n` characters begins behind the first `k`.
pub open spec fn begins_line(s: Seq<char>, k: int, n: int) -> bool {
    &&& 0 <= k <= n <= s.len()
    &&& k == 0 || s[k - 1] == '\n'
    &&& forall|j: int| k <= j < n ==> s[j] != '\n'
}

proof fn lemma_newlines_counted(s: Seq<char>)
    ensures
        text::newlines(s) == s.filter(|c: char| c == '\n').len(),
    decreases s.len(),
{
    reveal(Seq::filter);
    if s.len() > 0 {
        lemma_newlines_counted(s.drop_last());
    }
}

proof fn lemma_column_counted(s: Seq<char>, k: int, n: int)
    requires
        begins_line(s, k, n),
    ensures
        column(s.take(n)) == units(s.subrange(k, n)),
    decreases n - k,
{
    let t = s.take(n);
    if k < n {
        lemma_column_counted(s, k, n - 1);
        assert(t.drop_last() =~= s.take(n - 1));
        assert(s.subrange(k, n).drop_last() =~= s.subrange(k, n - 1));
        assert(t.last() == s[n - 1]);
    } else {
        if n > 0 {
            assert(t.last() == s[n - 1]);
        }
    }
}

proof fn lemma_line_begins(s: Seq<char>, n: int) -> (k: int)
    requires
        0 <= n <= s.len(),
    ensures
        begins_line(s, k, n),
    decreases n,
{
    if n == 0 || s[n - 1] == '\n' {
        n
    } else {
        lemma_line_begins(s, n - 1)
    }
}

proof fn lemma_lies_at(s: Seq<char>, n: int, line: nat, character: nat)
    requires
        0 <= n <= s.len(),
    ensures
        lies_at(s, n, line, character) == (place(s, n) == (line, character)),
{
    lemma_newlines_counted(s.take(n));
    let k = lemma_line_begins(s, n);
    lemma_column_counted(s, k, n);
    if lies_at(s, n, line, character) {
        let j = choose|j: int| #[trigger] begins_line(s, j, n) && units(s.subrange(j, n)) == character;
        lemma_column_counted(s, j, n);
    }
}

/// The line or the character of one end of the range of a change.
pub open spec fn range_at(change: JsonView, end: Seq<char>, part: Seq<char>) -> JsonView {
    change.get("range"@).get(end).get(part)
}

proof fn lemma_content_change(old: Seq<char>, new: Seq<char>)
    ensures
        ({
            let c = content_change(old, new);
            let p = common_start(old, new) as int;
            let q = old.len() - common_rest(old, new);
            let s = common_rest(old, new) as int;
            &&& range_at(c, "start"@, "line"@) == JsonView::Unsigned(
                position_of(old, p).line as u64,
            )
            &&& range_at(c, "start"@, "character"@) == JsonView::Unsigned(
                position_of(old, p).character as u64,
            )
            &&& range_at(c, "end"@, "line"@) == JsonView::Unsigned(position_of(old, q).line as u64)
            &&& range_at(c, "end"@, "character"@) == JsonView::Unsigned(
                position_of(old, q).character as u64,
            )
            &&& c.text_at("text"@) == Some(new.subrange(p, new.len() - s))
        }),
{
    reveal_strlit("range");
    reveal_strlit("text");
    reveal_strlit("start");
    reveal_strlit("end");
    reveal_strlit("line");
    reveal_strlit("character");
    assert("range"@.len() == 5 && "text"@.len() == 4 && "start"@.len() == 5 && "end"@.len() == 3);
    assert("line"@.len() == 4 && "character"@.len() == 9);
    reveal_with_fuel(json::entry_from, 3);
}

/// What is sent says what changed. Whoever takes the two ends of the range, by lines and
/// UTF-16 columns, in the old text, and replaces what stands between them by the text, has
/// the new text; and there are such places. This holds of all texts whose lines and columns
/// can be written in 32 bits.
pub proof fn law_sent_change_gives_new_text(old: Seq<char>, new: Seq<char>, m: int, n: int)
    requires
        forall|i: int, line: nat, character: nat| #[trigger]
            lies_at(old, i, line, character) ==> line <= u32::MAX && character <= u32::MAX,
    ensures
        ({
            let c = content_change(old, new);
            let (l1, c1) = (
                range_at(c, "start"@, "line"@)->Unsigned_0 as nat,
                range_at(c, "start"@, "character"@)->Unsigned_0 as nat,
            );
            let (l2, c2) = (
                range_at(c, "end"@, "line"@)->Unsigned_0 as nat,
                range_at(c, "end"@, "character"@)->Unsigned_0 as nat,
            );
            &&& range_at(c, "start"@, "line"@) is Unsigned
            &&& range_at(c, "start"@, "character"@) is Unsigned
            &&& range_at(c, "end"@, "line"@) is Unsigned
            &&& range_at(c, "end"@, "character"@) is Unsigned
            &&& c.text_at("text"@) is Some
            &&& exists|i: int| lies_at(old, i, l1, c1)
            &&& exists|i: int| lies_at(old, i, l2, c2)
            &&& lies_at(old, m, l1, c1) && lies_at(old, n, l2, c2) ==> old.take(m) + c.text_at(
                "text"@,
            )->0 + old.skip(n) == new
        }),
{
    let c = content_change(old, new);
    let p = common_start(old, new) as int;
    let q = old.len() - common_rest(old, new);
    lemma_content_change(old, new);
    lemma_common_start(old, new);
    lemma_common_end(old.skip(p), new.skip(p));
    let (a, b) = (place(old, p), place(old, q));
    lemma_lies_at(old, p, a.0, a.1);
    lemma_lies_at(old, q, b.0, b.1);
    assert(lies_at(old, p, a.0, a.1));
    assert(lies_at(old, q, b.0, b.1));
    assert(in_range(old, p) && in_range(old, q));
    if lies_at(old, m, a.0, a.1) && lies_at(old, n, b.0, b.1) {
        lemma_lies_at(old, m, a.0, a.1);
        lemma_lies_at(old, n, b.0, b.1);
        law_change_applies(old, new, m, n);
    }
}

/// The text that is sent is no longer than any that could replace one stretch of the old
/// text to give the new one.
pub proof fn law_sent_text_is_shortest(
    old: Seq<char>,
    new: Seq<char>,
    from: int,
    to: int,
    text: Seq<char>,
)
    requires
        0 <= from <= to <= old.len(),
        old.take(from) + text + old.skip(to) == new,
    ensures
        content_change(old, new).text_at("text"@) is Some,
        content_change(old, new).text_at("text"@)->0.len() <= text.len(),
{
    lemma_content_change(old, new);
    law_change_is_smallest(old, new, from, to, text);
}

} // verus!
