//! Text as sequences of characters: building, comparing, searching and
//! splitting strings.

use vstd::prelude::*;
use vstd::string::*;

verus! {

/// [`String::push`] appends one character.
pub assume_specification[ String::push ](s: &mut String, c: char)
    ensures
        final(s)@ == old(s)@.push(c),
;

/// The characters of a string, in order.
pub fn chars_of(s: &str) -> (out: Vec<char>)
    ensures
        out@ == s@,
{
    let mut out: Vec<char> = Vec::new();
    for c in it: s.chars()
        invariant
            out@ == it.seq().take(it.index() as int),
    {
        out.push(c);
        assert(it.seq().take(it.index() as int).push(c) =~= it.seq().take(it.index() as int + 1));
    }
    assert(out@ =~= s@);
    out
}

/// The string whose characters are `chars[from..to]`.
pub fn text_slice(chars: &Vec<char>, from: usize, to: usize) -> (out: String)
    requires
        from <= to <= chars@.len(),
    ensures
        out@ == chars@.subrange(from as int, to as int),
{
    let mut out = String::new();
    let mut i: usize = from;
    while i < to
        invariant
            from <= i <= to <= chars@.len(),
            out@ == chars@.subrange(from as int, i as int),
        decreases to - i,
    {
        out.push(chars[i]);
        i = i + 1;
        assert(out@ =~= chars@.subrange(from as int, i as int));
    }
    out
}

/// The string made of these characters.
pub fn text_of(chars: &Vec<char>) -> (out: String)
    ensures
        out@ == chars@,
{
    let out = text_slice(chars, 0, chars.len());
    assert(out@ =~= chars@);
    out
}


/// The first `n` characters of `s`.
pub open spec fn prefix(s: Seq<char>, n: int) -> Seq<char> {
    s.subrange(0, n)
}

/// What follows the first `n` characters of `s`.
pub open spec fn rest(s: Seq<char>, n: int) -> Seq<char> {
    s.subrange(n, s.len() as int)
}

/// The view of an optional text.
pub open spec fn view_of(s: Option<String>) -> Option<Seq<char>> {
    match s {
        Some(t) => Some(t@),
        None => None,
    }
}

/// The view of an optional text.
pub open spec fn ref_view(s: Option<&String>) -> Option<Seq<char>> {
    match s {
        Some(t) => Some(t@),
        None => None,
    }
}

/// The view of an optional text.
pub open spec fn str_view(s: Option<&str>) -> Option<Seq<char>> {
    match s {
        Some(t) => Some(t@),
        None => None,
    }
}

/// The newlines in `s`.
pub open spec fn newlines(s: Seq<char>) -> nat
    decreases s.len(),
{
    if s.len() == 0 {
        0
    } else {
        newlines(s.drop_last()) + if s.last() == '\n' {
            1nat
        } else {
            0nat
        }
    }
}

/// `p` occurs in `s` at position `i`.
pub open spec fn occurs(s: Seq<char>, p: Seq<char>, i: int) -> bool {
    0 <= i && i + p.len() <= s.len() && s.subrange(i, i + p.len()) == p
}

pub open spec fn starts_with(s: Seq<char>, p: Seq<char>) -> bool {
    occurs(s, p, 0)
}

pub open spec fn ends_with(s: Seq<char>, p: Seq<char>) -> bool {
    occurs(s, p, s.len() - p.len())
}

pub open spec fn contains(s: Seq<char>, p: Seq<char>) -> bool {
    exists|i: int| occurs(s, p, i)
}

/// The first position at or after `i` where `p` occurs in `s`.
pub open spec fn find_from(s: Seq<char>, p: Seq<char>, i: int) -> Option<int>
    decreases s.len() + 1 - i,
{
    if i < 0 || i + p.len() > s.len() {
        None
    } else if occurs(s, p, i) {
        Some(i)
    } else {
        find_from(s, p, i + 1)
    }
}

/// The first position where `p` occurs in `s`.
pub open spec fn find(s: Seq<char>, p: Seq<char>) -> Option<int> {
    find_from(s, p, 0)
}

/// [`find_from`] returns the least position at or after `i`, and `None` exactly
/// when there is none.
pub proof fn lemma_find_from(s: Seq<char>, p: Seq<char>, i: int)
    requires
        0 <= i,
    ensures
        match find_from(s, p, i) {
            Some(at) => i <= at && occurs(s, p, at) && forall|j: int|
                i <= j < at ==> !occurs(s, p, j),
            None => forall|j: int| i <= j ==> !occurs(s, p, j),
        },
    decreases s.len() + 1 - i,
{
    if i + p.len() <= s.len() && !occurs(s, p, i) {
        lemma_find_from(s, p, i + 1);
    }
}

/// A search finds something exactly when the text contains the pattern.
pub proof fn lemma_find_contains(s: Seq<char>, p: Seq<char>)
    ensures
        find(s, p) is Some <==> contains(s, p),
{
    lemma_find_from(s, p, 0);
}

/// The first position at or after `i` that holds `c`.
pub open spec fn find_char_from(s: Seq<char>, c: char, i: int) -> Option<int>
    decreases s.len() - i,
{
    if i < 0 || i >= s.len() {
        None
    } else if s[i] == c {
        Some(i)
    } else {
        find_char_from(s, c, i + 1)
    }
}

/// The first position that holds `c`.
pub open spec fn find_char(s: Seq<char>, c: char) -> Option<int> {
    find_char_from(s, c, 0)
}

pub proof fn lemma_find_char_from(s: Seq<char>, c: char, i: int)
    requires
        0 <= i,
    ensures
        match find_char_from(s, c, i) {
            Some(at) => i <= at < s.len() && s[at] == c && forall|j: int|
                i <= j < at ==> s[j] != c,
            None => forall|j: int| i <= j < s.len() ==> s[j] != c,
        },
    decreases s.len() - i,
{
    if i < s.len() && s[i] != c {
        lemma_find_char_from(s, c, i + 1);
    }
}

/// The two texts hold the same characters.
pub fn same(a: &str, b: &str) -> (yes: bool)
    ensures
        yes == (a@ == b@),
{
    let x = chars_of(a);
    let y = chars_of(b);
    if x.len() != y.len() {
        return false;
    }
    let mut i: usize = 0;
    while i < x.len()
        invariant
            i <= x@.len(),
            x@.len() == y@.len(),
            x@ == a@,
            y@ == b@,
            forall|j: int| 0 <= j < i ==> x@[j] == y@[j],
        decreases x@.len() - i,
    {
        if x[i] != y[i] {
            assert(a@[i as int] != b@[i as int]);
            return false;
        }
        i = i + 1;
    }
    assert(a@ =~= b@);
    true
}

/// `p` occurs in `s` at position `i`.
pub fn occurs_at(s: &Vec<char>, p: &Vec<char>, i: usize) -> (yes: bool)
    ensures
        yes == occurs(s@, p@, i as int),
{
    if p.len() > s.len() || i > s.len() - p.len() {
        return false;
    }
    let mut j: usize = 0;
    while j < p.len()
        invariant
            j <= p@.len(),
            i + p@.len() <= s@.len() <= usize::MAX,
            forall|k: int| 0 <= k < j ==> s@[i + k] == p@[k],
        decreases p@.len() - j,
    {
        if s[i + j] != p[j] {
            assert(s@.subrange(i as int, i + p@.len())[j as int] != p@[j as int]);
            return false;
        }
        j = j + 1;
    }
    assert(s@.subrange(i as int, i + p@.len()) =~= p@);
    true
}

pub fn text_starts(s: &str, p: &str) -> (yes: bool)
    ensures
        yes == starts_with(s@, p@),
{
    occurs_at(&chars_of(s), &chars_of(p), 0)
}

pub fn text_ends(s: &str, p: &str) -> (yes: bool)
    ensures
        yes == ends_with(s@, p@),
{
    let x = chars_of(s);
    let y = chars_of(p);
    if y.len() > x.len() {
        return false;
    }
    occurs_at(&x, &y, x.len() - y.len())
}

/// The first position at or after `from` where `p` occurs in `s`.
pub fn position_from(s: &Vec<char>, p: &Vec<char>, from: usize) -> (at: Option<usize>)
    ensures
        match at {
            Some(i) => find_from(s@, p@, from as int) == Some(i as int),
            None => find_from(s@, p@, from as int) is None,
        },
{
    if p.len() > s.len() {
        return None;
    }
    let last: usize = s.len() - p.len();
    let mut i: usize = from;
    while i <= last
        invariant
            from <= i,
            last == s@.len() - p@.len(),
            find_from(s@, p@, from as int) == find_from(s@, p@, i as int),
        decreases last + 1 - i,
    {
        if occurs_at(s, p, i) {
            return Some(i);
        }
        if i == last {
            assert(find_from(s@, p@, i + 1) is None);
            return None;
        }
        i = i + 1;
    }
    None
}

pub fn text_contains(s: &str, p: &str) -> (yes: bool)
    ensures
        yes == contains(s@, p@),
{
    proof {
        lemma_find_contains(s@, p@);
    }
    position_from(&chars_of(s), &chars_of(p), 0).is_some()
}

/// The first position at or after `from` that holds `c`.
pub fn char_position_from(s: &Vec<char>, c: char, from: usize) -> (at: Option<usize>)
    ensures
        match at {
            Some(i) => find_char_from(s@, c, from as int) == Some(i as int) && i < s@.len(),
            None => find_char_from(s@, c, from as int) is None,
        },
{
    let mut i: usize = from;
    while i < s.len()
        invariant
            from <= i,
            find_char_from(s@, c, from as int) == find_char_from(s@, c, i as int),
        decreases s@.len() - i,
    {
        if s[i] == c {
            return Some(i);
        }
        i = i + 1;
    }
    None
}

/// Characters with the Unicode `White_Space` property.
pub open spec fn is_white(c: char) -> bool {
    let n = c as u32;
    ||| 0x9 <= n <= 0xd
    ||| n == 0x20
    ||| n == 0x85
    ||| n == 0xa0
    ||| n == 0x1680
    ||| 0x2000 <= n <= 0x200a
    ||| n == 0x2028
    ||| n == 0x2029
    ||| n == 0x202f
    ||| n == 0x205f
    ||| n == 0x3000
}

pub fn white(c: char) -> (yes: bool)
    ensures
        yes == is_white(c),
{
    let n: u32 = c as u32;
    (0x9 <= n && n <= 0xd) || n == 0x20 || n == 0x85 || n == 0xa0 || n == 0x1680 || (0x2000 <= n
        && n <= 0x200a) || n == 0x2028 || n == 0x2029 || n == 0x202f || n == 0x205f || n == 0x3000
}

/// `s` without its leading white space.
pub open spec fn trim_start(s: Seq<char>) -> Seq<char>
    decreases s.len(),
{
    if s.len() > 0 && is_white(s[0]) {
        trim_start(s.drop_first())
    } else {
        s
    }
}

/// `s` without its trailing white space.
pub open spec fn trim_end(s: Seq<char>) -> Seq<char>
    decreases s.len(),
{
    if s.len() > 0 && is_white(s.last()) {
        trim_end(s.drop_last())
    } else {
        s
    }
}

/// `s` without the white space around it.
pub open spec fn trim(s: Seq<char>) -> Seq<char> {
    trim_end(trim_start(s))
}

/// `s` without the white space around it.
pub fn trimmed(s: &str) -> (out: String)
    ensures
        out@ == trim(s@),
{
    let x = chars_of(s);
    let mut from: usize = 0;
    assert(rest(s@, 0) =~= s@);
    while from < x.len() && white(x[from])
        invariant
            from <= x@.len(),
            x@ == s@,
            trim_start(s@) == trim_start(rest(s@, from as int)),
        decreases x@.len() - from,
    {
        assert(rest(s@, from as int).drop_first() =~= rest(s@, from + 1));
        from = from + 1;
    }
    let ghost front = rest(s@, from as int);
    assert(trim_start(s@) == front);
    let mut to: usize = x.len();
    assert(x@.subrange(from as int, to as int) =~= front);
    while from < to && white(x[to - 1])
        invariant
            from <= to <= x@.len(),
            x@ == s@,
            trim_end(front) == trim_end(x@.subrange(from as int, to as int)),
        decreases to,
    {
        assert(x@.subrange(from as int, to as int).drop_last() =~= x@.subrange(
            from as int,
            to - 1,
        ));
        to = to - 1;
    }
    text_slice(&x, from, to)
}

/// The ASCII lower-case form of a character.
pub open spec fn lower(c: char) -> char {
    if 'A' <= c <= 'Z' {
        ((c as u32 + 32) as u32) as char
    } else {
        c
    }
}

pub fn lower_char(c: char) -> (out: char)
    ensures
        out == lower(c),
{
    if 'A' <= c && c <= 'Z' {
        ((c as u8) + 32) as char
    } else {
        c
    }
}

/// The text with its ASCII capitals in lower case.
pub open spec fn lowered(s: Seq<char>) -> Seq<char> {
    s.map_values(|c: char| lower(c))
}

pub fn lower_text(s: &str) -> (out: String)
    ensures
        out@ == lowered(s@),
{
    let x = chars_of(s);
    let mut out = String::new();
    let mut i: usize = 0;
    while i < x.len()
        invariant
            i <= x@.len(),
            x@ == s@,
            out@ == lowered(s@).take(i as int),
        decreases x@.len() - i,
    {
        out.push(lower_char(x[i]));
        i = i + 1;
        assert(out@ =~= lowered(s@).take(i as int));
    }
    assert(out@ =~= lowered(s@));
    out
}


/// The stretches of `s` between the characters that `sep` accepts: one more
/// than there are such characters.
pub open spec fn pieces(s: Seq<char>, sep: spec_fn(char) -> bool) -> Seq<Seq<char>>
    decreases s.len(),
{
    if s.len() == 0 {
        seq![Seq::empty()]
    } else {
        let head = pieces(s.drop_last(), sep);
        if sep(s.last()) {
            head.push(Seq::empty())
        } else {
            head.drop_last().push(head.last().push(s.last()))
        }
    }
}

pub proof fn lemma_pieces_nonempty(s: Seq<char>, sep: spec_fn(char) -> bool)
    ensures
        pieces(s, sep).len() > 0,
    decreases s.len(),
{
    if s.len() > 0 {
        lemma_pieces_nonempty(s.drop_last(), sep);
    }
}

/// Accepts `c` alone.
pub open spec fn only(c: char) -> spec_fn(char) -> bool {
    |x: char| x == c
}

/// The stretches of `s` between occurrences of `c`.
pub open spec fn split(s: Seq<char>, c: char) -> Seq<Seq<char>> {
    pieces(s, only(c))
}

/// The words of `s`: its stretches without white space, leaving out empty ones.
pub open spec fn words(s: Seq<char>) -> Seq<Seq<char>> {
    pieces(s, |x: char| is_white(x)).filter(|p: Seq<char>| p.len() > 0)
}

/// The characters of each text.
pub open spec fn views(v: Seq<String>) -> Seq<Seq<char>> {
    v.map_values(|s: String| s@)
}

/// The stretches of `s` between occurrences of `c`.
pub fn split_on(s: &Vec<char>, c: char) -> (out: Vec<String>)
    ensures
        views(out@) == split(s@, c),
{
    let ghost sep = only(c);
    let mut out: Vec<String> = Vec::new();
    let mut open = String::new();
    let mut i: usize = 0;
    proof {
        lemma_pieces_nonempty(s@.take(0), sep);
        assert(views(out@).push(open@) =~= pieces(s@.take(0), sep));
    }
    while i < s.len()
        invariant
            i <= s@.len(),
            sep == only(c),
            views(out@).push(open@) == pieces(s@.take(i as int), sep),
        decreases s@.len() - i,
    {
        let ghost head = pieces(s@.take(i as int), sep);
        assert(s@.take(i + 1).drop_last() =~= s@.take(i as int));
        assert(head.drop_last() =~= views(out@));
        if s[i] == c {
            let ghost closed = open@;
            let ghost was = out@;
            out.push(open);
            open = String::new();
            assert(views(out@) =~= views(was).push(closed));
            assert(views(out@).push(open@) =~= head.push(Seq::empty()));
        } else {
            open.push(s[i]);
        }
        i = i + 1;
        assert(views(out@).push(open@) =~= pieces(s@.take(i as int), sep));
    }
    assert(s@.take(i as int) =~= s@);
    let ghost closed = open@;
    let ghost was = out@;
    out.push(open);
    assert(views(out@) =~= views(was).push(closed));
    out
}

/// The words of `s`.
pub fn words_of(s: &Vec<char>) -> (out: Vec<String>)
    ensures
        views(out@) == words(s@),
{
    let ghost sep = |x: char| is_white(x);
    let ghost full = |p: Seq<char>| p.len() > 0;
    let mut out: Vec<String> = Vec::new();
    let mut open = String::new();
    let mut i: usize = 0;
    let ghost head = pieces(s@.take(0), sep);
    proof {
        assert(head.drop_last() =~= Seq::<Seq<char>>::empty());
        reveal(Seq::filter);
        assert(views(out@) =~= head.drop_last().filter(full));
    }
    while i < s.len()
        invariant
            i <= s@.len(),
            sep == (|x: char| is_white(x)),
            full == (|p: Seq<char>| p.len() > 0),
            head == pieces(s@.take(i as int), sep),
            head.len() > 0,
            head.last() == open@,
            views(out@) == head.drop_last().filter(full),
        decreases s@.len() - i,
    {
        let ghost was = out@;
        let ghost closed = open@;
        let ghost before = head;
        assert(s@.take(i + 1).drop_last() =~= s@.take(i as int));
        if white(s[i]) {
            proof {
                head = before.push(Seq::empty());
                reveal(Seq::filter);
                assert(head.drop_last() =~= before);
            }
            if !open.as_str().is_empty() {
                out.push(open);
                assert(views(out@) =~= views(was).push(closed));
            }
            open = String::new();
        } else {
            open.push(s[i]);
            proof {
                head = before.drop_last().push(before.last().push(s@[i as int]));
                assert(head.drop_last() =~= before.drop_last());
            }
        }
        i = i + 1;
    }
    assert(s@.take(i as int) =~= s@);
    proof {
        reveal(Seq::filter);
    }
    if !open.as_str().is_empty() {
        let ghost was = out@;
        let ghost closed = open@;
        out.push(open);
        assert(views(out@) =~= views(was).push(closed));
    }
    out
}

/// A text made of two.
pub fn cat2(a: &str, b: &str) -> (out: String)
    ensures
        out@ == a@ + b@,
{
    let mut out = a.to_owned();
    out.append(b);
    out
}

/// A text made of three.
pub fn cat3(a: &str, b: &str, c: &str) -> (out: String)
    ensures
        out@ == a@ + b@ + c@,
{
    let mut out = a.to_owned();
    out.append(b);
    out.append(c);
    out
}

/// A text made of five.
pub fn cat5(a: &str, b: &str, c: &str, d: &str, e: &str) -> (out: String)
    ensures
        out@ == a@ + b@ + c@ + d@ + e@,
{
    let mut out = a.to_owned();
    out.append(b);
    out.append(c);
    out.append(d);
    out.append(e);
    out
}

/// Texts one after another, with `sep` between each two.
pub open spec fn joined(v: Seq<Seq<char>>, sep: Seq<char>) -> Seq<char>
    decreases v.len(),
{
    if v.len() == 0 {
        Seq::empty()
    } else if v.len() == 1 {
        v[0]
    } else {
        joined(v.drop_last(), sep) + sep + v.last()
    }
}

/// Each of the texts stands somewhere in what they are joined to.
pub proof fn lemma_joined_holds(v: Seq<Seq<char>>, sep: Seq<char>, k: int) -> (at: int)
    requires
        0 <= k < v.len(),
    ensures
        occurs(joined(v, sep), v[k], at),
    decreases v.len(),
{
    let all = joined(v, sep);
    if v.len() == 1 {
        assert(all.subrange(0, all.len() as int) =~= v[0]);
        0
    } else if k < v.len() - 1 {
        let at = lemma_joined_holds(v.drop_last(), sep, k);
        let head = joined(v.drop_last(), sep);
        assert(all.subrange(at, at + v[k].len()) =~= head.subrange(at, at + v[k].len()));
        at
    } else {
        let at = all.len() - v.last().len();
        assert(all.subrange(at, at + v[k].len()) =~= v.last());
        at
    }
}

/// Two lists are joined by joining each, with `sep` between them.
pub proof fn lemma_joined_add(a: Seq<Seq<char>>, b: Seq<Seq<char>>, sep: Seq<char>)
    requires
        a.len() > 0,
        b.len() > 0,
    ensures
        joined(a + b, sep) == joined(a, sep) + sep + joined(b, sep),
    decreases b.len(),
{
    assert((a + b).drop_last() =~= a + b.drop_last());
    assert((a + b).last() == b.last());
    if b.len() == 1 {
        assert(a + b.drop_last() =~= a);
    } else {
        lemma_joined_add(a, b.drop_last(), sep);
    }
    assert(joined(a + b, sep) =~= joined(a, sep) + sep + joined(b, sep));
}

/// Texts one after another, with `sep` between each two.
pub fn join(v: &Vec<String>, sep: &str) -> (out: String)
    ensures
        out@ == joined(views(v@), sep@),
{
    let mut out = String::new();
    let mut i: usize = 0;
    while i < v.len()
        invariant
            i <= v@.len(),
            out@ == joined(views(v@).take(i as int), sep@),
        decreases v@.len() - i,
    {
        let ghost all = views(v@);
        assert(all.take(i + 1).drop_last() =~= all.take(i as int));
        if i > 0 {
            out.append(sep);
        }
        out.append(v[i].as_str());
        i = i + 1;
        assert(out@ =~= joined(all.take(i as int), sep@));
    }
    assert(views(v@).take(i as int) =~= views(v@));
    out
}

/// A list with the same texts.
pub fn copy_texts(v: &Vec<String>) -> (out: Vec<String>)
    ensures
        views(out@) == views(v@),
{
    let mut out: Vec<String> = Vec::new();
    let mut i: usize = 0;
    while i < v.len()
        invariant
            i <= v@.len(),
            views(out@) == views(v@).take(i as int),
        decreases v@.len() - i,
    {
        let ghost was = out@;
        out.push(v[i].clone());
        assert(views(out@) =~= views(was).push(v@[i as int]@));
        i = i + 1;
        assert(views(out@) =~= views(v@).take(i as int));
    }
    assert(views(v@).take(i as int) =~= views(v@));
    out
}

/// What each text holds.
pub open spec fn strs(v: Seq<&str>) -> Seq<Seq<char>> {
    v.map_values(|s: &str| s@)
}

/// Texts of one's own.
pub fn texts(v: &[&str]) -> (out: Vec<String>)
    ensures
        views(out@) == strs(v@),
{
    let mut out: Vec<String> = Vec::new();
    let mut i: usize = 0;
    while i < v.len()
        invariant
            i <= v@.len(),
            out@.len() == i,
            forall|j: int| 0 <= j < i ==> (#[trigger] out@[j])@ == v@[j]@,
        decreases v@.len() - i,
    {
        out.push(v[i].to_owned());
        i = i + 1;
    }
    assert(views(out@) =~= strs(v@));
    out
}

/// `s` with `with` in place of each occurrence of `p`, from the left.
pub open spec fn replaced(s: Seq<char>, p: Seq<char>, with: Seq<char>) -> Seq<char>
    decreases s.len(),
{
    match find(s, p) {
        Some(i) => if p.len() > 0 && 0 <= i && i + p.len() <= s.len() {
            prefix(s, i) + with + replaced(rest(s, i + p.len()), p, with)
        } else {
            s
        },
        None => s,
    }
}

/// `s` with `with` in place of each occurrence of `p`, from the left.
pub fn replace_all(s: &str, p: &str, with: &str) -> (out: String)
    requires
        p@.len() > 0,
    ensures
        out@ == replaced(s@, p@, with@),
{
    let pat = chars_of(p);
    let mut left = chars_of(s);
    let mut out = String::new();
    assert(out@ + replaced(s@, p@, with@) =~= replaced(s@, p@, with@));
    loop
        invariant
            pat@ == p@,
            p@.len() > 0,
            replaced(s@, p@, with@) == out@ + replaced(left@, p@, with@),
        decreases left@.len(),
    {
        match position_from(&left, &pat, 0) {
            Some(i) => {
                proof {
                    lemma_find_from(left@, p@, 0);
                }
                let n: usize = left.len();
                let ghost so_far = out@;
                let ghost was = left@;
                out.append(text_slice(&left, 0, i).as_str());
                out.append(with);
                let tail = text_slice(&left, i + pat.len(), n);
                left = chars_of(tail.as_str());
                assert(so_far + (prefix(was, i as int) + with@ + replaced(
                    rest(was, i + p@.len()),
                    p@,
                    with@,
                )) =~= out@ + replaced(left@, p@, with@));
            },
            None => {
                out.append(text_of(&left).as_str());
                return out;
            },
        }
    }
}

/// A line without the carriage return before its end.
pub open spec fn without_return(s: Seq<char>) -> Seq<char> {
    if s.len() > 0 && s.last() == '\r' {
        s.drop_last()
    } else {
        s
    }
}

/// The lines of a text. The last one need not be ended.
pub open spec fn lines(s: Seq<char>) -> Seq<Seq<char>> {
    let parts = split(s, '\n');
    let ended = parts.drop_last().map_values(|l: Seq<char>| without_return(l));
    if parts.last().len() == 0 {
        ended
    } else {
        ended.push(parts.last())
    }
}

/// The lines of a text.
pub fn lines_of(s: &str) -> (out: Vec<String>)
    ensures
        views(out@) == lines(s@),
{
    let parts = split_on(&chars_of(s), '\n');
    let ghost all = split(s@, '\n');
    proof {
        lemma_pieces_nonempty(s@, only('\n'));
        assert(all.len() > 0);
        assert(views(parts@) == all);
        assert(views(parts@).len() == parts@.len());
    }
    let ghost ended = all.drop_last().map_values(|l: Seq<char>| without_return(l));
    let n: usize = parts.len();
    let mut out: Vec<String> = Vec::new();
    let mut i: usize = 0;
    while i + 1 < n
        invariant
            n == parts@.len(),
            i < n,
            views(parts@) == all,
            ended == all.drop_last().map_values(|l: Seq<char>| without_return(l)),
            views(out@) == ended.take(i as int),
        decreases n - i,
    {
        assert(all[i as int] == parts@[i as int]@);
        let x = chars_of(parts[i].as_str());
        let m: usize = x.len();
        let one = if m > 0 && x[m - 1] == '\r' {
            text_slice(&x, 0, m - 1)
        } else {
            parts[i].clone()
        };
        assert(one@ =~= without_return(all[i as int]));
        let ghost was = out@;
        out.push(one);
        assert(views(out@) =~= views(was).push(one@));
        i = i + 1;
        assert(views(out@) =~= ended.take(i as int));
    }
    assert(ended.take(i as int) =~= ended);
    assert(all.last() == parts@[i as int]@);
    if chars_of(parts[i].as_str()).len() > 0 {
        let ghost was = out@;
        out.push(parts[i].clone());
        assert(views(out@) =~= views(was).push(all.last()));
    }
    out
}

/// The first `n` characters of a text, or all of them.
pub open spec fn at_most(s: Seq<char>, n: int) -> Seq<char> {
    if s.len() > n {
        s.take(n)
    } else {
        s
    }
}

/// The first `n` characters of a text, or all of them.
pub fn first_chars(s: &str, n: usize) -> (out: String)
    ensures
        out@ == at_most(s@, n as int),
{
    let x = chars_of(s);
    if x.len() > n {
        let out = text_slice(&x, 0, n);
        assert(out@ =~= s@.take(n as int));
        out
    } else {
        s.to_owned()
    }
}

/// Without the white space around it a text is the part of it from the first to the last
/// character that is none.
pub proof fn law_trim(s: Seq<char>) -> (ends: (int, int))
    ensures
        0 <= ends.0 <= ends.1 <= s.len(),
        trim(s) == s.subrange(ends.0, ends.1),
        forall|i: int| 0 <= i < ends.0 ==> is_white(#[trigger] s[i]),
        forall|i: int| ends.1 <= i < s.len() ==> is_white(#[trigger] s[i]),
        trim(s).len() > 0 ==> !is_white(trim(s)[0]) && !is_white(trim(s).last()),
{
    let from = lemma_trim_start(s);
    let t = trim_start(s);
    let n = lemma_trim_end(t);
    assert forall|i: int| from + n <= i < s.len() implies is_white(#[trigger] s[i]) by {
        assert(t[i - from] == s[i]);
    }
    assert(trim(s) =~= s.subrange(from, from + n));
    if n > 0 {
        assert(t[0] == trim(s)[0]);
    }
    (from, from + n)
}

proof fn lemma_trim_start(s: Seq<char>) -> (from: int)
    ensures
        0 <= from <= s.len(),
        trim_start(s) == s.skip(from),
        forall|i: int| 0 <= i < from ==> is_white(#[trigger] s[i]),
        from < s.len() ==> !is_white(s[from]),
    decreases s.len(),
{
    if s.len() > 0 && is_white(s[0]) {
        let n = lemma_trim_start(s.drop_first());
        assert forall|i: int| 0 <= i < n + 1 implies is_white(#[trigger] s[i]) by {
            if i > 0 {
                assert(s.drop_first()[i - 1] == s[i]);
            }
        }
        assert(s.drop_first().skip(n) =~= s.skip(n + 1));
        n + 1
    } else {
        assert(s.skip(0) =~= s);
        0
    }
}

/// What is trimmed at the end is white space.
pub proof fn lemma_trim_end(s: Seq<char>) -> (to: int)
    ensures
        0 <= to <= s.len(),
        trim_end(s) == s.take(to),
        forall|i: int| to <= i < s.len() ==> is_white(#[trigger] s[i]),
        to > 0 ==> !is_white(s[to - 1]),
    decreases s.len(),
{
    if s.len() > 0 && is_white(s.last()) {
        let n = lemma_trim_end(s.drop_last());
        assert forall|i: int| n <= i < s.len() implies is_white(#[trigger] s[i]) by {
            if i < s.len() - 1 {
                assert(s.drop_last()[i] == s[i]);
            }
        }
        assert(s.drop_last().take(n) =~= s.take(n));
        n
    } else {
        assert(s.take(s.len() as int) =~= s);
        s.len() as int
    }
}

proof fn lemma_joined_grows(v: Seq<Seq<char>>, sep: Seq<char>, x: char)
    requires
        v.len() > 0,
    ensures
        joined(v.drop_last().push(v.last().push(x)), sep) == joined(v, sep).push(x),
{
    let w = v.drop_last().push(v.last().push(x));
    assert(w.drop_last() =~= v.drop_last());
    assert(w.last() == v.last().push(x));
    if v.len() > 1 {
        assert(joined(w, sep) =~= joined(v, sep).push(x));
    }
}

/// What a text is split into, joined again, is the text, and no part holds the separator.
pub proof fn law_split_joins(s: Seq<char>, c: char)
    ensures
        joined(split(s, c), seq![c]) == s,
        split(s, c).len() > 0,
        forall|i: int| 0 <= i < split(s, c).len() ==> !(#[trigger] split(s, c)[i]).contains(c),
    decreases s.len(),
{
    let v = split(s, c);
    if s.len() > 0 {
        let head = split(s.drop_last(), c);
        law_split_joins(s.drop_last(), c);
        if s.last() == c {
            assert(v.drop_last() =~= head);
            assert(joined(v, seq![c]) =~= s);
        } else {
            lemma_joined_grows(head, seq![c], s.last());
            assert(s.drop_last().push(s.last()) =~= s);
        }
        assert forall|i: int| 0 <= i < v.len() implies !(#[trigger] v[i]).contains(c) by {
            if i < head.len() - 1 || s.last() == c && i < head.len() {
                assert(v[i] == head[i]);
            } else if s.last() != c {
                let part = head.last();
                assert(!head[head.len() - 1].contains(c));
                assert(v[i] == part.push(s.last()));
                if v[i].contains(c) {
                    let k = choose|k: int| 0 <= k < v[i].len() && v[i][k] == c;
                    assert(part[k] == c);
                }
            }
        }
    } else {
        assert(joined(v, seq![c]) =~= s);
    }
}

proof fn lemma_pieces_run(s: Seq<char>, sep: spec_fn(char) -> bool)
    ensures
        joined(pieces(s, sep), seq![]) == s.filter(|c: char| !sep(c)),
        pieces(s, sep).len() > 0,
        forall|i: int, k: int|
            0 <= i < pieces(s, sep).len() && 0 <= k < pieces(s, sep)[i].len() ==> !sep(
                #[trigger] pieces(s, sep)[i][k],
            ),
    decreases s.len(),
{
    reveal(Seq::filter);
    let v = pieces(s, sep);
    let none: Seq<char> = seq![];
    if s.len() > 0 {
        let head = pieces(s.drop_last(), sep);
        lemma_pieces_run(s.drop_last(), sep);
        if sep(s.last()) {
            assert(v.drop_last() =~= head);
            assert(joined(v, none) =~= joined(head, none));
        } else {
            lemma_joined_grows(head, none, s.last());
        }
        assert forall|i: int, k: int| 0 <= i < v.len() && 0 <= k < v[i].len() implies !sep(
            #[trigger] v[i][k],
        ) by {
            if i < head.len() - 1 || sep(s.last()) && i < head.len() {
                assert(v[i] == head[i]);
                assert(!sep(head[i][k]));
            } else if !sep(s.last()) {
                assert(v[i] == head.last().push(s.last()));
                if k < head.last().len() {
                    assert(!sep(head[head.len() - 1][k]));
                }
            }
        }
    } else {
        assert(joined(v, none) =~= s);
        assert(s.filter(|c: char| !sep(c)) =~= s);
    }
}

proof fn lemma_run_filtered(v: Seq<Seq<char>>, keep: spec_fn(Seq<char>) -> bool)
    requires
        forall|p: Seq<char>| keep(p) == (p.len() > 0),
    ensures
        joined(v.filter(keep), seq![]) == joined(v, seq![]),
        forall|i: int|
            0 <= i < v.filter(keep).len() ==> (#[trigger] v.filter(keep)[i]).len() > 0
                && v.contains(v.filter(keep)[i]),
    decreases v.len(),
{
    reveal(Seq::filter);
    let none: Seq<char> = seq![];
    let w = v.filter(keep);
    if v.len() > 0 {
        let head = v.drop_last().filter(keep);
        lemma_run_filtered(v.drop_last(), keep);
        if v.last().len() > 0 {
            assert(w.drop_last() =~= head);
            if w.len() == 1 {
                assert(joined(head, none) =~= none);
            }
            assert(joined(w, none) =~= joined(head, none) + v.last());
        }
        if v.len() == 1 {
            assert(joined(v.drop_last(), none) =~= none);
        }
        assert(joined(v, none) =~= joined(v.drop_last(), none) + v.last());
        assert(joined(w, none) =~= joined(v, none));
        assert forall|i: int| 0 <= i < w.len() implies (#[trigger] w[i]).len() > 0 && v.contains(
            w[i],
        ) by {
            if i < head.len() {
                assert(w[i] == head[i]);
                let k = choose|k: int| 0 <= k < v.drop_last().len() && v.drop_last()[k] == head[i];
                assert(v[k] == w[i]);
            } else {
                assert(v[v.len() - 1] == w[i]);
            }
        }
    }
}

/// The words of a text are not empty, hold no white space, and together hold all the rest
/// in order.
pub proof fn law_words(s: Seq<char>)
    ensures
        joined(words(s), seq![]) == s.filter(|c: char| !is_white(c)),
        forall|i: int| 0 <= i < words(s).len() ==> (#[trigger] words(s)[i]).len() > 0,
        forall|i: int, k: int|
            0 <= i < words(s).len() && 0 <= k < words(s)[i].len() ==> !is_white(
                #[trigger] words(s)[i][k],
            ),
{
    let sep = |x: char| is_white(x);
    let v = pieces(s, sep);
    lemma_pieces_run(s, sep);
    let keep = |p: Seq<char>| p.len() > 0;
    lemma_run_filtered(v, keep);
    let w = words(s);
    assert(w == v.filter(keep)) by {
        lemma_filters_agree(pieces(s, |x: char| is_white(x)), keep, |p: Seq<char>| p.len() > 0);
    }
    assert(s.filter(|c: char| !sep(c)) =~= s.filter(|c: char| !is_white(c))) by {
        lemma_filters_agree(s, |c: char| !sep(c), |c: char| !is_white(c));
    }
    assert forall|i: int, k: int| 0 <= i < w.len() && 0 <= k < w[i].len() implies !is_white(
        #[trigger] w[i][k],
    ) by {
        assert(v.contains(w[i]));
        let j = choose|j: int| 0 <= j < v.len() && v[j] == w[i];
        assert(!sep(v[j][k]));
    }
}

proof fn lemma_filters_agree<T>(s: Seq<T>, a: spec_fn(T) -> bool, b: spec_fn(T) -> bool)
    requires
        forall|c: T| #[trigger] a(c) == b(c),
    ensures
        s.filter(a) == s.filter(b),
    decreases s.len(),
{
    reveal(Seq::filter);
    if s.len() > 0 {
        lemma_filters_agree(s.drop_last(), a, b);
    }
}

/// In lower case a text is as long, capitals are small, and every other character stays.
pub proof fn law_lowered(s: Seq<char>, i: int)
    requires
        0 <= i < s.len(),
    ensures
        lowered(s).len() == s.len(),
        'A' <= s[i] <= 'Z' ==> lowered(s)[i] as int == s[i] as int + 32,
        !('A' <= s[i] <= 'Z') ==> lowered(s)[i] == s[i],
        lowered(lowered(s)) == lowered(s),
{
    assert(lowered(lowered(s)) =~= lowered(s));
}

proof fn lemma_pieces_extended(s: Seq<char>, sep: spec_fn(char) -> bool, w: Seq<char>)
    requires
        forall|i: int| 0 <= i < w.len() ==> !sep(#[trigger] w[i]),
    ensures
        pieces(s + w, sep) == pieces(s, sep).drop_last().push(pieces(s, sep).last() + w),
    decreases w.len(),
{
    lemma_pieces_nonempty(s, sep);
    let v = pieces(s, sep);
    if w.len() == 0 {
        assert(s + w =~= s);
        assert(v.last() + w =~= v.last());
        assert(v.drop_last().push(v.last()) =~= v);
    } else {
        let short = w.drop_last();
        assert forall|i: int| 0 <= i < short.len() implies !sep(#[trigger] short[i]) by {
            assert(short[i] == w[i]);
        }
        lemma_pieces_extended(s, sep, short);
        assert((s + w).drop_last() =~= s + short);
        assert((s + w).last() == w.last() && !sep(w[w.len() - 1]));
        let head = pieces(s + short, sep);
        assert(head.drop_last() =~= v.drop_last());
        assert((v.last() + short).push(w.last()) =~= v.last() + w);
    }
}

proof fn lemma_kept(v: Seq<Seq<char>>, x: Seq<char>, keep: spec_fn(Seq<char>) -> bool)
    ensures
        v.push(x).filter(keep) == if keep(x) {
            v.filter(keep).push(x)
        } else {
            v.filter(keep)
        },
{
    reveal(Seq::filter);
    assert(v.push(x).drop_last() =~= v);
}

/// The text is a word: it is not empty and holds no white space.
pub open spec fn is_word(w: Seq<char>) -> bool {
    w.len() > 0 && forall|i: int| 0 <= i < w.len() ==> !is_white(#[trigger] w[i])
}

/// A word alone is one word, white space parts words, and more of it parts no more.
pub proof fn law_white_space_parts_words(s: Seq<char>, c: char, w: Seq<char>)
    requires
        is_white(c),
        is_word(w),
    ensures
        words(seq![]).len() == 0,
        words(w) == seq![w],
        words(s.push(c)) == words(s),
        words(s.push(c) + w) == words(s).push(w),
{
    let sep = |x: char| is_white(x);
    let keep = |p: Seq<char>| p.len() > 0;
    let none: Seq<char> = seq![];
    let v = pieces(s, sep);
    lemma_kept(seq![], none, keep);
    assert(Seq::<Seq<char>>::empty().filter(keep) =~= seq![]) by {
        reveal(Seq::filter);
    }
    assert(pieces(none, sep) =~= Seq::<Seq<char>>::empty().push(none));
    lemma_pieces_extended(none, sep, w);
    assert(none + w =~= w);
    assert(pieces(none, sep).drop_last() =~= seq![]);
    lemma_kept(seq![], w, keep);
    assert(pieces(w, sep) =~= Seq::<Seq<char>>::empty().push(w));
    assert(s.push(c).drop_last() =~= s && s.push(c).last() == c);
    assert(pieces(s.push(c), sep) == v.push(none));
    lemma_kept(v, none, keep);
    lemma_pieces_extended(s.push(c), sep, w);
    assert(v.push(none).drop_last() =~= v);
    lemma_kept(v, w, keep);
}

/// Splitting takes off the part before the first separator.
pub proof fn lemma_split_front(a: Seq<char>, c: char, b: Seq<char>)
    requires
        !a.contains(c),
    ensures
        split(a, c) == seq![a],
        split(a + seq![c] + b, c) == seq![a] + split(b, c),
    decreases a.len() + b.len(),
{
    if b.len() > 0 {
        let s = a + seq![c] + b;
        lemma_split_front(a, c, b.drop_last());
        assert(s.drop_last() =~= a + seq![c] + b.drop_last());
        assert(s.last() == b.last());
        law_split_joins(b.drop_last(), c);
        assert(split(s, c) =~= seq![a] + split(b, c));
    } else {
        if a.len() > 0 {
            let head = a.drop_last();
            assert(!head.contains(c)) by {
                if head.contains(c) {
                    let k = choose|k: int| 0 <= k < head.len() && head[k] == c;
                    assert(a[k] == c);
                }
            }
            lemma_split_front(head, c, b);
            assert(a[a.len() - 1] == a.last());
            assert(split(a, c) =~= seq![a]) by {
                assert(head.push(a.last()) =~= a);
            }
        } else {
            assert(a =~= Seq::empty());
            assert(split(a, c) =~= seq![a]);
        }
        let s = a + seq![c] + b;
        assert(s.drop_last() =~= a);
        assert(split(s, c) =~= seq![a] + split(b, c));
    }
}

} // verus!
