//! File paths as text, with `/` between their steps.

use vstd::prelude::*;
use vstd::string::*;
use crate::order;
use crate::order::comes_before;
use crate::text;
use crate::text::{cat2, chars_of, join, same, split_on, text_slice};

verus! {

/// The path starts at the root.
pub open spec fn absolute(p: Seq<char>) -> bool {
    p.len() > 0 && p[0] == '/'
}

/// `p` taken from `base`: an absolute `p` stands alone.
pub open spec fn joined_path(base: Seq<char>, p: Seq<char>) -> Seq<char> {
    if absolute(p) {
        p
    } else if base.len() == 0 || base.last() == '/' {
        base + p
    } else {
        base.push('/') + p
    }
}

/// A step that leads somewhere.
pub open spec fn is_step(s: Seq<char>) -> bool {
    s.len() > 0 && s != seq!['.']
}

/// The steps of a path. Empty steps and `.` lead nowhere and are left out, but
/// for a `.` that a relative path begins with.
pub open spec fn steps(p: Seq<char>) -> Seq<Seq<char>> {
    let parts = text::split(p, '/');
    let lead = if parts[0] == seq!['.'] {
        seq![seq!['.']]
    } else {
        Seq::empty()
    };
    lead + parts.filter(|s: Seq<char>| is_step(s))
}

/// The two paths name the same place by the same steps.
pub open spec fn same_place(a: Seq<char>, b: Seq<char>) -> bool {
    absolute(a) == absolute(b) && steps(a) == steps(b)
}

/// `p` lies at or below `base`, step by step.
pub open spec fn below(p: Seq<char>, base: Seq<char>) -> bool {
    &&& absolute(p) == absolute(base)
    &&& steps(base).len() <= steps(p).len()
    &&& steps(p).take(steps(base).len() as int) == steps(base)
}

/// The last step of a path, where it names a file.
pub open spec fn file_name(p: Seq<char>) -> Option<Seq<char>> {
    let s = steps(p);
    if s.len() == 0 || s.last() == seq!['.'] || s.last() == seq!['.', '.'] {
        None
    } else {
        Some(s.last())
    }
}

/// The last position that holds `c`.
pub open spec fn last_char(s: Seq<char>, c: char) -> Option<int>
    decreases s.len(),
{
    if s.len() == 0 {
        None
    } else if s.last() == c {
        Some(s.len() - 1)
    } else {
        last_char(s.drop_last(), c)
    }
}

pub proof fn lemma_last_char(s: Seq<char>, c: char)
    ensures
        match last_char(s, c) {
            Some(i) => 0 <= i < s.len() && s[i] == c && forall|j: int|
                i < j < s.len() ==> s[j] != c,
            None => forall|j: int| 0 <= j < s.len() ==> s[j] != c,
        },
    decreases s.len(),
{
    if s.len() > 0 && s.last() != c {
        lemma_last_char(s.drop_last(), c);
        assert(forall|j: int| 0 <= j < s.len() - 1 ==> s.drop_last()[j] == s[j]);
    }
}

/// What follows the last dot of a file name, unless the name begins with it.
pub open spec fn extension(p: Seq<char>) -> Option<Seq<char>> {
    match file_name(p) {
        None => None,
        Some(name) => match last_char(name, '.') {
            Some(i) => if i > 0 {
                Some(text::rest(name, i + 1))
            } else {
                None
            },
            None => None,
        },
    }
}

/// The place of a step among steps: `.` first, then `..`, then names.
pub open spec fn step_class(s: Seq<char>) -> int {
    if s == seq!['.'] {
        0
    } else if s == seq!['.', '.'] {
        1
    } else {
        2
    }
}

/// Step `a` comes before step `b`.
pub open spec fn step_before(a: Seq<char>, b: Seq<char>) -> bool {
    if step_class(a) != step_class(b) {
        step_class(a) < step_class(b)
    } else {
        order::before(a, b)
    }
}

/// The first step in which the paths differ comes before, or `a` ends first.
pub open spec fn steps_before(a: Seq<Seq<char>>, b: Seq<Seq<char>>) -> bool
    decreases a.len(),
{
    if b.len() == 0 {
        false
    } else if a.len() == 0 {
        true
    } else if a[0] != b[0] {
        step_before(a[0], b[0])
    } else {
        steps_before(a.drop_first(), b.drop_first())
    }
}

/// Path `a` comes before path `b`: absolute paths first, then step by step.
pub open spec fn path_before(a: Seq<char>, b: Seq<char>) -> bool {
    if absolute(a) != absolute(b) {
        absolute(a)
    } else {
        steps_before(steps(a), steps(b))
    }
}

proof fn lemma_steps_total(a: Seq<Seq<char>>, b: Seq<Seq<char>>)
    ensures
        a == b ==> !steps_before(a, b) && !steps_before(b, a),
        a != b ==> steps_before(a, b) != steps_before(b, a),
    decreases a.len(),
{
    if a.len() > 0 && b.len() > 0 {
        order::lemma_before_total(a[0], b[0]);
        if a[0] == b[0] {
            lemma_steps_total(a.drop_first(), b.drop_first());
            if a.drop_first() == b.drop_first() {
                assert(a =~= seq![a[0]] + a.drop_first());
                assert(b =~= seq![b[0]] + b.drop_first());
            }
        }
    } else if a.len() == 0 && b.len() == 0 {
        assert(a =~= b);
    }
}

proof fn lemma_steps_transitive(a: Seq<Seq<char>>, b: Seq<Seq<char>>, c: Seq<Seq<char>>)
    requires
        steps_before(a, b),
        steps_before(b, c),
    ensures
        steps_before(a, c),
    decreases a.len(),
{
    if a.len() > 0 && b.len() > 0 && c.len() > 0 {
        if a[0] == b[0] && b[0] == c[0] {
            lemma_steps_transitive(a.drop_first(), b.drop_first(), c.drop_first());
        } else if a[0] != b[0] && b[0] != c[0] {
            order::lemma_before_total(a[0], b[0]);
            order::lemma_before_total(a[0], c[0]);
            if step_class(a[0]) == step_class(b[0]) && step_class(b[0]) == step_class(c[0]) {
                order::lemma_before_transitive(a[0], b[0], c[0]);
            }
        }
    }
}

/// Of two paths that name different places exactly one comes before the other.
pub proof fn lemma_path_total(a: Seq<char>, b: Seq<char>)
    ensures
        same_place(a, b) ==> !path_before(a, b) && !path_before(b, a),
        !same_place(a, b) ==> path_before(a, b) != path_before(b, a),
{
    lemma_steps_total(steps(a), steps(b));
}

/// The order of paths is transitive.
pub proof fn lemma_path_transitive(a: Seq<char>, b: Seq<char>, c: Seq<char>)
    ensures
        path_before(a, b) && path_before(b, c) ==> path_before(a, c),
{
    if path_before(a, b) && path_before(b, c) && absolute(a) == absolute(b) && absolute(b)
        == absolute(c) {
        lemma_steps_transitive(steps(a), steps(b), steps(c));
    }
}

pub fn is_absolute(p: &str) -> (yes: bool)
    ensures
        yes == absolute(p@),
{
    let x = chars_of(p);
    x.len() > 0 && x[0] == '/'
}

/// `p` taken from `base`.
pub fn join_path(base: &str, p: &str) -> (out: String)
    ensures
        out@ == joined_path(base@, p@),
{
    if is_absolute(p) {
        return p.to_owned();
    }
    let x = chars_of(base);
    let mut out = base.to_owned();
    if x.len() > 0 && x[x.len() - 1] != '/' {
        out.push('/');
    }
    out.append(p);
    out
}

fn is_dot(s: &str) -> (yes: bool)
    ensures
        yes == (s@ == seq!['.']),
{
    let x = chars_of(s);
    if x.len() == 1 && x[0] == '.' {
        assert(s@ =~= seq!['.']);
        true
    } else {
        false
    }
}

fn is_dots(s: &str) -> (yes: bool)
    ensures
        yes == (s@ == seq!['.', '.']),
{
    let x = chars_of(s);
    if x.len() == 2 && x[0] == '.' && x[1] == '.' {
        assert(s@ =~= seq!['.', '.']);
        true
    } else {
        false
    }
}

/// The steps of a path.
pub fn path_steps(p: &str) -> (out: Vec<String>)
    ensures
        text::views(out@) == steps(p@),
{
    let parts = split_on(&chars_of(p), '/');
    let ghost all = text::split(p@, '/');
    let ghost keep = |s: Seq<char>| is_step(s);
    proof {
        text::lemma_pieces_nonempty(p@, text::only('/'));
        assert(all.len() == parts@.len());
    }
    let mut out: Vec<String> = Vec::new();
    assert(text::views(parts@)[0] == parts@[0]@);
    if is_dot(parts[0].as_str()) {
        out.push(parts[0].clone());
    }
    let ghost lead = text::views(out@);
    assert(lead =~= if all[0] == seq!['.'] {
        seq![seq!['.']]
    } else {
        Seq::empty()
    });
    let mut i: usize = 0;
    proof {
        reveal(Seq::filter);
        assert(text::views(out@) =~= lead + all.take(0).filter(keep));
    }
    while i < parts.len()
        invariant
            i <= parts@.len(),
            text::views(parts@) == all,
            keep == (|s: Seq<char>| is_step(s)),
            text::views(out@) == lead + all.take(i as int).filter(keep),
        decreases parts@.len() - i,
    {
        let ghost was = out@;
        proof {
            reveal(Seq::filter);
            assert(all.take(i + 1).drop_last() =~= all.take(i as int));
            assert(all[i as int] == parts@[i as int]@);
        }
        if !parts[i].as_str().is_empty() && !is_dot(parts[i].as_str()) {
            out.push(parts[i].clone());
            assert(text::views(out@) =~= text::views(was).push(all[i as int]));
        }
        i = i + 1;
        assert(text::views(out@) =~= lead + all.take(i as int).filter(keep));
    }
    assert(all.take(i as int) =~= all);
    out
}

/// The two lists hold the same texts in the same order.
pub fn same_texts(a: &Vec<String>, b: &Vec<String>) -> (yes: bool)
    ensures
        yes == (text::views(a@) == text::views(b@)),
{
    if a.len() != b.len() {
        assert(text::views(a@).len() != text::views(b@).len());
        return false;
    }
    let mut i: usize = 0;
    while i < a.len()
        invariant
            i <= a@.len(),
            a@.len() == b@.len(),
            forall|j: int| 0 <= j < i ==> text::views(a@)[j] == text::views(b@)[j],
        decreases a@.len() - i,
    {
        if !same(a[i].as_str(), b[i].as_str()) {
            assert(text::views(a@)[i as int] != text::views(b@)[i as int]);
            return false;
        }
        i = i + 1;
    }
    assert(text::views(a@) =~= text::views(b@));
    true
}

fn class_of(s: &str) -> (n: u8)
    ensures
        n == step_class(s@),
{
    if is_dot(s) {
        0
    } else if is_dots(s) {
        1
    } else {
        2
    }
}

/// Path `a` comes before path `b`.
pub fn path_comes_before(a: &str, b: &str) -> (yes: bool)
    ensures
        yes == path_before(a@, b@),
{
    if is_absolute(a) != is_absolute(b) {
        return is_absolute(a);
    }
    let x = path_steps(a);
    let y = path_steps(b);
    let ghost p = steps(a@);
    let ghost q = steps(b@);
    assert(p.skip(0) =~= p);
    assert(q.skip(0) =~= q);
    let mut i: usize = 0;
    while i < x.len() && i < y.len()
        invariant
            i <= x@.len(),
            i <= y@.len(),
            text::views(x@) == p,
            text::views(y@) == q,
            p == steps(a@),
            q == steps(b@),
            absolute(a@) == absolute(b@),
            steps_before(p, q) == steps_before(p.skip(i as int), q.skip(i as int)),
        decreases x@.len() - i,
    {
        assert(p[i as int] == x@[i as int]@);
        assert(q[i as int] == y@[i as int]@);
        if !same(x[i].as_str(), y[i].as_str()) {
            let m: u8 = class_of(x[i].as_str());
            let n: u8 = class_of(y[i].as_str());
            return if m != n {
                m < n
            } else {
                comes_before(x[i].as_str(), y[i].as_str())
            };
        }
        assert(p.skip(i as int).drop_first() =~= p.skip(i + 1));
        assert(q.skip(i as int).drop_first() =~= q.skip(i + 1));
        i = i + 1;
    }
    assert(p.len() == x@.len() && q.len() == y@.len());
    i < y.len()
}

/// The two paths name the same place by the same steps.
pub fn same_path(a: &str, b: &str) -> (yes: bool)
    ensures
        yes == same_place(a@, b@),
{
    is_absolute(a) == is_absolute(b) && same_texts(&path_steps(a), &path_steps(b))
}

/// `p` lies at or below `base`.
pub fn is_below(p: &str, base: &str) -> (yes: bool)
    ensures
        yes == below(p@, base@),
{
    if is_absolute(p) != is_absolute(base) {
        return false;
    }
    let x = path_steps(p);
    let y = path_steps(base);
    if y.len() > x.len() {
        assert(steps(base@).len() > steps(p@).len());
        return false;
    }
    let mut i: usize = 0;
    while i < y.len()
        invariant
            i <= y@.len() <= x@.len(),
            text::views(x@) == steps(p@),
            text::views(y@) == steps(base@),
            forall|j: int| 0 <= j < i ==> text::views(x@)[j] == text::views(y@)[j],
        decreases y@.len() - i,
    {
        if !same(x[i].as_str(), y[i].as_str()) {
            assert(text::views(x@)[i as int] != text::views(y@)[i as int]);
            assert(steps(p@).take(steps(base@).len() as int)[i as int] != steps(base@)[i as int]);
            return false;
        }
        i = i + 1;
    }
    assert(steps(p@).take(steps(base@).len() as int) =~= steps(base@));
    true
}

/// The last step of a path, where it names a file.
pub fn path_file_name(p: &str) -> (out: Option<String>)
    ensures
        match out {
            Some(s) => file_name(p@) == Some(s@),
            None => file_name(p@) is None,
        },
{
    let s = path_steps(p);
    assert(text::views(s@).len() == s@.len());
    if s.len() == 0 {
        return None;
    }
    let last = s[s.len() - 1].clone();
    assert(steps(p@).last() == last@);
    if is_dot(last.as_str()) || is_dots(last.as_str()) {
        None
    } else {
        Some(last)
    }
}

/// The last position that holds `c`.
pub fn last_position(s: &Vec<char>, c: char) -> (at: Option<usize>)
    ensures
        match at {
            Some(i) => last_char(s@, c) == Some(i as int) && i < s@.len(),
            None => last_char(s@, c) is None,
        },
{
    let mut n: usize = s.len();
    assert(s@.take(n as int) =~= s@);
    while n > 0
        invariant
            n <= s@.len(),
            last_char(s@, c) == last_char(s@.take(n as int), c),
        decreases n,
    {
        if s[n - 1] == c {
            return Some(n - 1);
        }
        assert(s@.take(n as int).drop_last() =~= s@.take(n - 1));
        n = n - 1;
    }
    None
}

/// What follows the last dot of a file name, unless the name begins with it.
pub fn path_extension(p: &str) -> (out: Option<String>)
    ensures
        match out {
            Some(s) => extension(p@) == Some(s@),
            None => extension(p@) is None,
        },
{
    match path_file_name(p) {
        None => None,
        Some(name) => {
            let x = chars_of(name.as_str());
            let n: usize = x.len();
            match last_position(&x, '.') {
                Some(i) => if i > 0 {
                    Some(text_slice(&x, i + 1, n))
                } else {
                    None
                },
                None => None,
            }
        },
    }
}

/// The path of these steps.
pub open spec fn path_text(absolute: bool, steps: Seq<Seq<char>>) -> Seq<char> {
    if absolute {
        "/"@ + text::joined(steps, "/"@)
    } else {
        text::joined(steps, "/"@)
    }
}

/// The path of these steps.
pub fn path_text_of(absolute: bool, steps: &Vec<String>) -> (out: String)
    ensures
        out@ == path_text(absolute, text::views(steps@)),
{
    let tail = join(steps, "/");
    if absolute {
        cat2("/", tail.as_str())
    } else {
        tail
    }
}

} // verus!
