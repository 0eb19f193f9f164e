//! How files are named, and how messages name them.

use vstd::prelude::*;
use crate::attachments;
use crate::config::laws::lemma_trimmed;
use crate::number;
use crate::order;
use crate::paths;
use crate::refs;
use crate::table;
use crate::text;

verus! {

/// The text is one step of a path: it leads somewhere, and holds no slash.
pub open spec fn is_name(s: Seq<char>) -> bool {
    s.len() > 0 && s != seq!['.'] && !s.contains('/')
}

/// Every text is one step of a path.
pub open spec fn are_names(v: Seq<Seq<char>>) -> bool {
    forall|i: int| 0 <= i < v.len() ==> is_name(#[trigger] v[i])
}

proof fn lemma_kept_whole<T>(v: Seq<T>, keep: spec_fn(T) -> bool)
    requires
        forall|i: int| 0 <= i < v.len() ==> keep(#[trigger] v[i]),
    ensures
        v.filter(keep) == v,
    decreases v.len(),
{
    reveal(Seq::filter);
    if v.len() > 0 {
        let head = v.drop_last();
        assert(forall|i: int| 0 <= i < head.len() ==> head[i] == v[i]);
        lemma_kept_whole(head, keep);
        assert(keep(v[v.len() - 1]));
        assert(head.push(v.last()) =~= v);
    } else {
        assert(v.filter(keep) =~= v);
    }
}

proof fn lemma_split_again(v: Seq<Seq<char>>)
    requires
        v.len() > 0,
        are_names(v),
    ensures
        text::split(text::joined(v, "/"@), '/') == v,
    decreases v.len(),
{
    reveal_strlit("/");
    assert("/"@ =~= seq!['/']);
    let first = v[0];
    assert(is_name(v[0]));
    if v.len() == 1 {
        text::lemma_split_front(first, '/', seq![]);
        assert(v =~= seq![first]);
    } else {
        let rest = v.drop_first();
        assert forall|i: int| 0 <= i < rest.len() implies is_name(#[trigger] rest[i]) by {
            assert(rest[i] == v[i + 1]);
        }
        lemma_split_again(rest);
        assert(v =~= seq![first] + rest);
        text::lemma_joined_add(seq![first], rest, "/"@);
        assert(text::joined(seq![first], "/"@) == first);
        text::lemma_split_front(first, '/', text::joined(rest, "/"@));
    }
}

proof fn lemma_steps(absolute: bool, v: Seq<Seq<char>>)
    requires
        v.len() > 0,
        are_names(v),
    ensures
        paths::steps(paths::path_text(absolute, v)) == v,
        paths::absolute(paths::path_text(absolute, v)) == absolute,
{
    reveal_strlit("/");
    assert("/"@ =~= seq!['/']);
    let tail = text::joined(v, "/"@);
    let keep = |s: Seq<char>| paths::is_step(s);
    lemma_split_again(v);
    assert(is_name(v[0]));
    if absolute {
        let p = "/"@ + tail;
        text::lemma_split_front(seq![], '/', tail);
        assert(p =~= Seq::<char>::empty() + seq!['/'] + tail);
        let parts = text::split(p, '/');
        assert(parts == seq![Seq::<char>::empty()] + v);
        assert(parts[0].len() == 0);
        assert(parts.filter(keep) == v) by {
            lemma_filter_first(Seq::<char>::empty(), v, keep);
            lemma_kept_whole(v, keep);
        }
        assert(paths::steps(p) =~= v);
    } else {
        assert(text::split(tail, '/')[0] == v[0]);
        lemma_kept_whole(v, keep);
        assert(paths::steps(tail) =~= v);
        lemma_first_char(v);
    }
}

proof fn lemma_first_char(v: Seq<Seq<char>>)
    requires
        v.len() > 0,
        are_names(v),
    ensures
        !paths::absolute(text::joined(v, "/"@)),
{
    let s = text::joined(v, "/"@);
    lemma_split_again(v);
    if paths::absolute(s) {
        let rest = s.drop_first();
        assert(s =~= Seq::<char>::empty() + seq!['/'] + rest);
        text::lemma_split_front(seq![], '/', rest);
        assert(text::split(s, '/')[0].len() == 0);
        assert(is_name(v[0]));
    }
}

proof fn lemma_filter_first<T>(x: T, v: Seq<T>, keep: spec_fn(T) -> bool)
    requires
        !keep(x),
    ensures
        (seq![x] + v).filter(keep) == v.filter(keep),
    decreases v.len(),
{
    reveal(Seq::filter);
    let all = seq![x] + v;
    if v.len() == 0 {
        assert(all =~= seq![x]);
        assert(all.drop_last() =~= Seq::<T>::empty());
        assert(all.drop_last().filter(keep) =~= Seq::<T>::empty());
        assert(all.filter(keep) =~= v.filter(keep));
    } else {
        lemma_filter_first(x, v.drop_last(), keep);
        assert(all.drop_last() =~= seq![x] + v.drop_last());
        assert(all.last() == v.last());
    }
}

/// The steps of a path are the names that it is made of, in their order, whether it starts
/// at the root or not.
pub proof fn law_steps_are_found_again(absolute: bool, v: Seq<Seq<char>>)
    requires
        v.len() > 0,
        are_names(v),
    ensures
        paths::steps(paths::path_text(absolute, v)) == v,
        paths::absolute(paths::path_text(absolute, v)) == absolute,
        v.last() != seq!['.', '.'] ==> paths::file_name(paths::path_text(absolute, v)) == Some(
            v.last(),
        ),
{
    lemma_steps(absolute, v);
    assert(is_name(v[v.len() - 1]));
}

/// A path lies below another exactly where it goes on from it step by step.
pub proof fn law_below_is_step_by_step(
    absolute: bool,
    base: Seq<Seq<char>>,
    other: bool,
    v: Seq<Seq<char>>,
)
    requires
        base.len() > 0,
        v.len() > 0,
        are_names(base),
        are_names(v),
    ensures
        paths::below(paths::path_text(other, v), paths::path_text(absolute, base)) <==> absolute
            == other && base.len() <= v.len() && (forall|i: int|
            0 <= i < base.len() ==> #[trigger] base[i] == v[i]),
        paths::same_place(paths::path_text(other, v), paths::path_text(absolute, base))
            <==> absolute == other && base == v,
{
    lemma_steps(absolute, base);
    lemma_steps(other, v);
    if base.len() <= v.len() {
        if forall|i: int| 0 <= i < base.len() ==> #[trigger] base[i] == v[i] {
            assert(v.take(base.len() as int) =~= base);
        }
        if v.take(base.len() as int) == base {
            assert forall|i: int| 0 <= i < base.len() implies #[trigger] base[i] == v[i] by {
                assert(v.take(base.len() as int)[i] == v[i]);
            }
        }
    }
}

/// What is taken from a place stands behind it with one slash between them, and alone where
/// it starts at the root.
pub proof fn law_paths_are_joined(base: Seq<char>, p: Seq<char>)
    requires
        base.len() > 0,
    ensures
        p.len() > 0 && p[0] == '/' ==> paths::joined_path(base, p) == p,
        !(p.len() > 0 && p[0] == '/') && base.last() != '/' ==> paths::joined_path(base, p) == base
            + seq!['/'] + p,
        !(p.len() > 0 && p[0] == '/') && base.last() == '/' ==> paths::joined_path(base, p) == base
            + p,
{
    assert(base.push('/') + p =~= base + seq!['/'] + p);
}

/// The extension of a file is what follows the last dot of its name; a name that has no dot,
/// or only one in front, has none.
pub proof fn law_extensions_follow_the_last_dot(
    absolute: bool,
    dir: Seq<Seq<char>>,
    stem: Seq<char>,
    e: Seq<char>,
)
    requires
        are_names(dir),
        !stem.contains('/'),
        !e.contains('/'),
        !e.contains('.'),
        e.len() > 0,
    ensures
        stem.len() > 0 ==> paths::extension(
            paths::path_text(absolute, dir.push(stem + seq!['.'] + e)),
        ) == Some(e),
        paths::extension(paths::path_text(absolute, dir.push(seq!['.'] + e))) is None,
        paths::extension(paths::path_text(absolute, dir.push(e))) is None,
{
    let full = stem + seq!['.'] + e;
    let hidden = seq!['.'] + e;
    assert(full.last() == e.last());
    assert(e.contains(e.last()));
    lemma_named(dir, full);
    lemma_named(dir, hidden);
    lemma_named(dir, e);
    assert(!full.contains('/')) by {
        if full.contains('/') {
            let k = choose|k: int| 0 <= k < full.len() && full[k] == '/';
            if k < stem.len() {
                assert(stem[k] == '/');
            } else if k > stem.len() {
                assert(e[k - stem.len() - 1] == '/');
            }
        }
    }
    assert(!hidden.contains('/')) by {
        if hidden.contains('/') {
            let k = choose|k: int| 0 <= k < hidden.len() && hidden[k] == '/';
            if k > 0 {
                assert(e[k - 1] == '/');
            }
        }
    }
    lemma_not_dots(full);
    lemma_not_dots(hidden);
    lemma_not_dots(e);
    law_steps_are_found_again(absolute, dir.push(full));
    law_steps_are_found_again(absolute, dir.push(hidden));
    law_steps_are_found_again(absolute, dir.push(e));
    paths::lemma_last_char(full, '.');
    paths::lemma_last_char(hidden, '.');
    paths::lemma_last_char(e, '.');
    let n = stem.len() as int;
    assert(full[n] == '.' && hidden[0] == '.');
    assert forall|j: int| n < j < full.len() implies full[j] != '.' by {
        assert(full[j] == e[j - n - 1]);
        assert(e.contains(e[j - n - 1]));
    }
    assert forall|j: int| 0 < j < hidden.len() implies hidden[j] != '.' by {
        assert(hidden[j] == e[j - 1]);
        assert(e.contains(e[j - 1]));
    }
    assert(paths::last_char(full, '.') == Some(n));
    assert(paths::last_char(hidden, '.') == Some(0int));
    if let Some(i) = paths::last_char(e, '.') {
        assert(e.contains(e[i]));
    }
    assert(text::rest(full, n + 1) =~= e);
}

proof fn lemma_named(dir: Seq<Seq<char>>, name: Seq<char>)
    ensures
        are_names(dir) && is_name(name) ==> are_names(dir.push(name)),
        dir.push(name).last() == name,
{
}

proof fn lemma_not_dots(s: Seq<char>)
    requires
        s.len() > 0,
        s.last() != '.',
    ensures
        s != seq!['.'],
        s != seq!['.', '.'],
{
    assert(seq!['.'].last() == '.' && seq!['.', '.'].last() == '.');
}

/// A file is an image by its extension, in letters of either case.
pub proof fn law_images_are_known_by_extension(p: Seq<char>)
    ensures
        refs::names_image(p) <==> (paths::extension(p) is Some && {
            let e = text::lowered(paths::extension(p)->0);
            ||| e == "png"@
            ||| e == "jpg"@
            ||| e == "jpeg"@
            ||| e == "gif"@
            ||| e == "webp"@
            ||| e == "bmp"@
            ||| e == "tif"@
            ||| e == "tiff"@
            ||| e == "ico"@
            ||| e == "heic"@
            ||| e == "heif"@
            ||| e == "avif"@
        }),
{
    let v = refs::image_extensions();
    assert(v[0] == "png"@ && v[1] == "jpg"@ && v[2] == "jpeg"@ && v[3] == "gif"@ && v[4]
        == "webp"@ && v[5] == "bmp"@ && v[6] == "tif"@ && v[7] == "tiff"@ && v[8] == "ico"@ && v[9]
        == "heic"@ && v[10] == "heif"@ && v[11] == "avif"@);
}

/// A written path leads to the user's home where it begins with a tilde, else below the
/// workspace, or where it says from the root; quotes around it do not count.
pub proof fn law_written_paths_lead_somewhere(
    root: Seq<char>,
    home: Seq<char>,
    p: Seq<char>,
    q: char,
)
    requires
        p.len() > 0,
        !text::is_white(p[0]) && !text::is_white(p.last()),
        p[0] != '"' && p[0] != '\'',
        q == '"' || q == '\'',
    ensures
        refs::expanded(root, Some(home), seq!['~', '/'] + p) == paths::joined_path(home, p),
        p[0] == '/' ==> refs::expanded(root, Some(home), p) == p,
        p[0] != '/' && p[0] != '~' ==> refs::expanded(root, Some(home), p) == paths::joined_path(
            root,
            p,
        ),
        refs::expanded(root, Some(home), seq![q] + p + seq![q]) == refs::expanded(
            root,
            Some(home),
            p,
        ),
{
    reveal_strlit("~/");
    let t = seq!['~', '/'] + p;
    assert(t[0] == '~' && t.last() == p.last());
    lemma_untrimmed(t);
    lemma_untrimmed(p);
    assert(t.subrange(0, 2) =~= "~/"@);
    assert(text::rest(t, 2) =~= p);
    if text::starts_with(p, "~/"@) {
        assert(p.subrange(0, 2)[0] == p[0]);
    }
    let quoted = seq![q] + p + seq![q];
    assert(quoted[0] == q && quoted.last() == q);
    lemma_untrimmed(quoted);
    assert(quoted.subrange(1, quoted.len() - 1) =~= p);
}

proof fn lemma_untrimmed(s: Seq<char>)
    requires
        s.len() > 0,
        !text::is_white(s[0]),
        !text::is_white(s.last()),
    ensures
        text::trim(s) == s,
{
    assert(text::trim_start(s) == s);
    assert(text::trim_end(s) == s);
}

/// What stands around a path in a sentence is taken off: brackets before it, and brackets
/// and the marks of a sentence behind it. Nothing else is.
pub proof fn law_sentence_marks_are_taken_off(s: Seq<char>) -> (ends: (int, int))
    ensures
        ({
            let out = refs::without_closing(refs::without_opening(s));
            &&& 0 <= ends.0 <= ends.1 <= s.len()
            &&& out == s.subrange(ends.0, ends.1)
            &&& forall|i: int|
                0 <= i < ends.0 ==> (#[trigger] s[i]) == '(' || s[i] == '[' || s[i] == '<'
            &&& forall|i: int|
                ends.1 <= i < s.len() ==> ".,;:!?)]>"@.contains(#[trigger] s[i])
            &&& out.len() > 0 ==> out[0] != '(' && out[0] != '[' && out[0] != '<'
                && !".,;:!?)]>"@.contains(out.last())
        }),
{
    let a = lemma_opening(s);
    let t = refs::without_opening(s);
    let b = lemma_closing(t);
    assert(t.take(b) =~= s.subrange(a, a + b));
    assert forall|i: int| a + b <= i < s.len() implies ".,;:!?)]>"@.contains(#[trigger] s[i]) by {
        assert(t[i - a] == s[i]);
    }
    if b > 0 {
        assert(t[0] == s[a]);
    }
    (a, a + b)
}

proof fn lemma_opening(s: Seq<char>) -> (from: int)
    ensures
        0 <= from <= s.len(),
        refs::without_opening(s) == s.skip(from),
        forall|i: int| 0 <= i < from ==> refs::opens(#[trigger] s[i]),
        from < s.len() ==> !refs::opens(s[from]),
    decreases s.len(),
{
    if s.len() > 0 && refs::opens(s[0]) {
        let n = lemma_opening(s.drop_first());
        assert forall|i: int| 0 <= i < n + 1 implies refs::opens(#[trigger] s[i]) by {
            if i > 0 {
                assert(s.drop_first()[i - 1] == s[i]);
            }
        }
        assert(s.drop_first().skip(n) =~= s.skip(n + 1));
        n + 1
    } else {
        assert(s.skip(0) =~= s);
        0
    }
}

proof fn lemma_closing(s: Seq<char>) -> (to: int)
    ensures
        0 <= to <= s.len(),
        refs::without_closing(s) == s.take(to),
        forall|i: int| to <= i < s.len() ==> ".,;:!?)]>"@.contains(#[trigger] s[i]),
        to > 0 ==> !".,;:!?)]>"@.contains(s[to - 1]),
    decreases s.len(),
{
    if s.len() > 0 {
        lemma_marks(s.last());
    }
    if s.len() > 0 && refs::closes(s.last()) {
        let n = lemma_closing(s.drop_last());
        assert forall|i: int| n <= i < s.len() implies ".,;:!?)]>"@.contains(#[trigger] s[i]) by {
            if i < s.len() - 1 {
                assert(s.drop_last()[i] == s[i]);
            }
        }
        assert(s.drop_last().take(n) =~= s.take(n));
        n
    } else {
        assert(s.take(s.len() as int) =~= s);
        s.len() as int
    }
}

proof fn lemma_marks(c: char)
    ensures
        refs::closes(c) <==> ".,;:!?)]>"@.contains(c),
{
    reveal_strlit(".,;:!?)]>");
    let m = ".,;:!?)]>"@;
    assert(m.len() == 9);
    assert(m[0] == '.' && m[1] == ',' && m[2] == ';' && m[3] == ':' && m[4] == '!' && m[5] == '?'
        && m[6] == ')' && m[7] == ']' && m[8] == '>');
}

/// Every token of a message that names an image is looked for, where it leads, and no other.
pub proof fn law_named_images_are_looked_for(
    tokens: Seq<Seq<char>>,
    root: Seq<char>,
    home: Option<Seq<char>>,
    p: Seq<char>,
)
    ensures
        refs::candidates_of(tokens, root, home).contains(p) <==> exists|i: int|
            0 <= i < tokens.len() && {
                let t = refs::without_closing(refs::without_opening(#[trigger] tokens[i]));
                refs::names_image(t) && p == refs::expanded(root, home, t)
            },
    decreases tokens.len(),
{
    if tokens.len() > 0 {
        let head = tokens.drop_last();
        law_named_images_are_looked_for(head, root, home, p);
        let was = refs::candidates_of(head, root, home);
        let now = refs::candidates_of(tokens, root, home);
        let t = refs::without_closing(refs::without_opening(tokens.last()));
        assert(forall|i: int| 0 <= i < head.len() ==> head[i] == tokens[i]);
        assert(tokens[tokens.len() - 1] == tokens.last());
        if was.contains(p) {
            let k = choose|k: int| 0 <= k < was.len() && was[k] == p;
            assert(now[k] == p);
            let i = choose|i: int|
                0 <= i < head.len() && {
                    let t = refs::without_closing(refs::without_opening(#[trigger] head[i]));
                    refs::names_image(t) && p == refs::expanded(root, home, t)
                };
            assert(tokens[i] == head[i]);
        }
        if refs::names_image(t) {
            assert(now[was.len() as int] == refs::expanded(root, home, t));
        }
        if now.contains(p) {
            let k = choose|k: int| 0 <= k < now.len() && now[k] == p;
            if k < was.len() {
                assert(was[k] == p);
            }
        }
        if exists|i: int|
            0 <= i < tokens.len() && {
                let t = refs::without_closing(refs::without_opening(#[trigger] tokens[i]));
                refs::names_image(t) && p == refs::expanded(root, home, t)
            } {
            let i = choose|i: int|
                0 <= i < tokens.len() && {
                    let t = refs::without_closing(refs::without_opening(#[trigger] tokens[i]));
                    refs::names_image(t) && p == refs::expanded(root, home, t)
                };
            if i < head.len() {
                assert(head[i] == tokens[i]);
            }
        }
    }
}

proof fn lemma_tokens_shift(
    a: Seq<char>,
    b: Seq<char>,
    i: int,
    open: Seq<char>,
    quote: Option<char>,
)
    requires
        0 <= i,
    ensures
        refs::tokens_from(a + b, a.len() + i, open, quote) == refs::tokens_from(b, i, open, quote),
    decreases b.len() - i,
{
    let s = a + b;
    if i < b.len() {
        assert(s[a.len() + i] == b[i]);
        if i + 1 < b.len() {
            assert(s[a.len() + i + 1] == b[i + 1]);
        }
        lemma_tokens_shift(a, b, i + 1, open.push(b[i]), quote);
        lemma_tokens_shift(a, b, i + 1, open, quote);
        lemma_tokens_shift(a, b, i + 1, open, None);
        lemma_tokens_shift(a, b, i + 1, open, Some(b[i]));
        lemma_tokens_shift(a, b, i + 1, seq![], None);
        if i + 1 < b.len() {
            lemma_tokens_shift(a, b, i + 2, open.push(' '), quote);
        }
    }
}

/// The characters from `i` on are `w`, and none of them ends a token.
proof fn lemma_run(
    s: Seq<char>,
    i: int,
    w: Seq<char>,
    open: Seq<char>,
    quote: Option<char>,
)
    requires
        0 <= i,
        i + w.len() <= s.len(),
        s.subrange(i, i + w.len()) == w,
        !w.contains('\\'),
        quote is None ==> forall|k: int| 0 <= k < w.len() ==> !text::is_white(#[trigger] w[k]),
        quote matches Some(q) ==> !w.contains(q),
        quote is None && open.len() == 0 && w.len() > 0 ==> w[0] != '"' && w[0] != '\'',
    ensures
        refs::tokens_from(s, i, open, quote) == refs::tokens_from(
            s,
            i + w.len(),
            open + w,
            quote,
        ),
    decreases w.len(),
{
    if w.len() == 0 {
        assert(open + w =~= open);
    } else {
        let c = w[0];
        assert(s.subrange(i, i + w.len())[0] == s[i]);
        assert(w.contains(w[0]));
        let rest = w.drop_first();
        assert(s.subrange(i + 1, i + w.len()) =~= rest);
        assert forall|k: int| 0 <= k < rest.len() implies w.contains(#[trigger] rest[k]) by {
            assert(rest[k] == w[k + 1]);
        }
        assert(!rest.contains('\\'));
        if quote is None {
            assert forall|k: int| 0 <= k < rest.len() implies !text::is_white(
                #[trigger] rest[k],
            ) by {
                assert(rest[k] == w[k + 1]);
            }
        }
        lemma_run(s, i + 1, rest, open.push(c), quote);
        assert(open.push(c) + rest =~= open + w);
    }
}

/// A word that stands between white space is one token, and what follows it is read on its
/// own.
pub proof fn law_words_are_tokens(w: Seq<char>, c: char, rest: Seq<char>)
    requires
        w.len() > 0,
        forall|k: int| 0 <= k < w.len() ==> !text::is_white(#[trigger] w[k]) && w[k] != '\\',
        w[0] != '"' && w[0] != '\'',
        text::is_white(c),
    ensures
        refs::tokens_of(w) == seq![w],
        refs::tokens_of(w + seq![c] + rest) == seq![w] + refs::tokens_of(rest),
        refs::tokens_of(seq![c] + rest) == refs::tokens_of(rest),
{
    assert(!w.contains('\\'));
    assert(w.subrange(0, w.len() as int) =~= w);
    lemma_run(w, 0, w, seq![], None);
    assert(Seq::<char>::empty() + w =~= w);
    let s = w + seq![c] + rest;
    assert(s.subrange(0, w.len() as int) =~= w);
    lemma_run(s, 0, w, seq![], None);
    assert(s[w.len() as int] == c);
    assert(c != '\\' && c != '"' && c != '\'');
    lemma_tokens_shift(w + seq![c], rest, 0, seq![], None);
    let t = seq![c] + rest;
    assert(t[0] == c);
    lemma_tokens_shift(seq![c], rest, 0, seq![], None);
}

/// What stands in quotes is one token, white space and all, without the quotes.
pub proof fn law_quoted_text_is_one_token(q: char, inner: Seq<char>, rest: Seq<char>)
    requires
        q == '"' || q == '\'',
        !inner.contains(q),
        !inner.contains('\\'),
    ensures
        refs::tokens_of(seq![q] + inner + seq![q] + rest) == seq![inner] + refs::tokens_of(rest),
{
    let s = seq![q] + inner + seq![q] + rest;
    assert(s[0] == q);
    let n = inner.len() as int;
    assert(s.subrange(1, 1 + n) =~= inner);
    lemma_run(s, 1, inner, seq![], Some(q));
    assert(Seq::<char>::empty() + inner =~= inner);
    assert(s[1 + n] == q);
    lemma_tokens_shift(seq![q] + inner + seq![q], rest, 0, seq![], None);
}

proof fn lemma_escaped_run(
    a: Seq<char>,
    p: Seq<char>,
    b: Seq<char>,
)
    requires
        forall|k: int|
            0 <= k < p.len() ==> (text::is_white(#[trigger] p[k]) ==> p[k] == ' ') && p[k] != '\\',
        p.len() > 0 ==> p[0] != '"' && p[0] != '\'',
    ensures
        refs::tokens_from(a + refs::escaped(p) + b, a.len() as int, seq![], None)
            == refs::tokens_from(
            a + refs::escaped(p) + b,
            (a.len() + refs::escaped(p).len()) as int,
            p,
            None,
        ),
    decreases p.len(),
{
    let s = a + refs::escaped(p) + b;
    if p.len() == 0 {
        assert(p =~= Seq::<char>::empty());
    } else {
        let head = p.drop_last();
        let c = p.last();
        let tail = if c == ' ' {
            seq!['\\', ' ']
        } else {
            seq![c]
        };
        assert(refs::escaped(p) =~= refs::escaped(head) + tail);
        assert(forall|k: int| 0 <= k < head.len() ==> head[k] == p[k]);
        assert(p[p.len() - 1] == c);
        lemma_escaped_run(a, head, tail + b);
        assert(s =~= a + refs::escaped(head) + (tail + b));
        let at = a.len() + refs::escaped(head).len();
        assert(s[at as int] == tail[0]);
        assert(head.push(c) =~= p);
        if c == ' ' {
            assert(s[at + 1int] == ' ');
        }
    }
}

/// A path whose spaces are written with a backslash before them is one token, with the
/// spaces in it.
pub proof fn law_escaped_paths_are_one_token(p: Seq<char>, c: char, rest: Seq<char>)
    requires
        p.len() > 0,
        forall|k: int|
            0 <= k < p.len() ==> (text::is_white(#[trigger] p[k]) ==> p[k] == ' ') && p[k] != '\\',
        p[0] != '"' && p[0] != '\'',
        text::is_white(c),
    ensures
        refs::tokens_of(refs::escaped(p)) == seq![p],
        refs::tokens_of(refs::escaped(p) + seq![c] + rest) == seq![p] + refs::tokens_of(rest),
{
    let e = refs::escaped(p);
    lemma_escaped_run(seq![], p, seq![]);
    assert(Seq::<char>::empty() + e + Seq::<char>::empty() =~= e);
    let s = e + seq![c] + rest;
    lemma_escaped_run(seq![], p, seq![c] + rest);
    assert(Seq::<char>::empty() + e + (seq![c] + rest) =~= s);
    assert(s[e.len() as int] == c);
    assert(c != '\\' && c != '"' && c != '\'');
    lemma_tokens_shift(e + seq![c], rest, 0, seq![], None);
}

/// Text without code stays as it is; what stands between two backticks is left out.
pub proof fn law_code_is_left_out(a: Seq<char>, code: Seq<char>, b: Seq<char>)
    requires
        !a.contains('`'),
        !code.contains('`'),
        code.len() > 0,
    ensures
        refs::prose_from(a, 0) == a,
        ({
            let s = a + seq!['`'] + code + seq!['`'] + b;
            refs::prose_from(s, 0) == a + refs::prose_from(
                s,
                (a.len() + code.len() + 2) as int,
            )
        }),
{
    text::lemma_find_char_from(a, '`', 0);
    if let Some(k) = text::find_char_from(a, '`', 0) {
        assert(a.contains(a[k]));
    }
    assert(text::rest(a, 0) =~= a);
    let s = a + seq!['`'] + code + seq!['`'] + b;
    let n = a.len() as int;
    lemma_span(a, code, b);
    assert(s.subrange(0, n) =~= a);
}

proof fn lemma_span(a: Seq<char>, code: Seq<char>, b: Seq<char>)
    requires
        !a.contains('`'),
        !code.contains('`'),
        code.len() > 0,
    ensures
        ({
            let s = a + seq!['`'] + code + seq!['`'] + b;
            let n = a.len() as int;
            &&& text::find_char_from(s, '`', 0) == Some(n)
            &&& refs::fence_len(s, n) == 1
            &&& text::find_from(s, s.subrange(n, n + 1), n + 1) == Some(n + 1 + code.len())
        }),
{
    let s = a + seq!['`'] + code + seq!['`'] + b;
    let n = a.len() as int;
    let e = n + 1 + code.len();
    assert(s[n] == '`' && s[e] == '`');
    assert forall|j: int| 0 <= j < e && j != n implies #[trigger] s[j] != '`' by {
        if j < n {
            assert(s[j] == a[j]);
            assert(a.contains(a[j]));
        } else {
            assert(s[j] == code[j - n - 1]);
            assert(code.contains(code[j - n - 1]));
        }
    }
    lemma_next_tick(s, 0, n);
    assert(refs::fence_len(s, n) == 1) by {
        reveal_strlit("```");
        if text::occurs(s, "```"@, n) {
            assert(s.subrange(n, n + 3)[1] == s[n + 1]);
        }
    }
    let fence = s.subrange(n, n + 1);
    assert(fence =~= seq!['`']);
    lemma_next_fence(s, fence, n + 1, e);
}

proof fn lemma_next_tick(s: Seq<char>, i: int, at: int)
    requires
        0 <= i <= at < s.len(),
        s[at] == '`',
        forall|j: int| i <= j < at ==> #[trigger] s[j] != '`',
    ensures
        text::find_char_from(s, '`', i) == Some(at),
    decreases at - i,
{
    if i < at {
        lemma_next_tick(s, i + 1, at);
    }
}

proof fn lemma_next_fence(s: Seq<char>, fence: Seq<char>, i: int, at: int)
    requires
        fence == seq!['`'],
        0 <= i <= at < s.len(),
        s[at] == '`',
        forall|j: int| i <= j < at ==> #[trigger] s[j] != '`',
    ensures
        text::find_from(s, fence, i) == Some(at),
    decreases at - i,
{
    if i < at {
        assert(s.subrange(i, i + 1)[0] == s[i]);
        assert(!text::occurs(s, fence, i));
        lemma_next_fence(s, fence, i + 1, at);
    } else {
        assert(s.subrange(i, i + 1) =~= fence);
        assert(text::occurs(s, fence, i));
    }
}

/// An attachment is shown by the name of its file, whole where it has at most 28 characters,
/// else by the first 28 of them with a mark behind.
pub proof fn law_attachments_are_shown_by_name(path: Seq<char>, name: Seq<char>)
    requires
        paths::file_name(path) == Some(name),
    ensures
        name.len() <= 28 ==> attachments::label(path) == name,
        name.len() > 28 ==> attachments::label(path) == name.take(28) + seq!['…'],
{
    reveal_strlit("…");
    assert("…"@ =~= seq!['…']);
}

/// A size is shown in bytes, in whole kibibytes, or in mebibytes to the nearest tenth.
pub proof fn law_sizes_are_shown_to_the_nearest_tenth(bytes: nat)
    requires
        bytes < 0x20_0000_0000_0000,
    ensures
        bytes < 1024 ==> attachments::size_text(bytes) == number::decimal(bytes) + " B"@,
        1024 <= bytes < 1_048_576 ==> exists|k: nat|
            attachments::size_text(bytes) == #[trigger] number::decimal(k) + " KB"@ && k * 1024
                <= bytes < (k + 1) * 1024,
        bytes >= 1_048_576 ==> exists|whole: nat, tenth: nat|
            attachments::size_text(bytes) == #[trigger] number::decimal(whole) + "."@
                + #[trigger] number::decimal(tenth) + " MB"@ && tenth < 10 && -524_288 <= (10
                * whole + tenth) * 1_048_576 - 10 * bytes <= 524_288,
{
    if bytes >= 1_048_576 {
        let n = attachments::significant(bytes, 1);
        assert(attachments::half_even(bytes, 1) == bytes);
        assert(n == bytes);
        let t = attachments::tenths(bytes);
        let whole = t / 10;
        let tenth = t % 10;
        assert(10 * whole + tenth == t);
        assert(attachments::size_text(bytes) == number::decimal(whole) + "."@ + number::decimal(
            tenth,
        ) + " MB"@);
    } else if bytes >= 1024 {
        let k = bytes / 1024;
        assert(attachments::size_text(bytes) == number::decimal(k) + " KB"@);
    }
}

/// Of two texts the one with the smaller character comes first, where they first differ; a
/// text comes before every text that goes on from it.
pub proof fn law_first_difference_decides(
    p: Seq<char>,
    a: char,
    x: Seq<char>,
    b: char,
    y: Seq<char>,
)
    ensures
        a != b ==> (order::before(p + seq![a] + x, p + seq![b] + y) <==> a < b),
        order::before(p, p + seq![a] + x),
        !order::before(p, p),
    decreases p.len(),
{
    let s = p + seq![a] + x;
    let t = p + seq![b] + y;
    if p.len() == 0 {
        assert(s[0] == a && t[0] == b);
    } else {
        law_first_difference_decides(p.drop_first(), a, x, b, y);
        assert(s.drop_first() =~= p.drop_first() + seq![a] + x);
        assert(t.drop_first() =~= p.drop_first() + seq![b] + y);
        assert(s[0] == p[0] && t[0] == p[0]);
    }
}

/// Nothing in the list comes before what stands ahead of it.
pub open spec fn in_order(v: Seq<Seq<char>>) -> bool {
    forall|i: int, j: int| 0 <= i < j < v.len() ==> !order::before(#[trigger] v[j], #[trigger] v[i])
}

proof fn lemma_inserted(v: Seq<Seq<char>>, x: Seq<char>)
    requires
        in_order(v),
    ensures
        in_order(order::inserted(v, x)),
        order::inserted(v, x).to_multiset() =~= v.to_multiset().insert(x),
    decreases v.len(),
{
    broadcast use vstd::seq_lib::group_to_multiset_ensures;

    let out = order::inserted(v, x);
    if v.len() > 0 && order::before(x, v.last()) {
        let head = v.drop_last();
        assert(forall|i: int| 0 <= i < head.len() ==> head[i] == v[i]);
        lemma_inserted(head, x);
        let inner = order::inserted(head, x);
        assert(v =~= head.push(v.last()));
        assert forall|i: int, j: int| 0 <= i < j < out.len() implies !order::before(
            #[trigger] out[j],
            #[trigger] out[i],
        ) by {
            if j < inner.len() {
                assert(out[i] == inner[i] && out[j] == inner[j]);
            } else {
                assert(inner.contains(inner[i]));
                assert(inner.to_multiset().count(inner[i]) > 0);
                if out[i] == x {
                    order::lemma_before_total(x, v.last());
                } else {
                    assert(head.to_multiset().count(out[i]) > 0);
                    assert(head.contains(out[i]));
                    let k = choose|k: int| 0 <= k < head.len() && head[k] == out[i];
                    assert(v[k] == out[i] && v[v.len() - 1] == out[j]);
                }
            }
        }
    } else {
        assert forall|i: int, j: int| 0 <= i < j < out.len() implies !order::before(
            #[trigger] out[j],
            #[trigger] out[i],
        ) by {
            if j == v.len() {
                let last = v[v.len() - 1];
                if i < v.len() - 1 && order::before(x, v[i]) {
                    order::lemma_before_total(last, v[i]);
                    assert(!order::before(last, v[i]));
                    if v[i] != last {
                        order::lemma_before_transitive(x, v[i], last);
                    }
                }
            }
        }
    }
}

/// Sorting keeps every text as often as it occurs, and puts none before a smaller one.
pub proof fn law_sorting_keeps_everything(v: Seq<Seq<char>>)
    ensures
        in_order(order::sorted(v)),
        order::sorted(v).to_multiset() =~= v.to_multiset(),
    decreases v.len(),
{
    broadcast use vstd::seq_lib::group_to_multiset_ensures;

    if v.len() > 0 {
        law_sorting_keeps_everything(v.drop_last());
        lemma_inserted(order::sorted(v.drop_last()), v.last());
        assert(v =~= v.drop_last().push(v.last()));
    }
}

/// The keys come in order, each of them once.
pub open spec fn keyed(rows: Seq<(Seq<char>, Seq<char>)>) -> bool {
    forall|i: int, j: int|
        0 <= i < j < rows.len() ==> order::before((#[trigger] rows[i]).0, (#[trigger] rows[j]).0)
}

proof fn lemma_with_row(
    rows: Seq<(Seq<char>, Seq<char>)>,
    row: (Seq<char>, Seq<char>),
    x: (Seq<char>, Seq<char>),
)
    requires
        keyed(rows),
    ensures
        keyed(table::with_row(rows, row)),
        table::with_row(rows, row).contains(x) <==> x == row || rows.contains(x) && x.0 != row.0,
    decreases rows.len(),
{
    let out = table::with_row(rows, row);
    if rows.len() == 0 {
        assert(out =~= seq![row]);
        assert(out[0] == row);
    } else {
        let head = rows.drop_last();
        let last = rows.last();
        assert(forall|i: int| 0 <= i < head.len() ==> head[i] == rows[i]);
        assert(rows[rows.len() - 1] == last);
        if order::before(last.0, row.0) {
            assert(out == rows.push(row));
            assert(forall|i: int| 0 <= i < rows.len() ==> out[i] == rows[i]);
            assert(out[rows.len() as int] == row);
            assert forall|i: int| 0 <= i < rows.len() implies order::before(
                (#[trigger] rows[i]).0,
                row.0,
            ) by {
                if i < rows.len() - 1 {
                    order::lemma_before_transitive(rows[i].0, last.0, row.0);
                }
            }
            if rows.contains(x) {
                let k = choose|k: int| 0 <= k < rows.len() && rows[k] == x;
                assert(out[k] == x);
                order::lemma_before_total(x.0, row.0);
            }
            if out.contains(x) && x != row {
                let k = choose|k: int| 0 <= k < out.len() && out[k] == x;
                assert(rows[k] == x);
                order::lemma_before_total(x.0, row.0);
            }
        } else if last.0 == row.0 {
            assert(out == head.push(row));
            assert(forall|i: int| 0 <= i < head.len() ==> out[i] == rows[i]);
            assert(out[head.len() as int] == row);
            if rows.contains(x) && x.0 != row.0 {
                let k = choose|k: int| 0 <= k < rows.len() && rows[k] == x;
                assert(out[k] == x);
            }
            if out.contains(x) && x != row {
                let k = choose|k: int| 0 <= k < out.len() && out[k] == x;
                assert(rows[k] == x);
                order::lemma_before_total(x.0, row.0);
            }
        } else {
            order::lemma_before_total(last.0, row.0);
            lemma_with_row(head, row, x);
            let inner = table::with_row(head, row);
            assert(out == inner.push(last));
            assert(forall|i: int| 0 <= i < inner.len() ==> out[i] == inner[i]);
            assert(out[inner.len() as int] == last);
            assert forall|i: int, j: int| 0 <= i < j < out.len() implies order::before(
                (#[trigger] out[i]).0,
                (#[trigger] out[j]).0,
            ) by {
                if j == inner.len() {
                    lemma_with_row(head, row, inner[i]);
                    assert(inner.contains(inner[i]));
                    if inner[i] != row {
                        let k = choose|k: int| 0 <= k < head.len() && head[k] == inner[i];
                        assert(order::before(rows[k].0, rows[rows.len() - 1].0));
                    }
                } else {
                    assert(order::before(inner[i].0, inner[j].0));
                }
            }
            if rows.contains(x) && x.0 != row.0 {
                let k = choose|k: int| 0 <= k < rows.len() && rows[k] == x;
                if k < head.len() {
                    assert(head[k] == x);
                    let m = choose|m: int| 0 <= m < inner.len() && inner[m] == x;
                    assert(out[m] == x);
                }
            }
            lemma_with_row(head, row, row);
            let m = choose|m: int| 0 <= m < inner.len() && inner[m] == row;
            assert(out[m] == row);
            if out.contains(x) && x != row {
                let k = choose|k: int| 0 <= k < out.len() && out[k] == x;
                if k < inner.len() {
                    assert(inner[k] == x);
                    let h = choose|h: int| 0 <= h < head.len() && head[h] == x;
                    assert(rows[h] == x);
                }
            }
        }
    }
}

/// What is put under a key takes the place of what stood there; the rows come out in the
/// order of their keys.
pub proof fn law_the_last_row_counts(rows: Seq<(Seq<char>, Seq<char>)>, x: (Seq<char>, Seq<char>))
    ensures
        keyed(table::entered(rows)),
        table::entered(rows).contains(x) <==> exists|i: int|
            0 <= i < rows.len() && #[trigger] rows[i] == x && forall|j: int|
                i < j < rows.len() ==> (#[trigger] rows[j]).0 != x.0,
    decreases rows.len(),
{
    if rows.len() > 0 {
        let head = rows.drop_last();
        law_the_last_row_counts(head, x);
        lemma_with_row(table::entered(head), rows.last(), x);
        assert(forall|i: int| 0 <= i < head.len() ==> head[i] == rows[i]);
        let n = rows.len() - 1;
        assert(rows[n] == rows.last());
        if table::entered(rows).contains(x) {
            if x != rows.last() {
                let i = choose|i: int|
                    0 <= i < head.len() && #[trigger] head[i] == x && forall|j: int|
                        i < j < head.len() ==> (#[trigger] head[j]).0 != x.0;
                assert(rows[i] == x);
                assert forall|j: int| i < j < rows.len() implies (#[trigger] rows[j]).0 != x.0 by {
                    if j < n {
                        assert(head[j].0 != x.0);
                    }
                }
            }
        }
        if exists|i: int|
            0 <= i < rows.len() && #[trigger] rows[i] == x && forall|j: int|
                i < j < rows.len() ==> (#[trigger] rows[j]).0 != x.0 {
            let i = choose|i: int|
                0 <= i < rows.len() && #[trigger] rows[i] == x && forall|j: int|
                    i < j < rows.len() ==> (#[trigger] rows[j]).0 != x.0;
            if i < n {
                assert(head[i] == x);
                assert(rows[n].0 != x.0);
            }
        }
    }
}

/// A message is left with one space between the words of a line, whatever stood there, with
/// its lines apart, and with nothing around it.
pub proof fn law_messages_keep_their_words(a: Seq<char>, c: char, d: char, b: Seq<char>)
    requires
        text::is_word(a),
        text::is_word(b),
        text::is_white(c) && c != '\n',
        text::is_white(d) && d != '\n',
    ensures
        refs::collapsed(a) == a,
        refs::collapsed(a.push(c)) == a,
        refs::collapsed(a.push(c) + b) == a + seq![' '] + b,
        refs::collapsed(a.push(c).push(d) + b) == a + seq![' '] + b,
        refs::collapsed(a + seq!['\n'] + b) == a + seq!['\n'] + b,
{
    let none: Seq<char> = seq![];
    let gap: Seq<char> = seq![' '];
    reveal_strlit(" ");
    assert(" "@ =~= gap);
    reveal_with_fuel(text::joined, 2);
    reveal_with_fuel(refs::collapsed_lines, 3);
    text::law_white_space_parts_words(a, c, b);
    text::law_white_space_parts_words(a, c, a);
    text::law_white_space_parts_words(a.push(c), d, b);
    let pair = seq![a, b];
    assert(seq![a].push(b) =~= pair);
    assert(pair.drop_last() =~= seq![a]);
    assert(text::joined(pair, gap) == a + gap + b);
    assert forall|i: int| 0 <= i < a.len() implies a[i] != '\n' by {
        assert(!text::is_white(a[i]));
    }
    assert forall|i: int| 0 <= i < b.len() implies b[i] != '\n' by {
        assert(!text::is_white(b[i]));
    }
    text::lemma_split_front(a, '\n', b);
    text::lemma_split_front(b, '\n', none);
    text::lemma_split_front(a.push(c), '\n', none);
    text::lemma_split_front(a.push(c) + b, '\n', none);
    text::lemma_split_front(a.push(c).push(d) + b, '\n', none);
    lemma_one_line(a);
    lemma_one_line(a.push(c));
    lemma_one_line(a.push(c) + b);
    lemma_one_line(a.push(c).push(d) + b);
    let lines = seq![a, b];
    assert(seq![a] + seq![b] =~= lines);
    assert(lines.drop_last() =~= seq![a] && seq![a].drop_last() =~= seq![]);
    let two = a + seq!['\n'] + b;
    assert(refs::collapsed_lines(lines) =~= two);
    assert(!text::is_white(a[0]) && !text::is_white(b[b.len() - 1]) && !text::is_white(
        a[a.len() - 1],
    ));
    lemma_trimmed(none, a, none);
    lemma_trimmed(none, two, none);
    lemma_trimmed(none, a + gap + b, none);
    assert(none + a + none =~= a);
    assert(none + two + none =~= two);
    assert(none + (a + gap + b) + none =~= a + gap + b);
}

proof fn lemma_one_line(s: Seq<char>)
    ensures
        refs::collapsed_lines(seq![s]) == text::joined(text::words(s), " "@),
{
    reveal_with_fuel(refs::collapsed_lines, 2);
    assert(seq![s].drop_last() =~= seq![]);
    assert(seq![s].last() == s);
}

} // verus!
