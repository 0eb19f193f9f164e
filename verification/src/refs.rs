//! Image paths written into a message, typed or dropped by a terminal.

use vstd::prelude::*;
use vstd::string::*;
use crate::paths;
use crate::paths::{is_below, join_path, path_extension, same_path};
use crate::text;
use crate::text::{
    cat3, char_position_from, chars_of, join, lower_text, occurs_at, position_from, same, split_on,
    text_of, text_slice, text_starts, trimmed, white, words_of,
};

verus! {

/// The extensions of image files.
pub open spec fn image_extensions() -> Seq<Seq<char>> {
    seq![
        "png"@,
        "jpg"@,
        "jpeg"@,
        "gif"@,
        "webp"@,
        "bmp"@,
        "tif"@,
        "tiff"@,
        "ico"@,
        "heic"@,
        "heif"@,
        "avif"@,
    ]
}

/// The path ends in an image extension, in letters of either case.
pub open spec fn names_image(candidate: Seq<char>) -> bool {
    match paths::extension(candidate) {
        Some(e) => image_extensions().contains(text::lowered(e)),
        None => false,
    }
}

/// The path ends in an image extension, in letters of either case.
pub fn has_image_extension(candidate: &str) -> (yes: bool)
    ensures
        yes == names_image(candidate@),
{
    match path_extension(candidate) {
        None => false,
        Some(e) => {
            let low = lower_text(e.as_str());
            let l = low.as_str();
            let yes = same(l, "png") || same(l, "jpg") || same(l, "jpeg") || same(l, "gif")
                || same(l, "webp") || same(l, "bmp") || same(l, "tif") || same(l, "tiff") || same(
                l,
                "ico",
            ) || same(l, "heic") || same(l, "heif") || same(l, "avif");
            proof {
                let all = image_extensions();
                assert(all[0] == "png"@ && all[1] == "jpg"@ && all[2] == "jpeg"@ && all[3]
                    == "gif"@ && all[4] == "webp"@ && all[5] == "bmp"@ && all[6] == "tif"@
                    && all[7] == "tiff"@ && all[8] == "ico"@ && all[9] == "heic"@ && all[10]
                    == "heif"@ && all[11] == "avif"@);
                assert(yes ==> all.contains(l@));
                if all.contains(l@) {
                    let k = choose|k: int| 0 <= k < all.len() && all[k] == l@;
                    assert(0 <= k < 12);
                }
            }
            yes
        },
    }
}

/// The text without the quotes around it.
pub open spec fn unquoted(s: Seq<char>) -> Seq<char> {
    if s.len() >= 2 && s[0] == s.last() && (s[0] == '"' || s[0] == '\'') {
        s.subrange(1, s.len() - 1)
    } else {
        s
    }
}

/// The text without the quotes around it.
pub fn unquote(token: &str) -> (out: String)
    ensures
        out@ == unquoted(token@),
{
    let x = chars_of(token);
    let n: usize = x.len();
    if n >= 2 && x[0] == x[n - 1] && (x[0] == '"' || x[0] == '\'') {
        text_slice(&x, 1, n - 1)
    } else {
        token.to_owned()
    }
}

/// Where a written path leads: `~/` to the home directory (the workspace where
/// none is known), a relative path below the workspace, an absolute one as it
/// stands.
pub open spec fn expanded(root: Seq<char>, home: Option<Seq<char>>, raw: Seq<char>) -> Seq<char> {
    let t = unquoted(text::trim(raw));
    if text::starts_with(t, "~/"@) {
        let base = match home {
            Some(h) => h,
            None => root,
        };
        paths::joined_path(base, text::rest(t, 2))
    } else {
        paths::joined_path(root, t)
    }
}

/// Where a written path leads.
pub fn expand(root: &str, home: Option<&str>, raw: &str) -> (out: String)
    ensures
        out@ == expanded(root@, text::str_view(home), raw@),
{
    let t = unquote(trimmed(raw).as_str());
    if text_starts(t.as_str(), "~/") {
        proof {
            reveal_strlit("~/");
        }
        let x = chars_of(t.as_str());
        let tail = text_slice(&x, 2, x.len());
        let base = match home {
            Some(h) => h,
            None => root,
        };
        join_path(base, tail.as_str())
    } else {
        join_path(root, t.as_str())
    }
}

pub open spec fn opens(c: char) -> bool {
    c == '(' || c == '[' || c == '<'
}

pub open spec fn closes(c: char) -> bool {
    c == '.' || c == ',' || c == ';' || c == ':' || c == '!' || c == '?' || c == ')' || c == ']'
        || c == '>'
}

pub open spec fn without_opening(s: Seq<char>) -> Seq<char>
    decreases s.len(),
{
    if s.len() > 0 && opens(s[0]) {
        without_opening(s.drop_first())
    } else {
        s
    }
}

pub open spec fn without_closing(s: Seq<char>) -> Seq<char>
    decreases s.len(),
{
    if s.len() > 0 && closes(s.last()) {
        without_closing(s.drop_last())
    } else {
        s
    }
}

/// The token without the prose around it: `(shot.png)`, `see shot.png.`
pub fn trim_delimiters(token: &str) -> (out: String)
    ensures
        out@ == without_closing(without_opening(token@)),
{
    let x = chars_of(token);
    let mut from: usize = 0;
    assert(token@.skip(0) =~= token@);
    while from < x.len() && (x[from] == '(' || x[from] == '[' || x[from] == '<')
        invariant
            from <= x@.len(),
            x@ == token@,
            without_opening(token@) == without_opening(token@.skip(from as int)),
        decreases x@.len() - from,
    {
        assert(token@.skip(from as int).drop_first() =~= token@.skip(from + 1));
        from = from + 1;
    }
    let ghost front = token@.skip(from as int);
    let mut to: usize = x.len();
    assert(x@.subrange(from as int, to as int) =~= front);
    while from < to && (x[to - 1] == '.' || x[to - 1] == ',' || x[to - 1] == ';' || x[to - 1] == ':'
        || x[to - 1] == '!' || x[to - 1] == '?' || x[to - 1] == ')' || x[to - 1] == ']' || x[to
        - 1] == '>')
        invariant
            from <= to <= x@.len(),
            x@ == token@,
            without_closing(front) == without_closing(x@.subrange(from as int, to as int)),
        decreases to,
    {
        assert(x@.subrange(from as int, to as int).drop_last() =~= x@.subrange(
            from as int,
            to - 1,
        ));
        to = to - 1;
    }
    text_slice(&x, from, to)
}

/// The tokens from position `i` on, where `open` is read of the token that is
/// under way and `quote` is the quote it stands in. White space ends a token
/// unless it is quoted or written `\ `; a quote opens one at its start and ends
/// it where it closes.
pub open spec fn tokens_from(
    s: Seq<char>,
    i: int,
    open: Seq<char>,
    quote: Option<char>,
) -> Seq<Seq<char>>
    decreases s.len() - i,
{
    if i >= s.len() {
        if open.len() > 0 {
            seq![open]
        } else {
            seq![]
        }
    } else if s[i] == '\\' && i + 1 < s.len() && s[i + 1] == ' ' {
        tokens_from(s, i + 2, open.push(' '), quote)
    } else if (s[i] == '"' || s[i] == '\'') && quote is None && open.len() == 0 {
        tokens_from(s, i + 1, open, Some(s[i]))
    } else if quote == Some(s[i]) {
        seq![open] + tokens_from(s, i + 1, seq![], None)
    } else if text::is_white(s[i]) && quote is None {
        if open.len() > 0 {
            seq![open] + tokens_from(s, i + 1, seq![], None)
        } else {
            tokens_from(s, i + 1, open, None)
        }
    } else {
        tokens_from(s, i + 1, open.push(s[i]), quote)
    }
}

/// The tokens of a message.
pub open spec fn tokens_of(s: Seq<char>) -> Seq<Seq<char>> {
    tokens_from(s, 0, seq![], None)
}

/// The tokens of a message.
pub fn tokens(message: &str) -> (out: Vec<String>)
    ensures
        text::views(out@) == tokens_of(message@),
{
    let s = chars_of(message);
    let mut out: Vec<String> = Vec::new();
    let mut open = String::new();
    let mut quote: Option<char> = None;
    let mut i: usize = 0;
    assert(text::views(out@) + tokens_of(s@) =~= tokens_of(s@));
    assert(open@ =~= seq![]);
    while i < s.len()
        invariant
            i <= s@.len(),
            text::views(out@) + tokens_from(s@, i as int, open@, quote) == tokens_of(s@),
        decreases s@.len() - i,
    {
        let ghost was = out@;
        let ghost had = open@;
        let ghost next = tokens_from(s@, i + 1, seq![], None);
        let c = s[i];
        let quoted = match quote {
            Some(q) => q == c,
            None => false,
        };
        if c == '\\' && i + 1 < s.len() && s[i + 1] == ' ' {
            open.push(' ');
            i = i + 2;
        } else if (c == '"' || c == '\'') && quote.is_none() && open.as_str().is_empty() {
            quote = Some(c);
            i = i + 1;
        } else if quoted {
            out.push(open);
            open = String::new();
            quote = None;
            i = i + 1;
            assert(text::views(out@) =~= text::views(was).push(had));
            assert(open@ =~= seq![]);
            assert(text::views(out@) + next =~= text::views(was) + (seq![had] + next));
        } else if white(c) && quote.is_none() {
            if !open.as_str().is_empty() {
                out.push(open);
                open = String::new();
                assert(text::views(out@) =~= text::views(was).push(had));
                assert(open@ =~= seq![]);
                assert(text::views(out@) + next =~= text::views(was) + (seq![had] + next));
            }
            i = i + 1;
        } else {
            open.push(c);
            i = i + 1;
        }
    }
    let ghost was = out@;
    let ghost had = open@;
    if !open.as_str().is_empty() {
        out.push(open);
        assert(text::views(out@) =~= text::views(was) + seq![had]);
    } else {
        assert(text::views(out@) =~= text::views(out@) + seq![]);
    }
    out
}


/// The fence that opens at `b`: three backticks where three stand there, else
/// one.
pub open spec fn fence_len(s: Seq<char>, b: int) -> int {
    if text::occurs(s, "```"@, b) {
        3
    } else {
        1
    }
}

/// The text from `i` on without its code spans. A span that is never closed
/// takes the rest with it.
pub open spec fn prose_from(s: Seq<char>, i: int) -> Seq<char>
    decreases s.len() - i,
{
    match text::find_char_from(s, '`', i) {
        None => text::rest(s, i),
        Some(b) => {
            let w = fence_len(s, b);
            match text::find_from(s, s.subrange(b, b + w), b + w) {
                None => s.subrange(i, b),
                Some(e) => {
                    proof {
                        text::lemma_find_char_from(s, '`', i);
                        text::lemma_find_from(s, s.subrange(b, b + w), b + w);
                    }
                    if i < 0 {
                        seq![]
                    } else {
                        s.subrange(i, b) + prose_from(s, e + w)
                    }
                },
            }
        },
    }
}

/// The text without its code spans.
pub fn without_code_spans(message: &str) -> (out: String)
    ensures
        out@ == prose_from(message@, 0),
{
    let s = chars_of(message);
    let mut out = String::new();
    let mut i: usize = 0;
    assert(out@ + prose_from(s@, 0) =~= prose_from(s@, 0));
    proof {
        reveal_strlit("```");
    }
    loop
        invariant
            i <= s@.len(),
            s@ == message@,
            "```"@.len() == 3,
            out@ + prose_from(s@, i as int) == prose_from(s@, 0),
        decreases s@.len() - i,
    {
        let n: usize = s.len();
        let b = match char_position_from(&s, '`', i) {
            None => {
                out.append(text_slice(&s, i, n).as_str());
                return out;
            },
            Some(b) => b,
        };
        proof {
            text::lemma_find_char_from(s@, '`', i as int);
        }
        let w: usize = if occurs_at(&s, &chars_of("```"), b) {
            3
        } else {
            1
        };
        let fence = chars_of(text_slice(&s, b, b + w).as_str());
        let ghost had = out@;
        let ghost part = s@.subrange(i as int, b as int);
        out.append(text_slice(&s, i, b).as_str());
        match position_from(&s, &fence, b + w) {
            None => {
                return out;
            },
            Some(e) => {
                proof {
                    text::lemma_find_from(s@, fence@, b + w);
                    assert((had + part) + prose_from(s@, e + w) =~= had + (part + prose_from(
                        s@,
                        e + w,
                    )));
                }
                i = e + w;
            },
        }
    }
}

/// The paths, in the order written, that the message's tokens lead to and that
/// end in an image extension. Code spans are left out.
pub open spec fn candidates_of(
    tokens: Seq<Seq<char>>,
    root: Seq<char>,
    home: Option<Seq<char>>,
) -> Seq<Seq<char>>
    decreases tokens.len(),
{
    if tokens.len() == 0 {
        seq![]
    } else {
        let head = candidates_of(tokens.drop_last(), root, home);
        let t = without_closing(without_opening(tokens.last()));
        if names_image(t) {
            head.push(expanded(root, home, t))
        } else {
            head
        }
    }
}

/// The tokens of a message outside its code spans.
pub open spec fn prose_tokens(message: Seq<char>) -> Seq<Seq<char>> {
    tokens_of(prose_from(message, 0))
}

/// The image paths that a message writes, in order.
pub fn candidates(message: &str, root: &str, home: Option<&str>) -> (out: Vec<String>)
    ensures
        text::views(out@) == candidates_of(prose_tokens(message@), root@, text::str_view(home)),
{
    let ts = tokens(without_code_spans(message).as_str());
    let ghost all = prose_tokens(message@);
    let mut out: Vec<String> = Vec::new();
    let mut i: usize = 0;
    assert(text::views(out@) =~= candidates_of(all.take(0), root@, text::str_view(home)));
    while i < ts.len()
        invariant
            i <= ts@.len(),
            text::views(ts@) == all,
            text::views(out@) == candidates_of(all.take(i as int), root@, text::str_view(home)),
        decreases ts@.len() - i,
    {
        let ghost was = out@;
        assert(all.take(i + 1).drop_last() =~= all.take(i as int));
        assert(all[i as int] == ts@[i as int]@);
        let t = trim_delimiters(ts[i].as_str());
        if has_image_extension(t.as_str()) {
            let e = expand(root, home, t.as_str());
            let ghost ev = e@;
            out.push(e);
            assert(text::views(out@) =~= text::views(was).push(ev));
        }
        i = i + 1;
    }
    assert(all.take(i as int) =~= all);
    out
}

/// Some path of the list names the same place as `p`.
pub open spec fn lists(list: Seq<Seq<char>>, p: Seq<char>) -> bool {
    exists|i: int| 0 <= i < list.len() && paths::same_place(#[trigger] list[i], p)
}

/// Some path of the list names the same place as `p`.
pub fn listed(list: &Vec<String>, p: &str) -> (yes: bool)
    ensures
        yes == lists(text::views(list@), p@),
{
    let mut i: usize = 0;
    while i < list.len()
        invariant
            i <= list@.len(),
            forall|j: int|
                0 <= j < i ==> !paths::same_place(#[trigger] text::views(list@)[j], p@),
        decreases list@.len() - i,
    {
        assert(text::views(list@)[i as int] == list@[i as int]@);
        if same_path(list[i].as_str(), p) {
            return true;
        }
        i = i + 1;
    }
    false
}

/// The paths of `all` that are files, each place once, where it is first
/// written.
pub open spec fn attached(all: Seq<Seq<char>>, files: Seq<Seq<char>>) -> Seq<Seq<char>>
    decreases all.len(),
{
    if all.len() == 0 {
        seq![]
    } else {
        let head = attached(all.drop_last(), files);
        if lists(files, all.last()) && !lists(head, all.last()) {
            head.push(all.last())
        } else {
            head
        }
    }
}

/// Paths in `message` that name an image file which exists, in the order
/// written and without duplicates. `files` lists the paths, of
/// [`candidates`] for the same message, that are regular files.
pub fn scan(message: &str, root: &str, home: Option<&str>, files: &Vec<String>) -> (out: Vec<
    String,
>)
    ensures
        text::views(out@) == attached(
            candidates_of(prose_tokens(message@), root@, text::str_view(home)),
            text::views(files@),
        ),
{
    let cs = candidates(message, root, home);
    let ghost all = text::views(cs@);
    let mut out: Vec<String> = Vec::new();
    let mut i: usize = 0;
    assert(text::views(out@) =~= attached(all.take(0), text::views(files@)));
    while i < cs.len()
        invariant
            i <= cs@.len(),
            text::views(cs@) == all,
            text::views(out@) == attached(all.take(i as int), text::views(files@)),
        decreases cs@.len() - i,
    {
        let ghost was = out@;
        assert(all.take(i + 1).drop_last() =~= all.take(i as int));
        assert(all[i as int] == cs@[i as int]@);
        if listed(files, cs[i].as_str()) && !listed(&out, cs[i].as_str()) {
            out.push(cs[i].clone());
            assert(text::views(out@) =~= text::views(was).push(all[i as int]));
        }
        i = i + 1;
    }
    assert(all.take(i as int) =~= all);
    out
}

/// True when the message holds nothing but paths that [`scan`] recognised.
pub fn only_paths(message: &str, known: &Vec<String>, root: &str, home: Option<&str>) -> (yes: bool)
    ensures
        yes == (tokens_of(message@).len() > 0 && forall|i: int|
            0 <= i < tokens_of(message@).len() ==> lists(
                text::views(known@),
                expanded(
                    root@,
                    text::str_view(home),
                    without_closing(without_opening(#[trigger] tokens_of(message@)[i])),
                ),
            )),
{
    let ts = tokens(message);
    let ghost all = tokens_of(message@);
    assert(all.len() == ts@.len());
    let mut i: usize = 0;
    while i < ts.len()
        invariant
            i <= ts@.len(),
            text::views(ts@) == all,
            all == tokens_of(message@),
            all.len() == ts@.len(),
            forall|j: int|
                0 <= j < i ==> lists(
                    text::views(known@),
                    expanded(
                        root@,
                        text::str_view(home),
                        without_closing(without_opening(#[trigger] all[j])),
                    ),
                ),
        decreases ts@.len() - i,
    {
        assert(all[i as int] == ts@[i as int]@);
        let p = expand(root, home, trim_delimiters(ts[i].as_str()).as_str());
        if !listed(known, p.as_str()) {
            return false;
        }
        i = i + 1;
    }
    ts.len() > 0
}

/// `s` with each space written `\ `.
pub open spec fn escaped(s: Seq<char>) -> Seq<char>
    decreases s.len(),
{
    if s.len() == 0 {
        seq![]
    } else if s.last() == ' ' {
        escaped(s.drop_last()) + seq!['\\', ' ']
    } else {
        escaped(s.drop_last()).push(s.last())
    }
}

fn escape(s: &str) -> (out: String)
    ensures
        out@ == escaped(s@),
{
    let x = chars_of(s);
    let mut out = String::new();
    let mut i: usize = 0;
    assert(out@ =~= escaped(x@.take(0)));
    while i < x.len()
        invariant
            i <= x@.len(),
            out@ == escaped(x@.take(i as int)),
        decreases x@.len() - i,
    {
        assert(x@.take(i + 1).drop_last() =~= x@.take(i as int));
        if x[i] == ' ' {
            out.push('\\');
            out.push(' ');
            assert(out@ =~= escaped(x@.take(i as int)) + seq!['\\', ' ']);
        } else {
            out.push(x[i]);
        }
        i = i + 1;
    }
    assert(x@.take(i as int) =~= x@);
    out
}

/// The ways a terminal writes a path, in the order they are looked for.
pub open spec fn written_forms(p: Seq<char>) -> Seq<Seq<char>> {
    seq!["'"@ + p + "'"@, "\""@ + p + "\""@, escaped(p), p]
}

/// What the attached paths that no tool can reach are written like.
pub open spec fn unreachable_forms(
    attached: Seq<Seq<char>>,
    root: Seq<char>,
    files: Seq<Seq<char>>,
) -> Seq<Seq<char>>
    decreases attached.len(),
{
    if attached.len() == 0 {
        seq![]
    } else {
        let head = unreachable_forms(attached.drop_last(), root, files);
        if paths::below(attached.last(), root) && lists(files, attached.last()) {
            head
        } else {
            head + written_forms(attached.last())
        }
    }
}

/// A path that is under way does not reach back over this character.
pub open spec fn cuts_before(c: char) -> bool {
    text::is_white(c) || c == '\'' || c == '"' || c == '`' || c == '(' || c == '[' || c == '{' || c
        == '<' || c == '>' || c == '=' || c == ':' || c == ';' || c == ',' || c == '|'
}

/// A path that is under way does not reach on over this character.
pub open spec fn cuts_after(c: char) -> bool {
    text::is_white(c) || c == '\'' || c == '"' || c == '`' || c == ')' || c == ']' || c == '}' || c
        == '>' || c == ':' || c == ';' || c == ',' || c == '|' || c == '!' || c == '?'
}

/// Where the path that covers position `i` begins.
pub open spec fn path_start(s: Seq<char>, i: int) -> int
    decreases i,
{
    if i <= 0 || i > s.len() || cuts_before(s[i - 1]) {
        i
    } else {
        path_start(s, i - 1)
    }
}

/// Where the path that covers what stands before position `i` is cut off.
pub open spec fn path_end(s: Seq<char>, i: int) -> int
    decreases s.len() - i,
{
    if i < 0 || i >= s.len() || cuts_after(s[i]) {
        i
    } else {
        path_end(s, i + 1)
    }
}

/// Position `i`, or before it the first of the full stops that lead up to it, no further
/// back than `from`.
pub open spec fn before_stops(s: Seq<char>, from: int, i: int) -> int
    decreases i,
{
    if i <= from || i <= 0 || i > s.len() || s[i - 1] != '.' {
        i
    } else {
        before_stops(s, from, i - 1)
    }
}

/// The path that the `n` characters from `at` on are written in: as far as it reaches
/// either way, without the full stops of the sentence.
pub open spec fn whole_path(s: Seq<char>, at: int, n: int) -> Seq<char> {
    s.subrange(path_start(s, at), before_stops(s, at + n, path_end(s, at + n)))
}

/// The `n` characters from `at` on are no path of their own, but part of a longer one that
/// leads into the workspace.
pub open spec fn belongs(s: Seq<char>, at: int, n: int, root: Seq<char>) -> bool {
    &&& s[at] != '\'' && s[at] != '"'
    &&& whole_path(s, at, n).len() > n
    &&& paths::below(paths::joined_path(root, whole_path(s, at, n)), root)
}

proof fn lemma_whole_path(s: Seq<char>, at: int, n: int)
    requires
        0 <= at,
        0 < n,
        at + n <= s.len(),
    ensures
        0 <= path_start(s, at) <= at,
        at + n <= path_end(s, at + n) <= s.len(),
        at + n <= before_stops(s, at + n, path_end(s, at + n)) <= path_end(s, at + n),
{
    lemma_path_start(s, at);
    lemma_path_end(s, at + n);
    lemma_before_stops(s, at + n, path_end(s, at + n));
}

proof fn lemma_path_start(s: Seq<char>, i: int)
    requires
        0 <= i <= s.len(),
    ensures
        0 <= path_start(s, i) <= i,
    decreases i,
{
    if i > 0 && !cuts_before(s[i - 1]) {
        lemma_path_start(s, i - 1);
    }
}

proof fn lemma_path_end(s: Seq<char>, i: int)
    requires
        0 <= i <= s.len(),
    ensures
        i <= path_end(s, i) <= s.len(),
    decreases s.len() - i,
{
    if i < s.len() && !cuts_after(s[i]) {
        lemma_path_end(s, i + 1);
    }
}

proof fn lemma_before_stops(s: Seq<char>, from: int, i: int)
    requires
        0 <= from <= i <= s.len(),
    ensures
        from <= before_stops(s, from, i) <= i,
    decreases i,
{
    if from < i && s[i - 1] == '.' {
        lemma_before_stops(s, from, i - 1);
    }
}

fn is_part(s: &Vec<char>, at: usize, n: usize, root: &str) -> (yes: bool)
    requires
        0 < n,
        at + n <= s@.len(),
    ensures
        yes == belongs(s@, at as int, n as int, root@),
{
    proof {
        lemma_whole_path(s@, at as int, n as int);
    }
    if s[at] == '\'' || s[at] == '"' {
        return false;
    }
    let mut from: usize = at;
    while from > 0 && !before_cut(s[from - 1])
        invariant
            from <= at <= s@.len(),
            path_start(s@, at as int) == path_start(s@, from as int),
        decreases from,
    {
        from = from - 1;
    }
    let len: usize = s.len();
    let mut to: usize = at + n;
    while to < len && !after_cut(s[to])
        invariant
            len == s@.len(),
            at + n <= to <= s@.len(),
            path_end(s@, at + n) == path_end(s@, to as int),
        decreases s@.len() - to,
    {
        to = to + 1;
    }
    let ghost end = to as int;
    while to > at + n && s[to - 1] == '.'
        invariant
            at + n <= to <= end <= s@.len(),
            before_stops(s@, at + n, end) == before_stops(s@, at + n, to as int),
        decreases to,
    {
        to = to - 1;
    }
    to - from > n && is_below(join_path(root, text_slice(s, from, to).as_str()).as_str(), root)
}

fn before_cut(c: char) -> (yes: bool)
    ensures
        yes == cuts_before(c),
{
    white(c) || c == '\'' || c == '"' || c == '`' || c == '(' || c == '[' || c == '{' || c == '<'
        || c == '>' || c == '=' || c == ':' || c == ';' || c == ',' || c == '|'
}

fn after_cut(c: char) -> (yes: bool)
    ensures
        yes == cuts_after(c),
{
    white(c) || c == '\'' || c == '"' || c == '`' || c == ')' || c == ']' || c == '}' || c == '>'
        || c == ':' || c == ';' || c == ',' || c == '|' || c == '!' || c == '?'
}

/// The first position at or after `i` where `f` occurs in `s` as a path of its own.
pub open spec fn find_alone(s: Seq<char>, f: Seq<char>, root: Seq<char>, i: int) -> Option<int>
    decreases s.len() + 1 - i,
{
    if i < 0 || i + f.len() > s.len() {
        None
    } else if text::occurs(s, f, i) && !belongs(s, i, f.len() as int, root) {
        Some(i)
    } else {
        find_alone(s, f, root, i + 1)
    }
}

proof fn lemma_find_alone(s: Seq<char>, f: Seq<char>, root: Seq<char>, i: int)
    requires
        0 <= i,
    ensures
        match find_alone(s, f, root, i) {
            Some(at) => i <= at && text::occurs(s, f, at) && !belongs(s, at, f.len() as int, root),
            None => forall|j: int| #[trigger]
                text::occurs(s, f, j) && i <= j ==> belongs(s, j, f.len() as int, root),
        },
    decreases s.len() + 1 - i,
{
    if i + f.len() <= s.len() && !(text::occurs(s, f, i) && !belongs(s, i, f.len() as int, root)) {
        lemma_find_alone(s, f, root, i + 1);
    }
}

/// Where the first of these forms, from the `k`-th on, that `s` holds as a path of its own
/// occurs so first, and how long it is.
pub open spec fn first_form(
    s: Seq<char>,
    forms: Seq<Seq<char>>,
    root: Seq<char>,
    k: int,
) -> Option<(int, int)>
    decreases forms.len() - k,
{
    if k < 0 || k >= forms.len() {
        None
    } else {
        match find_alone(s, forms[k], root, 0) {
            Some(at) if forms[k].len() > 0 => Some((at, forms[k].len() as int)),
            _ => first_form(s, forms, root, k + 1),
        }
    }
}

/// `s` with these forms taken out until it holds none as a path of its own.
pub open spec fn without_forms(s: Seq<char>, forms: Seq<Seq<char>>, root: Seq<char>) -> Seq<char>
    decreases s.len(),
{
    match first_form(s, forms, root, 0) {
        Some((at, n)) if 0 <= at && 0 < n && at + n <= s.len() => without_forms(
            s.take(at) + s.skip(at + n),
            forms,
            root,
        ),
        _ => s,
    }
}

/// `s` holds none of these forms as a path of its own.
pub open spec fn holds_none(s: Seq<char>, forms: Seq<Seq<char>>, root: Seq<char>, k: int) -> bool {
    forall|j: int, at: int|
        k <= j < forms.len() && forms[j].len() > 0 && #[trigger] text::occurs(s, forms[j], at)
            ==> belongs(s, at, forms[j].len() as int, root)
}

proof fn lemma_first_form(s: Seq<char>, forms: Seq<Seq<char>>, root: Seq<char>, k: int)
    requires
        0 <= k,
    ensures
        match first_form(s, forms, root, k) {
            Some((at, n)) => 0 < n && exists|j: int|
                k <= j < forms.len() && n == forms[j].len() && #[trigger] text::occurs(
                    s,
                    forms[j],
                    at,
                ) && !belongs(s, at, n, root),
            None => holds_none(s, forms, root, k),
        },
    decreases forms.len() - k,
{
    if k < forms.len() {
        lemma_find_alone(s, forms[k], root, 0);
        lemma_first_form(s, forms, root, k + 1);
        match first_form(s, forms, root, k) {
            Some((at, n)) => {
                if find_alone(s, forms[k], root, 0) is Some && forms[k].len() > 0 {
                    assert(text::occurs(s, forms[k], at));
                }
            },
            None => {
                assert forall|j: int, at: int|
                    k <= j < forms.len() && forms[j].len() > 0 && #[trigger] text::occurs(
                        s,
                        forms[j],
                        at,
                    ) implies belongs(s, at, forms[j].len() as int, root) by {
                    if j > k {
                        assert(holds_none(s, forms, root, k + 1));
                    }
                }
            },
        }
    }
}

/// What is left holds none of the forms as a path of its own.
proof fn lemma_without_forms(s: Seq<char>, forms: Seq<Seq<char>>, root: Seq<char>)
    ensures
        holds_none(without_forms(s, forms, root), forms, root, 0),
    decreases s.len(),
{
    lemma_first_form(s, forms, root, 0);
    if let Some((at, n)) = first_form(s, forms, root, 0) {
        lemma_without_forms(s.take(at) + s.skip(at + n), forms, root);
    }
}

/// The lines of a message, each with single spaces between its words and the
/// lines before the first word left out.
pub open spec fn collapsed_lines(lines: Seq<Seq<char>>) -> Seq<char>
    decreases lines.len(),
{
    if lines.len() == 0 {
        seq![]
    } else {
        let head = collapsed_lines(lines.drop_last());
        let line = text::joined(text::words(lines.last()), " "@);
        if head.len() > 0 {
            head.push('\n') + line
        } else {
            line
        }
    }
}

/// The message with single spaces between the words of each line and no white
/// space around it.
pub open spec fn collapsed(s: Seq<char>) -> Seq<char> {
    text::trim(collapsed_lines(text::split(s, '\n')))
}

/// The message with single spaces between the words of each line and no white
/// space around it.
pub fn collapse_spaces(message: &str) -> (out: String)
    ensures
        out@ == collapsed(message@),
{
    let lines = split_on(&chars_of(message), '\n');
    let ghost all = text::split(message@, '\n');
    let mut out = String::new();
    let mut i: usize = 0;
    assert(out@ =~= collapsed_lines(all.take(0)));
    while i < lines.len()
        invariant
            i <= lines@.len(),
            text::views(lines@) == all,
            out@ == collapsed_lines(all.take(i as int)),
        decreases lines@.len() - i,
    {
        assert(all.take(i + 1).drop_last() =~= all.take(i as int));
        assert(all[i as int] == lines@[i as int]@);
        let line = join(&words_of(&chars_of(lines[i].as_str())), " ");
        if !out.as_str().is_empty() {
            out.push('\n');
            out.append(line.as_str());
        } else {
            out = line;
        }
        i = i + 1;
    }
    assert(all.take(i as int) =~= all);
    trimmed(out.as_str())
}

fn position_alone(s: &Vec<char>, f: &Vec<char>, root: &str) -> (out: Option<usize>)
    requires
        f@.len() > 0,
    ensures
        match out {
            Some(at) => find_alone(s@, f@, root@, 0) == Some(at as int) && at + f@.len()
                <= s@.len(),
            None => find_alone(s@, f@, root@, 0) is None,
        },
{
    if f.len() > s.len() {
        return None;
    }
    let last: usize = s.len() - f.len();
    let mut i: usize = 0;
    while i <= last
        invariant
            0 < f@.len() <= s@.len() <= usize::MAX,
            last == s@.len() - f@.len(),
            i <= last + 1,
            find_alone(s@, f@, root@, 0) == find_alone(s@, f@, root@, i as int),
        decreases last + 1 - i,
    {
        if occurs_at(s, f, i) && !is_part(s, i, f.len(), root) {
            return Some(i);
        }
        i = i + 1;
    }
    None
}

fn find_form(s: &Vec<char>, forms: &Vec<String>, root: &str) -> (out: Option<(usize, usize)>)
    ensures
        match out {
            Some((at, n)) => first_form(s@, text::views(forms@), root@, 0) == Some(
                (at as int, n as int),
            ) && 0 < n && at + n <= s@.len(),
            None => first_form(s@, text::views(forms@), root@, 0) is None,
        },
{
    let ghost all = text::views(forms@);
    let mut k: usize = 0;
    while k < forms.len()
        invariant
            k <= forms@.len(),
            all == text::views(forms@),
            first_form(s@, all, root@, 0) == first_form(s@, all, root@, k as int),
        decreases forms@.len() - k,
    {
        assert(all[k as int] == forms@[k as int]@);
        let f = chars_of(forms[k].as_str());
        if f.len() > 0 {
            match position_alone(s, &f, root) {
                Some(at) => {
                    return Some((at, f.len()));
                },
                None => {},
            }
        }
        k = k + 1;
    }
    None
}

fn remove_forms(message: &str, forms: &Vec<String>, root: &str) -> (out: String)
    ensures
        out@ == without_forms(message@, text::views(forms@), root@),
{
    let mut s = chars_of(message);
    let ghost all = text::views(forms@);
    loop
        invariant
            all == text::views(forms@),
            without_forms(message@, all, root@) == without_forms(s@, all, root@),
        decreases s@.len(),
    {
        match find_form(&s, forms, root) {
            None => {
                return text_of(&s);
            },
            Some((at, n)) => {
                let len: usize = s.len();
                let mut next = chars_of(text_slice(&s, 0, at).as_str());
                let mut tail = chars_of(text_slice(&s, at + n, len).as_str());
                assert(next@ =~= s@.take(at as int));
                assert(tail@ =~= s@.skip(at + n));
                next.append(&mut tail);
                s = next;
            },
        }
    }
}

fn list_forms(attached: &Vec<String>, root: &str, files: &Vec<String>) -> (out: Vec<String>)
    ensures
        text::views(out@) == unreachable_forms(
            text::views(attached@),
            root@,
            text::views(files@),
        ),
{
    let ghost all = text::views(attached@);
    let ghost there = text::views(files@);
    let mut out: Vec<String> = Vec::new();
    let mut i: usize = 0;
    assert(text::views(out@) =~= unreachable_forms(all.take(0), root@, there));
    while i < attached.len()
        invariant
            i <= attached@.len(),
            all == text::views(attached@),
            there == text::views(files@),
            text::views(out@) == unreachable_forms(all.take(i as int), root@, there),
        decreases attached@.len() - i,
    {
        let ghost was = out@;
        assert(all[i as int] == attached@[i as int]@);
        assert(all.take(i + 1).drop_last() =~= all.take(i as int));
        let path = attached[i].as_str();
        if !(is_below(path, root) && listed(files, path)) {
            out.push(cat3("'", path, "'"));
            out.push(cat3("\"", path, "\""));
            out.push(escape(path));
            out.push(path.to_owned());
            assert(text::views(out@) =~= text::views(was) + written_forms(path@));
        }
        i = i + 1;
    }
    assert(all.take(i as int) =~= all);
    out
}

/// The message without the paths of images that no tool could act on: anything
/// outside the workspace, and anything already gone. A workspace path stays, and so does
/// one that such a path is only a part of.
/// `files` lists the attached paths that are still regular files.
pub fn strip_unreachable(
    message: &str,
    attached: &Vec<String>,
    root: &str,
    files: &Vec<String>,
) -> (out: String)
    ensures
        out@ == collapsed(
            without_forms(
                message@,
                unreachable_forms(text::views(attached@), root@, text::views(files@)),
                root@,
            ),
        ),
{
    collapse_spaces(remove_forms(message, &list_forms(attached, root, files), root).as_str())
}

proof fn lemma_forms_listed(
    attached: Seq<Seq<char>>,
    root: Seq<char>,
    files: Seq<Seq<char>>,
    i: int,
    k: int,
)
    requires
        0 <= i < attached.len(),
        !(paths::below(attached[i], root) && lists(files, attached[i])),
        0 <= k < written_forms(attached[i]).len(),
    ensures
        unreachable_forms(attached, root, files).contains(written_forms(attached[i])[k]),
    decreases attached.len(),
{
    let all = unreachable_forms(attached, root, files);
    let head = unreachable_forms(attached.drop_last(), root, files);
    if i < attached.len() - 1 {
        lemma_forms_listed(attached.drop_last(), root, files, i, k);
        let j = choose|j: int| 0 <= j < head.len() && head[j] == written_forms(attached[i])[k];
        assert(all[j] == head[j]);
    } else {
        assert(all[head.len() + k] == written_forms(attached[i])[k]);
    }
}

/// Of a message without what no tool can reach, no part is such a path, however it was
/// written and however often: where its characters still stand, they are part of a longer
/// path that leads into the workspace.
pub proof fn law_unreachable_paths_are_gone(
    message: Seq<char>,
    attached: Seq<Seq<char>>,
    root: Seq<char>,
    files: Seq<Seq<char>>,
    i: int,
    k: int,
    at: int,
)
    requires
        0 <= i < attached.len(),
        attached[i].len() > 0,
        !(paths::below(attached[i], root) && lists(files, attached[i])),
        0 <= k < written_forms(attached[i]).len(),
        text::occurs(
            without_forms(message, unreachable_forms(attached, root, files), root),
            written_forms(attached[i])[k],
            at,
        ),
    ensures
        belongs(
            without_forms(message, unreachable_forms(attached, root, files), root),
            at,
            written_forms(attached[i])[k].len() as int,
            root,
        ),
{
    let forms = unreachable_forms(attached, root, files);
    lemma_forms_listed(attached, root, files, i, k);
    lemma_without_forms(message, forms, root);
    let p = attached[i];
    assert(escaped(p).len() > 0);
    let j = choose|j: int| 0 <= j < forms.len() && forms[j] == written_forms(p)[k];
    assert(forms[j].len() > 0);
    assert(text::occurs(without_forms(message, forms, root), forms[j], at));
}

/// The form `f` fits on the path `p`, with white space or nothing on either side of it,
/// where the first character of `f` is put `d` places behind that of `p`.
pub open spec fn lies_over(f: Seq<char>, p: Seq<char>, d: int) -> bool {
    &&& -f.len() < d < p.len()
    &&& forall|k: int|
        0 <= k < f.len() ==> {
            &&& 0 <= d + k < p.len() ==> #[trigger] f[k] == p[d + k]
            &&& d + k == -1 ==> text::is_white(f[k])
            &&& d + k == p.len() ==> text::is_white(f[k])
        }
}

/// Wherever the form `f` fits on the path `p`, it is part of it, and `p` leads into the
/// workspace.
pub open spec fn spares(f: Seq<char>, p: Seq<char>, root: Seq<char>) -> bool {
    f.len() > 0 ==> {
        &&& !text::is_white(f[0]) && !text::is_white(f.last())
        &&& forall|d: int| #[trigger]
            lies_over(f, p, d) ==> 0 <= d && d + f.len() <= p.len() && belongs(
                p,
                d,
                f.len() as int,
                root,
            )
    }
}

/// White space or nothing stands on either side.
pub open spec fn stands_free(a: Seq<char>, b: Seq<char>) -> bool {
    (a.len() == 0 || text::is_white(a.last())) && (b.len() == 0 || text::is_white(b[0]))
}

proof fn lemma_start_inside(a: Seq<char>, p: Seq<char>, b: Seq<char>, i: int)
    requires
        stands_free(a, b),
        0 <= i <= p.len(),
    ensures
        path_start(a + p + b, a.len() + i) == a.len() + path_start(p, i),
    decreases i,
{
    let s = a + p + b;
    if i > 0 {
        assert(s[a.len() + i - 1] == p[i - 1]);
        if !cuts_before(p[i - 1]) {
            lemma_start_inside(a, p, b, i - 1);
        }
    } else if a.len() > 0 {
        assert(s[a.len() - 1] == a.last());
    }
}

proof fn lemma_end_inside(a: Seq<char>, p: Seq<char>, b: Seq<char>, i: int)
    requires
        stands_free(a, b),
        0 <= i <= p.len(),
    ensures
        path_end(a + p + b, a.len() + i) == a.len() + path_end(p, i),
    decreases p.len() - i,
{
    let s = a + p + b;
    if i < p.len() {
        assert(s[a.len() + i] == p[i]);
        if !cuts_after(p[i]) {
            lemma_end_inside(a, p, b, i + 1);
        }
    } else if b.len() > 0 {
        assert(s[(a + p).len() as int] == b[0]);
    }
}

proof fn lemma_stops_inside(a: Seq<char>, p: Seq<char>, b: Seq<char>, from: int, i: int)
    requires
        0 <= from <= i <= p.len(),
    ensures
        before_stops(a + p + b, a.len() + from, a.len() + i) == a.len() + before_stops(p, from, i),
    decreases i,
{
    let s = a + p + b;
    if from < i {
        assert(s[a.len() + i - 1] == p[i - 1]);
        if p[i - 1] == '.' {
            lemma_stops_inside(a, p, b, from, i - 1);
        }
    }
}

/// What stands free around a path does not change what belongs to it.
proof fn lemma_belongs_inside(
    a: Seq<char>,
    p: Seq<char>,
    b: Seq<char>,
    d: int,
    n: int,
    root: Seq<char>,
)
    requires
        stands_free(a, b),
        0 <= d,
        0 < n,
        d + n <= p.len(),
    ensures
        belongs(a + p + b, a.len() + d, n, root) == belongs(p, d, n, root),
{
    let s = a + p + b;
    lemma_whole_path(p, d, n);
    lemma_start_inside(a, p, b, d);
    lemma_end_inside(a, p, b, d + n);
    lemma_stops_inside(a, p, b, d + n, path_end(p, d + n));
    assert(s[a.len() + d] == p[d]);
    assert(whole_path(s, a.len() + d, n) =~= whole_path(p, d, n));
}

/// A form that is taken out of a text is taken out beside a path that it spares.
proof fn lemma_taken_beside(
    a: Seq<char>,
    p: Seq<char>,
    b: Seq<char>,
    f: Seq<char>,
    root: Seq<char>,
    at: int,
)
    requires
        stands_free(a, b),
        p.len() > 0,
        f.len() > 0,
        spares(f, p, root),
        text::occurs(a + p + b, f, at),
        !belongs(a + p + b, at, f.len() as int, root),
    ensures
        at + f.len() < a.len() || at > a.len() + p.len(),
{
    let s = a + p + b;
    let d = at - a.len();
    let n = f.len() as int;
    if -n < d < p.len() {
        assert forall|k: int| 0 <= k < n implies {
            &&& 0 <= d + k < p.len() ==> #[trigger] f[k] == p[d + k]
            &&& d + k == -1 ==> text::is_white(f[k])
            &&& d + k == p.len() ==> text::is_white(f[k])
        } by {
            assert(f[k] == s.subrange(at, at + n)[k]);
            if 0 <= d + k < p.len() {
                assert(s[at + k] == p[d + k]);
            }
            if d + k == -1 {
                assert(s[at + k] == a.last());
            }
            if d + k == p.len() {
                assert(s[at + k] == b[0]);
            }
        }
        assert(lies_over(f, p, d));
        lemma_belongs_inside(a, p, b, d, n, root);
    } else if at + n == a.len() && a.len() > 0 {
        assert(f.last() == s.subrange(at, at + n)[n - 1]);
        assert(s[at + n - 1] == a.last());
    } else if d == p.len() {
        assert(f[0] == s.subrange(at, at + n)[0]);
        assert(s[at] == b[0]);
    }
}

/// A path that stands free in a message stays, where each form of what no tool can reach
/// is at most a part of it and it leads into the workspace.
pub proof fn law_longer_paths_stay(
    a: Seq<char>,
    p: Seq<char>,
    b: Seq<char>,
    forms: Seq<Seq<char>>,
    root: Seq<char>,
)
    requires
        p.len() > 0,
        stands_free(a, b),
        forall|j: int| 0 <= j < forms.len() ==> spares(#[trigger] forms[j], p, root),
    ensures
        exists|x: Seq<char>, y: Seq<char>|
            stands_free(x, y) && #[trigger] (x + p + y) == without_forms(a + p + b, forms, root),
    decreases (a + p + b).len(),
{
    let s = a + p + b;
    lemma_first_form(s, forms, root, 0);
    match first_form(s, forms, root, 0) {
        None => {
            assert(a + p + b == without_forms(s, forms, root));
        },
        Some((at, n)) => {
            let j = choose|j: int|
                0 <= j < forms.len() && n == forms[j].len() && #[trigger] text::occurs(
                    s,
                    forms[j],
                    at,
                ) && !belongs(s, at, n, root);
            lemma_taken_beside(a, p, b, forms[j], root, at);
            let rest = s.take(at) + s.skip(at + n);
            if at + n < a.len() {
                let x = a.take(at) + a.skip(at + n);
                assert(rest =~= x + p + b);
                assert(x.last() == a.last());
                law_longer_paths_stay(x, p, b, forms, root);
            } else {
                let i = at - a.len() - p.len();
                let y = b.take(i) + b.skip(i + n);
                assert(rest =~= a + p + y);
                assert(y[0] == b[0]);
                law_longer_paths_stay(a, p, y, forms, root);
            }
        },
    }
}

/// Every one of the forms is that of an attached path that no tool can reach.
proof fn lemma_form_of(
    attached: Seq<Seq<char>>,
    root: Seq<char>,
    files: Seq<Seq<char>>,
    j: int,
) -> (found: (int, int))
    requires
        0 <= j < unreachable_forms(attached, root, files).len(),
    ensures
        0 <= found.0 < attached.len(),
        !(paths::below(attached[found.0], root) && lists(files, attached[found.0])),
        0 <= found.1 < 4,
        unreachable_forms(attached, root, files)[j] == written_forms(attached[found.0])[found.1],
    decreases attached.len(),
{
    let head = unreachable_forms(attached.drop_last(), root, files);
    if j < head.len() {
        lemma_form_of(attached.drop_last(), root, files, j)
    } else {
        (attached.len() - 1, j - head.len())
    }
}

proof fn lemma_escaped_plain(s: Seq<char>)
    requires
        forall|k: int| 0 <= k < s.len() ==> !text::is_white(#[trigger] s[k]),
    ensures
        escaped(s) == s,
    decreases s.len(),
{
    if s.len() > 0 {
        assert(!text::is_white(s.last()));
        assert forall|k: int| 0 <= k < s.len() - 1 implies !text::is_white(
            #[trigger] s.drop_last()[k],
        ) by {
            assert(s.drop_last()[k] == s[k]);
        }
        lemma_escaped_plain(s.drop_last());
        assert(s.drop_last().push(s.last()) =~= s);
    } else {
        assert(escaped(s) =~= s);
    }
}

/// The path is written in one piece: nothing in it cuts it, and no full stop ends it.
pub open spec fn in_one_piece(p: Seq<char>) -> bool {
    &&& p.len() > 0 && p.last() != '.'
    &&& forall|k: int| 0 <= k < p.len() ==> !cuts_before(#[trigger] p[k]) && !cuts_after(p[k])
}

proof fn lemma_one_piece(p: Seq<char>, i: int)
    requires
        in_one_piece(p),
        0 <= i <= p.len(),
    ensures
        path_start(p, i) == 0,
    decreases i,
{
    if i > 0 {
        assert(!cuts_before(p[i - 1]));
        lemma_one_piece(p, i - 1);
    }
}

proof fn lemma_one_piece_end(p: Seq<char>, i: int)
    requires
        in_one_piece(p),
        0 <= i <= p.len(),
    ensures
        path_end(p, i) == p.len(),
    decreases p.len() - i,
{
    if i < p.len() {
        assert(!cuts_after(p[i]));
        lemma_one_piece_end(p, i + 1);
    }
}

proof fn lemma_plain_form_spares(f: Seq<char>, p: Seq<char>, root: Seq<char>)
    requires
        in_one_piece(p),
        paths::below(paths::joined_path(root, p), root),
        f != p,
        forall|k: int| 0 <= k < f.len() ==> !text::is_white(#[trigger] f[k]),
    ensures
        spares(f, p, root),
{
    if f.len() > 0 {
        assert(!text::is_white(f[0]) && !text::is_white(f[f.len() - 1]));
        assert forall|d: int| #[trigger] lies_over(f, p, d) implies 0 <= d && d + f.len() <= p.len()
            && belongs(p, d, f.len() as int, root) by {
            if d < 0 {
                assert(text::is_white(f[-1 - d]));
            }
            if d + f.len() > p.len() {
                assert(text::is_white(f[p.len() - d]));
            }
            let n = f.len() as int;
            lemma_whole_path(p, d, n);
            lemma_one_piece(p, d);
            lemma_one_piece_end(p, d + n);
            assert(whole_path(p, d, n) =~= p);
            assert(f[0] == p[d]);
            assert(!cuts_before(p[d]));
            if n == p.len() {
                assert(f =~= p);
            }
        }
    }
}

/// A path in the workspace that stands free in a message, written in one piece, stays
/// there, whatever else no tool can reach, though it may hold such a path. Paths that
/// hold white space are left to [`law_longer_paths_stay`].
pub proof fn law_workspace_paths_stay(
    a: Seq<char>,
    p: Seq<char>,
    b: Seq<char>,
    attached: Seq<Seq<char>>,
    root: Seq<char>,
    files: Seq<Seq<char>>,
)
    requires
        stands_free(a, b),
        in_one_piece(p),
        paths::below(paths::joined_path(root, p), root),
        forall|i: int|
            0 <= i < attached.len() && !(paths::below(#[trigger] attached[i], root) && lists(
                files,
                attached[i],
            )) ==> attached[i] != p && forall|k: int|
                0 <= k < attached[i].len() ==> !text::is_white(#[trigger] attached[i][k]),
    ensures
        exists|x: Seq<char>, y: Seq<char>|
            stands_free(x, y) && #[trigger] (x + p + y) == without_forms(
                a + p + b,
                unreachable_forms(attached, root, files),
                root,
            ),
{
    let forms = unreachable_forms(attached, root, files);
    assert forall|j: int| 0 <= j < forms.len() implies spares(#[trigger] forms[j], p, root) by {
        let (i, w) = lemma_form_of(attached, root, files, j);
        let q = attached[i];
        let f = forms[j];
        lemma_escaped_plain(q);
        reveal_strlit("'");
        reveal_strlit("\"");
        assert forall|k: int| 0 <= k < f.len() implies !text::is_white(#[trigger] f[k]) by {
            if w >= 2 {
                assert(f == q);
            } else if 0 < k < f.len() - 1 {
                assert(f[k] == q[k - 1]);
            }
        }
        if f == p {
            assert(!cuts_before(p[0]));
        }
        lemma_plain_form_spares(f, p, root);
    }
    law_longer_paths_stay(a, p, b, forms, root);
}

/// A path is attached only where it is a file, and no place is attached twice.
pub proof fn law_attached_once(all: Seq<Seq<char>>, files: Seq<Seq<char>>)
    ensures
        forall|i: int|
            0 <= i < attached(all, files).len() ==> lists(files, #[trigger] attached(all, files)[i]),
        forall|i: int, j: int|
            0 <= i < j < attached(all, files).len() ==> !paths::same_place(
                #[trigger] attached(all, files)[i],
                #[trigger] attached(all, files)[j],
            ),
        forall|i: int|
            0 <= i < all.len() && lists(files, #[trigger] all[i]) ==> lists(
                attached(all, files),
                all[i],
            ),
    decreases all.len(),
{
    if all.len() > 0 {
        let head = attached(all.drop_last(), files);
        let now = attached(all, files);
        law_attached_once(all.drop_last(), files);
        assert forall|i: int| 0 <= i < now.len() implies lists(files, #[trigger] now[i]) by {
            if i < head.len() {
                assert(now[i] == head[i]);
            }
        }
        assert forall|i: int, j: int| 0 <= i < j < now.len() implies !paths::same_place(
            #[trigger] now[i],
            #[trigger] now[j],
        ) by {
            assert(now[i] == head[i]);
            if j < head.len() {
                assert(now[j] == head[j]);
            }
        }
        assert forall|i: int| 0 <= i < all.len() && lists(files, #[trigger] all[i]) implies lists(
            now,
            all[i],
        ) by {
            if i < all.len() - 1 {
                assert(all.drop_last()[i] == all[i]);
                let k = choose|k: int|
                    0 <= k < head.len() && paths::same_place(#[trigger] head[k], all[i]);
                assert(now[k] == head[k]);
            } else if !lists(head, all.last()) {
                assert(now[now.len() - 1] == all.last());
            } else {
                let k = choose|k: int|
                    0 <= k < head.len() && paths::same_place(#[trigger] head[k], all.last());
                assert(now[k] == head[k]);
            }
        }
    }
}

} // verus!
