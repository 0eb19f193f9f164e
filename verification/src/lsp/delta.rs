//! What an edit introduced and what it resolved.

use vstd::prelude::*;
use similar::{DiffTag, TextDiff};
use crate::lsp::reports::DiagnosticReport;
use crate::lsp::types;
use crate::lsp::types::{Diagnostic, DiagnosticView, Position, Range};
use crate::ranking::Ranked;
use crate::text;
use crate::text::{chars_of, same};

verus! {

/// The diagnostics of one server for one text of a file.
pub struct DiagnosticBaselineEntry {
    pub server: String,
    pub text: String,
    pub diagnostics: Vec<Diagnostic>,
}

/// The diagnostics of a file before an edit, by server.
pub struct DiagnosticBaseline {
    pub entries: Vec<DiagnosticBaselineEntry>,
}

/// A stretch of two texts, in lines: whether it is the same in both, where it
/// begins and ends in the old one, and where in the new one.
pub type LineOp = (bool, usize, usize, usize, usize);

/// The stretches in which [`TextDiff::from_lines`] finds two texts to agree and
/// to differ.
pub uninterp spec fn line_ops(old: Seq<char>, new: Seq<char>) -> Seq<
    (bool, usize, usize, usize, usize),
>;

/// [`TextDiff::from_lines`] and `as_tag_tuple` on each of its operations: how
/// the lines of two texts correspond. A stretch that is the same in both is as
/// long in one as in the other. Two equal texts agree line by line.
#[verifier::external_body]
fn diff_lines(old: &str, new: &str) -> (out: Vec<LineOp>)
    ensures
        out@ == line_ops(old@, new@),
        forall|i: int|
            0 <= i < out@.len() && (#[trigger] out@[i]).0 ==> out@[i].1 <= out@[i].2 && out@[i].2
                - out@[i].1 == out@[i].4 - out@[i].3,
        old@ == new@ ==> forall|i: int|
            0 <= i < out@.len() ==> (#[trigger] out@[i]).0 && out@[i].1 == out@[i].3,
{
    let diff = TextDiff::from_lines(old, new);
    let mut out = Vec::new();
    for operation in diff.ops() {
        let (tag, old, new) = operation.as_tag_tuple();
        out.push((matches!(tag, DiffTag::Equal), old.start, old.end, new.start, new.end));
    }
    out
}

/// The lines of a text: the last character stands on the last of them, and each
/// newline before it ends one.
pub open spec fn line_count(s: Seq<char>) -> nat {
    if s.len() == 0 {
        0
    } else {
        text::newlines(s.drop_last()) + 1
    }
}

/// The lines of a text.
fn count_lines(s: &str) -> (n: usize)
    ensures
        n == line_count(s@),
{
    let x = chars_of(s);
    if x.len() == 0 {
        return 0;
    }
    let mut n: usize = 0;
    let mut i: usize = 0;
    while i < x.len() - 1
        invariant
            i < x@.len(),
            n <= i,
            n == text::newlines(x@.take(i as int)),
        decreases x@.len() - i,
    {
        assert(x@.take(i + 1).drop_last() =~= x@.take(i as int));
        if x[i] == '\n' {
            n = n + 1;
        }
        i = i + 1;
    }
    assert(x@.take(i as int) =~= x@.drop_last());
    n + 1
}

/// The line of the new text that a line of the old text became: through the
/// first stretch that holds it, where that is the same in both texts. The line
/// behind the last stays behind the last.
pub open spec fn mapped_line(
    ops: Seq<LineOp>,
    line: int,
    i: int,
    old_lines: nat,
    new_lines: nat,
) -> Option<u32>
    decreases ops.len() - i,
{
    if i < 0 || i >= ops.len() {
        if line == old_lines {
            Some(new_lines as u32)
        } else {
            None
        }
    } else if ops[i].1 <= line < ops[i].2 {
        if ops[i].0 {
            Some((ops[i].3 + line - ops[i].1) as u32)
        } else {
            None
        }
    } else {
        mapped_line(ops, line, i + 1, old_lines, new_lines)
    }
}

fn map_line(ops: &Vec<LineOp>, line: u32, old_lines: usize, new_lines: usize) -> (out: Option<u32>)
    requires
        forall|i: int|
            0 <= i < ops@.len() && (#[trigger] ops@[i]).0 ==> ops@[i].1 <= ops@[i].2 && ops@[i].2
                - ops@[i].1 == ops@[i].4 - ops@[i].3,
    ensures
        out == mapped_line(ops@, line as int, 0, old_lines as nat, new_lines as nat),
{
    let at: usize = line as usize;
    let mut i: usize = 0;
    while i < ops.len()
        invariant
            i <= ops@.len(),
            at == line,
            forall|j: int|
                0 <= j < ops@.len() && (#[trigger] ops@[j]).0 ==> ops@[j].1 <= ops@[j].2
                    && ops@[j].2 - ops@[j].1 == ops@[j].4 - ops@[j].3,
            mapped_line(ops@, line as int, 0, old_lines as nat, new_lines as nat) == mapped_line(
                ops@,
                line as int,
                i as int,
                old_lines as nat,
                new_lines as nat,
            ),
        decreases ops@.len() - i,
    {
        let op = ops[i];
        assert(op == ops@[i as int]);
        if op.1 <= at && at < op.2 {
            return if op.0 {
                let to: usize = op.3 + (at - op.1);
                Some(to as u32)
            } else {
                None
            };
        }
        i = i + 1;
    }
    if at == old_lines {
        Some(new_lines as u32)
    } else {
        None
    }
}

/// The diagnostic where its lines went, if both of them survived.
pub open spec fn shifted(
    d: DiagnosticView,
    ops: Seq<LineOp>,
    old_lines: nat,
    new_lines: nat,
) -> Option<DiagnosticView> {
    match (
        mapped_line(ops, d.range.start.line as int, 0, old_lines, new_lines),
        mapped_line(ops, d.range.end.line as int, 0, old_lines, new_lines),
    ) {
        (Some(start), Some(end)) => Some(
            DiagnosticView {
                range: Range {
                    start: Position { line: start, character: d.range.start.character },
                    end: Position { line: end, character: d.range.end.character },
                },
                ..d
            },
        ),
        _ => None,
    }
}

/// The diagnostic in the new text, if both of its lines survived the edit.
pub open spec fn carried(d: DiagnosticView, old: Seq<char>, new: Seq<char>) -> Option<
    DiagnosticView,
> {
    shifted(d, line_ops(old, new), line_count(old), line_count(new))
}

/// The diagnostic where its lines went, given how the lines correspond.
pub fn shift_by(d: &Diagnostic, ops: &Vec<LineOp>, old_lines: usize, new_lines: usize) -> (out:
    Option<Diagnostic>)
    requires
        forall|i: int|
            0 <= i < ops@.len() && (#[trigger] ops@[i]).0 ==> ops@[i].1 <= ops@[i].2 && ops@[i].2
                - ops@[i].1 == ops@[i].4 - ops@[i].3,
    ensures
        match out {
            Some(s) => shifted(d@, ops@, old_lines as nat, new_lines as nat) == Some(s@),
            None => shifted(d@, ops@, old_lines as nat, new_lines as nat) is None,
        },
{
    let start = match map_line(ops, d.range.start.line, old_lines, new_lines) {
        Some(l) => l,
        None => {
            return None;
        },
    };
    let end = match map_line(ops, d.range.end.line, old_lines, new_lines) {
        Some(l) => l,
        None => {
            return None;
        },
    };
    let mut out = d.copy();
    out.range = Range {
        start: Position { line: start, character: d.range.start.character },
        end: Position { line: end, character: d.range.end.character },
    };
    Some(out)
}

/// The diagnostic in the new text, if both of its lines survived the edit.
pub fn shift_diagnostic(d: &Diagnostic, old_text: &str, new_text: &str) -> (out: Option<Diagnostic>)
    ensures
        match out {
            Some(s) => carried(d@, old_text@, new_text@) == Some(s@),
            None => carried(d@, old_text@, new_text@) is None,
        },
{
    shift_by(
        d,
        &diff_lines(old_text, new_text),
        count_lines(old_text),
        count_lines(new_text),
    )
}

/// The diagnostics that survived the edit, in the new text.
pub open spec fn carried_all(
    ds: Seq<DiagnosticView>,
    old: Seq<char>,
    new: Seq<char>,
) -> Seq<DiagnosticView>
    decreases ds.len(),
{
    if ds.len() == 0 {
        seq![]
    } else {
        let head = carried_all(ds.drop_last(), old, new);
        match carried(ds.last(), old, new) {
            Some(d) => head.push(d),
            None => head,
        }
    }
}

fn shift_all(ds: &Vec<Diagnostic>, old_text: &str, new_text: &str) -> (out: Vec<Diagnostic>)
    ensures
        types::found(out@) == carried_all(types::found(ds@), old_text@, new_text@),
{
    let ops = diff_lines(old_text, new_text);
    let old_lines: usize = count_lines(old_text);
    let new_lines: usize = count_lines(new_text);
    let ghost all = types::found(ds@);
    let mut out: Vec<Diagnostic> = Vec::new();
    let mut i: usize = 0;
    assert(types::found(out@) =~= carried_all(all.take(0), old_text@, new_text@));
    while i < ds.len()
        invariant
            i <= ds@.len(),
            all == types::found(ds@),
            ops@ == line_ops(old_text@, new_text@),
            old_lines == line_count(old_text@),
            new_lines == line_count(new_text@),
            forall|j: int|
                0 <= j < ops@.len() && (#[trigger] ops@[j]).0 ==> ops@[j].1 <= ops@[j].2
                    && ops@[j].2 - ops@[j].1 == ops@[j].4 - ops@[j].3,
            types::found(out@) == carried_all(all.take(i as int), old_text@, new_text@),
        decreases ds@.len() - i,
    {
        let ghost was = out@;
        assert(all.take(i + 1).drop_last() =~= all.take(i as int));
        match shift_by(&ds[i], &ops, old_lines, new_lines) {
            Some(d) => {
                let ghost dv = d@;
                out.push(d);
                assert(types::found(out@) =~= types::found(was).push(dv));
            },
            None => {},
        }
        i = i + 1;
    }
    assert(all.take(i as int) =~= all);
    out
}

/// The list holds the same finding as `d`.
pub open spec fn knows(list: Seq<DiagnosticView>, d: DiagnosticView) -> bool {
    exists|i: int| 0 <= i < list.len() && (#[trigger] list[i]).same_finding(d)
}

/// Accepts findings that the list does not hold.
pub open spec fn unknown_to(list: Seq<DiagnosticView>) -> spec_fn(DiagnosticView) -> bool {
    |d: DiagnosticView| !knows(list, d)
}

/// The findings of `ds` that `list` does not hold.
pub open spec fn new_to(list: Seq<DiagnosticView>, ds: Seq<DiagnosticView>) -> Seq<DiagnosticView> {
    ds.filter(unknown_to(list))
}

fn is_known(list: &Vec<Diagnostic>, d: &Diagnostic) -> (yes: bool)
    ensures
        yes == knows(types::found(list@), d@),
{
    let mut i: usize = 0;
    while i < list.len()
        invariant
            i <= list@.len(),
            forall|j: int|
                0 <= j < i ==> !(#[trigger] types::found(list@)[j]).same_finding(d@),
        decreases list@.len() - i,
    {
        assert(types::found(list@)[i as int] == list@[i as int]@);
        if list[i].is_alike(d) {
            return true;
        }
        i = i + 1;
    }
    false
}

fn keep_unknown(list: &Vec<Diagnostic>, ds: &Vec<Diagnostic>) -> (out: Vec<Diagnostic>)
    ensures
        types::found(out@) == new_to(types::found(list@), types::found(ds@)),
{
    let ghost all = types::found(ds@);
    let ghost keep = unknown_to(types::found(list@));
    let mut out: Vec<Diagnostic> = Vec::new();
    let mut i: usize = 0;
    proof {
        reveal(Seq::filter);
        assert(types::found(out@) =~= all.take(0).filter(keep));
    }
    while i < ds.len()
        invariant
            i <= ds@.len(),
            all == types::found(ds@),
            keep == unknown_to(types::found(list@)),
            types::found(out@) == all.take(i as int).filter(keep),
        decreases ds@.len() - i,
    {
        let ghost was = out@;
        proof {
            reveal(Seq::filter);
            assert(all.take(i + 1).drop_last() =~= all.take(i as int));
        }
        if !is_known(list, &ds[i]) {
            out.push(ds[i].copy());
            assert(types::found(out@) =~= types::found(was).push(all[i as int]));
        }
        i = i + 1;
    }
    assert(all.take(i as int) =~= all);
    out
}

/// The first entry of `server`, from the `i`-th on.
pub open spec fn entry_of(
    entries: Seq<DiagnosticBaselineEntry>,
    server: Seq<char>,
    i: int,
) -> Option<DiagnosticBaselineEntry>
    decreases entries.len() - i,
{
    if i < 0 || i >= entries.len() {
        None
    } else if entries[i].server@ == server {
        Some(entries[i])
    } else {
        entry_of(entries, server, i + 1)
    }
}

fn find_entry<'a>(baseline: &'a DiagnosticBaseline, server: &str) -> (out: Option<
    &'a DiagnosticBaselineEntry,
>)
    ensures
        match out {
            Some(e) => entry_of(baseline.entries@, server@, 0) == Some(*e),
            None => entry_of(baseline.entries@, server@, 0) is None,
        },
{
    let mut i: usize = 0;
    while i < baseline.entries.len()
        invariant
            i <= baseline.entries@.len(),
            entry_of(baseline.entries@, server@, 0) == entry_of(
                baseline.entries@,
                server@,
                i as int,
            ),
        decreases baseline.entries@.len() - i,
    {
        if same(baseline.entries[i].server.as_str(), server) {
            return Some(&baseline.entries[i]);
        }
        i = i + 1;
    }
    None
}

/// The baseline of the report's server, where the report is fresh and there is
/// one.
pub open spec fn matching(report: DiagnosticReport, baseline: Option<&DiagnosticBaseline>) -> Option<
    DiagnosticBaselineEntry,
> {
    match (report, baseline) {
        (DiagnosticReport::Fresh { server, .. }, Some(b)) => entry_of(b.entries@, server@, 0),
        _ => None,
    }
}

/// Every diagnostic of a fresh report, shown or not.
pub open spec fn current(report: DiagnosticReport) -> Seq<DiagnosticView> {
    match report {
        DiagnosticReport::Fresh { diagnostics, overflow, .. } => types::found(
            diagnostics@ + overflow@,
        ),
        _ => seq![],
    }
}

/// The optional list, where it holds these.
pub open spec fn is_list(v: Option<Vec<Diagnostic>>, items: Seq<DiagnosticView>) -> bool {
    match v {
        Some(list) => types::found(list@) == items,
        None => false,
    }
}

/// The two reports differ at most in what was introduced and resolved.
pub open spec fn same_otherwise(a: DiagnosticReport, b: DiagnosticReport) -> bool {
    match (a, b) {
        (
            DiagnosticReport::Fresh {
                server: s1,
                root: r1,
                sources: o1,
                warnings: w1,
                path: p1,
                version: v1,
                diagnostics: d1,
                overflow: f1,
                total: t1,
                truncated: c1,
                ..
            },
            DiagnosticReport::Fresh {
                server: s2,
                root: r2,
                sources: o2,
                warnings: w2,
                path: p2,
                version: v2,
                diagnostics: d2,
                overflow: f2,
                total: t2,
                truncated: c2,
                ..
            },
        ) => s1 == s2 && r1 == r2 && o1 == o2 && w1 == w2 && p1 == p2 && v1 == v2 && d1@ == d2@
            && f1@ == f2@ && t1 == t2 && c1 == c2,
        _ => false,
    }
}

/// `out` is the report with what an edit to `new_text` introduced and resolved since
/// the baseline of its server; without such a baseline it is the report itself.
pub open spec fn changed(
    report: DiagnosticReport,
    baseline: Option<&DiagnosticBaseline>,
    new_text: Seq<char>,
    out: DiagnosticReport,
) -> bool {
    match matching(report, baseline) {
        None => out == report,
        Some(entry) => {
            let carried = carried_all(types::found(entry.diagnostics@), entry.text@, new_text);
            &&& same_otherwise(report, out)
            &&& is_list(out->Fresh_introduced, new_to(carried, current(report)))
            &&& is_list(out->Fresh_resolved, new_to(current(report), carried))
        },
    }
}

/// The report with what the edit introduced and resolved since the baseline of
/// its server. The baseline is first carried through the edit, so that findings
/// that only moved count as neither.
pub fn apply_diagnostic_delta(
    report: DiagnosticReport,
    baseline: Option<&DiagnosticBaseline>,
    new_text: &str,
) -> (out: DiagnosticReport)
    ensures
        changed(report, baseline, new_text@, out),
{
    match report {
        DiagnosticReport::Fresh {
            server,
            root,
            sources,
            warnings,
            path,
            version,
            diagnostics,
            overflow,
            total,
            truncated,
            introduced,
            resolved,
        } => {
            let entry = match baseline {
                Some(b) => find_entry(b, server.as_str()),
                None => None,
            };
            match entry {
                None => DiagnosticReport::Fresh {
                    server,
                    root,
                    sources,
                    warnings,
                    path,
                    version,
                    diagnostics,
                    overflow,
                    total,
                    truncated,
                    introduced,
                    resolved,
                },
                Some(e) => {
                    let carried = shift_all(&e.diagnostics, e.text.as_str(), new_text);
                    let ghost shown = diagnostics@;
                    let ghost beyond = overflow@;
                    let mut diagnostics = diagnostics;
                    let mut overflow = overflow;
                    let n: usize = diagnostics.len();
                    diagnostics.append(&mut overflow);
                    assert(diagnostics@ =~= shown + beyond);
                    let introduced = keep_unknown(&carried, &diagnostics);
                    let resolved = keep_unknown(&diagnostics, &carried);
                    let overflow = diagnostics.split_off(n);
                    assert(diagnostics@ =~= shown);
                    assert(overflow@ =~= beyond);
                    DiagnosticReport::Fresh {
                        server,
                        root,
                        sources,
                        warnings,
                        path,
                        version,
                        diagnostics,
                        overflow,
                        total,
                        truncated,
                        introduced: Some(introduced),
                        resolved: Some(resolved),
                    }
                },
            }
        },
        other => other,
    }
}

proof fn lemma_new_to(list: Seq<DiagnosticView>, ds: Seq<DiagnosticView>, d: DiagnosticView)
    ensures
        knows(new_to(list, ds), d) <==> knows(ds, d) && !knows(list, d),
    decreases ds.len(),
{
    reveal(Seq::filter);
    let now = new_to(list, ds);
    if ds.len() > 0 {
        let head = ds.drop_last();
        let x = ds.last();
        lemma_new_to(list, head, d);
        lemma_knows_alike(list, x, d);
        let was = new_to(list, head);
        if knows(ds, d) {
            let i = choose|i: int| 0 <= i < ds.len() && (#[trigger] ds[i]).same_finding(d);
            if i < head.len() {
                assert(head[i].same_finding(d));
            }
        }
        if knows(head, d) {
            let i = choose|i: int| 0 <= i < head.len() && (#[trigger] head[i]).same_finding(d);
            assert(ds[i].same_finding(d));
        }
        if x.same_finding(d) {
            assert(ds[ds.len() - 1].same_finding(d));
        }
        if knows(was, d) {
            let i = choose|i: int| 0 <= i < was.len() && (#[trigger] was[i]).same_finding(d);
            assert(now[i].same_finding(d));
        }
        if !knows(list, x) {
            assert(now == was.push(x));
            if x.same_finding(d) {
                assert(now[was.len() as int].same_finding(d));
            }
        }
        if knows(now, d) {
            let i = choose|i: int| 0 <= i < now.len() && (#[trigger] now[i]).same_finding(d);
            if i < was.len() {
                assert(was[i].same_finding(d));
            }
        }
    }
}

proof fn lemma_knows_alike(list: Seq<DiagnosticView>, a: DiagnosticView, b: DiagnosticView)
    ensures
        a.same_finding(b) ==> knows(list, a) == knows(list, b),
{
    if a.same_finding(b) {
        if knows(list, a) {
            let i = choose|i: int| 0 <= i < list.len() && (#[trigger] list[i]).same_finding(a);
            assert(list[i].same_finding(b));
        }
        if knows(list, b) {
            let i = choose|i: int| 0 <= i < list.len() && (#[trigger] list[i]).same_finding(b);
            assert(list[i].same_finding(a));
        }
    }
}

/// A finding is introduced exactly where it is there now and was not before, and
/// resolved exactly where it was there before and is not now. No finding is
/// both.
pub proof fn law_delta(
    before: Seq<DiagnosticView>,
    now: Seq<DiagnosticView>,
    d: DiagnosticView,
)
    ensures
        knows(new_to(before, now), d) <==> knows(now, d) && !knows(before, d),
        knows(new_to(now, before), d) <==> knows(before, d) && !knows(now, d),
        !(knows(new_to(before, now), d) && knows(new_to(now, before), d)),
{
    lemma_new_to(before, now, d);
    lemma_new_to(now, before, d);
}

/// A line that survives an edit which changes nothing stays where it is.
pub proof fn law_same_lines_stay(ops: Seq<LineOp>, line: u32, i: int, lines: nat)
    requires
        forall|j: int| 0 <= j < ops.len() ==> (#[trigger] ops[j]).0 && ops[j].1 == ops[j].3,
        0 <= i,
    ensures
        mapped_line(ops, line as int, i, lines, lines) matches Some(to) ==> to == line,
    decreases ops.len() - i,
{
    if i < ops.len() && !(ops[i].1 <= line < ops[i].2) {
        law_same_lines_stay(ops, line, i + 1, lines);
    }
}

/// The stretches tell how the lines of two texts correspond: a stretch that is the same in
/// both holds the same lines in both.
pub open spec fn correspond(ops: Seq<LineOp>, old: Seq<Seq<char>>, new: Seq<Seq<char>>) -> bool {
    forall|i: int|
        0 <= i < ops.len() && (#[trigger] ops[i]).0 ==> {
            &&& ops[i].1 <= ops[i].2 <= old.len()
            &&& ops[i].3 <= ops[i].4 <= new.len()
            &&& old.subrange(ops[i].1 as int, ops[i].2 as int) == new.subrange(
                ops[i].3 as int,
                ops[i].4 as int,
            )
        }
}

/// The stretch holds a line of the old text, and no other stretch does.
pub open spec fn alone_holds(ops: Seq<LineOp>, s: int, line: int) -> bool {
    &&& 0 <= s < ops.len()
    &&& ops[s].1 <= line < ops[s].2
    &&& forall|j: int| 0 <= j < ops.len() && j != s ==> !((#[trigger] ops[j]).1 <= line < ops[j].2)
}

/// A line is carried to a line that holds the same text, up or down.
pub proof fn law_carried_lines_hold_the_same_text(
    ops: Seq<LineOp>,
    old: Seq<Seq<char>>,
    new: Seq<Seq<char>>,
    line: int,
    i: int,
)
    requires
        correspond(ops, old, new),
        new.len() <= u32::MAX,
        0 <= line < old.len(),
        0 <= i,
    ensures
        mapped_line(ops, line, i, old.len(), new.len()) matches Some(to) ==> to < new.len()
            && new[to as int] == old[line],
    decreases ops.len() - i,
{
    if i < ops.len() {
        if ops[i].1 <= line < ops[i].2 {
            if ops[i].0 {
                let (a, b) = (
                    old.subrange(ops[i].1 as int, ops[i].2 as int),
                    new.subrange(ops[i].3 as int, ops[i].4 as int),
                );
                let k = line - ops[i].1;
                assert(a.len() == b.len());
                assert(a[k] == old[line]);
                assert(b[k] == new[ops[i].3 + k]);
            }
        } else {
            law_carried_lines_hold_the_same_text(ops, old, new, line, i + 1);
        }
    }
}

/// A line in a stretch that is the same in both texts is carried as far as the stretch
/// moved, up or down; a line in one that differs is carried nowhere.
pub proof fn law_lines_move_with_their_stretch(
    ops: Seq<LineOp>,
    s: int,
    line: int,
    i: int,
    old_lines: nat,
    new_lines: nat,
)
    requires
        alone_holds(ops, s, line),
        0 <= i <= s,
        line + ops[s].3 - ops[s].1 <= u32::MAX,
    ensures
        match mapped_line(ops, line, i, old_lines, new_lines) {
            Some(to) => ops[s].0 && to - line == ops[s].3 - ops[s].1,
            None => !ops[s].0,
        },
    decreases s - i,
{
    if i < s {
        law_lines_move_with_their_stretch(ops, s, line, i + 1, old_lines, new_lines);
    }
}

/// The line behind the last stays behind the last.
pub proof fn law_the_end_stays_the_end(ops: Seq<LineOp>, i: int, old_lines: nat, new_lines: nat)
    requires
        0 <= i,
        forall|j: int| 0 <= j < ops.len() ==> (#[trigger] ops[j]).2 <= old_lines,
        new_lines <= u32::MAX,
    ensures
        mapped_line(ops, old_lines as int, i, old_lines, new_lines) is Some,
        mapped_line(ops, old_lines as int, i, old_lines, new_lines)->0 == new_lines,
    decreases ops.len() - i,
{
    if i < ops.len() {
        law_the_end_stays_the_end(ops, i + 1, old_lines, new_lines);
    }
}

/// Two findings are the same: nothing but their details differs.
pub open spec fn same_report(a: DiagnosticView, b: DiagnosticView) -> bool {
    &&& a.range == b.range
    &&& a.message == b.message
    &&& a.severity == b.severity
    &&& a.source == b.source
    &&& a.code == b.code
}

/// One of the findings is `d`.
pub open spec fn reports(list: Seq<Diagnostic>, d: DiagnosticView) -> bool {
    exists|i: int| 0 <= i < list.len() && same_report((#[trigger] list[i])@, d)
}

/// The finding with its lines moved.
pub open spec fn moved_by(d: DiagnosticView, start: int, end: int) -> DiagnosticView {
    DiagnosticView {
        range: Range {
            start: Position {
                line: (d.range.start.line + start) as u32,
                character: d.range.start.character,
            },
            end: Position {
                line: (d.range.end.line + end) as u32,
                character: d.range.end.character,
            },
        },
        ..d
    }
}

proof fn lemma_carried_all(ds: Seq<DiagnosticView>, old: Seq<char>, new: Seq<char>, i: int)
    requires
        0 <= i < ds.len(),
        carried(ds[i], old, new) is Some,
    ensures
        knows(carried_all(ds, old, new), carried(ds[i], old, new)->0),
    decreases ds.len(),
{
    let head = carried_all(ds.drop_last(), old, new);
    let all = carried_all(ds, old, new);
    let d = carried(ds[i], old, new)->0;
    if i < ds.len() - 1 {
        lemma_carried_all(ds.drop_last(), old, new, i);
        assert(ds.drop_last()[i] == ds[i]);
        let k = choose|k: int| 0 <= k < head.len() && (#[trigger] head[k]).same_finding(d);
        assert(all[k].same_finding(d));
    } else {
        assert(all[head.len() as int].same_finding(d));
    }
}

proof fn lemma_reports(list: Seq<Diagnostic>, d: DiagnosticView)
    ensures
        reports(list, d) ==> knows(types::found(list), d),
{
    if reports(list, d) {
        let i = choose|i: int| 0 <= i < list.len() && same_report((#[trigger] list[i])@, d);
        assert(types::found(list)[i].same_finding(d));
    }
}

/// The entry of a server in a baseline: the first with its name.
pub open spec fn entry_for(entries: Seq<DiagnosticBaselineEntry>, server: Seq<char>, k: int) -> bool {
    &&& 0 <= k < entries.len()
    &&& entries[k].server@ == server
    &&& forall|j: int| 0 <= j < k ==> (#[trigger] entries[j]).server@ != server
}

proof fn lemma_entry_for(
    entries: Seq<DiagnosticBaselineEntry>,
    server: Seq<char>,
    k: int,
    i: int,
)
    requires
        entry_for(entries, server, k),
        0 <= i <= k,
    ensures
        entry_of(entries, server, i) == Some(entries[k]),
    decreases k - i,
{
    if i < k {
        lemma_entry_for(entries, server, k, i + 1);
    }
}

/// A finding that only moved with its lines is neither introduced nor resolved, and one
/// that is no longer reported where its lines went is resolved there.
pub proof fn law_moved_findings_are_neither(
    report: DiagnosticReport,
    baseline: &DiagnosticBaseline,
    new_text: Seq<char>,
    out: DiagnosticReport,
    k: int,
    i: int,
    s: int,
    e: int,
)
    requires
        report is Fresh,
        changed(report, Some(baseline), new_text, out),
        entry_for(baseline.entries@, report->Fresh_server@, k),
        0 <= i < baseline.entries@[k].diagnostics@.len(),
        ({
            let ops = line_ops(baseline.entries@[k].text@, new_text);
            let d = baseline.entries@[k].diagnostics@[i]@;
            &&& alone_holds(ops, s, d.range.start.line as int) && ops[s].0
            &&& alone_holds(ops, e, d.range.end.line as int) && ops[e].0
            &&& d.range.start.line + ops[s].3 - ops[s].1 <= u32::MAX
            &&& d.range.end.line + ops[e].3 - ops[e].1 <= u32::MAX
        }),
    ensures
        ({
            let ops = line_ops(baseline.entries@[k].text@, new_text);
            let d = baseline.entries@[k].diagnostics@[i]@;
            let there = moved_by(d, ops[s].3 - ops[s].1, ops[e].3 - ops[e].1);
            let now = report->Fresh_diagnostics@ + report->Fresh_overflow@;
            &&& out is Fresh
            &&& out->Fresh_introduced is Some && out->Fresh_resolved is Some
            &&& !reports(out->Fresh_introduced->0@, there)
            &&& reports(now, there) ==> !reports(out->Fresh_resolved->0@, there)
            &&& !(exists|j: int|
                0 <= j < now.len() && (#[trigger] now[j])@.same_finding(there)) ==> exists|j: int|
                0 <= j < out->Fresh_resolved->0@.len() && (
                #[trigger] out->Fresh_resolved->0@[j])@.same_finding(there)
        }),
{
    let entry = baseline.entries@[k];
    let ops = line_ops(entry.text@, new_text);
    let ds = types::found(entry.diagnostics@);
    let d = ds[i];
    assert(d == entry.diagnostics@[i]@);
    let there = moved_by(d, ops[s].3 - ops[s].1, ops[e].3 - ops[e].1);
    lemma_entry_for(baseline.entries@, report->Fresh_server@, k, 0);
    let (m, n) = (line_count(entry.text@), line_count(new_text));
    law_lines_move_with_their_stretch(ops, s, d.range.start.line as int, 0, m, n);
    law_lines_move_with_their_stretch(ops, e, d.range.end.line as int, 0, m, n);
    assert(carried(d, entry.text@, new_text) == Some(there));
    lemma_carried_all(ds, entry.text@, new_text, i);
    let before = carried_all(ds, entry.text@, new_text);
    let shown = report->Fresh_diagnostics@ + report->Fresh_overflow@;
    let now = types::found(shown);
    assert(now == current(report));
    law_delta(before, now, there);
    lemma_reports(out->Fresh_introduced->0@, there);
    lemma_reports(out->Fresh_resolved->0@, there);
    lemma_reports(shown, there);
    if !(exists|j: int| 0 <= j < shown.len() && (#[trigger] shown[j])@.same_finding(there)) {
        if knows(now, there) {
            let j = choose|j: int| 0 <= j < now.len() && (#[trigger] now[j]).same_finding(there);
            assert(shown[j]@.same_finding(there));
        }
        let gone = types::found(out->Fresh_resolved->0@);
        let j = choose|j: int| 0 <= j < gone.len() && (#[trigger] gone[j]).same_finding(there);
        assert(out->Fresh_resolved->0@[j]@.same_finding(there));
    }
}

/// What is introduced is reported now, and everything reported now is introduced where
/// nothing was found before; what is resolved was found before, and nothing is where nothing
/// was.
pub proof fn law_introduced_is_reported(
    report: DiagnosticReport,
    baseline: &DiagnosticBaseline,
    new_text: Seq<char>,
    out: DiagnosticReport,
    k: int,
)
    requires
        report is Fresh,
        changed(report, Some(baseline), new_text, out),
        entry_for(baseline.entries@, report->Fresh_server@, k),
    ensures
        ({
            let now = report->Fresh_diagnostics@ + report->Fresh_overflow@;
            let introduced = out->Fresh_introduced->0@;
            let resolved = out->Fresh_resolved->0@;
            &&& forall|j: int|
                0 <= j < introduced.len() ==> types::found(now).contains(
                    (#[trigger] introduced[j])@,
                )
            &&& baseline.entries@[k].diagnostics@.len() == 0 ==> resolved.len() == 0
                && types::found(introduced) == types::found(now)
            &&& now.len() == 0 ==> introduced.len() == 0
            &&& out->Fresh_diagnostics@ == report->Fresh_diagnostics@
            &&& out->Fresh_overflow@ == report->Fresh_overflow@
        }),
{
    let entry = baseline.entries@[k];
    lemma_entry_for(baseline.entries@, report->Fresh_server@, k, 0);
    let before = carried_all(types::found(entry.diagnostics@), entry.text@, new_text);
    let shown = report->Fresh_diagnostics@ + report->Fresh_overflow@;
    let now = types::found(shown);
    let introduced = out->Fresh_introduced->0@;
    lemma_new_from(before, now);
    lemma_new_from(now, before);
    assert(now == current(report));
    assert(types::found(entry.diagnostics@).len() == entry.diagnostics@.len());
    assert(now.len() == shown.len());
    assert forall|j: int| 0 <= j < introduced.len() implies now.contains(
        (#[trigger] introduced[j])@,
    ) by {
        assert(types::found(introduced)[j] == introduced[j]@);
        assert(now.contains(new_to(before, now)[j]));
    }
    assert(types::found(out->Fresh_resolved->0@).len() == out->Fresh_resolved->0@.len());
    assert(types::found(introduced).len() == introduced.len());
}

proof fn lemma_new_from(list: Seq<DiagnosticView>, ds: Seq<DiagnosticView>)
    ensures
        new_to(list, ds).len() <= ds.len(),
        forall|j: int| 0 <= j < new_to(list, ds).len() ==> ds.contains(#[trigger] new_to(list, ds)[j]),
        list.len() == 0 ==> new_to(list, ds) == ds,
    decreases ds.len(),
{
    reveal(Seq::filter);
    let now = new_to(list, ds);
    if ds.len() > 0 {
        let was = new_to(list, ds.drop_last());
        lemma_new_from(list, ds.drop_last());
        assert forall|j: int| 0 <= j < now.len() implies ds.contains(#[trigger] now[j]) by {
            if j < was.len() {
                assert(now[j] == was[j]);
                let m = choose|m: int|
                    0 <= m < ds.drop_last().len() && ds.drop_last()[m] == was[j];
                assert(ds[m] == now[j]);
            } else {
                assert(ds[ds.len() - 1] == now[j]);
            }
        }
        if list.len() == 0 {
            assert(!knows(list, ds.last()));
            assert(now =~= ds);
        }
    } else {
        assert(now =~= ds);
    }
}

/// Findings are told apart by everything that is shown of them: where any of it differs,
/// they are not the same.
pub proof fn law_same_findings_agree(a: DiagnosticView, b: DiagnosticView)
    ensures
        same_report(a, b) ==> a.same_finding(b),
        a.same_finding(b) ==> b.same_finding(a),
        a.same_finding(b) ==> a.range == b.range && a.message == b.message && a.severity
            == b.severity && a.source == b.source,
        a.same_finding(b) ==> (a.code is Some) == (b.code is Some),
        a.same_finding(b) && a.code is Some && a.code->0 is Text ==> a.code == b.code,
        a.same_finding(b) && a.code is Some && a.code->0 is Unsigned ==> a.code == b.code,
{
}

} // verus!
