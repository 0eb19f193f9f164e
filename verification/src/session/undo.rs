//! Which writes can be taken back.

use vstd::prelude::*;
use vstd::string::*;
use crate::agents::outbox::EventKind;
use crate::agents::recovery;
use crate::agents::recovery::read_ulid;
use crate::json;
use crate::json::{Json, JsonView};
use crate::number;
use crate::number::show;
use crate::text;
use crate::text::{cat2, cat3, cat5, same, trimmed};

verus! {

/// An event with its id.
pub struct Logged {
    pub id: String,
    pub kind: EventKind,
    pub payload: Json,
}

/// What a [`Logged`] holds.
#[verifier::ext_equal]
pub ghost struct LoggedView {
    pub id: Seq<char>,
    pub kind: EventKind,
    pub payload: JsonView,
}

impl View for Logged {
    type V = LoggedView;

    open spec fn view(&self) -> LoggedView {
        LoggedView { id: self.id@, kind: self.kind, payload: self.payload@ }
    }
}

/// A session and its events, the oldest first.
pub struct LoggedSession {
    pub id: String,
    pub events: Vec<Logged>,
}

/// What the events hold.
pub open spec fn listed(v: Seq<Logged>) -> Seq<LoggedView> {
    v.map_values(|e: Logged| e@)
}

/// What the sessions hold.
pub open spec fn sessions(v: Seq<LoggedSession>) -> Seq<(Seq<char>, Seq<LoggedView>)> {
    v.map_values(|s: LoggedSession| (s.id@, listed(s.events@)))
}

/// A write of a file.
pub struct WriteEvent {
    pub id: String,
    pub session: String,
    pub path: String,
}

/// What the writes are: the event, the session and the file.
pub open spec fn writes(v: Seq<WriteEvent>) -> Seq<(Seq<char>, Seq<char>, Seq<char>)> {
    v.map_values(|w: WriteEvent| (w.id@, w.session@, w.path@))
}

/// The file that an event wrote: an observation with a snapshot and a path.
pub open spec fn written(e: LoggedView) -> Option<Seq<char>> {
    match (e.kind, e.payload.field("payload"@)) {
        (EventKind::ToolObs, Some(JsonView::Object(rows))) => {
            let result = JsonView::Object(rows);
            if result.field("snapshot"@) is Some {
                result.text_at("path"@)
            } else {
                None
            }
        },
        _ => None,
    }
}

/// The writes among the first `n` events of a session, the newest first.
pub open spec fn writes_back(session: Seq<char>, v: Seq<LoggedView>, n: int) -> Seq<
    (Seq<char>, Seq<char>, Seq<char>),
>
    decreases n,
{
    if n <= 0 || n > v.len() {
        seq![]
    } else {
        let rest = writes_back(session, v, n - 1);
        match written(v[n - 1]) {
            Some(p) => seq![(v[n - 1].id, session, p)] + rest,
            None => rest,
        }
    }
}

/// The writes of the sessions from `i` on.
pub open spec fn all_writes(v: Seq<(Seq<char>, Seq<LoggedView>)>, i: int) -> Seq<
    (Seq<char>, Seq<char>, Seq<char>),
>
    decreases v.len() - i,
{
    if i < 0 || i >= v.len() {
        seq![]
    } else {
        writes_back(v[i].0, v[i].1, v[i].1.len() as int) + all_writes(v, i + 1)
    }
}

/// The first `n` of them, or all.
pub open spec fn first_of<T>(v: Seq<T>, n: int) -> Seq<T> {
    if v.len() > n {
        v.take(n)
    } else {
        v
    }
}

fn find_written(e: &Logged) -> (out: Option<String>)
    ensures
        text::view_of(out) == written(e@),
{
    broadcast use {json::lemma_list_view, json::lemma_object_view};

    match (e.kind, e.payload.field("payload")) {
        (EventKind::ToolObs, Some(result)) => {
            match result {
                Json::Object(_) => {
                    if result.field("snapshot").is_some() {
                        match result.text_at("path") {
                            Some(p) => Some(p.clone()),
                            None => None,
                        }
                    } else {
                        None
                    }
                },
                _ => None,
            }
        },
        _ => None,
    }
}

/// The latest writes, the newest first and at most `most` of them, but at least one where
/// there is one. The sessions come with the newest first.
pub fn recent_writes(log: &Vec<LoggedSession>, most: usize) -> (out: Vec<WriteEvent>)
    ensures
        writes(out@) == first_of(
            all_writes(sessions(log@), 0),
            if most == 0 {
                1
            } else {
                most as int
            },
        ),
{
    let limit: usize = if most == 0 {
        1
    } else {
        most
    };
    let ghost all = sessions(log@);
    let ghost whole = all_writes(all, 0);
    let mut out: Vec<WriteEvent> = Vec::new();
    let mut i: usize = 0;
    assert(whole =~= writes(out@) + all_writes(all, 0));
    while i < log.len()
        invariant
            i <= log@.len(),
            all == sessions(log@),
            whole == all_writes(all, 0),
            whole == writes(out@) + all_writes(all, i as int),
            out@.len() < limit,
            limit == (if most == 0 {
                1usize
            } else {
                most
            }),
        decreases log@.len() - i,
    {
        let events = &log[i].events;
        let ghost v = listed(events@);
        let ghost name = log@[i as int].id@;
        assert(all[i as int] == (name, v));
        let ghost rest = all_writes(all, i + 1);
        let mut n: usize = events.len();
        assert(whole =~= writes(out@) + writes_back(name, v, n as int) + rest);
        while n > 0
            invariant
                n <= events@.len(),
                i < log@.len(),
                events@ == log@[i as int].events@,
                v == listed(events@),
                name == log@[i as int].id@,
                whole == writes(out@) + writes_back(name, v, n as int) + rest,
                whole == all_writes(all, 0),
                all == sessions(log@),
                out@.len() < limit,
                limit == (if most == 0 {
                    1usize
                } else {
                    most
                }),
            decreases n,
        {
            assert(v[n - 1] == events@[n - 1]@);
            match find_written(&events[n - 1]) {
                Some(p) => {
                    let ghost was = out@;
                    let w = WriteEvent {
                        id: events[n - 1].id.clone(),
                        session: log[i].id.clone(),
                        path: p,
                    };
                    out.push(w);
                    assert(writes(out@) =~= writes(was).push((w.id@, w.session@, w.path@)));
                    assert(whole =~= writes(out@) + writes_back(name, v, n - 1) + rest);
                    if out.len() >= limit {
                        assert(writes(out@).len() == limit);
                        assert(writes(out@) =~= first_of(whole, limit as int));
                        return out;
                    }
                },
                None => {},
            }
            n = n - 1;
        }
        assert(whole =~= writes(out@) + rest);
        i = i + 1;
    }
    assert(whole =~= writes(out@));
    out
}

/// An event is in a session.
pub open spec fn holds(v: Seq<LoggedView>, id: Seq<char>) -> bool {
    exists|i: int| 0 <= i < v.len() && (#[trigger] v[i]).id == id
}

/// The first session from `i` on that holds an event.
pub open spec fn session_with(
    v: Seq<(Seq<char>, Seq<LoggedView>)>,
    id: Seq<char>,
    i: int,
) -> Option<Seq<char>>
    decreases v.len() - i,
{
    if i < 0 || i >= v.len() {
        None
    } else if holds(v[i].1, id) {
        Some(v[i].0)
    } else {
        session_with(v, id, i + 1)
    }
}

fn has_event(events: &Vec<Logged>, id: &str) -> (yes: bool)
    ensures
        yes == holds(listed(events@), id@),
{
    let ghost v = listed(events@);
    let mut i: usize = 0;
    while i < events.len()
        invariant
            i <= events@.len(),
            v == listed(events@),
            forall|j: int| 0 <= j < i ==> (#[trigger] v[j]).id != id@,
        decreases events@.len() - i,
    {
        assert(v[i as int] == events@[i as int]@);
        if same(events[i].id.as_str(), id) {
            return true;
        }
        i = i + 1;
    }
    false
}

/// The session that holds an event.
pub fn session_of(log: &Vec<LoggedSession>, id: &str) -> (out: Option<String>)
    ensures
        text::view_of(out) == session_with(sessions(log@), id@, 0),
{
    let ghost all = sessions(log@);
    let mut i: usize = 0;
    while i < log.len()
        invariant
            i <= log@.len(),
            all == sessions(log@),
            session_with(all, id@, 0) == session_with(all, id@, i as int),
        decreases log@.len() - i,
    {
        assert(all[i as int] == (log@[i as int].id@, listed(log@[i as int].events@)));
        if has_event(&log[i].events, id) {
            return Some(log[i].id.clone());
        }
        i = i + 1;
    }
    None
}

/// What is taken back.
pub enum Undo {
    /// What a session wrote from this event on: the session and the event.
    At(String, String),
    /// There is nothing, and this line says so.
    Nothing(String),
    Fail(String),
}

/// What an [`Undo`] holds.
pub ghost enum UndoView {
    At(Seq<char>, Seq<char>),
    Nothing(Seq<char>),
    Fail(Seq<char>),
}

impl View for Undo {
    type V = UndoView;

    open spec fn view(&self) -> UndoView {
        match self {
            Undo::At(s, e) => UndoView::At(s@, e@),
            Undo::Nothing(line) => UndoView::Nothing(line@),
            Undo::Fail(m) => UndoView::Fail(m@),
        }
    }
}

/// What is taken back where an event was named. `id` is the event's id, where the word is
/// one.
pub open spec fn named(
    word: Seq<char>,
    id: Option<Seq<char>>,
    log: Seq<(Seq<char>, Seq<LoggedView>)>,
) -> UndoView {
    match id {
        None => UndoView::Fail("invalid event id '"@ + word + "'"@),
        Some(e) => match session_with(log, e, 0) {
            None => UndoView::Fail("event "@ + e + " not found in this workspace's log"@),
            Some(s) => UndoView::At(s, e),
        },
    }
}

/// What is taken back where an event was named.
pub fn undo_named(word: &str, id: &Option<String>, log: &Vec<LoggedSession>) -> (out: Undo)
    ensures
        out@ == named(word@, text::view_of(*id), sessions(log@)),
{
    match id {
        None => Undo::Fail(cat3("invalid event id '", word, "'")),
        Some(e) => match session_of(log, e.as_str()) {
            None => Undo::Fail(cat3("event ", e.as_str(), " not found in this workspace's log")),
            Some(s) => Undo::At(s, e.clone()),
        },
    }
}

/// What is taken back: what the event named did, else the latest write.
pub open spec fn target(event: Option<Seq<char>>, log: Seq<(Seq<char>, Seq<LoggedView>)>) -> UndoView {
    match event {
        Some(word) => named(word, recovery::ulid_shown(text::trim(word)), log),
        None => {
            let all = all_writes(log, 0);
            if all.len() == 0 {
                UndoView::Nothing(
                    "Nothing to undo — no file writes recorded in this workspace yet."@,
                )
            } else {
                UndoView::At(all[0].1, all[0].0)
            }
        },
    }
}

/// What is taken back: what the event named did, else the latest write.
pub fn undo_target(event: &Option<String>, log: &Vec<LoggedSession>) -> (out: Undo)
    ensures
        out@ == target(text::view_of(*event), sessions(log@)),
{
    match event {
        Some(word) => undo_named(
            word.as_str(),
            &read_ulid(trimmed(word.as_str()).as_str()),
            log,
        ),
        None => {
            let latest = recent_writes(log, 1);
            let ghost all = all_writes(sessions(log@), 0);
            assert(writes(latest@).len() == latest@.len());
            if latest.len() == 0 {
                Undo::Nothing(
                    "Nothing to undo — no file writes recorded in this workspace yet.".to_owned(),
                )
            } else {
                assert(writes(latest@)[0] == all[0]);
                Undo::At(latest[0].session.clone(), latest[0].id.clone())
            }
        },
    }
}

/// A file that is taken back: to what a snapshot holds, or to nothing.
pub struct Restored {
    pub path: String,
    pub snapshot: Option<String>,
}

/// What the files are: each path, and whether there is a snapshot.
pub open spec fn restored(v: Seq<Restored>) -> Seq<(Seq<char>, bool)> {
    v.map_values(|r: Restored| (r.path@, r.snapshot is Some))
}

/// The line about a file that is taken back.
pub open spec fn restored_line(path: Seq<char>, snapshot: bool) -> Seq<char> {
    "  "@ + path + if snapshot {
        " — reverted to the snapshot before that write"@
    } else {
        " — removed (it was created at/after this point)"@
    }
}

/// The lines about what is taken back at an event.
pub open spec fn plan_lines(event: Seq<char>, plan: Seq<(Seq<char>, bool)>) -> Seq<Seq<char>> {
    if plan.len() == 0 {
        seq![
            "Nothing to undo at event "@ + event
                + " (not a write, or already at the workspace's HEAD state)."@,
        ]
    } else {
        seq![
            "Restoring "@ + number::decimal(plan.len()) + " file(s) to their state at event "@
                + event + ":"@,
        ] + plan.map_values(|r: (Seq<char>, bool)| restored_line(r.0, r.1))
    }
}

/// The lines about what is taken back at an event.
pub fn show_plan(event: &str, plan: &Vec<Restored>) -> (out: Vec<String>)
    ensures
        text::views(out@) == plan_lines(event@, restored(plan@)),
{
    let ghost all = restored(plan@);
    let mut out: Vec<String> = Vec::new();
    let n: usize = plan.len();
    assert(all.len() == n);
    if n == 0 {
        out.push(
            cat3(
                "Nothing to undo at event ",
                event,
                " (not a write, or already at the workspace's HEAD state).",
            ),
        );
        assert(text::views(out@) =~= plan_lines(event@, all));
        return out;
    }
    out.push(
        cat5(
            "Restoring ",
            show(n as u64).as_str(),
            " file(s) to their state at event ",
            event,
            ":",
        ),
    );
    let mut i: usize = 0;
    while i < n
        invariant
            i <= n == plan@.len(),
            n > 0,
            all == restored(plan@),
            out@.len() == i + 1,
            forall|j: int| 0 <= j <= i ==> (#[trigger] out@[j])@ == plan_lines(event@, all)[j],
        decreases n - i,
    {
        let r = &plan[i];
        let head = cat2("  ", r.path.as_str());
        let tail = if r.snapshot.is_some() {
            " — reverted to the snapshot before that write"
        } else {
            " — removed (it was created at/after this point)"
        };
        out.push(cat2(head.as_str(), tail));
        assert(plan_lines(event@, all)[i + 1] == restored_line(all[i as int].0, all[i as int].1));
        i = i + 1;
    }
    assert(text::views(out@) =~= plan_lines(event@, all));
    out
}

/// The lines of a list of writes, each with the time of the write.
pub open spec fn write_lines(
    v: Seq<(Seq<char>, Seq<char>, Seq<char>)>,
    times: Seq<Seq<char>>,
) -> Seq<Seq<char>> {
    if v.len() == 0 {
        seq!["No file writes recorded in this workspace yet."@]
    } else {
        seq!["Recent writes in this workspace (newest first):\n"@] + Seq::new(
            v.len(),
            |i: int| "  "@ + v[i].0 + "  "@ + times[i] + "  "@ + v[i].2,
        ) + seq!["\nUndo one:  medha undo --event <id>"@]
    }
}

/// The lines of a list of writes, each with the time of the write.
pub fn show_writes(v: &Vec<WriteEvent>, times: &Vec<String>) -> (out: Vec<String>)
    requires
        v@.len() == times@.len(),
    ensures
        text::views(out@) == write_lines(writes(v@), text::views(times@)),
{
    let ghost all = writes(v@);
    let ghost whens = text::views(times@);
    let mut out: Vec<String> = Vec::new();
    let n: usize = v.len();
    assert(all.len() == n);
    if n == 0 {
        out.push("No file writes recorded in this workspace yet.".to_owned());
        assert(text::views(out@) =~= write_lines(all, whens));
        return out;
    }
    out.push("Recent writes in this workspace (newest first):\n".to_owned());
    let mut i: usize = 0;
    while i < n
        invariant
            i <= n == v@.len(),
            n > 0,
            v@.len() == times@.len(),
            all == writes(v@),
            whens == text::views(times@),
            out@.len() == i + 1,
            forall|j: int| 0 <= j <= i ==> (#[trigger] out@[j])@ == write_lines(all, whens)[j],
        decreases n - i,
    {
        assert(all[i as int].0 == v@[i as int].id@);
        let mut line = cat5("  ", v[i].id.as_str(), "  ", times[i].as_str(), "  ");
        line.append(v[i].path.as_str());
        out.push(line);
        i = i + 1;
    }
    out.push("\nUndo one:  medha undo --event <id>".to_owned());
    assert(text::views(out@) =~= write_lines(all, whens));
    out
}

/// What is taken back without a name is the first of the writes that a list shows.
pub proof fn law_latest_is_listed_first(log: Seq<(Seq<char>, Seq<LoggedView>)>, most: int)
    requires
        most > 0,
    ensures
        target(None, log) matches UndoView::At(s, e) ==> first_of(all_writes(log, 0), most).len()
            > 0 && first_of(all_writes(log, 0), most)[0].0 == e && first_of(
            all_writes(log, 0),
            most,
        )[0].1 == s,
        target(None, log) is Nothing <==> first_of(all_writes(log, 0), most).len() == 0,
{
}

} // verus!
