//! What is handed on of the work of children, and what is told of it.

use vstd::prelude::*;
use crate::agents::outbox;
use crate::agents::outbox::{EventView, PendingView};
use crate::agents::prompt;
use crate::agents::recovery;
use crate::agents::recovery::OpenView;
use crate::agents::reports;
use crate::agents::reports::{AgentStatus, ResultView};
use crate::agents::runner;
use crate::agents::runner::{LabelledEvent, MessageView, StopReason};
use crate::json::JsonView;
use crate::number;
use crate::order;
use crate::text;

verus! {

/// A text that is not empty stands under the key.
pub open spec fn says(e: EventView, key: Seq<char>, s: Seq<char>) -> bool {
    s.len() > 0 && e.payload.field(key) == Some(JsonView::Text(s))
}

/// Nothing but an empty text, if any, stands under the key.
pub open spec fn silent(e: EventView, key: Seq<char>) -> bool {
    forall|s: Seq<char>| !says(e, key, s)
}

/// An event belongs to the handout that it names, to its child where it names none, and to
/// no handout where it names neither.
pub proof fn law_events_name_their_handout(e: EventView, s: Seq<char>)
    ensures
        says(e, "dispatch"@, s) ==> e.handout() == s,
        silent(e, "dispatch"@) && says(e, "child"@, s) ==> e.handout() == s,
        silent(e, "dispatch"@) && silent(e, "child"@) ==> e.handout().len() == 0,
{
    if silent(e, "dispatch"@) {
        if let Some(JsonView::Text(t)) = e.payload.field("dispatch"@) {
            assert(t.len() > 0 ==> says(e, "dispatch"@, t));
        }
    }
    if silent(e, "child"@) {
        if let Some(JsonView::Text(t)) = e.payload.field("child"@) {
            assert(t.len() > 0 ==> says(e, "child"@, t));
        }
    }
}

/// The event tells that the report of a handout was handed on: it is the note of it, or an
/// observation that acknowledges it.
pub open spec fn tells_handed_on(e: EventView, acks: Seq<char>, h: Seq<char>) -> bool {
    ||| e.kind is AgentDelivered && e.handout() == h
    ||| e.kind is ToolObs && e.payload.get("payload"@).get(acks).items().contains(JsonView::Text(h))
}

proof fn lemma_texts_in(v: Seq<JsonView>, h: Seq<char>)
    ensures
        reports::texts_in(v).contains(h) == v.contains(JsonView::Text(h)),
    decreases v.len(),
{
    if v.len() > 0 {
        let head = v.drop_last();
        lemma_texts_in(head, h);
        let out = reports::texts_in(v);
        let was = reports::texts_in(head);
        assert(v =~= head.push(v.last()));
        if v.contains(JsonView::Text(h)) {
            let k = choose|k: int| 0 <= k < v.len() && v[k] == JsonView::Text(h);
            if k < v.len() - 1 {
                assert(head[k] == v[k]);
                let j = choose|j: int| 0 <= j < was.len() && was[j] == h;
                assert(out[j] == h);
            } else {
                assert(out[was.len() as int] == h);
            }
        }
        if out.contains(h) {
            let j = choose|j: int| 0 <= j < out.len() && out[j] == h;
            if j < was.len() {
                assert(was[j] == h);
                let k = choose|k: int| 0 <= k < head.len() && head[k] == JsonView::Text(h);
                assert(v[k] == JsonView::Text(h));
            } else {
                assert(v[v.len() - 1] == JsonView::Text(h));
            }
        }
    }
}

proof fn lemma_handed_on(v: Seq<EventView>, acks: Seq<char>, h: Seq<char>)
    ensures
        reports::handed_on(v, acks).contains(h) <==> exists|i: int|
            0 <= i < v.len() && tells_handed_on(#[trigger] v[i], acks, h),
    decreases v.len(),
{
    if v.len() > 0 {
        let head = v.drop_last();
        let e = v.last();
        lemma_handed_on(head, acks, h);
        lemma_texts_in(e.payload.get("payload"@).get(acks).items(), h);
        let was = reports::handed_on(head, acks);
        let by = reports::handed_on_by(e, acks);
        let now = reports::handed_on(v, acks);
        assert(by.contains(h) == tells_handed_on(e, acks, h)) by {
            if e.kind is AgentDelivered {
                assert(by[0] == e.handout());
            }
        }
        assert(now.contains(h) <==> was.contains(h) || by.contains(h)) by {
            if was.contains(h) {
                let k = choose|k: int| 0 <= k < was.len() && was[k] == h;
                assert(now[k] == h);
            }
            if by.contains(h) {
                let k = choose|k: int| 0 <= k < by.len() && by[k] == h;
                assert(now[was.len() + k] == h);
            }
        }
        assert(forall|i: int| 0 <= i < head.len() ==> head[i] == v[i]);
        if was.contains(h) {
            let i = choose|i: int|
                0 <= i < head.len() && tells_handed_on(#[trigger] head[i], acks, h);
            assert(tells_handed_on(v[i], acks, h));
        }
        if by.contains(h) {
            assert(tells_handed_on(v[v.len() - 1], acks, h));
        }
        if exists|i: int| 0 <= i < v.len() && tells_handed_on(#[trigger] v[i], acks, h) {
            let i = choose|i: int| 0 <= i < v.len() && tells_handed_on(#[trigger] v[i], acks, h);
            if i < head.len() {
                assert(tells_handed_on(head[i], acks, h));
            }
        }
    }
}

/// The report that an event carries: what it reads as, under the handout of the event.
pub open spec fn carries(
    v: Seq<EventView>,
    read: Seq<Option<ResultView>>,
    i: int,
    r: ResultView,
) -> bool {
    &&& 0 <= i < v.len()
    &&& v[i].kind.terminal()
    &&& read[i] is Some
    &&& r == (ResultView { dispatch: v[i].handout(), ..read[i]->0 })
}

proof fn lemma_reported(v: Seq<EventView>, read: Seq<Option<ResultView>>, r: ResultView)
    requires
        read.len() == v.len(),
    ensures
        reports::reported(v, read).contains(r) <==> exists|i: int| carries(v, read, i, r),
    decreases v.len(),
{
    if v.len() > 0 {
        let hv = v.drop_last();
        let hr = read.drop_last();
        lemma_reported(hv, hr, r);
        let was = reports::reported(hv, hr);
        let now = reports::reported(v, read);
        let n = v.len() - 1;
        if was.contains(r) {
            let k = choose|k: int| 0 <= k < was.len() && was[k] == r;
            assert(now[k] == r);
            let i = choose|i: int| carries(hv, hr, i, r);
            assert(carries(v, read, i, r));
        }
        if carries(v, read, n, r) {
            assert(now[was.len() as int] == r);
        }
        if now.contains(r) && !was.contains(r) {
            let k = choose|k: int| 0 <= k < now.len() && now[k] == r;
            if k < was.len() {
                assert(was[k] == r);
            }
            assert(carries(v, read, n, r));
        }
        if exists|i: int| carries(v, read, i, r) {
            let i = choose|i: int| carries(v, read, i, r);
            if i < n {
                assert(carries(hv, hr, i, r));
            }
        }
    }
}

/// No report comes before one whose handout sorts before its own.
pub open spec fn in_order(s: Seq<ResultView>) -> bool {
    forall|i: int, j: int|
        0 <= i < j < s.len() ==> !order::before((#[trigger] s[j]).dispatch, (#[trigger] s[i]).dispatch)
}

proof fn lemma_placed(s: Seq<ResultView>, x: ResultView, y: ResultView)
    requires
        in_order(s),
    ensures
        in_order(reports::placed(s, x)),
        reports::placed(s, x).contains(y) <==> s.contains(y) || y == x,
    decreases s.len(),
{
    let out = reports::placed(s, x);
    if s.len() > 0 && order::before(x.dispatch, s.last().dispatch) {
        let head = s.drop_last();
        assert(in_order(head)) by {
            assert(forall|i: int| 0 <= i < head.len() ==> head[i] == s[i]);
        }
        lemma_placed(head, x, y);
        let inner = reports::placed(head, x);
        assert(s =~= head.push(s.last()));
        assert forall|i: int, j: int| 0 <= i < j < out.len() implies !order::before(
            (#[trigger] out[j]).dispatch,
            (#[trigger] out[i]).dispatch,
        ) by {
            if j == out.len() - 1 {
                lemma_placed(head, x, out[i]);
                assert(inner.contains(inner[i]));
                if out[i] == x {
                    order::lemma_before_total(x.dispatch, s.last().dispatch);
                } else {
                    let k = choose|k: int| 0 <= k < head.len() && head[k] == out[i];
                    assert(s[k] == out[i] && s[s.len() - 1] == out[j]);
                }
            } else {
                assert(inner[i] == out[i] && inner[j] == out[j]);
            }
        }
        if out.contains(y) {
            let k = choose|k: int| 0 <= k < out.len() && out[k] == y;
            if k < inner.len() {
                assert(inner.contains(inner[k]));
                if head.contains(y) {
                    let m = choose|m: int| 0 <= m < head.len() && head[m] == y;
                    assert(s[m] == y);
                }
            } else {
                assert(s[s.len() - 1] == y);
            }
        }
        if s.contains(y) || y == x {
            if s.contains(y) {
                let m = choose|m: int| 0 <= m < s.len() && s[m] == y;
                if m < head.len() {
                    assert(head[m] == y);
                } else {
                    assert(out[out.len() - 1] == y);
                }
            }
            if inner.contains(y) {
                let k = choose|k: int| 0 <= k < inner.len() && inner[k] == y;
                assert(out[k] == y);
            }
        }
    } else {
        assert(out == s.push(x));
        assert(out[s.len() as int] == x);
        assert(forall|i: int| 0 <= i < s.len() ==> out[i] == s[i]);
        if s.contains(y) {
            let m = choose|m: int| 0 <= m < s.len() && s[m] == y;
            assert(out[m] == y);
        }
        assert forall|i: int, j: int| 0 <= i < j < out.len() implies !order::before(
            (#[trigger] out[j]).dispatch,
            (#[trigger] out[i]).dispatch,
        ) by {
            if j == s.len() {
                if i < s.len() - 1 {
                    let last = s[s.len() - 1];
                    order::lemma_before_total(last.dispatch, s[i].dispatch);
                    order::lemma_before_total(last.dispatch, x.dispatch);
                    if order::before(x.dispatch, s[i].dispatch) {
                        if s[i].dispatch == last.dispatch {
                        } else {
                            order::lemma_before_transitive(
                                x.dispatch,
                                s[i].dispatch,
                                last.dispatch,
                            );
                        }
                    }
                }
            }
        }
    }
}

proof fn lemma_sorted(s: Seq<ResultView>, y: ResultView)
    ensures
        in_order(reports::by_handout(s)),
        reports::by_handout(s).contains(y) == s.contains(y),
    decreases s.len(),
{
    if s.len() > 0 {
        lemma_sorted(s.drop_last(), y);
        lemma_placed(reports::by_handout(s.drop_last()), s.last(), y);
        assert(s =~= s.drop_last().push(s.last()));
        if s.contains(y) {
            let m = choose|m: int| 0 <= m < s.len() && s[m] == y;
            if m < s.len() - 1 {
                assert(s.drop_last()[m] == y);
            }
        } else if s.drop_last().contains(y) {
            let m = choose|m: int| 0 <= m < s.drop_last().len() && s.drop_last()[m] == y;
            assert(s[m] == y);
        } else if s.last() == y {
            assert(s[s.len() - 1] == y);
        }
    }
}

spec fn may_follow(s: Seq<ResultView>, x: ResultView) -> bool {
    forall|i: int| 0 <= i < s.len() ==> !order::before(x.dispatch, (#[trigger] s[i]).dispatch)
}

proof fn lemma_not_among(v: Seq<ResultView>, done: Seq<Seq<char>>, y: ResultView)
    ensures
        reports::not_among(v, done).contains(y) == (v.contains(y) && !done.contains(y.dispatch)),
        in_order(v) ==> in_order(reports::not_among(v, done)),
        forall|x: ResultView| #[trigger]
            may_follow(v, x) ==> may_follow(reports::not_among(v, done), x),
    decreases v.len(),
{
    if v.len() > 0 {
        let head = v.drop_last();
        lemma_not_among(head, done, y);
        let was = reports::not_among(head, done);
        let now = reports::not_among(v, done);
        assert(v =~= head.push(v.last()));
        if v.contains(y) {
            let m = choose|m: int| 0 <= m < v.len() && v[m] == y;
            if m < head.len() {
                assert(head[m] == y);
            }
        }
        if head.contains(y) {
            let m = choose|m: int| 0 <= m < head.len() && head[m] == y;
            assert(v[m] == y);
        }
        if was.contains(y) {
            let m = choose|m: int| 0 <= m < was.len() && was[m] == y;
            assert(now[m] == y);
        }
        if !done.contains(v.last().dispatch) {
            assert(now[was.len() as int] == v.last());
            assert(v[v.len() - 1] == v.last());
            if now.contains(y) {
                let m = choose|m: int| 0 <= m < now.len() && now[m] == y;
                if m < was.len() {
                    assert(was[m] == y);
                }
            }
        }
        if in_order(v) {
            assert(forall|i: int| 0 <= i < head.len() ==> head[i] == v[i]);
            assert(in_order(head));
            assert(v[v.len() - 1] == v.last());
            assert(may_follow(head, v.last()));
            assert(may_follow(was, v.last()));
        }
        assert forall|x: ResultView| #[trigger] may_follow(v, x) implies may_follow(now, x) by {
            assert(forall|i: int| 0 <= i < head.len() ==> head[i] == v[i]);
            assert(may_follow(head, x));
            assert(may_follow(was, x));
            assert(!order::before(x.dispatch, v[v.len() - 1].dispatch));
        }
    }
}

/// A report waits to be handed on as long as no event tells that it was, and no longer; the
/// reports that wait are in the order of their handouts.
pub proof fn law_reports_wait_until_handed_on(
    v: Seq<EventView>,
    read: Seq<Option<ResultView>>,
    acks: Seq<char>,
    r: ResultView,
)
    requires
        read.len() == v.len(),
    ensures
        reports::waiting(v, read, acks).contains(r) <==> (exists|i: int| carries(v, read, i, r))
            && forall|i: int|
            0 <= i < v.len() ==> !tells_handed_on(#[trigger] v[i], acks, r.dispatch),
        in_order(reports::waiting(v, read, acks)),
{
    lemma_reported(v, read, r);
    lemma_sorted(reports::reported(v, read), r);
    lemma_handed_on(v, acks, r.dispatch);
    lemma_not_among(
        reports::by_handout(reports::reported(v, read)),
        reports::handed_on(v, acks),
        r,
    );
}

/// The patch that an event records: of the child and the handout that it names.
pub open spec fn records(v: Seq<EventView>, readable: Seq<bool>, i: int, p: PendingView) -> bool {
    &&& 0 <= i < v.len()
    &&& v[i].kind is AgentPatch
    &&& readable[i]
    &&& v[i].payload.field("patch"@) == Some(p.patch)
    &&& p.dispatch == v[i].handout()
    &&& says(v[i], "child"@, p.session) || silent(v[i], "child"@) && p.session.len() == 0
    &&& says(v[i], "agent"@, p.agent) || silent(v[i], "agent"@) && p.agent == "agent"@
}

proof fn lemma_field(e: EventView, key: Seq<char>)
    ensures
        match e.field(key) {
            Some(s) => says(e, key, s) && forall|t: Seq<char>| says(e, key, t) ==> t == s,
            None => silent(e, key),
        },
{
    if e.field(key) is None {
        assert forall|s: Seq<char>| !says(e, key, s) by {}
    }
}

proof fn lemma_patches(v: Seq<EventView>, readable: Seq<bool>, p: PendingView)
    requires
        readable.len() == v.len(),
    ensures
        outbox::patches(v, readable).contains(p) <==> exists|i: int| records(v, readable, i, p),
    decreases v.len(),
{
    if v.len() > 0 {
        let hv = v.drop_last();
        let hr = readable.drop_last();
        lemma_patches(hv, hr, p);
        let was = outbox::patches(hv, hr);
        let now = outbox::patches(v, readable);
        let n = v.len() - 1;
        let e = v.last();
        lemma_field(e, "agent"@);
        lemma_field(e, "child"@);
        if was.contains(p) {
            let k = choose|k: int| 0 <= k < was.len() && was[k] == p;
            assert(now[k] == p);
            let i = choose|i: int| records(hv, hr, i, p);
            assert(records(v, readable, i, p));
        }
        if records(v, readable, n, p) {
            assert(now[was.len() as int] =~= p);
            assert(now.contains(p));
        }
        if now.contains(p) && !was.contains(p) {
            let k = choose|k: int| 0 <= k < now.len() && now[k] == p;
            if k < was.len() {
                assert(was[k] == p);
            }
            assert(records(v, readable, n, p));
        }
        if exists|i: int| records(v, readable, i, p) {
            let i = choose|i: int| records(v, readable, i, p);
            if i < n {
                assert(records(hv, hr, i, p));
            }
        }
    }
}

proof fn lemma_handouts(v: Seq<EventView>, some: spec_fn(EventView) -> bool, h: Seq<char>)
    ensures
        outbox::handouts(v, some).contains(h) <==> exists|i: int|
            0 <= i < v.len() && some(#[trigger] v[i]) && v[i].handout() == h,
    decreases v.len(),
{
    if v.len() > 0 {
        let head = v.drop_last();
        lemma_handouts(head, some, h);
        let was = outbox::handouts(head, some);
        let now = outbox::handouts(v, some);
        assert(forall|i: int| 0 <= i < head.len() ==> head[i] == v[i]);
        if was.contains(h) {
            let k = choose|k: int| 0 <= k < was.len() && was[k] == h;
            assert(now[k] == h);
            let i = choose|i: int|
                0 <= i < head.len() && some(#[trigger] head[i]) && head[i].handout() == h;
            assert(some(v[i]));
        }
        if some(v.last()) {
            assert(now[was.len() as int] == v.last().handout());
            assert(v[v.len() - 1] == v.last());
        }
        if now.contains(h) {
            let k = choose|k: int| 0 <= k < now.len() && now[k] == h;
            if k < was.len() {
                assert(was[k] == h);
            }
        }
        if exists|i: int| 0 <= i < v.len() && some(#[trigger] v[i]) && v[i].handout() == h {
            let i = choose|i: int|
                0 <= i < v.len() && some(#[trigger] v[i]) && v[i].handout() == h;
            if i < head.len() {
                assert(some(head[i]));
            }
        }
    }
}

proof fn lemma_patches_left(v: Seq<PendingView>, done: Seq<Seq<char>>, p: PendingView)
    ensures
        outbox::not_among(v, done).contains(p) == (v.contains(p) && !done.contains(p.dispatch)),
    decreases v.len(),
{
    if v.len() > 0 {
        let head = v.drop_last();
        lemma_patches_left(head, done, p);
        let was = outbox::not_among(head, done);
        let now = outbox::not_among(v, done);
        if v.contains(p) {
            let m = choose|m: int| 0 <= m < v.len() && v[m] == p;
            if m < head.len() {
                assert(head[m] == p);
            }
        }
        if head.contains(p) {
            let m = choose|m: int| 0 <= m < head.len() && head[m] == p;
            assert(v[m] == p);
        }
        if was.contains(p) {
            let m = choose|m: int| 0 <= m < was.len() && was[m] == p;
            assert(now[m] == p);
        }
        if !done.contains(v.last().dispatch) {
            assert(now[was.len() as int] == v.last());
            assert(v[v.len() - 1] == v.last());
            if now.contains(p) {
                let m = choose|m: int| 0 <= m < now.len() && now[m] == p;
                if m < was.len() {
                    assert(was[m] == p);
                }
            }
        }
    }
}

/// A patch that was recorded and can be read waits until one of its handout was applied, and
/// no longer.
pub proof fn law_patches_wait_until_applied(
    v: Seq<EventView>,
    readable: Seq<bool>,
    p: PendingView,
)
    requires
        readable.len() == v.len(),
    ensures
        outbox::waiting_patches(v, readable).contains(p) <==> (exists|i: int|
            records(v, readable, i, p)) && forall|i: int|
            0 <= i < v.len() && (#[trigger] v[i]).kind is AgentApplied ==> v[i].handout()
                != p.dispatch,
{
    lemma_patches(v, readable, p);
    lemma_handouts(v, outbox::applies(), p.dispatch);
    lemma_patches_left(
        outbox::patches(v, readable),
        outbox::handouts(v, outbox::applies()),
        p,
    );
    let done = outbox::handouts(v, outbox::applies());
    if done.contains(p.dispatch) {
        let i = choose|i: int|
            0 <= i < v.len() && (outbox::applies())(#[trigger] v[i]) && v[i].handout()
                == p.dispatch;
        assert(v[i].kind is AgentApplied);
    } else {
        assert forall|i: int| 0 <= i < v.len() && (#[trigger] v[i]).kind is AgentApplied implies v[i].handout()
            != p.dispatch by {
            assert((outbox::applies())(v[i]));
        }
    }
}

/// A child of another process stands open.
pub open spec fn sends(v: Seq<EventView>, own: Seq<char>, i: int, c: OpenView) -> bool {
    &&& 0 <= i < v.len()
    &&& v[i].kind is AgentSpawned
    &&& says(v[i], "child"@, c.child)
    &&& c.instance == (match v[i].payload.text_at("instance"@) {
        Some(s) => s,
        None => seq![],
    })
    &&& c.instance != own
    &&& c.dispatch == v[i].handout()
    &&& c.agent == (match v[i].payload.text_at("agent"@) {
        Some(s) => s,
        None => "agent"@,
    })
    &&& c.objective == (match v[i].payload.text_at("objective"@) {
        Some(s) => s,
        None => seq![],
    })
}

proof fn lemma_sent(v: Seq<EventView>, own: Seq<char>, c: OpenView)
    ensures
        recovery::sent(v, own).contains(c) <==> exists|i: int| sends(v, own, i, c),
    decreases v.len(),
{
    reveal_strlit("");
    assert(""@ =~= Seq::<char>::empty());
    if v.len() > 0 {
        let head = v.drop_last();
        lemma_sent(head, own, c);
        let was = recovery::sent(head, own);
        let now = recovery::sent(v, own);
        let n = v.len() - 1;
        lemma_field(v.last(), "child"@);
        if was.contains(c) {
            let k = choose|k: int| 0 <= k < was.len() && was[k] == c;
            assert(now[k] == c);
            let i = choose|i: int| sends(head, own, i, c);
            assert(sends(v, own, i, c));
        }
        if sends(v, own, n, c) {
            assert(now[was.len() as int] =~= c);
            assert(now.contains(c));
        }
        if now.contains(c) && !was.contains(c) {
            let k = choose|k: int| 0 <= k < now.len() && now[k] == c;
            if k < was.len() {
                assert(was[k] == c);
            }
            assert(sends(v, own, n, c));
        }
        if exists|i: int| sends(v, own, i, c) {
            let i = choose|i: int| sends(v, own, i, c);
            if i < n {
                assert(sends(head, own, i, c));
            }
        }
    }
}

proof fn lemma_open_left(v: Seq<OpenView>, done: Seq<Seq<char>>, c: OpenView)
    ensures
        recovery::not_among(v, done).contains(c) == (v.contains(c) && !done.contains(c.dispatch)),
    decreases v.len(),
{
    if v.len() > 0 {
        let head = v.drop_last();
        lemma_open_left(head, done, c);
        let was = recovery::not_among(head, done);
        let now = recovery::not_among(v, done);
        if v.contains(c) {
            let m = choose|m: int| 0 <= m < v.len() && v[m] == c;
            if m < head.len() {
                assert(head[m] == c);
            }
        }
        if head.contains(c) {
            let m = choose|m: int| 0 <= m < head.len() && head[m] == c;
            assert(v[m] == c);
        }
        if was.contains(c) {
            let m = choose|m: int| 0 <= m < was.len() && was[m] == c;
            assert(now[m] == c);
        }
        if !done.contains(v.last().dispatch) {
            assert(now[was.len() as int] == v.last());
            assert(v[v.len() - 1] == v.last());
            if now.contains(c) {
                let m = choose|m: int| 0 <= m < now.len() && now[m] == c;
                if m < was.len() {
                    assert(was[m] == c);
                }
            }
        }
    }
}

/// The event tells the end of a child that it names.
pub open spec fn tells_end(e: EventView) -> bool {
    (e.kind is AgentCompleted || e.kind is AgentFailed || e.kind is AgentCancelled) && !silent(
        e,
        "child"@,
    )
}

/// The children that may have been left behind are those that another process sent and whose
/// end no event tells.
pub proof fn law_open_children_have_not_ended(v: Seq<EventView>, own: Seq<char>, c: OpenView)
    ensures
        recovery::open_children(v, own).contains(c) <==> (exists|i: int| sends(v, own, i, c))
            && forall|i: int|
            0 <= i < v.len() && tells_end(#[trigger] v[i]) ==> v[i].handout() != c.dispatch,
{
    lemma_sent(v, own, c);
    lemma_handouts(v, recovery::ends_named(), c.dispatch);
    lemma_open_left(
        recovery::sent(v, own),
        outbox::handouts(v, recovery::ends_named()),
        c,
    );
    assert forall|i: int| 0 <= i < v.len() implies tells_end(#[trigger] v[i]) == (
    recovery::ends_named())(v[i]) by {
        lemma_field(v[i], "child"@);
    }
}

/// What is reported of a child that was left behind claims nothing: no answer, no work and
/// no patch, under the name and the handout of the child.
pub proof fn law_unknown_outcomes_claim_nothing(c: OpenView)
    ensures
        ({
            let r = recovery::unknown_outcome(c);
            &&& r.status is Failed
            &&& r.agent == c.agent
            &&& r.session == c.child
            &&& r.dispatch == c.dispatch
            &&& r.patch is None
            &&& r.artifact is None
            &&& r.turns == 0
            &&& r.tool_calls == 0
            &&& text::contains(r.summary, c.objective)
            &&& text::contains(r.summary, c.child)
            &&& text::starts_with(r.summary, "[outcome unknown"@)
        }),
{
    let first = "[outcome unknown — Medha exited while this agent was running, so it never recorded a result. It may have finished its work, or none of it. Its objective was: "@;
    let second = "]\n\nRead what it actually did with agent.transcript('"@;
    let s = recovery::unknown_outcome(c).summary;
    let at = first.len() as int;
    assert(s.subrange(at, at + c.objective.len()) =~= c.objective);
    assert(text::occurs(s, c.objective, at));
    let to = at + c.objective.len() + second.len();
    assert(s.subrange(to, to + c.child.len()) =~= c.child);
    assert(text::occurs(s, c.child, to));
    reveal_strlit("[outcome unknown");
    reveal_strlit(
        "[outcome unknown — Medha exited while this agent was running, so it never recorded a result. It may have finished its work, or none of it. Its objective was: ",
    );
    assert(s.subrange(0, 16) =~= "[outcome unknown"@);
}

/// A transcript has a line for each message, call and result, in their order: the first
/// message of the user is the objective, later ones are corrections.
pub proof fn law_transcripts_tell_it_in_order(v: Seq<EventView>, e: EventView)
    ensures
        ({
            let lines = outbox::lines_of(v.push(e));
            let before = outbox::lines_of(v);
            let said = match e.payload.text_at("text"@) {
                Some(s) => s,
                None => seq![],
            };
            let first = forall|i: int|
                0 <= i < v.len() ==> !((#[trigger] v[i]).kind is UserMessage);
            &&& e.kind is UserMessage && first ==> lines == before.push("objective: "@ + said)
            &&& e.kind is UserMessage && !first ==> lines == before.push("steer: "@ + said)
            &&& e.kind is ModelText ==> lines == before.push("said: "@ + said)
            &&& e.kind is ModelIntent || e.kind is ToolObs ==> lines.len() == before.len() + 1
                && lines.drop_last() == before
            &&& e.kind is ModelIntent && e.payload.text_at("tool"@) is Some ==> text::starts_with(
                lines.last(),
                "called "@ + e.payload.text_at("tool"@)->0 + "("@,
            )
            &&& e.kind is ToolObs && e.payload.text_at("status"@) is Some ==> text::ends_with(
                lines.last(),
                e.payload.text_at("status"@)->0,
            )
            &&& !(e.kind is UserMessage || e.kind is ModelText || e.kind is ModelIntent
                || e.kind is ToolObs) ==> lines == before
        }),
{
    let w = v.push(e);
    assert(w.drop_last() =~= v);
    reveal_strlit("objective");
    reveal_strlit("steer");
    reveal_strlit(": ");
    reveal_strlit("objective: ");
    reveal_strlit("steer: ");
    reveal_strlit("");
    assert(""@ =~= Seq::<char>::empty());
    assert("objective"@ + ": "@ =~= "objective: "@);
    assert("steer"@ + ": "@ =~= "steer: "@);
    if e.kind is ModelIntent && e.payload.text_at("tool"@) is Some {
        let p = "called "@ + e.payload.text_at("tool"@)->0 + "("@;
        let l = outbox::lines_of(w).last();
        assert(l.subrange(0, p.len() as int) =~= p);
    }
    if e.kind is ToolObs && e.payload.text_at("status"@) is Some {
        let p = e.payload.text_at("status"@)->0;
        let l = outbox::lines_of(w).last();
        assert(l.subrange(l.len() - p.len(), l.len() as int) =~= p);
    }
}

/// Something was said.
pub open spec fn speaks(m: MessageView) -> bool {
    m.role is Assistant && exists|i: int|
        0 <= i < m.content.len() && !text::is_white(#[trigger] m.content[i])
}

/// The answer of a child is the last thing that it said and that is not blank.
pub proof fn law_the_last_word_counts(v: Seq<MessageView>)
    ensures
        match runner::last_said(v) {
            Some(t) => exists|i: int|
                0 <= i < v.len() && speaks(#[trigger] v[i]) && v[i].content == t && forall|j: int|
                    i < j < v.len() ==> !speaks(#[trigger] v[j]),
            None => forall|j: int| 0 <= j < v.len() ==> !speaks(#[trigger] v[j]),
        },
    decreases v.len(),
{
    if v.len() > 0 {
        let m = v.last();
        let (a, b) = text::law_trim(m.content);
        if text::trim(m.content).len() > 0 {
            assert(m.content[a] == text::trim(m.content)[0]);
        }
        let head = v.drop_last();
        assert(forall|i: int| 0 <= i < head.len() ==> head[i] == v[i]);
        if m.role is Assistant && text::trim(m.content).len() > 0 {
            assert(speaks(v[v.len() - 1]));
        } else {
            law_the_last_word_counts(head);
            assert(!speaks(v[v.len() - 1]));
            if let Some(t) = runner::last_said(v) {
                let i = choose|i: int|
                    0 <= i < head.len() && speaks(#[trigger] head[i]) && head[i].content == t
                        && forall|j: int| i < j < head.len() ==> !speaks(#[trigger] head[j]);
                assert(speaks(v[i]));
                assert forall|j: int| i < j < v.len() implies !speaks(#[trigger] v[j]) by {
                    if j < head.len() {
                        assert(!speaks(head[j]));
                    }
                }
            }
        }
    }
}

/// A child that finished returns its last word, and one that did not finish is told apart
/// from it, with its last word behind a warning. Each kind of end is recorded as such.
pub proof fn law_ends_are_told_apart(stop: StopReason, last: Option<Seq<char>>)
    ensures
        stop is Finished && last is Some ==> runner::summary_of(stop, last) == last->0,
        !(stop is Finished) && last is Some ==> text::ends_with(
            runner::summary_of(stop, last),
            last->0,
        ) && text::starts_with(runner::summary_of(stop, last), "[incomplete"@),
        last is None ==> runner::summary_of(stop, last).len() > 0,
        runner::status_of(stop) is Completed <==> stop is Finished,
        runner::status_of(stop) is Exhausted <==> stop is Budget,
        runner::status_of(stop) is Cancelled <==> stop is Interrupted,
        stop is Interrupted ==> runner::status_of(stop).kind() is AgentCancelled,
        !(stop is Interrupted) ==> runner::status_of(stop).kind() is AgentCompleted,
        AgentStatus::Failed.kind() is AgentFailed,
{
    reveal_strlit("[incomplete");
    reveal_strlit(
        "[incomplete — the agent was stopped before it reported. Treat the following as where it had got to, not as an answer. Re-run with a narrower objective or a higher turn budget.]\n\n",
    );
    reveal_strlit("the agent finished without reporting anything");
    reveal_strlit("the agent was stopped before it produced anything");
    let s = runner::summary_of(stop, last);
    if !(stop is Finished) {
        if let Some(t) = last {
            assert(s.subrange(s.len() - t.len(), s.len() as int) =~= t);
            assert(s.subrange(0, 11) =~= "[incomplete"@);
        }
    }
}

/// The turns and the calls of a conversation are those of its parts together.
pub proof fn law_turns_and_calls_add_up(a: Seq<MessageView>, b: Seq<MessageView>, m: MessageView)
    ensures
        runner::turns(a + b) == runner::turns(a) + runner::turns(b),
        runner::calls(a + b) == runner::calls(a) + runner::calls(b),
        runner::turns(seq![m]) == if m.role is Assistant {
            1nat
        } else {
            0nat
        },
        runner::calls(seq![m]) == m.tool_calls,
    decreases b.len(),
{
    assert(seq![m].drop_last() =~= Seq::<MessageView>::empty());
    assert(runner::turns(seq![m].drop_last()) == 0 && runner::calls(seq![m].drop_last()) == 0);
    if b.len() == 0 {
        assert(a + b =~= a);
    } else {
        assert((a + b).drop_last() =~= a + b.drop_last());
        law_turns_and_calls_add_up(a, b.drop_last(), m);
    }
}

/// What a summary is worth is decided by the labels of all that the tools observed, and by
/// nothing else.
pub proof fn law_observations_decide_the_trust(v: Seq<LabelledEvent>, label: Option<Seq<char>>)
    ensures
        runner::observed(v).contains(label) <==> exists|i: int|
            0 <= i < v.len() && (#[trigger] v[i]).kind is ToolObs && v[i].trust.name() == label,
    decreases v.len(),
{
    if v.len() > 0 {
        let head = v.drop_last();
        law_observations_decide_the_trust(head, label);
        let was = runner::observed(head);
        let now = runner::observed(v);
        assert(forall|i: int| 0 <= i < head.len() ==> head[i] == v[i]);
        if was.contains(label) {
            let k = choose|k: int| 0 <= k < was.len() && was[k] == label;
            assert(now[k] == label);
            let i = choose|i: int|
                0 <= i < head.len() && (#[trigger] head[i]).kind is ToolObs
                    && head[i].trust.name() == label;
            assert(v[i].kind is ToolObs);
        }
        if v.last().kind is ToolObs {
            assert(now[was.len() as int] == v.last().trust.name());
            assert(v[v.len() - 1] == v.last());
        }
        if now.contains(label) {
            let k = choose|k: int| 0 <= k < now.len() && now[k] == label;
            if k < was.len() {
                assert(was[k] == label);
            }
        }
        if exists|i: int|
            0 <= i < v.len() && (#[trigger] v[i]).kind is ToolObs && v[i].trust.name() == label {
            let i = choose|i: int|
                0 <= i < v.len() && (#[trigger] v[i]).kind is ToolObs && v[i].trust.name()
                    == label;
            if i < head.len() {
                assert(head[i].kind is ToolObs);
            }
        }
    }
}

proof fn lemma_holds_part(a: Seq<char>, p: Seq<char>, b: Seq<char>)
    ensures
        text::contains(a + p + b, p),
{
    let s = a + p + b;
    let n = a.len() as int;
    assert(s.subrange(n, n + p.len()) =~= p);
    assert(text::occurs(s, p, n));
}

/// A child is told its task, the form of its answer, what it may do, and how many turns it
/// has.
#[verifier::rlimit(60)]
pub proof fn law_children_are_told_what_they_may_do(
    objective: Seq<char>,
    contract: Option<Seq<char>>,
    writes: bool,
    tools: Seq<Seq<char>>,
    max_turns: Option<u32>,
)
    ensures
        ({
            let s = prompt::told(objective, contract, writes, tools, max_turns);
            &&& text::contains(s, objective)
            &&& contract matches Some(c) ==> text::contains(s, "Your answer must be: "@ + c)
            &&& writes ==> text::contains(s, "You can modify code."@)
            &&& !writes ==> text::contains(s, "You are read-only: you cannot modify anything."@)
            &&& tools.contains("agent.spawn"@) ==> text::contains(s, prompt::DELEGATES@)
            &&& !tools.contains("agent.spawn"@) ==> text::contains(
                s,
                "You cannot delegate: do this work yourself."@,
            )
            &&& tools.contains("agent.message"@) ==> text::contains(s, prompt::MESSAGES@)
            &&& max_turns matches Some(n) ==> text::contains(
                s,
                "You have "@ + number::decimal(n as nat) + " turns."@,
            )
        }),
{
    let turns: nat = match max_turns {
        Some(n) => n as nat,
        None => 1,
    };
    let c = match contract {
        Some(c) => "\nYour answer must be: "@ + c + "\n"@,
        None => seq![],
    };
    let w = if writes {
        prompt::WRITER@
    } else {
        prompt::READER@
    };
    let d = if tools.contains("agent.spawn"@) {
        prompt::DELEGATES@
    } else {
        prompt::WORKS_ALONE@
    };
    let m = if tools.contains("agent.message"@) {
        prompt::MESSAGES@
    } else {
        seq![]
    };
    let s = prompt::told(objective, contract, writes, tools, max_turns);
    let front = prompt::TASK@ + objective + "\n"@ + c + w + d + m;
    assert(s == front + prompt::CONDUCT@ + "\nYou have "@ + number::decimal(turns)
        + prompt::TURNS@);
    lemma_parts(prompt::TASK@, objective, "\n"@, c, w, d, m);
    let t = "\nYou have "@ + number::decimal(turns) + prompt::TURNS@;
    lemma_regrouped(front, prompt::CONDUCT@, "\nYou have "@, number::decimal(turns), prompt::TURNS@);
    lemma_holds_part(front + prompt::CONDUCT@, t, seq![]);
    lemma_kept(front, prompt::CONDUCT@ + t, objective);
    lemma_kept(front, prompt::CONDUCT@ + t, c);
    lemma_kept(front, prompt::CONDUCT@ + t, w);
    lemma_kept(front, prompt::CONDUCT@ + t, d);
    lemma_kept(front, prompt::CONDUCT@ + t, m);
    prompt::lemma_words();
    lemma_within(s, w, "You can modify code."@);
    lemma_within(s, w, "You are read-only: you cannot modify anything."@);
    lemma_within(s, d, "You cannot delegate: do this work yourself."@);
    if let Some(x) = contract {
        lemma_form_told(x);
        lemma_within(s, c, "Your answer must be: "@ + x);
    }
    let p = "You have "@ + number::decimal(turns) + " turns."@;
    lemma_turns_told(turns);
    lemma_within(s, t, p);
}

proof fn lemma_form_told(x: Seq<char>)
    ensures
        text::contains(
            "\nYour answer must be: "@ + x + "\n"@,
            "Your answer must be: "@ + x,
        ),
{
    reveal_strlit("\nYour answer must be: ");
    reveal_strlit("Your answer must be: ");
    let p = "Your answer must be: "@ + x;
    assert("\nYour answer must be: "@ + x + "\n"@ =~= seq!['\n'] + p + "\n"@);
    lemma_holds_part(seq!['\n'], p, "\n"@);
}

proof fn lemma_regrouped(a: Seq<char>, b: Seq<char>, c: Seq<char>, d: Seq<char>, e: Seq<char>)
    ensures
        a + b + c + d + e == a + (b + (c + d + e)),
        a + b + c + d + e == (a + b) + (c + d + e) + Seq::<char>::empty(),
{
    assert(a + b + c + d + e =~= a + (b + (c + d + e)));
    assert(a + b + c + d + e =~= (a + b) + (c + d + e) + Seq::<char>::empty());
}

proof fn lemma_turns_told(turns: nat)
    ensures
        text::contains(
            "\nYou have "@ + number::decimal(turns) + prompt::TURNS@,
            "You have "@ + number::decimal(turns) + " turns."@,
        ),
{
    prompt::lemma_words();
    reveal_strlit("\nYou have ");
    reveal_strlit("You have ");
    reveal_strlit(" turns.");
    let t = "\nYou have "@ + number::decimal(turns) + prompt::TURNS@;
    let p = "You have "@ + number::decimal(turns) + " turns."@;
    assert("\nYou have "@ =~= seq!['\n'] + "You have "@);
    assert(prompt::TURNS@ =~= " turns."@ + prompt::TURNS@.skip(7));
    assert(t =~= seq!['\n'] + p + prompt::TURNS@.skip(7));
    lemma_holds_part(seq!['\n'], p, prompt::TURNS@.skip(7));
}

proof fn lemma_parts(
    a: Seq<char>,
    b: Seq<char>,
    c: Seq<char>,
    d: Seq<char>,
    e: Seq<char>,
    f: Seq<char>,
    g: Seq<char>,
)
    ensures
        ({
            let s = a + b + c + d + e + f + g;
            &&& text::contains(s, b)
            &&& text::contains(s, d)
            &&& text::contains(s, e)
            &&& text::contains(s, f)
            &&& text::contains(s, g)
        }),
{
    let s = a + b + c + d + e + f + g;
    assert(s =~= a + b + (c + d + e + f + g));
    lemma_holds_part(a, b, c + d + e + f + g);
    assert(s =~= (a + b + c) + d + (e + f + g));
    lemma_holds_part(a + b + c, d, e + f + g);
    assert(s =~= (a + b + c + d) + e + (f + g));
    lemma_holds_part(a + b + c + d, e, f + g);
    lemma_holds_part(a + b + c + d + e, f, g);
    assert(s =~= (a + b + c + d + e + f) + g + Seq::<char>::empty());
    lemma_holds_part(a + b + c + d + e + f, g, seq![]);
}

proof fn lemma_within(s: Seq<char>, w: Seq<char>, p: Seq<char>)
    ensures
        text::contains(s, w) && text::contains(w, p) ==> text::contains(s, p),
{
    if text::contains(s, w) && text::contains(w, p) {
        let i = choose|i: int| text::occurs(s, w, i);
        let j = choose|j: int| text::occurs(w, p, j);
        assert(s.subrange(i + j, i + j + p.len()) =~= s.subrange(i, i + w.len()).subrange(
            j,
            j + p.len(),
        ));
        assert(text::occurs(s, p, i + j));
    }
}

proof fn lemma_kept(a: Seq<char>, b: Seq<char>, p: Seq<char>)
    ensures
        text::contains(a, p) ==> text::contains(a + b, p),
{
    if text::contains(a, p) {
        let i = choose|i: int| text::occurs(a, p, i);
        assert((a + b).subrange(i, i + p.len()) =~= a.subrange(i, i + p.len()));
        assert(text::occurs(a + b, p, i));
    }
}

} // verus!
