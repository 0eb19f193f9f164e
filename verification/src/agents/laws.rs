//! What holds of a whole run over the children that were left behind.

use vstd::prelude::*;
use crate::agents::outbox;
use crate::agents::outbox::EventView;
use crate::agents::recovery;
use crate::agents::recovery::{Lease, OpenView, SeenView, Stage, Standing};
use crate::agents::reports::ResultView;

verus! {

/// What a run meets: what becomes of the file of each process, by its name, and the event
/// by which a report is recorded, by the ids of the child and the handout. Nobody else
/// recovers children meanwhile, and recording works.
pub ghost struct World {
    pub owner: spec_fn(Seq<char>) -> Lease,
    pub report: spec_fn(Seq<char>, Seq<char>, ResultView) -> EventView,
}

impl World {
    /// A recorded report tells the end of the child of that handout.
    pub open spec fn wf(self) -> bool {
        forall|child: Seq<char>, dispatch: Seq<char>, result: ResultView|
            {
                let e = #[trigger] (self.report)(child, dispatch, result);
                e.kind.terminal() && e.field("child"@) is Some && e.handout() == dispatch
            }
    }
}

/// How many steps are left with a child.
pub open spec fn rank(stage: Stage) -> nat {
    match stage {
        Stage::Owner => 4,
        Stage::Claim => 3,
        Stage::Recheck => 2,
        Stage::Record => 1,
        Stage::Done => 0,
    }
}

/// Taking up children never goes back.
pub proof fn lemma_take_up_at(open: Seq<OpenView>, at: int)
    ensures
        recovery::take_up(open, at).at >= at,
        at <= open.len() ==> recovery::take_up(open, at).at <= open.len(),
    decreases open.len() - at,
{
    if 0 <= at < open.len() {
        lemma_take_up_at(open, at + 1);
    }
}

/// A run from where a recovery stands to its end: the events then, and how many children
/// were recovered.
pub open spec fn run(open: Seq<OpenView>, s: Standing, log: Seq<EventView>, world: World) -> (
    Seq<EventView>,
    nat,
)
    decreases open.len() - s.at, rank(s.stage),
{
    if s.at < 0 || s.at >= open.len() {
        (log, 0)
    } else {
        proof {
            lemma_take_up_at(open, s.at + 1);
        }
        match s.stage {
            Stage::Owner => run(
                open,
                recovery::next_of(
                    open,
                    s.at,
                    SeenView::Owner((world.owner)(s.action->ProbeOwner_0)),
                ),
                log,
                world,
            ),
            Stage::Claim => run(
                open,
                recovery::next_of(open, s.at, SeenView::Claim(Lease::Taken)),
                log,
                world,
            ),
            Stage::Recheck => run(
                open,
                recovery::next_of(open, s.at, SeenView::Events(log)),
                log,
                world,
            ),
            Stage::Record => {
                let e = (world.report)(
                    s.action->Record_0,
                    s.action->Record_1,
                    s.action->Record_2,
                );
                let rest = run(
                    open,
                    recovery::next_of(open, s.at, SeenView::Recorded(true)),
                    log.push(e),
                    world,
                );
                (rest.0, rest.1 + 1)
            },
            Stage::Done => (log, 0),
        }
    }
}

/// A whole run over the children that the events leave open.
pub open spec fn reaped(log: Seq<EventView>, own: Seq<char>, world: World) -> (
    Seq<EventView>,
    nat,
) {
    let open = recovery::open_children(log, own);
    run(open, recovery::take_up(open, 0), log, world)
}

/// A child is recovered in such a world: its process is gone, it is still open, and its
/// ids are ids.
pub open spec fn recovers(c: OpenView, log: Seq<EventView>, world: World) -> bool {
    &&& match recovery::ulid_shown(c.instance) {
        Some(id) => (world.owner)(id + ".live"@) is Taken || (world.owner)(id + ".live"@) is Missing,
        None => true,
    }
    &&& recovery::ulid_shown(c.dispatch) is Some
    &&& recovery::ulid_shown(c.child) is Some
    &&& !recovery::closed(log, c.dispatch)
}

/// The event by which a child is recovered.
pub open spec fn recovery_event(c: OpenView, world: World) -> EventView {
    (world.report)(
        recovery::ulid_shown(c.child)->0,
        recovery::ulid_shown(c.dispatch)->0,
        recovery::unknown_outcome(c),
    )
}

/// The run child by child.
pub open spec fn run_from(open: Seq<OpenView>, at: int, log: Seq<EventView>, world: World) -> (
    Seq<EventView>,
    nat,
)
    decreases open.len() - at,
{
    if at < 0 || at >= open.len() {
        (log, 0)
    } else if recovers(open[at], log, world) {
        let rest = run_from(
            open,
            at + 1,
            log.push(recovery_event(open[at], world)),
            world,
        );
        (rest.0, rest.1 + 1)
    } else {
        run_from(open, at + 1, log, world)
    }
}

proof fn lemma_run(open: Seq<OpenView>, at: int, log: Seq<EventView>, world: World)
    requires
        0 <= at,
    ensures
        run(open, recovery::take_up(open, at), log, world) == run_from(open, at, log, world),
    decreases open.len() - at,
{
    reveal_with_fuel(run, 6);
    if at < open.len() {
        let c = open[at];
        lemma_run(open, at + 1, log, world);
        lemma_run(open, at + 1, log.push(recovery_event(c, world)), world);
    }
}

proof fn lemma_grows(open: Seq<OpenView>, at: int, log: Seq<EventView>, world: World) -> (more: Seq<
    EventView,
>)
    requires
        world.wf(),
    ensures
        run_from(open, at, log, world).0 == log + more,
        forall|i: int| 0 <= i < more.len() ==> (#[trigger] more[i]).kind.terminal(),
    decreases open.len() - at,
{
    if at < 0 || at >= open.len() {
        assert(log + seq![] =~= log);
        seq![]
    } else if recovers(open[at], log, world) {
        let e = recovery_event(open[at], world);
        let more = lemma_grows(open, at + 1, log.push(e), world);
        assert(log.push(e) + more =~= log + (seq![e] + more));
        seq![e] + more
    } else {
        lemma_grows(open, at + 1, log, world)
    }
}

proof fn lemma_stays_closed(log: Seq<EventView>, more: Seq<EventView>, dispatch: Seq<char>)
    requires
        recovery::closed(log, dispatch),
    ensures
        recovery::closed(log + more, dispatch),
{
    let i = choose|i: int|
        0 <= i < log.len() && (#[trigger] log[i]).kind.terminal() && log[i].handout() == dispatch;
    assert((log + more)[i] == log[i]);
}

proof fn lemma_nothing_left(
    open: Seq<OpenView>,
    at: int,
    log: Seq<EventView>,
    world: World,
    i: int,
)
    requires
        world.wf(),
        0 <= at <= i < open.len(),
        recovery::ulid_shown(open[i].dispatch) matches Some(id) ==> id == open[i].dispatch,
    ensures
        !recovers(open[i], run_from(open, at, log, world).0, world),
    decreases open.len() - at,
{
    let c = open[at];
    let e = recovery_event(c, world);
    let next = if recovers(c, log, world) {
        log.push(e)
    } else {
        log
    };
    if i > at {
        lemma_nothing_left(open, at + 1, next, world, i);
    } else {
        let more = lemma_grows(open, at + 1, next, world);
        if recovers(c, log, world) {
            assert(next[log.len() as int] == e);
            assert(recovery::closed(next, c.dispatch));
            lemma_stays_closed(next, more, c.dispatch);
        } else if recovery::closed(log, c.dispatch) {
            lemma_stays_closed(log, more, c.dispatch);
        }
    }
}

proof fn lemma_sent_before(log: Seq<EventView>, more: Seq<EventView>, own: Seq<char>)
    requires
        forall|i: int| 0 <= i < more.len() ==> (#[trigger] more[i]).kind.terminal(),
    ensures
        recovery::sent(log + more, own) == recovery::sent(log, own),
    decreases more.len(),
{
    if more.len() == 0 {
        assert(log + more =~= log);
    } else {
        let less = more.drop_last();
        assert forall|i: int| 0 <= i < less.len() implies (#[trigger] less[i]).kind.terminal() by {
            assert(less[i] == more[i]);
        }
        lemma_sent_before(log, less, own);
        assert((log + more).drop_last() =~= log + less);
        assert((log + more).last() == more[more.len() - 1]);
    }
}

proof fn lemma_handouts_stay(log: Seq<EventView>, more: Seq<EventView>, h: Seq<char>)
    requires
        outbox::handouts(log, recovery::ends_named()).contains(h),
    ensures
        outbox::handouts(log + more, recovery::ends_named()).contains(h),
    decreases more.len(),
{
    if more.len() == 0 {
        assert(log + more =~= log);
    } else {
        let less = log + more.drop_last();
        lemma_handouts_stay(log, more.drop_last(), h);
        assert((log + more).drop_last() =~= less);
        let head = outbox::handouts(less, recovery::ends_named());
        let k = choose|k: int| 0 <= k < head.len() && head[k] == h;
        assert(outbox::handouts(log + more, recovery::ends_named())[k] == head[k]);
    }
}

proof fn lemma_kept(v: Seq<OpenView>, done: Seq<Seq<char>>, x: OpenView)
    requires
        v.contains(x),
        !done.contains(x.dispatch),
    ensures
        recovery::not_among(v, done).contains(x),
    decreases v.len(),
{
    let all = recovery::not_among(v, done);
    let k = choose|k: int| 0 <= k < v.len() && v[k] == x;
    if k == v.len() - 1 {
        assert(all[all.len() - 1] == x);
    } else {
        assert(v.drop_last()[k] == x);
        lemma_kept(v.drop_last(), done, x);
        let head = recovery::not_among(v.drop_last(), done);
        let j = choose|j: int| 0 <= j < head.len() && head[j] == x;
        assert(all[j] == head[j]);
    }
}

proof fn lemma_open_before(log: Seq<EventView>, more: Seq<EventView>, own: Seq<char>, i: int)
    requires
        forall|i: int| 0 <= i < more.len() ==> (#[trigger] more[i]).kind.terminal(),
        0 <= i < recovery::open_children(log + more, own).len(),
    ensures
        recovery::open_children(log, own).contains(
            recovery::open_children(log + more, own)[i],
        ),
{
    let all = recovery::sent(log + more, own);
    let done = outbox::handouts(log + more, recovery::ends_named());
    let before = outbox::handouts(log, recovery::ends_named());
    let x = recovery::open_children(log + more, own)[i];
    lemma_sent_before(log, more, own);
    recovery::lemma_not_among(all, done);
    assert(recovery::not_among(all, done)[i] == x);
    if before.contains(x.dispatch) {
        lemma_handouts_stay(log, more, x.dispatch);
    }
    lemma_kept(recovery::sent(log, own), before, x);
}

proof fn lemma_idle_run(open: Seq<OpenView>, at: int, log: Seq<EventView>, world: World)
    requires
        0 <= at,
        forall|i: int| 0 <= i < open.len() ==> !recovers(#[trigger] open[i], log, world),
    ensures
        run_from(open, at, log, world) == (log, 0nat),
    decreases open.len() - at,
{
    if at < open.len() {
        assert(!recovers(open[at], log, world));
        lemma_idle_run(open, at + 1, log, world);
    }
}

/// A second run finds nothing to recover: where no process has come to an end since, and
/// none has sent another child, it records nothing. The handouts are named as their ids
/// are shown.
pub proof fn law_reaping_is_idempotent(log: Seq<EventView>, own: Seq<char>, world: World)
    requires
        world.wf(),
        forall|i: int|
            0 <= i < recovery::open_children(log, own).len() ==> (recovery::ulid_shown(
                (#[trigger] recovery::open_children(log, own)[i]).dispatch,
            ) matches Some(id) ==> id == recovery::open_children(log, own)[i].dispatch),
    ensures
        ({
            let now = reaped(log, own, world).0;
            reaped(now, own, world) == (now, 0nat)
        }),
{
    let open = recovery::open_children(log, own);
    lemma_run(open, 0, log, world);
    let now = reaped(log, own, world).0;
    let more = lemma_grows(open, 0, log, world);
    let again = recovery::open_children(now, own);
    assert forall|i: int| 0 <= i < again.len() implies !recovers(#[trigger] again[i], now, world) by {
        lemma_open_before(log, more, own, i);
        let k = choose|k: int| 0 <= k < open.len() && open[k] == again[i];
        lemma_nothing_left(open, 0, log, world, k);
    }
    lemma_run(again, 0, now, world);
    lemma_idle_run(again, 0, now, world);
}

/// A run recovers each child that was left behind: afterwards every child that it found
/// open, whose process is gone and whose ids are ids, has come to an end.
pub proof fn law_abandoned_children_are_reported(
    log: Seq<EventView>,
    own: Seq<char>,
    world: World,
    i: int,
)
    requires
        world.wf(),
        0 <= i < recovery::open_children(log, own).len(),
        recovery::ulid_shown(recovery::open_children(log, own)[i].dispatch) == Some(
            recovery::open_children(log, own)[i].dispatch,
        ),
        recovers(recovery::open_children(log, own)[i], log, world),
    ensures
        recovery::closed(
            reaped(log, own, world).0,
            recovery::open_children(log, own)[i].dispatch,
        ),
{
    let open = recovery::open_children(log, own);
    lemma_run(open, 0, log, world);
    lemma_nothing_left(open, 0, log, world, i);
}

proof fn lemma_single(open: Seq<OpenView>, at: int, log: Seq<EventView>, world: World)
    requires
        world.wf(),
        0 <= at,
        forall|i: int|
            0 <= i < open.len() ==> (recovery::ulid_shown((#[trigger] open[i]).dispatch) matches Some(
                id,
            ) ==> id == open[i].dispatch),
    ensures
        ({
            let now = run_from(open, at, log, world).0;
            &&& now.len() >= log.len()
            &&& now.take(log.len() as int) == log
            &&& forall|i: int|
                log.len() <= i < now.len() ==> (#[trigger] now[i]).kind.terminal()
                    && !recovery::closed(log, now[i].handout())
            &&& forall|i: int, j: int|
                log.len() <= i < j < now.len() ==> (#[trigger] now[i]).handout() != (
                #[trigger] now[j]).handout()
        }),
    decreases open.len() - at,
{
    let now = run_from(open, at, log, world).0;
    if at >= open.len() {
        assert(now.take(log.len() as int) =~= log);
    } else if recovers(open[at], log, world) {
        let e = recovery_event(open[at], world);
        let next = log.push(e);
        lemma_single(open, at + 1, next, world);
        assert(now.take(log.len() as int) =~= log) by {
            assert(now.take(next.len() as int).take(log.len() as int) =~= now.take(
                log.len() as int,
            ));
            assert(next.take(log.len() as int) =~= log);
        }
        assert(now[log.len() as int] == e) by {
            assert(now.take(next.len() as int)[log.len() as int] == next[log.len() as int]);
        }
        assert(e.handout() == open[at].dispatch);
        assert(next[log.len() as int] == e);
        assert(recovery::closed(next, e.handout()));
        assert forall|i: int| log.len() <= i < now.len() implies (#[trigger] now[i]).kind.terminal()
            && !recovery::closed(log, now[i].handout()) by {
            if i > log.len() && recovery::closed(log, now[i].handout()) {
                lemma_stays_closed(log, seq![e], now[i].handout());
                assert(log + seq![e] =~= next);
            }
        }
        assert forall|i: int, j: int| log.len() <= i < j < now.len() implies (
        #[trigger] now[i]).handout() != (#[trigger] now[j]).handout() by {
            if i == log.len() {
                assert(!recovery::closed(next, now[j].handout()));
            }
        }
    } else {
        lemma_single(open, at + 1, log, world);
    }
}

/// A run only adds to the events, what it adds are reports of children that had not come
/// to an end, and no child gets two of them.
pub proof fn law_abandoned_children_are_reported_once(
    log: Seq<EventView>,
    own: Seq<char>,
    world: World,
)
    requires
        world.wf(),
        forall|i: int|
            0 <= i < recovery::open_children(log, own).len() ==> (recovery::ulid_shown(
                (#[trigger] recovery::open_children(log, own)[i]).dispatch,
            ) matches Some(id) ==> id == recovery::open_children(log, own)[i].dispatch),
    ensures
        ({
            let now = reaped(log, own, world).0;
            &&& now.len() >= log.len()
            &&& now.take(log.len() as int) == log
            &&& forall|i: int|
                log.len() <= i < now.len() ==> (#[trigger] now[i]).kind.terminal()
                    && !recovery::closed(log, now[i].handout())
            &&& forall|i: int, j: int|
                log.len() <= i < j < now.len() ==> (#[trigger] now[i]).handout() != (
                #[trigger] now[j]).handout()
        }),
{
    let open = recovery::open_children(log, own);
    lemma_run(open, 0, log, world);
    lemma_single(open, 0, log, world);
}

} // verus!
