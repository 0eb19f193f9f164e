use medha::agents::outbox::{transcript, unapplied, Event, EventKind};
use medha::agents::prompt::{attribute, child_prompt};
use medha::agents::recovery::{
    abandoned, lease_file, recover, recovery_file, Lease, ReapAction, ReapEvent, Reaper,
};
use medha::agents::reports::{undelivered, AgentResult, AgentStatus, TrustLabel};
use medha::agents::runner::{
    conclude, observed_trust, verification, Checked, LabelledEvent, Message, Role, StopReason,
};
use medha::json::{array_of_texts, object1, object2, object5, string, Json};

const ID: &str = "01D39ZY06FGSCTVN4T2V9PKHFZ";
const CHILD: &str = "01D39ZY06FGSCTVN4T2V9PKHF0";
const DEAD: &str = "01D39ZY06FGSCTVN4T2V9PKHF1";
const LIVE: &str = "01D39ZY06FGSCTVN4T2V9PKHF2";

fn prompt_for(tools: &[&str], writes: bool) -> String {
    let tools = tools.iter().map(|t| t.to_string()).collect();
    child_prompt("survey the crate", &None, writes, &tools, Some(10))
}

#[test]
fn a_child_is_told_it_can_delegate_only_when_it_actually_can() {
    let reader = prompt_for(&["fs.read"], false);
    assert!(reader.contains("You cannot delegate"));

    let writer = prompt_for(&["fs.read", "agent.spawn"], true);
    assert!(writer.contains("You may delegate"));
    assert!(!writer.contains("You cannot delegate"));
}

#[test]
fn a_child_is_told_about_messaging_only_when_it_holds_the_tool() {
    assert!(!prompt_for(&["fs.read"], false).contains("send a message"));
    assert!(
        prompt_for(&["fs.read", "agent.message"], false).contains("send a message"),
        "a child that can reach its parent and is not told so will not"
    );
}

#[test]
fn every_child_is_told_it_cannot_ask_but_may_be_stopped_for_approval() {
    let prompt = prompt_for(&["fs.read"], false);
    assert!(prompt.contains("cannot ask a question"));
    assert!(prompt.contains("approval"));
    assert!(prompt.contains("Task:\nsurvey the crate\n"));
    assert!(prompt.contains("\nYou have 10 turns. "));
    assert!(prompt.contains("You are read-only"));
    let one = child_prompt("x", &Some("a list".into()), true, &Vec::new(), None);
    assert!(one.contains("\nYour answer must be: a list\n"));
    assert!(one.contains("You have 1 turns"));
    assert!(one.contains("You can modify code"));
    assert_eq!(attribute("scout", "shell.exec"), "agent 'scout' · shell.exec");
}

fn event(kind: EventKind, payload: Json) -> Event {
    Event { kind, payload }
}

fn spawned(dispatch: &str, agent: &str, instance: &str) -> Event {
    event(
        EventKind::AgentSpawned,
        object5(
            "dispatch",
            string(dispatch),
            "child",
            string(CHILD),
            "agent",
            string(agent),
            "instance",
            string(instance),
            "objective",
            string("look around"),
        ),
    )
}

fn ended(kind: EventKind, dispatch: &str) -> Event {
    event(kind, object2("dispatch", string(dispatch), "child", string(CHILD)))
}

fn report(agent: &str, summary: &str) -> AgentResult {
    AgentResult {
        agent: agent.into(),
        session: CHILD.into(),
        dispatch: String::new(),
        status: AgentStatus::Completed,
        summary: summary.into(),
        artifact: None,
        turns: 3,
        tool_calls: 2,
        duration_ms: 10,
        trust: TrustLabel::Tool,
        patch: None,
    }
}

#[test]
fn a_child_abandoned_by_a_dead_process_is_reported_not_forgotten() {
    let log = vec![spawned(ID, "surveyor", DEAD)];
    let open = abandoned(&log, LIVE);
    assert_eq!(open.len(), 1);
    assert_eq!(open[0].agent, "surveyor");
    let recovery = recover(&open[0], &log).unwrap();
    assert_eq!(recovery.result.session, CHILD);
    assert_eq!(recovery.dispatch, ID);
    assert!(
        recovery.result.summary.contains("outcome unknown"),
        "must not claim to know the child failed"
    );
    assert!(recovery.result.summary.contains("look around"));
}

fn drive(log: &mut Vec<Event>, own: &str, owner: fn() -> Lease, claim: fn() -> Lease) -> usize {
    drive_into(log, &mut Vec::new(), own, owner, claim)
}

fn drive_into(
    log: &mut Vec<Event>,
    reports: &mut Vec<Option<AgentResult>>,
    own: &str,
    owner: fn() -> Lease,
    claim: fn() -> Lease,
) -> usize {
    let (mut reaper, mut action) = Reaper::begin(log, own);
    loop {
        let answer = match action {
            ReapAction::ProbeOwner(file) => {
                assert!(file.ends_with(".live"));
                ReapEvent::Owner(owner())
            }
            ReapAction::ClaimRecovery(file) => {
                assert!(file.ends_with(".recovery"));
                ReapEvent::Claim(claim())
            }
            ReapAction::ReadEvents => ReapEvent::Events(
                log.iter().map(|e| event(e.kind, e.payload.copy())).collect(),
            ),
            ReapAction::Record(r) => {
                log.push(ended(EventKind::AgentFailed, &r.dispatch));
                reports.push(Some(r.result));
                ReapEvent::Recorded(true)
            }
            ReapAction::Finish => return reaper.recovered,
        };
        action = reaper.reap_abandoned(answer);
    }
}

#[test]
fn reaping_is_idempotent_and_leaves_live_children_alone() {
    let mut log = vec![spawned(ID, "abandoned", DEAD), spawned(CHILD, "still-running", LIVE)];
    let mut reports = vec![None, None];
    assert_eq!(drive_into(&mut log, &mut reports, LIVE, || Lease::Missing, || Lease::Taken), 1);
    assert_eq!(drive_into(&mut log, &mut reports, LIVE, || Lease::Missing, || Lease::Taken), 0);

    let reported = undelivered(&log, &reports, "acks");
    assert_eq!(reported.len(), 1);
    assert_eq!(reported[0].agent, "abandoned");
}

#[test]
fn a_live_process_or_another_reaper_is_left_alone() {
    let mut log = vec![spawned(ID, "abandoned", DEAD)];
    assert_eq!(drive(&mut log, LIVE, || Lease::Held, || Lease::Taken), 0);
    assert_eq!(drive(&mut log, LIVE, || Lease::Failed, || Lease::Taken), 0);
    assert_eq!(drive(&mut log, LIVE, || Lease::Taken, || Lease::Held), 0);
    assert_eq!(drive(&mut log, LIVE, || Lease::Taken, || Lease::Taken), 1);
}

#[test]
fn a_child_that_did_report_is_never_reaped() {
    let mut log = vec![
        spawned(ID, "reporter", DEAD),
        ended(EventKind::AgentCompleted, ID),
    ];
    assert_eq!(drive(&mut log, LIVE, || Lease::Missing, || Lease::Taken), 0);
    let reports = vec![None, Some(report("reporter", "the real answer"))];
    let waiting = undelivered(&log, &reports, "acks");
    assert_eq!(waiting.len(), 1);
    assert_eq!(waiting[0].summary, "the real answer");
    assert_eq!(waiting[0].dispatch, ID);
}

#[test]
fn a_follow_up_on_the_same_session_still_reports() {
    let log = vec![
        ended(EventKind::AgentCompleted, "b-first"),
        event(EventKind::AgentDelivered, object1("dispatch", string("b-first"))),
        ended(EventKind::AgentCompleted, "c-second"),
        ended(EventKind::AgentCompleted, "a-third"),
        event(
            EventKind::ToolObs,
            object1("payload", object1("acks", array_of_texts(&vec!["a-third".to_string()]))),
        ),
    ];
    let reports = vec![
        Some(report("w", "first answer")),
        None,
        Some(report("w", "second answer")),
        Some(report("w", "third answer")),
        None,
    ];
    let waiting = undelivered(&log, &reports, "acks");
    assert_eq!(waiting.len(), 1);
    assert_eq!(waiting[0].summary, "second answer");
    let sorted = undelivered(&log, &reports, "other");
    let order: Vec<&str> = sorted.iter().map(|r| r.dispatch.as_str()).collect();
    assert_eq!(order, ["a-third", "c-second"]);
}

#[test]
fn ids_are_read_in_any_case() {
    assert_eq!(
        lease_file(&ID.to_lowercase()).as_deref(),
        Some("01D39ZY06FGSCTVN4T2V9PKHFZ.live")
    );
    assert_eq!(lease_file("nobody"), None);
    assert_eq!(
        recovery_file(ID).unwrap(),
        "01D39ZY06FGSCTVN4T2V9PKHFZ.recovery"
    );
    assert_eq!(recovery_file("x").unwrap_err(), "invalid dispatch id");
}

#[test]
fn a_transcript_tells_objectives_from_corrections() {
    let log = vec![
        event(EventKind::UserMessage, object1("text", string("do it"))),
        event(EventKind::ModelText, object1("text", string("ok"))),
        event(
            EventKind::ModelIntent,
            object2("tool", string("grep"), "args", object1("pattern", string("x"))),
        ),
        event(EventKind::ToolObs, object1("status", string("ok"))),
        event(EventKind::Other, Json::Null),
        event(EventKind::UserMessage, object1("text", string("less"))),
        event(EventKind::ModelIntent, Json::Null),
    ];
    assert_eq!(
        transcript(&log),
        [
            "objective: do it",
            "said: ok",
            "called grep({\"pattern\":\"x\"})",
            "  → ok",
            "steer: less",
            "called ?(null)",
        ]
    );
}

#[test]
fn patches_wait_until_they_are_applied() {
    let patch = |dispatch: &str| {
        event(
            EventKind::AgentPatch,
            object2("dispatch", string(dispatch), "patch", string("diff")),
        )
    };
    let log = vec![
        patch("one"),
        patch("two"),
        patch("three"),
        event(EventKind::AgentApplied, object1("dispatch", string("one"))),
    ];
    let waiting = unapplied(&log, &vec![true, true, false, false]);
    assert_eq!(waiting.len(), 1);
    assert_eq!(waiting[0].dispatch, "two");
    assert_eq!(waiting[0].agent, "agent");
}

fn said(role: Role, content: &str, tool_calls: u32) -> Message {
    Message { role, content: content.into(), tool_calls }
}

#[test]
fn a_run_is_concluded() {
    let talk = vec![
        said(Role::User, "go", 0),
        said(Role::Assistant, "looking", 2),
        said(Role::Tool, "found", 0),
        said(Role::Assistant, "the answer", 1),
        said(Role::Assistant, "   ", 0),
    ];
    let done = conclude(&talk, StopReason::Finished, TrustLabel::Other("web".into()));
    assert_eq!(done.status, AgentStatus::Completed);
    assert_eq!(done.summary, "the answer");
    assert!(matches!(&done.trust, TrustLabel::Other(t) if t == "web"));
    assert_eq!((done.turns, done.tool_calls), (3, 3));
    assert_eq!(done.note, "3 turn(s), 3 tool call(s)");
    assert_eq!(done.event, EventKind::AgentCompleted);

    let cut = conclude(&talk, StopReason::Budget, TrustLabel::Tool);
    assert_eq!(cut.status, AgentStatus::Exhausted);
    assert!(cut.summary.starts_with("[incomplete — "));
    assert!(cut.summary.ends_with("]\n\nthe answer"));

    let none = Vec::new();
    assert_eq!(
        conclude(&none, StopReason::Interrupted, TrustLabel::Tool).summary,
        "the agent was stopped before it produced anything"
    );
    assert_eq!(conclude(&none, StopReason::Interrupted, TrustLabel::Tool).event, EventKind::AgentCancelled);
    assert_eq!(
        conclude(&none, StopReason::Finished, TrustLabel::Tool).summary,
        "the agent finished without reporting anything"
    );
}

#[test]
fn what_the_tools_saw_decides_the_trust() {
    let event = |kind: EventKind, label: &str| LabelledEvent {
        kind,
        trust: TrustLabel::Other(label.into()),
    };
    let labels = observed_trust(&vec![
        event(EventKind::UserMessage, "user"),
        event(EventKind::ToolObs, "web"),
        event(EventKind::ModelText, "model"),
        event(EventKind::ToolObs, "file"),
    ]);
    assert_eq!(labels.len(), 2);
    assert!(matches!(&labels[0], TrustLabel::Other(t) if t == "web"));
    assert!(matches!(&labels[1], TrustLabel::Other(t) if t == "file"));
}

#[test]
fn a_check_that_could_not_run_has_failed() {
    let v = verification(Some("make".into()), Checked::NotRun("no sh".into())).unwrap();
    assert!(!v.passed);
    assert_eq!(v.output, "could not run the verify command: no sh");
    assert!(verification(Some("make".into()), Checked::Ran(true, String::new())).unwrap().passed);
    assert!(verification(None, Checked::Ran(true, String::new())).is_none());
}
