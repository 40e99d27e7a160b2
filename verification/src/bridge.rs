//! The bridge loop: a single control loop that drains the inbound
//! session's stream, resolves each message through the topic router, and
//! dispatches matches to the outbound forwarder; it reacts to a
//! connection-loss marker by bounded reconnection and to a stop request by
//! ending consumption at once.
//!
//! The loop is stated and verified over a scripted drive: the stream is a
//! sequence of tagged elements, each reconnection attempt's outcome and
//! each delivery's confirmation are sequences of scripted results. The
//! real process performs the network operations and feeds their outcomes
//! through exactly these decisions.

use vstd::prelude::*;
use crate::router::TopicRouter;
use crate::router::route;
use crate::session::SessionCore;
use crate::session::SessionState;
use crate::session::MAX_RECONNECT_ATTEMPTS;
use crate::session::spec_request_stop;
use crate::session::spec_connection_lost;
use crate::session::spec_reconnect_success;
use crate::session::spec_close;
use crate::forward::ForwardOutcome;

verus! {

/// One message delivered by the inbound stream: immutable once received,
/// consumed exactly once, discarded after forwarding.
#[derive(Debug)]
pub struct InboundMessage {
    pub topic: String,
    pub payload: Vec<u8>,
    pub qos: i32,
}

/// One element of the inbound stream, as the bridge loop's single dispatch
/// point sees it: a message, the marker that the link dropped, or an
/// external stop request unblocking the stream.
#[derive(Debug)]
pub enum StreamEvent {
    Inbound(InboundMessage),
    ConnectionLost,
    StopRequested,
}

/// One call the bridge loop hands the outbound forwarder: the mapped
/// outbound topic and the payload bytes, unchanged.
#[derive(Debug)]
pub struct ForwardCall {
    pub topic: String,
    pub payload: Vec<u8>,
}

/// The forward calls as pairs of (outbound topic, payload bytes).
pub open spec fn calls_view(v: Seq<ForwardCall>) -> Seq<(Seq<char>, Seq<u8>)> {
    v.map_values(|c: ForwardCall| (c.topic@, c.payload@))
}

/// What one scripted drive of the bridge loop comes to: the forward calls
/// it made in order, the delivery report of each (`None` where no report
/// arrived), how often it invoked reconnection, the session it left
/// behind, and whether the loop exit was graceful (the link still up and
/// disconnected on purpose) rather than reconnection giving out.
pub struct RunView {
    pub forwards: Seq<(Seq<char>, Seq<u8>)>,
    pub reports: Seq<Option<ForwardOutcome>>,
    pub reconnects: nat,
    pub end: SessionCore,
    pub graceful: bool,
}

/// One reconnect invocation over scripted attempt outcomes: attempts are
/// made in order with a fixed delay between them, at most `budget` in all,
/// stopping at the first success. Returns whether the invocation succeeded
/// and how many scripted outcomes it consumed; outcomes past the script's
/// end are failures.
pub open spec fn spec_reconnect(outcomes: Seq<bool>, budget: nat) -> (bool, nat)
    decreases budget,
{
    if budget == 0 || outcomes.len() == 0 {
        (false, 0)
    } else if outcomes[0] {
        (true, 1)
    } else {
        let r = spec_reconnect(outcomes.skip(1), (budget - 1) as nat);
        (r.0, r.1 + 1)
    }
}

/// A reconnect invocation never makes more attempts than its budget, nor
/// consumes more outcomes than the script holds.
pub proof fn lemma_reconnect_consumed_bounds(outcomes: Seq<bool>, budget: nat)
    ensures
        spec_reconnect(outcomes, budget).1 <= budget,
        spec_reconnect(outcomes, budget).1 <= outcomes.len(),
    decreases budget,
{
    if !(budget == 0 || outcomes.len() == 0) && !outcomes[0] {
        lemma_reconnect_consumed_bounds(outcomes.skip(1), (budget - 1) as nat);
    }
}

/// The bridge loop over a scripted stream, from session `s`: for each
/// element in order, a message is resolved and, when mapped, forwarded
/// with its payload unchanged (consuming one delivery report); a
/// connection-loss marker while shutting down ends the loop gracefully,
/// otherwise it triggers one reconnect invocation, continuing on success
/// and ending the loop when the attempts give out; a stop request ends the
/// stream at once, delivering nothing that came after it.
pub open spec fn spec_drive(
    table: Seq<(String, String)>,
    s: SessionCore,
    events: Seq<StreamEvent>,
    recon: Seq<bool>,
    sends: Seq<ForwardOutcome>,
) -> RunView
    decreases events.len(),
{
    if events.len() == 0 {
        RunView {
            forwards: Seq::empty(),
            reports: Seq::empty(),
            reconnects: 0,
            end: spec_close(s),
            graceful: s.state is Connected || s.state is ShuttingDown,
        }
    } else {
        match events[0] {
            StreamEvent::StopRequested => RunView {
                forwards: Seq::empty(),
                reports: Seq::empty(),
                reconnects: 0,
                end: spec_close(spec_request_stop(s)),
                graceful: s.state is Connected || s.state is ShuttingDown,
            },
            StreamEvent::Inbound(m) => match route(table, m.topic@) {
                Some(t) => {
                    let rest = spec_drive(
                        table,
                        s,
                        events.skip(1),
                        recon,
                        if sends.len() > 0 {
                            sends.skip(1)
                        } else {
                            sends
                        },
                    );
                    RunView {
                        forwards: seq![(t, m.payload@)] + rest.forwards,
                        reports: seq![
                            if sends.len() > 0 {
                                Some(sends[0])
                            } else {
                                None
                            },
                        ] + rest.reports,
                        reconnects: rest.reconnects,
                        end: rest.end,
                        graceful: rest.graceful,
                    }
                },
                None => spec_drive(table, s, events.skip(1), recon, sends),
            },
            StreamEvent::ConnectionLost => {
                if s.state is ShuttingDown {
                    RunView {
                        forwards: Seq::empty(),
                        reports: Seq::empty(),
                        reconnects: 0,
                        end: spec_close(s),
                        graceful: true,
                    }
                } else {
                    let r = spec_reconnect(recon, MAX_RECONNECT_ATTEMPTS as nat);
                    if r.0 {
                        let rest = spec_drive(
                            table,
                            spec_reconnect_success(spec_connection_lost(s)),
                            events.skip(1),
                            recon.skip(r.1 as int),
                            sends,
                        );
                        RunView {
                            forwards: rest.forwards,
                            reports: rest.reports,
                            reconnects: rest.reconnects + 1,
                            end: rest.end,
                            graceful: rest.graceful,
                        }
                    } else {
                        RunView {
                            forwards: Seq::empty(),
                            reports: Seq::empty(),
                            reconnects: 1,
                            end: SessionCore {
                                state: SessionState::Closed,
                                reconnect_attempts: r.1 as u32,
                                stop_requested: s.stop_requested,
                            },
                            graceful: false,
                        }
                    }
                }
            },
        }
    }
}

/// A drive invokes reconnection at most once per stream element.
pub proof fn lemma_drive_reconnects_bound(
    table: Seq<(String, String)>,
    s: SessionCore,
    events: Seq<StreamEvent>,
    recon: Seq<bool>,
    sends: Seq<ForwardOutcome>,
)
    ensures
        spec_drive(table, s, events, recon, sends).reconnects <= events.len(),
    decreases events.len(),
{
    if events.len() > 0 {
        match events[0] {
            StreamEvent::StopRequested => {},
            StreamEvent::Inbound(m) => match route(table, m.topic@) {
                Some(t) => {
                    lemma_drive_reconnects_bound(
                        table,
                        s,
                        events.skip(1),
                        recon,
                        if sends.len() > 0 {
                            sends.skip(1)
                        } else {
                            sends
                        },
                    );
                },
                None => {
                    lemma_drive_reconnects_bound(table, s, events.skip(1), recon, sends);
                },
            },
            StreamEvent::ConnectionLost => {
                if !(s.state is ShuttingDown) {
                    let r = spec_reconnect(recon, MAX_RECONNECT_ATTEMPTS as nat);
                    if r.0 {
                        lemma_drive_reconnects_bound(
                            table,
                            spec_reconnect_success(spec_connection_lost(s)),
                            events.skip(1),
                            recon.skip(r.1 as int),
                            sends,
                        );
                    }
                }
            },
        }
    }
}

/// The exec outcome of a scripted drive, field for field what `RunView`
/// states.
pub struct ScriptOutcome {
    pub forwards: Vec<ForwardCall>,
    pub reports: Vec<Option<ForwardOutcome>>,
    pub reconnect_invocations: usize,
    pub end: SessionCore,
    pub graceful: bool,
}

/// The exec outcome agrees with a drive's mathematical outcome.
pub open spec fn outcome_matches(out: ScriptOutcome, rv: RunView) -> bool {
    &&& calls_view(out.forwards@) == rv.forwards
    &&& out.reports@ == rv.reports
    &&& out.reconnect_invocations as nat == rv.reconnects
    &&& out.end == rv.end
    &&& out.graceful == rv.graceful
}

/// One reconnect invocation over the scripted outcomes from position `j`,
/// mirroring `spec_reconnect` attempt for attempt.
fn reconnect_script(recon: &Vec<bool>, j: usize, budget: u32) -> (r: (bool, usize))
    requires
        j <= recon@.len(),
    ensures
        ({
            let sr = spec_reconnect(recon@.skip(j as int), budget as nat);
            &&& r.0 == sr.0
            &&& r.1 as nat == sr.1
            &&& j + r.1 <= recon@.len()
            &&& r.1 <= budget
        }),
    decreases budget,
{
    if budget == 0 || j == recon.len() {
        (false, 0)
    } else {
        proof {
            assert(recon@.skip(j as int)[0] == recon@[j as int]);
            assert(recon@.skip(j as int).skip(1) =~= recon@.skip(j + 1));
        }
        if recon[j] {
            (true, 1)
        } else {
            let rr = reconnect_script(recon, j + 1, budget - 1);
            (rr.0, rr.1 + 1)
        }
    }
}

/// The drive from element `i` on, with `j` reconnection outcomes and `k`
/// delivery reports already consumed.
fn drive_from(
    router: &TopicRouter,
    s: SessionCore,
    events: &Vec<StreamEvent>,
    i: usize,
    recon: &Vec<bool>,
    j: usize,
    sends: &Vec<ForwardOutcome>,
    k: usize,
) -> (out: ScriptOutcome)
    requires
        i <= events@.len(),
        j <= recon@.len(),
        k <= sends@.len(),
    ensures
        outcome_matches(
            out,
            spec_drive(
                router@,
                s,
                events@.skip(i as int),
                recon@.skip(j as int),
                sends@.skip(k as int),
            ),
        ),
    decreases events@.len() - i,
{
    let ghost evs = events@.skip(i as int);
    if i == events.len() {
        let out = ScriptOutcome {
            forwards: Vec::new(),
            reports: Vec::new(),
            reconnect_invocations: 0,
            end: SessionCore {
                state: SessionState::Closed,
                reconnect_attempts: s.reconnect_attempts,
                stop_requested: s.stop_requested,
            },
            graceful: match s.state {
                SessionState::Connected => true,
                SessionState::ShuttingDown => true,
                _ => false,
            },
        };
        proof {
            assert(evs.len() == 0);
            assert(calls_view(out.forwards@) =~= Seq::<(Seq<char>, Seq<u8>)>::empty());
            assert(out.end == spec_close(s));
        }
        out
    } else {
        proof {
            assert(evs[0] == events@[i as int]);
            assert(evs.skip(1) =~= events@.skip(i + 1));
        }
        let ev = &events[i];
        match ev {
            StreamEvent::StopRequested => {
                let out = ScriptOutcome {
                    forwards: Vec::new(),
                    reports: Vec::new(),
                    reconnect_invocations: 0,
                    end: SessionCore {
                        state: SessionState::Closed,
                        reconnect_attempts: s.reconnect_attempts,
                        stop_requested: true,
                    },
                    graceful: match s.state {
                        SessionState::Connected => true,
                        SessionState::ShuttingDown => true,
                        _ => false,
                    },
                };
                proof {
                    assert(calls_view(out.forwards@) =~= Seq::<(Seq<char>, Seq<u8>)>::empty());
                    assert(out.end == spec_close(spec_request_stop(s)));
                }
                out
            },
            StreamEvent::Inbound(m) => {
                match router.resolve(&m.topic) {
                    Some(t) => {
                        let report: Option<ForwardOutcome> = if k < sends.len() {
                            Some(sends[k])
                        } else {
                            None
                        };
                        let k2: usize = if k < sends.len() {
                            k + 1
                        } else {
                            k
                        };
                        proof {
                            if k < sends@.len() {
                                assert(sends@.skip(k as int)[0] == sends@[k as int]);
                                assert(sends@.skip(k as int).skip(1) =~= sends@.skip(
                                    k2 as int,
                                ));
                            } else {
                                assert(sends@.skip(k as int).len() == 0);
                            }
                        }
                        let mut rest = drive_from(router, s, events, i + 1, recon, j, sends, k2);
                        let call = ForwardCall { topic: t, payload: crate::forward::copy_bytes(&m.payload) };
                        let ghost cview = (call.topic@, call.payload@);
                        let ghost old_forwards = rest.forwards@;
                        let ghost old_reports = rest.reports@;
                        rest.forwards.insert(0, call);
                        rest.reports.insert(0, report);
                        let out = ScriptOutcome {
                            forwards: rest.forwards,
                            reports: rest.reports,
                            reconnect_invocations: rest.reconnect_invocations,
                            end: rest.end,
                            graceful: rest.graceful,
                        };
                        proof {
                            assert(calls_view(out.forwards@) =~= seq![cview] + calls_view(
                                old_forwards,
                            ));
                            assert(out.reports@ =~= seq![report] + old_reports);
                        }
                        out
                    },
                    None => drive_from(router, s, events, i + 1, recon, j, sends, k),
                }
            },
            StreamEvent::ConnectionLost => {
                let shutting = match s.state {
                    SessionState::ShuttingDown => true,
                    _ => false,
                };
                if shutting {
                    let out = ScriptOutcome {
                        forwards: Vec::new(),
                        reports: Vec::new(),
                        reconnect_invocations: 0,
                        end: SessionCore {
                            state: SessionState::Closed,
                            reconnect_attempts: s.reconnect_attempts,
                            stop_requested: s.stop_requested,
                        },
                        graceful: true,
                    };
                    proof {
                        assert(calls_view(out.forwards@) =~= Seq::<(Seq<char>, Seq<u8>)>::empty());
                        assert(out.end == spec_close(s));
                    }
                    out
                } else {
                    let r = reconnect_script(recon, j, MAX_RECONNECT_ATTEMPTS);
                    if r.0 {
                        let s2 = SessionCore {
                            state: SessionState::Connected,
                            reconnect_attempts: 0,
                            stop_requested: s.stop_requested,
                        };
                        proof {
                            assert(s2 == spec_reconnect_success(spec_connection_lost(s)));
                            assert(recon@.skip(j as int).skip(
                                spec_reconnect(
                                    recon@.skip(j as int),
                                    MAX_RECONNECT_ATTEMPTS as nat,
                                ).1 as int,
                            ) =~= recon@.skip(j + r.1));
                        }
                        let rl = recon.len();
                        proof {
                            assert(j + r.1 <= rl);
                        }
                        let rest = drive_from(router, s2, events, i + 1, recon, j + r.1, sends, k);
                        proof {
                            lemma_drive_reconnects_bound(
                                router@,
                                s2,
                                events@.skip(i + 1),
                                recon@.skip(j + r.1),
                                sends@.skip(k as int),
                            );
                        }
                        ScriptOutcome {
                            forwards: rest.forwards,
                            reports: rest.reports,
                            reconnect_invocations: rest.reconnect_invocations + 1,
                            end: rest.end,
                            graceful: rest.graceful,
                        }
                    } else {
                        let out = ScriptOutcome {
                            forwards: Vec::new(),
                            reports: Vec::new(),
                            reconnect_invocations: 1,
                            end: SessionCore {
                                state: SessionState::Closed,
                                reconnect_attempts: r.1 as u32,
                                stop_requested: s.stop_requested,
                            },
                            graceful: false,
                        };
                        proof {
                            assert(calls_view(out.forwards@) =~= Seq::<(Seq<char>, Seq<u8>)>::empty());
                        }
                        out
                    }
                }
            },
        }
    }
}

/// Drives the bridge loop over a scripted stream from session `start`:
/// the decisions of the real loop, element for element, with every
/// network outcome scripted. What comes out is exactly `spec_drive` of
/// the scripts.
pub fn run_script(
    router: &TopicRouter,
    start: SessionCore,
    events: &Vec<StreamEvent>,
    recon: &Vec<bool>,
    sends: &Vec<ForwardOutcome>,
) -> (out: ScriptOutcome)
    ensures
        outcome_matches(out, spec_drive(router@, start, events@, recon@, sends@)),
{
    proof {
        assert(events@.skip(0) =~= events@);
        assert(recon@.skip(0) =~= recon@);
        assert(sends@.skip(0) =~= sends@);
    }
    drive_from(router, start, events, 0, recon, 0, sends, 0)
}

/// The forward calls that a stream of messages alone is owed: one call
/// per mapped message, carrying the mapped outbound topic and the
/// identical payload bytes; no call for an unmapped message.
pub open spec fn spec_expected_forwards(
    table: Seq<(String, String)>,
    events: Seq<StreamEvent>,
) -> Seq<(Seq<char>, Seq<u8>)>
    decreases events.len(),
{
    if events.len() == 0 {
        Seq::empty()
    } else {
        let rest = spec_expected_forwards(table, events.skip(1));
        match events[0] {
            StreamEvent::Inbound(m) => match route(table, m.topic@) {
                Some(t) => seq![(t, m.payload@)] + rest,
                None => rest,
            },
            _ => rest,
        }
    }
}

/// Every element of `events` is a message.
pub open spec fn all_inbound(events: Seq<StreamEvent>) -> bool {
    forall|i: int| 0 <= i < events.len() ==> events[i] is Inbound
}

/// On a stream of messages alone, the bridge forwards exactly the mapped
/// ones: one call per message on a topic in the table, with the mapped
/// outbound topic and the identical payload, and no call for a message on
/// an unmapped topic.
pub proof fn lemma_message_forwarding(
    table: Seq<(String, String)>,
    s: SessionCore,
    events: Seq<StreamEvent>,
    recon: Seq<bool>,
    sends: Seq<ForwardOutcome>,
)
    requires
        all_inbound(events),
    ensures
        spec_drive(table, s, events, recon, sends).forwards == spec_expected_forwards(
            table,
            events,
        ),
    decreases events.len(),
{
    if events.len() > 0 {
        assert(events[0] is Inbound);
        assert(all_inbound(events.skip(1))) by {
            assert(forall|i: int|
                0 <= i < events.skip(1).len() ==> events.skip(1)[i] == events[i + 1]);
        }
        match events[0] {
            StreamEvent::Inbound(m) => {
                match route(table, m.topic@) {
                    Some(t) => {
                        lemma_message_forwarding(
                            table,
                            s,
                            events.skip(1),
                            recon,
                            if sends.len() > 0 {
                                sends.skip(1)
                            } else {
                                sends
                            },
                        );
                    },
                    None => {
                        lemma_message_forwarding(table, s, events.skip(1), recon, sends);
                    },
                }
            },
            _ => {},
        }
    }
}

/// A message on a mapped topic produces exactly one forward call, with
/// the mapped outbound topic and the identical payload bytes.
pub proof fn lemma_mapped_message_forwards_once(
    table: Seq<(String, String)>,
    s: SessionCore,
    m: InboundMessage,
    recon: Seq<bool>,
    sends: Seq<ForwardOutcome>,
)
    requires
        route(table, m.topic@) is Some,
    ensures
        ({
            let rv = spec_drive(table, s, seq![StreamEvent::Inbound(m)], recon, sends);
            &&& rv.forwards.len() == 1
            &&& rv.forwards[0] == (route(table, m.topic@).unwrap(), m.payload@)
        }),
{
    reveal_with_fuel(spec_drive, 2);
    let events = seq![StreamEvent::Inbound(m)];
    assert(events[0] == StreamEvent::Inbound(m));
    assert(events.skip(1).len() == 0);
}

/// A message on an unmapped topic produces no forward call at all.
pub proof fn lemma_unmapped_message_ignored(
    table: Seq<(String, String)>,
    s: SessionCore,
    m: InboundMessage,
    recon: Seq<bool>,
    sends: Seq<ForwardOutcome>,
)
    requires
        route(table, m.topic@) is None,
    ensures
        spec_drive(table, s, seq![StreamEvent::Inbound(m)], recon, sends).forwards.len() == 0,
{
    reveal_with_fuel(spec_drive, 2);
    let events = seq![StreamEvent::Inbound(m)];
    assert(events[0] == StreamEvent::Inbound(m));
    assert(events.skip(1).len() == 0);
}

/// A script on which every attempt fails never reconnects, under any
/// budget.
pub proof fn lemma_all_failures_exhaust(outcomes: Seq<bool>, budget: nat)
    requires
        forall|i: int| 0 <= i < outcomes.len() ==> !outcomes[i],
    ensures
        !spec_reconnect(outcomes, budget).0,
    decreases budget,
{
    if !(budget == 0 || outcomes.len() == 0) {
        assert(!outcomes[0]);
        assert(forall|i: int|
            0 <= i < outcomes.skip(1).len() ==> outcomes.skip(1)[i] == outcomes[i + 1]);
        lemma_all_failures_exhaust(outcomes.skip(1), (budget - 1) as nat);
    }
}

/// When the link drops and every reconnection attempt fails, the loop
/// terminates at once: no forward call, exactly one reconnect invocation
/// of at most the capped number of attempts, the session closed, nothing
/// after the marker consumed — and no error raised, since the drive is a
/// total function.
pub proof fn lemma_reconnect_exhaustion(
    table: Seq<(String, String)>,
    s: SessionCore,
    tail: Seq<StreamEvent>,
    recon: Seq<bool>,
    sends: Seq<ForwardOutcome>,
)
    requires
        !(s.state is ShuttingDown),
        !spec_reconnect(recon, MAX_RECONNECT_ATTEMPTS as nat).0,
    ensures
        ({
            let rv = spec_drive(table, s, seq![StreamEvent::ConnectionLost] + tail, recon, sends);
            &&& rv.forwards.len() == 0
            &&& rv.reconnects == 1
            &&& rv.end.state is Closed
            &&& rv.end.reconnect_attempts <= MAX_RECONNECT_ATTEMPTS
            &&& !rv.graceful
        }),
{
    let events = seq![StreamEvent::ConnectionLost] + tail;
    assert(events[0] == StreamEvent::ConnectionLost);
    lemma_reconnect_consumed_bounds(recon, MAX_RECONNECT_ATTEMPTS as nat);
}

/// A stop request ends the stream at once: whatever the broker sent after
/// it is never delivered, so the drive of the stream cut at the stop is
/// the whole drive.
pub proof fn lemma_stop_ends_stream(
    table: Seq<(String, String)>,
    s: SessionCore,
    pre: Seq<StreamEvent>,
    post: Seq<StreamEvent>,
    recon: Seq<bool>,
    sends: Seq<ForwardOutcome>,
)
    ensures
        spec_drive(table, s, pre + seq![StreamEvent::StopRequested] + post, recon, sends)
            == spec_drive(table, s, pre + seq![StreamEvent::StopRequested], recon, sends),
    decreases pre.len(),
{
    let e1 = pre + seq![StreamEvent::StopRequested] + post;
    let e2 = pre + seq![StreamEvent::StopRequested];
    if pre.len() == 0 {
        assert(e1[0] == StreamEvent::StopRequested);
        assert(e2[0] == StreamEvent::StopRequested);
    } else {
        assert(e1[0] == pre[0]);
        assert(e2[0] == pre[0]);
        assert(e1.skip(1) =~= pre.skip(1) + seq![StreamEvent::StopRequested] + post);
        assert(e2.skip(1) =~= pre.skip(1) + seq![StreamEvent::StopRequested]);
        match pre[0] {
            StreamEvent::StopRequested => {},
            StreamEvent::Inbound(m) => {
                match route(table, m.topic@) {
                    Some(t) => {
                        lemma_stop_ends_stream(
                            table,
                            s,
                            pre.skip(1),
                            post,
                            recon,
                            if sends.len() > 0 {
                                sends.skip(1)
                            } else {
                                sends
                            },
                        );
                    },
                    None => {
                        lemma_stop_ends_stream(table, s, pre.skip(1), post, recon, sends);
                    },
                }
            },
            StreamEvent::ConnectionLost => {
                if !(s.state is ShuttingDown) {
                    let r = spec_reconnect(recon, MAX_RECONNECT_ATTEMPTS as nat);
                    if r.0 {
                        lemma_stop_ends_stream(
                            table,
                            spec_reconnect_success(spec_connection_lost(s)),
                            pre.skip(1),
                            post,
                            recon.skip(r.1 as int),
                            sends,
                        );
                    }
                }
            },
        }
    }
}

/// Delivery confirmations steer nothing: whatever each delivery came to,
/// the same stream and reconnection script produce the same forward calls,
/// the same number of reconnect invocations and the same final session.
/// A timed-out or rejected forward is logged and dropped, and the next
/// message is forwarded as if nothing had happened.
pub proof fn lemma_forwards_independent_of_delivery(
    table: Seq<(String, String)>,
    s: SessionCore,
    events: Seq<StreamEvent>,
    recon: Seq<bool>,
    sends1: Seq<ForwardOutcome>,
    sends2: Seq<ForwardOutcome>,
)
    ensures
        ({
            let a = spec_drive(table, s, events, recon, sends1);
            let b = spec_drive(table, s, events, recon, sends2);
            &&& a.forwards == b.forwards
            &&& a.reconnects == b.reconnects
            &&& a.end == b.end
            &&& a.graceful == b.graceful
        }),
    decreases events.len(),
{
    if events.len() > 0 {
        match events[0] {
            StreamEvent::StopRequested => {},
            StreamEvent::Inbound(m) => {
                match route(table, m.topic@) {
                    Some(t) => {
                        lemma_forwards_independent_of_delivery(
                            table,
                            s,
                            events.skip(1),
                            recon,
                            if sends1.len() > 0 {
                                sends1.skip(1)
                            } else {
                                sends1
                            },
                            if sends2.len() > 0 {
                                sends2.skip(1)
                            } else {
                                sends2
                            },
                        );
                    },
                    None => {
                        lemma_forwards_independent_of_delivery(
                            table,
                            s,
                            events.skip(1),
                            recon,
                            sends1,
                            sends2,
                        );
                    },
                }
            },
            StreamEvent::ConnectionLost => {
                if !(s.state is ShuttingDown) {
                    let r = spec_reconnect(recon, MAX_RECONNECT_ATTEMPTS as nat);
                    if r.0 {
                        lemma_forwards_independent_of_delivery(
                            table,
                            spec_reconnect_success(spec_connection_lost(s)),
                            events.skip(1),
                            recon.skip(r.1 as int),
                            sends1,
                            sends2,
                        );
                    }
                }
            },
        }
    }
}

} // verus!
