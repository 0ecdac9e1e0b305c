//! What holds of a whole drive cycle.
//!
//! A cycle is a run of the state machine of [`crate::drive`]: a sequence of
//! turns, each with the input that was given. The laws hold of every run in
//! which each input answers the action before it, whatever the endpoint, the
//! connections and the socket answered and in whatever order the table was
//! walked.

use bytes::BytesMut;
use vstd::prelude::*;

use crate::buffer::buffer_bytes;
use crate::drive::{
    collect_step, cycle_start, drive_step, is_due, lemma_contains_push, lists, walks, CycleState,
    DriveAction, DriveInput, Phase, RECV_BATCH_SIZE, RECV_BUF_SIZE,
};
use crate::operations::is_earliest;
use crate::table_laws::law_earliest_is_due_first;
use crate::types::{
    reported, ConnectionHandle, DatagramEvent, Dir, EndpointMessage, Event, Instant, PollEvent,
    PollEventOf, Protocol, Transmit,
};

verus! {

/// One turn of a cycle.
pub struct Turn<P: Protocol> {
    /// What became of the action before.
    pub input: DriveInput<P>,
    /// What the receive buffer holds.
    pub recv_buf: Seq<u8>,
    /// The order in which the table is walked, where the turn begins a walk.
    pub order: Seq<ConnectionHandle>,
}

/// Where a run of turns leads.
pub struct Run<P: Protocol> {
    /// The connections in the table.
    pub handles: Set<ConnectionHandle>,
    /// The state of the cycle.
    pub cycle: CycleState<P>,
    /// The actions asked for, one per turn.
    pub actions: Seq<DriveAction<P, Seq<u8>>>,
}

/// The run of a cycle at the time `now`, on a table with these connections.
pub open spec fn run<P: Protocol>(
    handles: Set<ConnectionHandle>,
    now: Instant,
    turns: Seq<Turn<P>>,
) -> Run<P>
    decreases turns.len(),
{
    if turns.len() == 0 {
        Run { handles, cycle: cycle_start(now), actions: Seq::empty() }
    } else {
        let before = run(handles, now, turns.drop_last());
        let turn = turns.last();
        let step = drive_step(
            before.handles,
            turn.recv_buf,
            before.cycle,
            turn.input,
            turn.order,
        );
        Run {
            handles: step.handles,
            cycle: step.cycle,
            actions: before.actions.push(step.action),
        }
    }
}

/// Each input answers the action before it, and each walk through the table
/// names the connections that are in it.
pub open spec fn proper<P: Protocol>(
    handles: Set<ConnectionHandle>,
    now: Instant,
    turns: Seq<Turn<P>>,
) -> bool
    decreases turns.len(),
{
    turns.len() > 0 ==> {
        let before = run(handles, now, turns.drop_last());
        let turn = turns.last();
        &&& proper(handles, now, turns.drop_last())
        &&& walks(before.cycle, turn.input) ==> lists(turn.order, before.handles)
        &&& !(run(handles, now, turns).actions.last() is Unexpected)
    }
}

/// The action that the next input of a run answers, if there was one.
pub open spec fn asked<P: Protocol>(before: Run<P>) -> Option<DriveAction<P, Seq<u8>>> {
    if before.actions.len() == 0 {
        None
    } else {
        Some(before.actions.last())
    }
}

/// What `pick` finds in the exchanges of a run, in order. An exchange is an
/// input and the action that it answers.
pub open spec fn exchanged<P: Protocol, T>(
    handles: Set<ConnectionHandle>,
    now: Instant,
    turns: Seq<Turn<P>>,
    pick: spec_fn(Option<DriveAction<P, Seq<u8>>>, DriveInput<P>) -> Option<T>,
) -> Seq<T>
    decreases turns.len(),
{
    if turns.len() == 0 {
        Seq::empty()
    } else {
        let before = run(handles, now, turns.drop_last());
        let rest = exchanged(handles, now, turns.drop_last(), pick);
        match pick(asked(before), turns.last().input) {
            Some(found) => rest.push(found),
            None => rest,
        }
    }
}

/// What `pick` finds in a sequence of actions, in order.
pub open spec fn issued<P: Protocol, T>(
    actions: Seq<DriveAction<P, Seq<u8>>>,
    pick: spec_fn(DriveAction<P, Seq<u8>>) -> Option<T>,
) -> Seq<T>
    decreases actions.len(),
{
    if actions.len() == 0 {
        Seq::empty()
    } else {
        let rest = issued(actions.drop_last(), pick);
        match pick(actions.last()) {
            Some(found) => rest.push(found),
            None => rest,
        }
    }
}

/// The announcements in the exchanges of a run that have to be reported: a
/// connection attempt that the endpoint found in a datagram, and an event of a
/// connection that has a poll event.
pub open spec fn announcements<P: Protocol>() -> spec_fn(
    Option<DriveAction<P, Seq<u8>>>,
    DriveInput<P>,
) -> Option<PollEventOf<P>> {
    |action: Option<DriveAction<P, Seq<u8>>>, input: DriveInput<P>|
        match (action, input) {
            (
                Some(DriveAction::Handle { .. }),
                DriveInput::Handled(Some(DatagramEvent::NewConnection(incoming))),
            ) => Some(PollEvent::NewConnection(incoming)),
            (Some(DriveAction::Poll { connection }), DriveInput::Event(Some(event))) => reported(
                connection,
                event,
            ),
            _ => None,
        }
}

/// The messages to the endpoint in the exchanges of a run, with the connections
/// that they come from.
pub open spec fn messages<P: Protocol>() -> spec_fn(
    Option<DriveAction<P, Seq<u8>>>,
    DriveInput<P>,
) -> Option<(ConnectionHandle, EndpointMessage<P::EndpointEvent>)> {
    |action: Option<DriveAction<P, Seq<u8>>>, input: DriveInput<P>|
        match (action, input) {
            (
                Some(DriveAction::PollEndpointEvent { connection }),
                DriveInput::EndpointEvent(Some(message)),
            ) => Some((connection, message)),
            _ => None,
        }
}

/// The connections that had no more message for the endpoint.
pub open spec fn without_message<P: Protocol>() -> spec_fn(
    Option<DriveAction<P, Seq<u8>>>,
    DriveInput<P>,
) -> Option<ConnectionHandle> {
    |action: Option<DriveAction<P, Seq<u8>>>, input: DriveInput<P>|
        match (action, input) {
            (
                Some(DriveAction::PollEndpointEvent { connection }),
                DriveInput::EndpointEvent(None),
            ) => Some(connection),
            _ => None,
        }
}

/// The connections that had nothing more to announce.
pub open spec fn without_announcement<P: Protocol>() -> spec_fn(
    Option<DriveAction<P, Seq<u8>>>,
    DriveInput<P>,
) -> Option<ConnectionHandle> {
    |action: Option<DriveAction<P, Seq<u8>>>, input: DriveInput<P>|
        match (action, input) {
            (Some(DriveAction::Poll { connection }), DriveInput::Event(None)) => Some(connection),
            _ => None,
        }
}

/// The connection attempts that the endpoint found in datagrams, in the
/// exchanges of a run.
pub open spec fn attempts<P: Protocol>() -> spec_fn(
    Option<DriveAction<P, Seq<u8>>>,
    DriveInput<P>,
) -> Option<PollEventOf<P>> {
    |action: Option<DriveAction<P, Seq<u8>>>, input: DriveInput<P>|
        match (action, input) {
            (
                Some(DriveAction::Handle { .. }),
                DriveInput::Handled(Some(DatagramEvent::NewConnection(incoming))),
            ) => Some(PollEvent::NewConnection(incoming)),
            _ => None,
        }
}

/// What the attempts to receive a datagram led to, in the exchanges of a run.
pub open spec fn receptions_answered<P: Protocol>() -> spec_fn(
    Option<DriveAction<P, Seq<u8>>>,
    DriveInput<P>,
) -> Option<DriveInput<P>> {
    |action: Option<DriveAction<P, Seq<u8>>>, input: DriveInput<P>|
        match action {
            Some(DriveAction::Receive) => Some(input),
            _ => None,
        }
}

/// The attempts to receive a datagram among the actions of a run.
pub open spec fn receptions<P: Protocol>() -> spec_fn(DriveAction<P, Seq<u8>>) -> Option<()> {
    |action: DriveAction<P, Seq<u8>>|
        match action {
            DriveAction::Receive => Some(()),
            _ => None,
        }
}

/// The connections asked for their deadlines among the actions of a run.
pub open spec fn deadlines_asked<P: Protocol>() -> spec_fn(DriveAction<P, Seq<u8>>) -> Option<
    ConnectionHandle,
> {
    |action: DriveAction<P, Seq<u8>>|
        match action {
            DriveAction::PollTimeout { connection } => Some(connection),
            _ => None,
        }
}

/// The connections whose timers fired among the actions of a run.
pub open spec fn timers_fired<P: Protocol>() -> spec_fn(DriveAction<P, Seq<u8>>) -> Option<
    ConnectionHandle,
> {
    |action: DriveAction<P, Seq<u8>>|
        match action {
            DriveAction::HandleTimeout { connection, .. } => Some(connection),
            _ => None,
        }
}

/// The messages handed to the endpoint among the actions of a run, with the
/// connections that they come from.
pub open spec fn messages_handed<P: Protocol>() -> spec_fn(DriveAction<P, Seq<u8>>) -> Option<
    (ConnectionHandle, P::EndpointEvent),
> {
    |action: DriveAction<P, Seq<u8>>|
        match action {
            DriveAction::HandleEndpointEvent { connection, message } => Some((connection, message)),
            _ => None,
        }
}

/// The connection that an action has to be performed on, if there is one. A
/// message to the endpoint is handed to the endpoint alone.
pub open spec fn concerned<P: Protocol>(action: DriveAction<P, Seq<u8>>) -> Option<
    ConnectionHandle,
> {
    match action {
        DriveAction::Deliver { connection, .. } => Some(connection),
        DriveAction::PollTimeout { connection } => Some(connection),
        DriveAction::HandleTimeout { connection, .. } => Some(connection),
        DriveAction::PollEndpointEvent { connection } => Some(connection),
        DriveAction::Poll { connection } => Some(connection),
        _ => None,
    }
}

/// The stages of a cycle, numbered in their order: receiving, timers, gathering
/// messages, routing them, collecting announcements, over.
pub open spec fn stage(phase: Phase) -> int {
    match phase {
        Phase::Receive | Phase::Receiving | Phase::Handling => 0,
        Phase::Timers | Phase::Deadline => 1,
        Phase::Gather | Phase::Gathering => 2,
        Phase::Route | Phase::Replying | Phase::Delivering => 3,
        Phase::Collect | Phase::Polling => 4,
        Phase::Finished => 5,
    }
}

/// One of `messages` comes from `connection` and says that it is drained.
pub open spec fn is_drained<E>(
    messages: Seq<(ConnectionHandle, EndpointMessage<E>)>,
    connection: ConnectionHandle,
) -> bool {
    exists|k: int|
        0 <= k < messages.len() && (#[trigger] messages[k]).0 == connection
            && messages[k].1.drained
}

/// The phase of a cycle and its last action agree.
spec fn phase_matches<P: Protocol>(run: Run<P>) -> bool {
    let current = run.cycle.current;
    match asked(run) {
        None => run.cycle.phase is Receive,
        Some(action) => match action {
            DriveAction::Receive => run.cycle.phase is Receiving,
            DriveAction::Handle { .. } => run.cycle.phase is Handling,
            DriveAction::PollTimeout { connection } => run.cycle.phase is Deadline && connection
                == current,
            DriveAction::PollEndpointEvent { connection } => run.cycle.phase is Gathering
                && connection == current,
            DriveAction::HandleEndpointEvent { connection, .. } => run.cycle.phase is Replying
                && connection == current,
            DriveAction::Poll { connection } => run.cycle.phase is Polling && connection == current,
            DriveAction::Finish => run.cycle.phase is Finished,
            DriveAction::Respond(_) => run.cycle.phase is Receive,
            DriveAction::HandleTimeout { .. } => run.cycle.phase is Timers,
            DriveAction::Deliver { .. } => run.cycle.phase is Receive || run.cycle.phase
                is Delivering,
            DriveAction::Continue => match run.cycle.phase {
                Phase::Receive | Phase::Timers | Phase::Gather | Phase::Route | Phase::Collect =>
                true,
                _ => false,
            },
            DriveAction::Unexpected => false,
        },
    }
}

proof fn lemma_phase_matches<P: Protocol>(
    handles: Set<ConnectionHandle>,
    now: Instant,
    turns: Seq<Turn<P>>,
)
    requires
        proper(handles, now, turns),
    ensures
        phase_matches(run(handles, now, turns)),
    decreases turns.len(),
{
    if turns.len() > 0 {
        lemma_phase_matches(handles, now, turns.drop_last());
    }
}

/// A cycle reports exactly what was announced to it, in the order in which it
/// was announced: each connection attempt that the endpoint found in a datagram,
/// and each announcement of a connection that has a poll event.
pub proof fn law_reports_what_was_announced<P: Protocol>(
    handles: Set<ConnectionHandle>,
    now: Instant,
    turns: Seq<Turn<P>>,
)
    requires
        proper(handles, now, turns),
    ensures
        run(handles, now, turns).cycle.events == exchanged(
            handles,
            now,
            turns,
            announcements::<P>(),
        ),
    decreases turns.len(),
{
    if turns.len() > 0 {
        law_reports_what_was_announced(handles, now, turns.drop_last());
        lemma_phase_matches(handles, now, turns.drop_last());
    }
}

/// A cycle in which nothing is announced reports nothing.
pub proof fn law_quiet_cycles_report_nothing<P: Protocol>(
    handles: Set<ConnectionHandle>,
    now: Instant,
    turns: Seq<Turn<P>>,
)
    requires
        proper(handles, now, turns),
        exchanged(handles, now, turns, announcements::<P>()).len() == 0,
    ensures
        run(handles, now, turns).cycle.events.len() == 0,
{
    law_reports_what_was_announced(handles, now, turns);
}

/// A cycle goes through its stages in their order: first it receives, then it
/// looks at the timers, then it gathers and routes the messages to the endpoint,
/// and last it collects what the connections announce.
pub proof fn law_stages_in_order<P: Protocol>(
    handles: Set<ConnectionHandle>,
    now: Instant,
    turns: Seq<Turn<P>>,
)
    requires
        turns.len() > 0,
    ensures
        stage(run(handles, now, turns.drop_last()).cycle.phase) <= stage(
            run(handles, now, turns).cycle.phase,
        ) <= stage(run(handles, now, turns.drop_last()).cycle.phase) + 1,
{
}

proof fn lemma_issued_push<P: Protocol, T>(
    actions: Seq<DriveAction<P, Seq<u8>>>,
    action: DriveAction<P, Seq<u8>>,
    pick: spec_fn(DriveAction<P, Seq<u8>>) -> Option<T>,
)
    ensures
        issued(actions.push(action), pick) == match pick(action) {
            Some(found) => issued(actions, pick).push(found),
            None => issued(actions, pick),
        },
{
    assert(actions.push(action).drop_last() == actions);
}

/// A cycle receives at most [`RECV_BATCH_SIZE`] datagrams.
pub proof fn law_receives_a_bounded_batch<P: Protocol>(
    handles: Set<ConnectionHandle>,
    now: Instant,
    turns: Seq<Turn<P>>,
)
    ensures
        issued(run(handles, now, turns).actions, receptions::<P>()).len() <= RECV_BATCH_SIZE,
{
    lemma_receptions(handles, now, turns);
}

proof fn lemma_receptions<P: Protocol>(
    handles: Set<ConnectionHandle>,
    now: Instant,
    turns: Seq<Turn<P>>,
)
    ensures
        issued(run(handles, now, turns).actions, receptions::<P>()).len() + run(
            handles,
            now,
            turns,
        ).cycle.left <= RECV_BATCH_SIZE,
    decreases turns.len(),
{
    if turns.len() > 0 {
        lemma_receptions(handles, now, turns.drop_last());
        let before = run(handles, now, turns.drop_last());
        lemma_issued_push(
            before.actions,
            run(handles, now, turns).actions.last(),
            receptions::<P>(),
        );
    }
}

/// Where receiving stands: each attempt before the last one brought a datagram,
/// and the batch is used up one attempt at a time unless the socket refuses one.
spec fn receiving_holds<P: Protocol>(
    handles: Set<ConnectionHandle>,
    now: Instant,
    turns: Seq<Turn<P>>,
) -> bool {
    let at = run(handles, now, turns);
    let tried = issued(at.actions, receptions::<P>()).len();
    let answers = exchanged(handles, now, turns, receptions_answered::<P>());
    let refused = answers.len() > 0 && !(answers.last() is Datagram);
    &&& tried == answers.len() + if at.cycle.phase is Receiving {
        1nat
    } else {
        0nat
    }
    &&& forall|i: int|
        0 <= i < answers.len() ==> if i < answers.len() - 1 {
            #[trigger] answers[i] is Datagram
        } else {
            answers[i] is Datagram || answers[i] is WouldBlock || answers[i] is ReceiveFailed
        }
    &&& at.cycle.phase is Receiving || at.cycle.phase is Handling ==> !refused
    &&& refused ==> at.cycle.left == 0
    &&& stage(at.cycle.phase) == 0 && !refused ==> tried + at.cycle.left == RECV_BATCH_SIZE
    &&& stage(at.cycle.phase) >= 1 ==> refused || tried == RECV_BATCH_SIZE
}

proof fn lemma_receiving_holds<P: Protocol>(
    handles: Set<ConnectionHandle>,
    now: Instant,
    turns: Seq<Turn<P>>,
)
    requires
        proper(handles, now, turns),
    ensures
        receiving_holds(handles, now, turns),
    decreases turns.len(),
{
    if turns.len() > 0 {
        lemma_receiving_holds(handles, now, turns.drop_last());
        lemma_phase_matches(handles, now, turns.drop_last());
        let before = run(handles, now, turns.drop_last());
        lemma_issued_push(
            before.actions,
            run(handles, now, turns).actions.last(),
            receptions::<P>(),
        );
    }
}

/// Receiving goes on until the batch is used up or the socket refuses an attempt:
/// every attempt before the last one brought a datagram, and where there were
/// fewer than [`RECV_BATCH_SIZE`] attempts the last one was refused, because no
/// datagram was waiting or because the socket failed.
pub proof fn law_receiving_stops_when_refused<P: Protocol>(
    handles: Set<ConnectionHandle>,
    now: Instant,
    turns: Seq<Turn<P>>,
)
    requires
        proper(handles, now, turns),
        stage(run(handles, now, turns).cycle.phase) >= 1,
    ensures
        ({
            let answers = exchanged(handles, now, turns, receptions_answered::<P>());
            &&& answers.len() == issued(
                run(handles, now, turns).actions,
                receptions::<P>(),
            ).len()
            &&& answers.len() <= RECV_BATCH_SIZE
            &&& forall|i: int| 0 <= i < answers.len() - 1 ==> #[trigger] answers[i] is Datagram
            &&& answers.len() < RECV_BATCH_SIZE ==> answers.len() > 0 && (answers.last()
                is WouldBlock || answers.last() is ReceiveFailed)
        }),
{
    lemma_receiving_holds(handles, now, turns);
    lemma_receptions(handles, now, turns);
}

/// What a walk through `handles` has yet to visit: first those of `now`, then
/// those of `later`, after `done`.
spec fn walking(
    done: Seq<ConnectionHandle>,
    now: Seq<ConnectionHandle>,
    later: Seq<ConnectionHandle>,
    handles: Set<ConnectionHandle>,
) -> bool {
    lists(done + now + later, handles)
}

proof fn lemma_walk_visits(
    done: Seq<ConnectionHandle>,
    later: Seq<ConnectionHandle>,
    handles: Set<ConnectionHandle>,
)
    requires
        walking(done, Seq::empty(), later, handles),
        later.len() > 0,
    ensures
        walking(done, seq![later.first()], later.drop_first(), handles),
        walking(done.push(later.first()), Seq::empty(), later.drop_first(), handles),
        handles.contains(later.first()),
{
    let whole = done + Seq::empty() + later;
    assert(done + seq![later.first()] + later.drop_first() == whole);
    assert(done.push(later.first()) + Seq::empty() + later.drop_first() == whole);
    assert(whole[done.len() as int] == later.first());
    assert(whole.to_set().contains(later.first()));
}

proof fn lemma_walk_moves_on(
    done: Seq<ConnectionHandle>,
    current: ConnectionHandle,
    later: Seq<ConnectionHandle>,
    handles: Set<ConnectionHandle>,
)
    requires
        walking(done, seq![current], later, handles),
    ensures
        walking(done.push(current), Seq::empty(), later, handles),
        handles.contains(current),
{
    let whole = done + seq![current] + later;
    assert(done.push(current) + Seq::empty() + later == whole);
    assert(whole[done.len() as int] == current);
    assert(whole.to_set().contains(current));
}

proof fn lemma_walk_is_fresh(
    done: Seq<ConnectionHandle>,
    now: Seq<ConnectionHandle>,
    later: Seq<ConnectionHandle>,
    handles: Set<ConnectionHandle>,
)
    requires
        walking(done, now, later, handles),
    ensures
        forall|connection: ConnectionHandle| #[trigger]
            done.contains(connection) ==> handles.contains(connection) && !now.contains(connection)
                && !later.contains(connection),
{
    let whole = done + now + later;
    assert forall|connection: ConnectionHandle| #[trigger] done.contains(connection) implies {
        &&& handles.contains(connection)
        &&& !now.contains(connection)
        &&& !later.contains(connection)
    } by {
        let at = done.index_of(connection);
        assert(whole[at] == connection);
        assert(whole.to_set().contains(connection));
        if now.contains(connection) {
            assert(whole[done.len() + now.index_of(connection)] == connection);
        }
        if later.contains(connection) {
            assert(whole[done.len() + now.len() + later.index_of(connection)] == connection);
        }
    }
}

proof fn lemma_walk_starts(order: Seq<ConnectionHandle>, handles: Set<ConnectionHandle>)
    requires
        lists(order, handles),
    ensures
        walking(Seq::empty(), Seq::empty(), order, handles),
{
    assert(Seq::<ConnectionHandle>::empty() + Seq::empty() + order == order);
}

proof fn lemma_walk_ends(
    done: Seq<ConnectionHandle>,
    later: Seq<ConnectionHandle>,
    handles: Set<ConnectionHandle>,
)
    requires
        walking(done, Seq::empty(), later, handles),
        later.len() == 0,
    ensures
        lists(done, handles),
{
    assert(done + Seq::empty() + later == done);
}

/// Until messages are routed the table does not change, and each connection is
/// asked for its deadline once.
spec fn timers_hold<P: Protocol>(handles: Set<ConnectionHandle>, run: Run<P>) -> bool {
    let done = issued(run.actions, deadlines_asked::<P>());
    let at = stage(run.cycle.phase);
    &&& at <= 2 ==> run.handles == handles
    &&& at == 0 ==> done.len() == 0
    &&& at == 1 ==> walking(done, Seq::empty(), run.cycle.pending, handles)
    &&& run.cycle.phase is Deadline ==> handles.contains(run.cycle.current)
    &&& at >= 2 ==> lists(done, handles)
}

proof fn lemma_timers_hold<P: Protocol>(
    handles: Set<ConnectionHandle>,
    now: Instant,
    turns: Seq<Turn<P>>,
)
    requires
        proper(handles, now, turns),
    ensures
        timers_hold(handles, run(handles, now, turns)),
    decreases turns.len(),
{
    if turns.len() > 0 {
        lemma_timers_hold(handles, now, turns.drop_last());
        let before = run(handles, now, turns.drop_last());
        let after = run(handles, now, turns);
        let done = issued(before.actions, deadlines_asked::<P>());
        lemma_issued_push(before.actions, after.actions.last(), deadlines_asked::<P>());
        assert(done.len() == 0 ==> done == Seq::<ConnectionHandle>::empty());
        if before.cycle.phase is Receive && after.cycle.phase is Timers {
            lemma_walk_starts(turns.last().order, handles);
        }
        if before.cycle.phase is Timers {
            if before.cycle.pending.len() == 0 {
                lemma_walk_ends(done, before.cycle.pending, handles);
            } else {
                lemma_walk_visits(done, before.cycle.pending, handles);
            }
        }
    }
}

/// Each connection is asked for its messages until it has none, once.
spec fn gathering_holds<P: Protocol>(
    handles: Set<ConnectionHandle>,
    now: Instant,
    turns: Seq<Turn<P>>,
) -> bool {
    let cycle = run(handles, now, turns).cycle;
    let done = exchanged(handles, now, turns, without_message::<P>());
    &&& stage(cycle.phase) <= 1 ==> done.len() == 0
    &&& cycle.phase is Gather ==> walking(done, Seq::empty(), cycle.pending, handles)
    &&& cycle.phase is Gathering ==> walking(done, seq![cycle.current], cycle.pending, handles)
    &&& stage(cycle.phase) >= 3 ==> lists(done, handles)
}

proof fn lemma_gathering_holds<P: Protocol>(
    handles: Set<ConnectionHandle>,
    now: Instant,
    turns: Seq<Turn<P>>,
)
    requires
        proper(handles, now, turns),
    ensures
        gathering_holds(handles, now, turns),
    decreases turns.len(),
{
    if turns.len() > 0 {
        lemma_gathering_holds(handles, now, turns.drop_last());
        lemma_timers_hold(handles, now, turns.drop_last());
        lemma_phase_matches(handles, now, turns.drop_last());
        let before = run(handles, now, turns.drop_last());
        let after = run(handles, now, turns);
        let done = exchanged(handles, now, turns.drop_last(), without_message::<P>());
        assert(done.len() == 0 ==> done == Seq::<ConnectionHandle>::empty());
        if before.cycle.phase is Timers && after.cycle.phase is Gather {
            lemma_walk_starts(turns.last().order, handles);
        }
        if before.cycle.phase is Gather {
            if before.cycle.pending.len() == 0 {
                lemma_walk_ends(done, before.cycle.pending, handles);
            } else {
                lemma_walk_visits(done, before.cycle.pending, handles);
            }
        }
        if before.cycle.phase is Gathering && after.cycle.phase is Gather {
            lemma_walk_moves_on(done, before.cycle.current, before.cycle.pending, handles);
        }
    }
}

/// Each connection in the table is polled until it has nothing to announce, once.
spec fn collecting_holds<P: Protocol>(
    handles: Set<ConnectionHandle>,
    now: Instant,
    turns: Seq<Turn<P>>,
) -> bool {
    let left = run(handles, now, turns).handles;
    let cycle = run(handles, now, turns).cycle;
    let done = exchanged(handles, now, turns, without_announcement::<P>());
    &&& stage(cycle.phase) <= 3 ==> done.len() == 0
    &&& cycle.phase is Collect ==> walking(done, Seq::empty(), cycle.pending, left)
    &&& cycle.phase is Polling ==> walking(done, seq![cycle.current], cycle.pending, left)
    &&& cycle.phase is Finished ==> lists(done, left)
}

proof fn lemma_collecting_holds<P: Protocol>(
    handles: Set<ConnectionHandle>,
    now: Instant,
    turns: Seq<Turn<P>>,
)
    requires
        proper(handles, now, turns),
    ensures
        collecting_holds(handles, now, turns),
    decreases turns.len(),
{
    if turns.len() > 0 {
        lemma_collecting_holds(handles, now, turns.drop_last());
        lemma_phase_matches(handles, now, turns.drop_last());
        let before = run(handles, now, turns.drop_last());
        let after = run(handles, now, turns);
        let done = exchanged(handles, now, turns.drop_last(), without_announcement::<P>());
        assert(done.len() == 0 ==> done == Seq::<ConnectionHandle>::empty());
        if before.cycle.phase is Route && after.cycle.phase is Collect {
            lemma_walk_starts(turns.last().order, before.handles);
        }
        if before.cycle.phase is Collect {
            if before.cycle.pending.len() == 0 {
                lemma_walk_ends(done, before.cycle.pending, before.handles);
            } else {
                lemma_walk_visits(done, before.cycle.pending, before.handles);
            }
        }
        if before.cycle.phase is Polling && after.cycle.phase is Collect {
            lemma_walk_moves_on(done, before.cycle.current, before.cycle.pending, before.handles);
        }
    }
}

/// How many of the messages handed to the endpoint have been settled.
spec fn settled_count<P: Protocol>(run: Run<P>) -> int {
    let handed = issued(run.actions, messages_handed::<P>()).len() as int;
    if run.cycle.phase is Replying || run.cycle.phase is Delivering {
        handed - 1
    } else {
        handed
    }
}

/// The messages gathered are handed on in their order, and the table holds the
/// connections that no settled message said to be drained.
spec fn routing_holds<P: Protocol>(
    handles: Set<ConnectionHandle>,
    now: Instant,
    turns: Seq<Turn<P>>,
) -> bool {
    let at = run(handles, now, turns);
    let gathered = exchanged(handles, now, turns, messages::<P>());
    let handed = issued(at.actions, messages_handed::<P>());
    let settled = settled_count(at);
    &&& handed.len() <= gathered.len()
    &&& at.cycle.routed == gathered.subrange(handed.len() as int, gathered.len() as int)
    &&& forall|k: int|
        0 <= k < handed.len() ==> #[trigger] handed[k] == (gathered[k].0, gathered[k].1.event)
    &&& stage(at.cycle.phase) <= 1 ==> gathered.len() == 0
    &&& stage(at.cycle.phase) <= 2 ==> handed.len() == 0
    &&& stage(at.cycle.phase) >= 4 ==> handed.len() == gathered.len()
    &&& at.cycle.phase is Replying || at.cycle.phase is Delivering ==> {
        &&& handed.len() > 0
        &&& at.cycle.current == gathered[handed.len() - 1].0
        &&& at.cycle.drained == gathered[handed.len() - 1].1.drained
    }
    &&& forall|connection: ConnectionHandle| #[trigger]
        at.handles.contains(connection) <==> handles.contains(connection) && !is_drained(
            gathered.subrange(0, settled),
            connection,
        )
}

proof fn lemma_drained_with_one_more<E>(
    messages: Seq<(ConnectionHandle, EndpointMessage<E>)>,
    count: int,
    connection: ConnectionHandle,
)
    requires
        0 <= count < messages.len(),
    ensures
        is_drained(messages.subrange(0, count + 1), connection) <==> is_drained(
            messages.subrange(0, count),
            connection,
        ) || (messages[count].0 == connection && messages[count].1.drained),
{
    let some = messages.subrange(0, count);
    let more = messages.subrange(0, count + 1);
    if is_drained(some, connection) {
        let k = choose|k: int|
            0 <= k < some.len() && (#[trigger] some[k]).0 == connection && some[k].1.drained;
        assert(more[k] == some[k]);
    }
    if messages[count].0 == connection && messages[count].1.drained {
        assert(more[count] == messages[count]);
    }
    if is_drained(more, connection) {
        let k = choose|k: int|
            0 <= k < more.len() && (#[trigger] more[k]).0 == connection && more[k].1.drained;
        if k < count {
            assert(some[k] == more[k]);
        }
    }
}

proof fn lemma_routing_holds<P: Protocol>(
    handles: Set<ConnectionHandle>,
    now: Instant,
    turns: Seq<Turn<P>>,
)
    requires
        proper(handles, now, turns),
    ensures
        routing_holds(handles, now, turns),
    decreases turns.len(),
{
    let after = run(handles, now, turns);
    let gathered = exchanged(handles, now, turns, messages::<P>());
    let handed = issued(after.actions, messages_handed::<P>());
    if turns.len() == 0 {
        assert(gathered.subrange(0, 0) == gathered);
        assert(after.cycle.routed == gathered);
    } else {
        lemma_routing_holds(handles, now, turns.drop_last());
        lemma_phase_matches(handles, now, turns.drop_last());
        let before = run(handles, now, turns.drop_last());
        let known = exchanged(handles, now, turns.drop_last(), messages::<P>());
        let earlier = issued(before.actions, messages_handed::<P>());
        lemma_issued_push(before.actions, after.actions.last(), messages_handed::<P>());
        let settled = settled_count(after);
        assert(after.cycle.routed =~= gathered.subrange(
            handed.len() as int,
            gathered.len() as int,
        ));
        if before.cycle.phase is Gathering {
            assert(gathered.subrange(0, 0) == known.subrange(0, 0));
        }
        if before.cycle.phase is Replying || before.cycle.phase is Delivering {
            if after.cycle.phase is Route {
                assert forall|connection: ConnectionHandle| #[trigger]
                    after.handles.contains(connection) <==> handles.contains(connection)
                        && !is_drained(gathered.subrange(0, settled), connection) by {
                    assert(before.handles.contains(connection) <==> handles.contains(connection)
                        && !is_drained(known.subrange(0, settled - 1), connection));
                    lemma_drained_with_one_more(known, settled - 1, connection);
                }
            }
        }
    }
}

/// Each connection is asked for its deadline once in a cycle.
pub proof fn law_every_deadline_is_asked<P: Protocol>(
    handles: Set<ConnectionHandle>,
    now: Instant,
    turns: Seq<Turn<P>>,
)
    requires
        proper(handles, now, turns),
        stage(run(handles, now, turns).cycle.phase) >= 2,
    ensures
        lists(issued(run(handles, now, turns).actions, deadlines_asked::<P>()), handles),
        issued(run(handles, now, turns).actions, deadlines_asked::<P>()).no_duplicates(),
        forall|connection: ConnectionHandle| #[trigger]
            issued(run(handles, now, turns).actions, deadlines_asked::<P>()).contains(connection)
                <==> handles.contains(connection),
{
    lemma_timers_hold(handles, now, turns);
    law_walks_name_each_connection_once(
        issued(run(handles, now, turns).actions, deadlines_asked::<P>()),
        handles,
    );
}

/// The timers of a connection fire in a cycle where, and only where, the
/// connection says that it has a deadline and the time of the cycle has reached
/// it.
pub proof fn law_timers_fire_when_due<P: Protocol>(
    handles: Set<ConnectionHandle>,
    now: Instant,
    turns: Seq<Turn<P>>,
    connection: ConnectionHandle,
)
    requires
        proper(handles, now, turns),
        turns.len() > 0,
    ensures
        run(handles, now, turns).actions.last() == (DriveAction::HandleTimeout::<P, Seq<u8>> {
            connection,
            now,
        }) <==> {
            &&& asked(run(handles, now, turns.drop_last())) == Some(
                DriveAction::PollTimeout::<P, Seq<u8>> { connection },
            )
            &&& turns.last().input matches DriveInput::Deadline(deadline)
            &&& is_due(deadline, now)
        },
        run(handles, now, turns).actions.last() == (DriveAction::HandleTimeout::<P, Seq<u8>> {
            connection,
            now,
        }) <==> {
            &&& asked(run(handles, now, turns.drop_last())) == Some(
                DriveAction::PollTimeout::<P, Seq<u8>> { connection },
            )
            &&& turns.last().input matches DriveInput::Deadline(Some(instant))
            &&& now >= instant
        },
{
    lemma_phase_matches(handles, now, turns.drop_last());
    lemma_time_stands(handles, now, turns.drop_last());
}

/// Each connection that a run asks for its deadline gives the one in `deadlines`.
pub open spec fn tells_deadlines<P: Protocol>(
    handles: Set<ConnectionHandle>,
    now: Instant,
    turns: Seq<Turn<P>>,
    deadlines: Map<ConnectionHandle, Option<Instant>>,
) -> bool
    decreases turns.len(),
{
    turns.len() > 0 ==> {
        &&& tells_deadlines(handles, now, turns.drop_last(), deadlines)
        &&& match asked(run(handles, now, turns.drop_last())) {
            Some(DriveAction::PollTimeout { connection }) => turns.last().input
                == DriveInput::<P>::Deadline(deadlines[connection]),
            _ => true,
        }
    }
}

/// The timers that fired are those of the connections that gave a due deadline.
spec fn firing_holds<P: Protocol>(
    now: Instant,
    run: Run<P>,
    deadlines: Map<ConnectionHandle, Option<Instant>>,
) -> bool {
    let visited = issued(run.actions, deadlines_asked::<P>());
    let fired = issued(run.actions, timers_fired::<P>());
    let answered = if run.cycle.phase is Deadline {
        visited.drop_last()
    } else {
        visited
    };
    &&& run.cycle.phase is Deadline ==> visited.len() > 0 && visited.last() == run.cycle.current
    &&& forall|connection: ConnectionHandle| #[trigger]
        fired.contains(connection) <==> answered.contains(connection) && is_due(
            deadlines[connection],
            now,
        )
}

proof fn lemma_firing_holds<P: Protocol>(
    handles: Set<ConnectionHandle>,
    now: Instant,
    turns: Seq<Turn<P>>,
    deadlines: Map<ConnectionHandle, Option<Instant>>,
)
    requires
        proper(handles, now, turns),
        tells_deadlines(handles, now, turns, deadlines),
    ensures
        firing_holds(now, run(handles, now, turns), deadlines),
    decreases turns.len(),
{
    if turns.len() > 0 {
        lemma_firing_holds(handles, now, turns.drop_last(), deadlines);
        lemma_phase_matches(handles, now, turns.drop_last());
        lemma_time_stands(handles, now, turns.drop_last());
        let before = run(handles, now, turns.drop_last());
        let after = run(handles, now, turns);
        lemma_issued_push(before.actions, after.actions.last(), deadlines_asked::<P>());
        lemma_issued_push(before.actions, after.actions.last(), timers_fired::<P>());
        let visited = issued(before.actions, deadlines_asked::<P>());
        let fired = issued(before.actions, timers_fired::<P>());
        let current = before.cycle.current;
        if before.cycle.phase is Deadline {
            assert(visited.drop_last().push(current) == visited);
            assert forall|connection: ConnectionHandle|
                issued(after.actions, timers_fired::<P>()).contains(connection)
                <==> #[trigger] visited.contains(connection) && is_due(
                deadlines[connection],
                now,
            ) by {
                lemma_contains_push(visited.drop_last(), current, connection);
                lemma_contains_push(fired, current, connection);
            }
        } else if after.cycle.phase is Deadline {
            assert(visited.push(after.cycle.current).drop_last() == visited);
        }
    }
}

/// The timers that fire in a cycle are those of the connections whose deadlines
/// are due; and if `next` is the earliest of the deadlines, some fire where `next`
/// is due, and none where it is not, or where there is none. So a cycle at or
/// after the instant that `poll_timeout` returned lets a timer fire, and one before
/// it does not, as long as the connections keep their deadlines.
pub proof fn law_next_deadline_decides<P: Protocol>(
    handles: Set<ConnectionHandle>,
    now: Instant,
    turns: Seq<Turn<P>>,
    deadlines: Map<ConnectionHandle, Option<Instant>>,
    next: Option<Instant>,
)
    requires
        proper(handles, now, turns),
        stage(run(handles, now, turns).cycle.phase) >= 2,
        deadlines.dom() == handles,
        is_earliest(next, deadlines),
        tells_deadlines(handles, now, turns, deadlines),
    ensures
        forall|connection: ConnectionHandle| #[trigger]
            issued(run(handles, now, turns).actions, timers_fired::<P>()).contains(connection)
                <==> handles.contains(connection) && is_due(deadlines[connection], now),
        issued(run(handles, now, turns).actions, timers_fired::<P>()).len() > 0 <==> is_due(
            next,
            now,
        ),
        forall|connection: ConnectionHandle| #[trigger]
            issued(run(handles, now, turns).actions, timers_fired::<P>()).contains(connection)
                <==> handles.contains(connection) && (deadlines[connection] matches Some(deadline)
                && now >= deadline),
        issued(run(handles, now, turns).actions, timers_fired::<P>()).len() > 0 <==> {
            &&& next matches Some(instant)
            &&& now >= instant
        },
{
    lemma_firing_holds(handles, now, turns, deadlines);
    law_every_deadline_is_asked(handles, now, turns);
    law_earliest_is_due_first(next, deadlines, now);
    let visited = issued(run(handles, now, turns).actions, deadlines_asked::<P>());
    let fired = issued(run(handles, now, turns).actions, timers_fired::<P>());
    assert forall|connection: ConnectionHandle| #[trigger] fired.contains(connection)
        <==> handles.contains(connection) && is_due(deadlines[connection], now) by {
        assert(visited.to_set().contains(connection) <==> visited.contains(connection));
    }
    if fired.len() > 0 {
        assert(fired.contains(fired[0]));
        assert(deadlines.contains_key(fired[0]));
    }
    if is_due(next, now) {
        let holder = choose|holder: ConnectionHandle| #[trigger]
            deadlines.contains_key(holder) && is_due(deadlines[holder], now);
        assert(fired.contains(holder));
    }
}

proof fn lemma_time_stands<P: Protocol>(
    handles: Set<ConnectionHandle>,
    now: Instant,
    turns: Seq<Turn<P>>,
)
    ensures
        run(handles, now, turns).cycle.now == now,
    decreases turns.len(),
{
    if turns.len() > 0 {
        lemma_time_stands(handles, now, turns.drop_last());
    }
}

/// Each connection is asked for its messages to the endpoint until it has none,
/// before any message is routed.
pub proof fn law_every_message_is_gathered<P: Protocol>(
    handles: Set<ConnectionHandle>,
    now: Instant,
    turns: Seq<Turn<P>>,
)
    requires
        proper(handles, now, turns),
        stage(run(handles, now, turns).cycle.phase) >= 3,
    ensures
        lists(exchanged(handles, now, turns, without_message::<P>()), handles),
        exchanged(handles, now, turns, without_message::<P>()).no_duplicates(),
        forall|connection: ConnectionHandle| #[trigger]
            exchanged(handles, now, turns, without_message::<P>()).contains(connection)
                <==> handles.contains(connection),
{
    lemma_gathering_holds(handles, now, turns);
    law_walks_name_each_connection_once(
        exchanged(handles, now, turns, without_message::<P>()),
        handles,
    );
}

/// Each message gathered is handed to the endpoint once, in the order in which
/// they were gathered, in the name of the connection that it comes from.
pub proof fn law_every_message_reaches_the_endpoint<P: Protocol>(
    handles: Set<ConnectionHandle>,
    now: Instant,
    turns: Seq<Turn<P>>,
)
    requires
        proper(handles, now, turns),
        stage(run(handles, now, turns).cycle.phase) >= 4,
    ensures
        issued(run(handles, now, turns).actions, messages_handed::<P>()) == exchanged(
            handles,
            now,
            turns,
            messages::<P>(),
        ).map_values(
            |message: (ConnectionHandle, EndpointMessage<P::EndpointEvent>)|
                (message.0, message.1.event),
        ),
{
    lemma_routing_holds(handles, now, turns);
}

/// A cycle takes a connection out of the table where, and only where, one of its
/// messages said that it is drained.
pub proof fn law_drained_connections_leave<P: Protocol>(
    handles: Set<ConnectionHandle>,
    now: Instant,
    turns: Seq<Turn<P>>,
    connection: ConnectionHandle,
)
    requires
        proper(handles, now, turns),
        stage(run(handles, now, turns).cycle.phase) >= 4,
    ensures
        run(handles, now, turns).handles.contains(connection) <==> handles.contains(connection)
            && !is_drained(exchanged(handles, now, turns, messages::<P>()), connection),
{
    lemma_routing_holds(handles, now, turns);
    let gathered = exchanged(handles, now, turns, messages::<P>());
    assert(gathered.subrange(0, gathered.len() as int) == gathered);
}

/// A drained connection leaves the table as soon as its message is settled: when a
/// message is handed to the endpoint, the table holds the connections that none of the
/// messages before it said to be drained, and no others. So a reply to a later message
/// of a drained connection finds nobody to go to.
pub proof fn law_drained_connections_leave_at_once<P: Protocol>(
    handles: Set<ConnectionHandle>,
    now: Instant,
    turns: Seq<Turn<P>>,
    connection: ConnectionHandle,
)
    requires
        proper(handles, now, turns),
        turns.len() > 0,
        run(handles, now, turns).actions.last() is HandleEndpointEvent,
    ensures
        ({
            let gathered = exchanged(handles, now, turns, messages::<P>());
            let handed = issued(run(handles, now, turns).actions, messages_handed::<P>()).len();
            &&& 1 <= handed <= gathered.len()
            &&& run(handles, now, turns).handles.contains(connection) <==> handles.contains(
                connection,
            ) && !is_drained(gathered.take(handed - 1), connection)
        }),
{
    lemma_routing_holds(handles, now, turns);
    lemma_phase_matches(handles, now, turns);
    let gathered = exchanged(handles, now, turns, messages::<P>());
    let handed = issued(run(handles, now, turns).actions, messages_handed::<P>()).len();
    assert(gathered.take(handed - 1) == gathered.subrange(0, handed - 1));
}

/// Until messages are routed, a cycle leaves the table as it is; and it never
/// adds a connection.
pub proof fn law_table_only_shrinks<P: Protocol>(
    handles: Set<ConnectionHandle>,
    now: Instant,
    turns: Seq<Turn<P>>,
)
    requires
        proper(handles, now, turns),
    ensures
        run(handles, now, turns).handles.subset_of(handles),
        stage(run(handles, now, turns).cycle.phase) <= 2 ==> run(handles, now, turns).handles
            == handles,
{
    lemma_routing_holds(handles, now, turns);
    lemma_timers_hold(handles, now, turns);
}

/// A cycle is over only when each connection left in the table has been polled
/// until it had nothing more to announce.
pub proof fn law_every_announcement_is_collected<P: Protocol>(
    handles: Set<ConnectionHandle>,
    now: Instant,
    turns: Seq<Turn<P>>,
)
    requires
        proper(handles, now, turns),
        run(handles, now, turns).cycle.phase is Finished,
    ensures
        lists(
            exchanged(handles, now, turns, without_announcement::<P>()),
            run(handles, now, turns).handles,
        ),
        exchanged(handles, now, turns, without_announcement::<P>()).no_duplicates(),
        forall|connection: ConnectionHandle| #[trigger]
            exchanged(handles, now, turns, without_announcement::<P>()).contains(connection)
                <==> run(handles, now, turns).handles.contains(connection),
{
    lemma_collecting_holds(handles, now, turns);
    law_walks_name_each_connection_once(
        exchanged(handles, now, turns, without_announcement::<P>()),
        run(handles, now, turns).handles,
    );
}

/// An action that has to be performed on a connection concerns one that is in
/// the table.
pub proof fn law_actions_concern_known_connections<P: Protocol>(
    handles: Set<ConnectionHandle>,
    now: Instant,
    turns: Seq<Turn<P>>,
    connection: ConnectionHandle,
)
    requires
        proper(handles, now, turns),
        turns.len() > 0,
        concerned(run(handles, now, turns).actions.last()) == Some(connection),
    ensures
        run(handles, now, turns).handles.contains(connection),
{
    let before = run(handles, now, turns.drop_last());
    let after = run(handles, now, turns);
    lemma_timers_hold(handles, now, turns.drop_last());
    lemma_gathering_holds(handles, now, turns);
    lemma_collecting_holds(handles, now, turns);
    lemma_timers_hold(handles, now, turns);
    if after.cycle.phase is Gathering {
        lemma_walk_moves_on(
            exchanged(handles, now, turns, without_message::<P>()),
            after.cycle.current,
            after.cycle.pending,
            handles,
        );
    }
    if after.cycle.phase is Polling {
        lemma_walk_moves_on(
            exchanged(handles, now, turns, without_announcement::<P>()),
            after.cycle.current,
            after.cycle.pending,
            after.handles,
        );
    }
}

/// The connections of `quiet` have nothing to announce when a run polls them.
pub open spec fn stays_quiet<P: Protocol>(
    handles: Set<ConnectionHandle>,
    now: Instant,
    turns: Seq<Turn<P>>,
    quiet: Seq<ConnectionHandle>,
) -> bool
    decreases turns.len(),
{
    turns.len() > 0 ==> {
        &&& stays_quiet(handles, now, turns.drop_last(), quiet)
        &&& match asked(run(handles, now, turns.drop_last())) {
            Some(DriveAction::Poll { connection }) => quiet.contains(connection)
                ==> turns.last().input == DriveInput::<P>::Event(None),
            _ => true,
        }
    }
}

/// A cycle collects all that the connections have to announce, so that nothing of
/// it is left for the next one: where the connections that had nothing more to
/// announce have nothing again, the next cycle reports connection attempts only,
/// and nothing at all if there are none.
pub proof fn law_collecting_again_reports_nothing<P: Protocol>(
    handles: Set<ConnectionHandle>,
    now: Instant,
    turns: Seq<Turn<P>>,
    later: Instant,
    more: Seq<Turn<P>>,
)
    requires
        proper(handles, now, turns),
        run(handles, now, turns).cycle.phase is Finished,
        proper(run(handles, now, turns).handles, later, more),
        stays_quiet(
            run(handles, now, turns).handles,
            later,
            more,
            exchanged(handles, now, turns, without_announcement::<P>()),
        ),
    ensures
        ({
            let left = run(handles, now, turns).handles;
            let found = exchanged(left, later, more, attempts::<P>());
            &&& run(left, later, more).cycle.events == found
            &&& found.len() == 0 ==> run(left, later, more).cycle.events.len() == 0
        }),
    decreases more.len(),
{
    if more.len() > 0 {
        law_collecting_again_reports_nothing(handles, now, turns, later, more.drop_last());
        let left = run(handles, now, turns).handles;
        let before = run(left, later, more.drop_last());
        lemma_phase_matches(left, later, more.drop_last());
        if before.cycle.phase is Polling {
            let connection = before.cycle.current;
            let quiet = exchanged(handles, now, turns, without_announcement::<P>());
            law_every_announcement_is_collected(handles, now, turns);
            law_actions_concern_known_connections(left, later, more.drop_last(), connection);
            law_table_only_shrinks(left, later, more.drop_last());
            assert(quiet.to_set().contains(connection));
        }
    }
}

/// Where the last stage leads from `cycle`, and what it asks for last.
pub open spec fn collection<P: Protocol>(
    handles: Set<ConnectionHandle>,
    cycle: CycleState<P>,
    inputs: Seq<DriveInput<P>>,
) -> (CycleState<P>, Option<DriveAction<P, Seq<u8>>>)
    decreases inputs.len(),
{
    if inputs.len() == 0 {
        (cycle, None)
    } else {
        let (cycle, action) = collect_step(
            handles,
            collection(handles, cycle, inputs.drop_last()).0,
            inputs.last(),
        );
        (cycle, Some(action))
    }
}

/// The connections of `quiet` have nothing to announce when the last stage polls
/// them.
pub open spec fn collects_nothing<P: Protocol>(
    handles: Set<ConnectionHandle>,
    cycle: CycleState<P>,
    inputs: Seq<DriveInput<P>>,
    quiet: Seq<ConnectionHandle>,
) -> bool
    decreases inputs.len(),
{
    inputs.len() > 0 ==> {
        &&& collects_nothing(handles, cycle, inputs.drop_last(), quiet)
        &&& match collection(handles, cycle, inputs.drop_last()).1 {
            Some(DriveAction::Poll { connection }) => quiet.contains(connection) ==> inputs.last()
                == DriveInput::<P>::Event(None),
            _ => true,
        }
        &&& !(collection(handles, cycle, inputs).1 == Some(
            DriveAction::<P, Seq<u8>>::Unexpected,
        ))
    }
}

/// A collection right after a cycle adds nothing to a report, whatever that holds
/// already: the cycle polled every connection until it had nothing to announce, and
/// a connection that had nothing more has nothing again as long as nothing else
/// happens to it.
pub proof fn law_collection_repeats_nothing<P: Protocol>(
    handles: Set<ConnectionHandle>,
    now: Instant,
    turns: Seq<Turn<P>>,
    cycle: CycleState<P>,
    inputs: Seq<DriveInput<P>>,
)
    requires
        proper(handles, now, turns),
        run(handles, now, turns).cycle.phase is Finished,
        cycle.phase is Collect,
        collects_nothing(
            run(handles, now, turns).handles,
            cycle,
            inputs,
            exchanged(handles, now, turns, without_announcement::<P>()),
        ),
    ensures
        collection(run(handles, now, turns).handles, cycle, inputs).0.events == cycle.events,
{
    law_every_announcement_is_collected(handles, now, turns);
    lemma_collection(
        run(handles, now, turns).handles,
        cycle,
        inputs,
        exchanged(handles, now, turns, without_announcement::<P>()),
    );
}

proof fn lemma_collection<P: Protocol>(
    handles: Set<ConnectionHandle>,
    cycle: CycleState<P>,
    inputs: Seq<DriveInput<P>>,
    quiet: Seq<ConnectionHandle>,
)
    requires
        lists(quiet, handles),
        cycle.phase is Collect,
        collects_nothing(handles, cycle, inputs, quiet),
    ensures
        ({
            let (after, action) = collection(handles, cycle, inputs);
            &&& after.events == cycle.events
            &&& after.phase is Collect || after.phase is Polling || after.phase is Finished
            &&& after.phase is Polling ==> {
                &&& action == Some(
                    DriveAction::Poll::<P, Seq<u8>> { connection: after.current },
                )
                &&& handles.contains(after.current)
            }
        }),
    decreases inputs.len(),
{
    if inputs.len() > 0 {
        lemma_collection(handles, cycle, inputs.drop_last(), quiet);
        let before = collection(handles, cycle, inputs.drop_last()).0;
        assert(quiet.to_set().contains(before.current) <==> quiet.contains(before.current));
    }
}

/// The connection that a poll event is about; a connection attempt is about none.
pub open spec fn about<P: Protocol>(event: PollEventOf<P>) -> Option<ConnectionHandle> {
    match event {
        PollEvent::NewConnection(_) => None,
        PollEvent::Connected { connection } => Some(connection),
        PollEvent::StreamReadable { connection, .. } => Some(connection),
        PollEvent::StreamWritable { connection, .. } => Some(connection),
        PollEvent::StreamsAvailable { connection, .. } => Some(connection),
        PollEvent::ConnectionLost { connection, .. } => Some(connection),
        PollEvent::DatagramReceived { connection } => Some(connection),
    }
}

/// Connection attempts come first.
pub open spec fn attempts_lead<P: Protocol>(events: Seq<PollEventOf<P>>) -> bool {
    forall|i: int, j: int|
        #![trigger about::<P>(events[i]), about::<P>(events[j])]
        0 <= i <= j < events.len() && about::<P>(events[j]) is None ==> about::<P>(events[i])
            is None
}

/// The events about one connection stand next to each other.
pub open spec fn grouped<P: Protocol>(events: Seq<PollEventOf<P>>) -> bool {
    forall|i: int, j: int, k: int|
        #![trigger about::<P>(events[i]), about::<P>(events[j]), about::<P>(events[k])]
        0 <= i <= j <= k < events.len() && about::<P>(events[i]) == about::<P>(events[k])
            ==> about::<P>(events[j]) == about::<P>(events[i])
}

/// An event of a report stands where it may: a connection attempt among the first
/// [`RECV_BATCH_SIZE`], and any other is about a connection that is done, or about
/// the one being polled, of which the last event then is.
spec fn placed<P: Protocol>(cycle: CycleState<P>, done: Seq<ConnectionHandle>, i: int) -> bool {
    match about::<P>(cycle.events[i]) {
        None => i < RECV_BATCH_SIZE,
        Some(connection) => {
            &&& stage(cycle.phase) >= 4
            &&& done.contains(connection) || {
                &&& cycle.phase is Polling
                &&& connection == cycle.current
                &&& about::<P>(cycle.events.last()) == Some(connection)
            }
        },
    }
}

/// The shape of a report, by where the cycle stands.
spec fn report_holds<P: Protocol>(
    handles: Set<ConnectionHandle>,
    now: Instant,
    turns: Seq<Turn<P>>,
) -> bool {
    let at = run(handles, now, turns);
    let events = at.cycle.events;
    let done = exchanged(handles, now, turns, without_announcement::<P>());
    let tried = issued(at.actions, receptions::<P>()).len();
    &&& attempts_lead::<P>(events)
    &&& grouped::<P>(events)
    &&& stage(at.cycle.phase) == 0 ==> events.len() + (if at.cycle.phase is Receive {
        0nat
    } else {
        1nat
    }) <= tried
    &&& stage(at.cycle.phase) <= 3 ==> events.len() <= RECV_BATCH_SIZE
    &&& forall|i: int|
        #![trigger about::<P>(events[i])]
        0 <= i < events.len() ==> placed(at.cycle, done, i)
}

/// A report keeps its shape where a connection attempt follows on attempts alone,
/// or where an event follows on the others about its connection.
proof fn lemma_report_grows<P: Protocol>(events: Seq<PollEventOf<P>>, told: PollEventOf<P>)
    requires
        attempts_lead::<P>(events),
        grouped::<P>(events),
        forall|i: int|
            0 <= i < events.len() ==> match about::<P>(told) {
                None => #[trigger] about::<P>(events[i]) is None,
                Some(_) => about::<P>(events[i]) == about::<P>(told) ==> about::<P>(events.last())
                    == about::<P>(told),
            },
    ensures
        attempts_lead::<P>(events.push(told)),
        grouped::<P>(events.push(told)),
{
    let more = events.push(told);
    let last = events.len() as int;
    assert(more[last] == told);
    assert forall|i: int, j: int|
        #![trigger about::<P>(more[i]), about::<P>(more[j])]
        0 <= i <= j < more.len() && about::<P>(more[j]) is None implies about::<P>(more[i])
        is None by {
        if i < last {
            assert(more[i] == events[i]);
            if j < last {
                assert(more[j] == events[j]);
            } else {
                assert(about::<P>(events[i]) is None);
            }
        }
    }
    assert forall|i: int, j: int, k: int|
        #![trigger about::<P>(more[i]), about::<P>(more[j]), about::<P>(more[k])]
        0 <= i <= j <= k < more.len() && about::<P>(more[i]) == about::<P>(
            more[k],
        ) implies about::<P>(more[j]) == about::<P>(more[i]) by {
        if j < last {
            assert(more[i] == events[i]);
            assert(more[j] == events[j]);
            if k < last {
                assert(more[k] == events[k]);
            } else if about::<P>(told) is None {
                assert(about::<P>(events[j]) is None);
            } else {
                assert(about::<P>(events[last - 1]) == about::<P>(events[i]));
            }
        }
    }
}

proof fn lemma_report_holds<P: Protocol>(
    handles: Set<ConnectionHandle>,
    now: Instant,
    turns: Seq<Turn<P>>,
)
    requires
        proper(handles, now, turns),
    ensures
        report_holds(handles, now, turns),
    decreases turns.len(),
{
    if turns.len() > 0 {
        let earlier = turns.drop_last();
        lemma_report_holds(handles, now, earlier);
        lemma_phase_matches(handles, now, earlier);
        lemma_receptions(handles, now, turns);
        let before = run(handles, now, earlier);
        let after = run(handles, now, turns);
        let done = exchanged(handles, now, earlier, without_announcement::<P>());
        let current = before.cycle.current;
        let events = before.cycle.events;
        lemma_issued_push(before.actions, after.actions.last(), receptions::<P>());
        if before.cycle.phase is Polling {
            assert(!done.contains(current)) by {
                lemma_collecting_holds(handles, now, earlier);
                lemma_walk_is_fresh(done, seq![current], before.cycle.pending, before.handles);
                assert(seq![current].contains(seq![current][0]));
            }
        }
        if after.cycle.events.len() > events.len() {
            let told = after.cycle.events.last();
            assert(after.cycle.events == events.push(told));
            assert forall|i: int| 0 <= i < events.len() implies match about::<P>(told) {
                None => #[trigger] about::<P>(events[i]) is None,
                Some(_) => about::<P>(events[i]) == about::<P>(told) ==> about::<P>(events.last())
                    == about::<P>(told),
            } by {
                assert(placed(before.cycle, done, i));
            }
            lemma_report_grows::<P>(events, told);
        } else {
            assert(after.cycle.events == events);
        }
        let finished = exchanged(handles, now, turns, without_announcement::<P>());
        assert forall|i: int|
            #![trigger about::<P>(after.cycle.events[i])]
            0 <= i < after.cycle.events.len() implies placed(after.cycle, finished, i) by {
            if i < events.len() {
                assert(after.cycle.events[i] == events[i]);
                assert(about::<P>(events[i]) == about::<P>(after.cycle.events[i]));
                assert(placed(before.cycle, done, i));
                if let Some(connection) = about::<P>(events[i]) {
                    lemma_contains_push(done, current, connection);
                    if before.cycle.phase is Collect {
                        assert(done.contains(connection));
                        assert(finished == done);
                    } else {
                        assert(before.cycle.phase is Polling || before.cycle.phase is Finished);
                        assert(finished == done || finished == done.push(current));
                    }
                }
            } else {
                assert(after.cycle.events[i] == after.cycle.events.last());
            }
        }
    }
}

/// What a cycle reports has this shape: the connection attempts come first, and
/// there are at most [`RECV_BATCH_SIZE`] of them; the events about one connection
/// stand next to each other; and each connection that an event is about is in the
/// table.
pub proof fn law_reports_are_ordered<P: Protocol>(
    handles: Set<ConnectionHandle>,
    now: Instant,
    turns: Seq<Turn<P>>,
)
    requires
        proper(handles, now, turns),
    ensures
        ({
            let events = run(handles, now, turns).cycle.events;
            &&& attempts_lead::<P>(events)
            &&& grouped::<P>(events)
            &&& forall|i: int|
                0 <= i < events.len() ==> match #[trigger] about::<P>(events[i]) {
                    None => i < RECV_BATCH_SIZE,
                    Some(connection) => run(handles, now, turns).handles.contains(connection),
                }
        }),
{
    lemma_report_holds(handles, now, turns);
    lemma_collecting_holds(handles, now, turns);
    let at = run(handles, now, turns);
    let done = exchanged(handles, now, turns, without_announcement::<P>());
    if at.cycle.phase is Collect {
        lemma_walk_is_fresh(done, Seq::empty(), at.cycle.pending, at.handles);
    }
    if at.cycle.phase is Polling {
        lemma_walk_is_fresh(done, seq![at.cycle.current], at.cycle.pending, at.handles);
        lemma_walk_moves_on(done, at.cycle.current, at.cycle.pending, at.handles);
    }
    if at.cycle.phase is Finished {
        assert forall|connection: ConnectionHandle| #[trigger]
            done.contains(connection) implies at.handles.contains(connection) by {
            assert(done.to_set().contains(connection));
        }
    }
}

/// An event that the endpoint addresses to a connection, in a datagram or in
/// reply to a message, is delivered to that connection where, and only where, it
/// is in the table.
pub proof fn law_events_reach_their_connections<P: Protocol>(
    handles: Set<ConnectionHandle>,
    now: Instant,
    turns: Seq<Turn<P>>,
    connection: ConnectionHandle,
    event: P::ConnectionEvent,
)
    requires
        proper(handles, now, turns),
        turns.len() > 0,
    ensures
        ({
            let before = run(handles, now, turns.drop_last());
            let in_datagram = turns.last().input == DriveInput::<P>::Handled(
                Some(DatagramEvent::ConnectionEvent(connection, event)),
            );
            let in_reply = {
                &&& asked(before) matches Some(DriveAction::HandleEndpointEvent {
                    connection: sender,
                    ..
                })
                &&& sender == connection
                &&& turns.last().input == DriveInput::<P>::Reply(Some(event))
            };
            run(handles, now, turns).actions.last() == (DriveAction::Deliver::<P, Seq<u8>> {
                connection,
                event,
            }) <==> (in_datagram || in_reply) && before.handles.contains(connection)
        }),
{
    lemma_phase_matches(handles, now, turns.drop_last());
}

/// The announcements of connections in the exchanges of a run, reported or not.
pub open spec fn events_polled<P: Protocol>() -> spec_fn(
    Option<DriveAction<P, Seq<u8>>>,
    DriveInput<P>,
) -> Option<()> {
    |action: Option<DriveAction<P, Seq<u8>>>, input: DriveInput<P>|
        match (action, input) {
            (Some(DriveAction::Poll { .. }), DriveInput::Event(Some(_))) => Some(()),
            _ => None,
        }
}

/// The most turns that a cycle on a table of `size` connections can take if no
/// connection has a message or an announcement any more.
spec fn turns_left<P: Protocol>(cycle: CycleState<P>, size: nat) -> nat {
    let collect = 2 * size + 1;
    let route = 3 * cycle.routed.len() + 1 + collect;
    let gather = 2 * size + 1 + route;
    let timers = 2 * size + 1 + gather;
    match cycle.phase {
        Phase::Receive => 3 * cycle.left + 1 + timers,
        Phase::Receiving => 3 * cycle.left + 3 + timers,
        Phase::Handling => 3 * cycle.left + 2 + timers,
        Phase::Timers => 2 * cycle.pending.len() + 1 + gather,
        Phase::Deadline => 2 * cycle.pending.len() + 2 + gather,
        Phase::Gather => 2 * cycle.pending.len() + 1 + route,
        Phase::Gathering => 2 * cycle.pending.len() + 2 + route,
        Phase::Route => route,
        Phase::Replying => route + 2,
        Phase::Delivering => route + 1,
        Phase::Collect => 2 * cycle.pending.len() + 1,
        Phase::Polling => 2 * cycle.pending.len() + 2,
        Phase::Finished => 0,
    }
}

proof fn lemma_turns_left<P: Protocol>(
    handles: Set<ConnectionHandle>,
    now: Instant,
    turns: Seq<Turn<P>>,
)
    requires
        proper(handles, now, turns),
        handles.finite(),
    ensures
        turns.len() + turns_left(run(handles, now, turns).cycle, handles.len()) <= 3
            * RECV_BATCH_SIZE + 6 * handles.len() + 5 + 4 * exchanged(
            handles,
            now,
            turns,
            messages::<P>(),
        ).len() + exchanged(handles, now, turns, events_polled::<P>()).len(),
    decreases turns.len(),
{
    if turns.len() > 0 {
        let earlier = turns.drop_last();
        lemma_turns_left(handles, now, earlier);
        lemma_phase_matches(handles, now, earlier);
        law_table_only_shrinks(handles, now, earlier);
        let before = run(handles, now, earlier);
        let turn = turns.last();
        if walks(before.cycle, turn.input) {
            turn.order.unique_seq_to_set();
            vstd::set_lib::lemma_len_subset(before.handles, handles);
        }
    }
}

/// A cycle ends: the number of its turns is bounded by the datagrams it may
/// receive, the connections in the table, and the messages and announcements
/// that they have.
pub proof fn law_cycle_is_bounded<P: Protocol>(
    handles: Set<ConnectionHandle>,
    now: Instant,
    turns: Seq<Turn<P>>,
)
    requires
        proper(handles, now, turns),
        handles.finite(),
    ensures
        turns.len() <= 3 * RECV_BATCH_SIZE + 6 * handles.len() + 5 + 4 * exchanged(
            handles,
            now,
            turns,
            messages::<P>(),
        ).len() + exchanged(handles, now, turns, events_polled::<P>()).len(),
{
    lemma_turns_left(handles, now, turns);
}

/// `input` is an answer to `action`, or starts a cycle where there was none.
pub open spec fn answers<P: Protocol>(
    action: Option<DriveAction<P, Seq<u8>>>,
    input: DriveInput<P>,
) -> bool {
    match action {
        Some(DriveAction::Receive) => input is Datagram || input is WouldBlock || input
            is ReceiveFailed,
        Some(DriveAction::Handle { .. }) => input is Handled,
        Some(DriveAction::PollTimeout { .. }) => input is Deadline,
        Some(DriveAction::PollEndpointEvent { .. }) => input is EndpointEvent,
        Some(DriveAction::HandleEndpointEvent { .. }) => input is Reply,
        Some(DriveAction::Poll { .. }) => input is Event,
        Some(DriveAction::Finish) => false,
        _ => input is Ready,
    }
}

/// A cycle takes the inputs that answer its last action, and no others; one that
/// it does not take changes nothing.
pub proof fn law_answers_are_taken<P: Protocol>(
    handles: Set<ConnectionHandle>,
    now: Instant,
    turns: Seq<Turn<P>>,
)
    requires
        turns.len() > 0,
        proper(handles, now, turns.drop_last()),
    ensures
        answers(asked(run(handles, now, turns.drop_last())), turns.last().input) <==> !(run(
            handles,
            now,
            turns,
        ).actions.last() is Unexpected),
        run(handles, now, turns).actions.last() is Unexpected ==> {
            &&& run(handles, now, turns).cycle == run(handles, now, turns.drop_last()).cycle
            &&& run(handles, now, turns).handles == run(handles, now, turns.drop_last()).handles
        },
{
    lemma_phase_matches(handles, now, turns.drop_last());
}

/// A received datagram goes to the endpoint where, and only where, the address
/// that it arrived at is known: as it was received, with the addresses that it
/// came with, at the time of the cycle.
pub proof fn law_datagrams_reach_the_endpoint<P: Protocol>(
    handles: Set<ConnectionHandle>,
    now: Instant,
    turns: Seq<Turn<P>>,
    len: usize,
    source: P::Address,
    local: P::LocalAddress,
)
    requires
        proper(handles, now, turns),
        turns.len() > 0,
    ensures
        turns.last().input == (DriveInput::Datagram::<P> { len, source, local: Some(local) })
            ==> run(handles, now, turns).actions.last() == (DriveAction::Handle::<P, Seq<u8>> {
            now,
            data: turns.last().recv_buf.subrange(0, len as int),
            source,
            local,
        }),
        run(handles, now, turns).actions.last() is Handle ==> turns.last().input is Datagram
            && turns.last().input->local is Some,
{
    lemma_phase_matches(handles, now, turns.drop_last());
    lemma_time_stands(handles, now, turns.drop_last());
}

/// A response is sent where, and only where, the endpoint answers a datagram
/// with it.
pub proof fn law_responses_are_sent<P: Protocol>(
    handles: Set<ConnectionHandle>,
    now: Instant,
    turns: Seq<Turn<P>>,
    transmit: Transmit<P::Address>,
)
    requires
        proper(handles, now, turns),
        turns.len() > 0,
    ensures
        run(handles, now, turns).actions.last() == DriveAction::<P, Seq<u8>>::Respond(transmit)
            <==> turns.last().input == DriveInput::<P>::Handled(
            Some(DatagramEvent::Response(transmit)),
        ),
{
    lemma_phase_matches(handles, now, turns.drop_last());
}

/// A datagram is received into a buffer of [`RECV_BUF_SIZE`] bytes, whatever the
/// buffer held before, so that none is cut short. What goes to the endpoint is
/// taken from the front of the buffer, neither more nor less than the datagram;
/// the rest stays. Nothing else changes the buffer.
pub proof fn law_datagrams_are_received_whole<P: Protocol>(
    handles: Set<ConnectionHandle>,
    recv_buf: Seq<u8>,
    cycle: CycleState<P>,
    input: DriveInput<P>,
    order: Seq<ConnectionHandle>,
)
    requires
        input matches DriveInput::Datagram { len, .. } ==> len <= recv_buf.len(),
    ensures
        ({
            let step = drive_step(handles, recv_buf, cycle, input, order);
            &&& step.action is Receive ==> {
                &&& step.recv_buf.len() == RECV_BUF_SIZE
                &&& forall|i: int|
                    0 <= i < RECV_BUF_SIZE ==> #[trigger] step.recv_buf[i] == if i
                        < recv_buf.len() {
                        recv_buf[i]
                    } else {
                        0u8
                    }
            }
            &&& step.action matches DriveAction::Handle { data, .. } ==> {
                &&& data + step.recv_buf == recv_buf
                &&& input matches DriveInput::Datagram { len, .. }
                &&& data.len() == len
            }
            &&& !(step.action is Receive) && !(step.action is Handle) ==> step.recv_buf == recv_buf
        }),
{
}

/// An action shows as it is: with the same connection, time, addresses, event and
/// message, and with the bytes that its datagram holds.
pub proof fn law_actions_show_as_they_are<P: Protocol>(action: DriveAction<P, BytesMut>)
    ensures
        match action@ {
            DriveAction::Receive => action is Receive,
            DriveAction::Handle { now, data, source, local } => {
                &&& action matches DriveAction::Handle {
                    now: at,
                    data: held,
                    source: from,
                    local: to,
                }
                &&& at == now && buffer_bytes(held) == data && from == source && to == local
            },
            DriveAction::Respond(transmit) => action == DriveAction::<P, BytesMut>::Respond(
                transmit,
            ),
            DriveAction::Deliver { connection, event } => action == (DriveAction::Deliver::<
                P,
                BytesMut,
            > { connection, event }),
            DriveAction::PollTimeout { connection } => action == (DriveAction::PollTimeout::<
                P,
                BytesMut,
            > { connection }),
            DriveAction::HandleTimeout { connection, now } => action == (
            DriveAction::HandleTimeout::<P, BytesMut> { connection, now }),
            DriveAction::PollEndpointEvent { connection } => action == (
            DriveAction::PollEndpointEvent::<P, BytesMut> { connection }),
            DriveAction::HandleEndpointEvent { connection, message } => action == (
            DriveAction::HandleEndpointEvent::<P, BytesMut> { connection, message }),
            DriveAction::Poll { connection } => action == (DriveAction::Poll::<P, BytesMut> {
                connection,
            }),
            DriveAction::Continue => action is Continue,
            DriveAction::Finish => action is Finish,
            DriveAction::Unexpected => action is Unexpected,
        },
{
}

/// A walk names each connection in the table, names it once, and names no other.
pub proof fn law_walks_name_each_connection_once(
    order: Seq<ConnectionHandle>,
    handles: Set<ConnectionHandle>,
)
    requires
        lists(order, handles),
    ensures
        forall|connection: ConnectionHandle| #[trigger]
            order.contains(connection) <==> handles.contains(connection),
        forall|i: int, j: int| 0 <= i < j < order.len() ==> order[i] != order[j],
{
    assert forall|connection: ConnectionHandle| #[trigger]
        order.contains(connection) <==> handles.contains(connection) by {
        assert(order.to_set().contains(connection) <==> order.contains(connection));
    }
}

/// The answer of a connection to the question for its deadline decides alone
/// whether its timers fire: they do from the deadline on, not before, and never
/// without one.
pub proof fn law_deadlines_decide<P: Protocol>(
    handles: Set<ConnectionHandle>,
    now: Instant,
    turns: Seq<Turn<P>>,
    connection: ConnectionHandle,
    deadline: Option<Instant>,
)
    requires
        proper(handles, now, turns),
        turns.len() > 0,
        asked(run(handles, now, turns.drop_last())) == Some(
            DriveAction::PollTimeout::<P, Seq<u8>> { connection },
        ),
        turns.last().input == DriveInput::<P>::Deadline(deadline),
    ensures
        deadline matches Some(instant) ==> (now >= instant ==> run(
            handles,
            now,
            turns,
        ).actions.last() == (DriveAction::HandleTimeout::<P, Seq<u8>> { connection, now })),
        deadline matches Some(instant) ==> (now < instant ==> run(
            handles,
            now,
            turns,
        ).actions.last() is Continue),
        deadline is None ==> run(handles, now, turns).actions.last() is Continue,
{
    lemma_phase_matches(handles, now, turns.drop_last());
    lemma_time_stands(handles, now, turns.drop_last());
}

/// What becomes of a datagram: without a local address it is passed over, and
/// otherwise the endpoint's answer decides. An event goes to its connection if
/// that is in the table, a response is sent, an attempt is added to the report,
/// and receiving goes on. Only an attempt adds to the report.
pub proof fn law_datagrams_are_dealt_with<P: Protocol>(
    handles: Set<ConnectionHandle>,
    now: Instant,
    turns: Seq<Turn<P>>,
)
    requires
        proper(handles, now, turns),
        turns.len() > 0,
    ensures
        ({
            let before = run(handles, now, turns.drop_last());
            let after = run(handles, now, turns);
            let action = after.actions.last();
            &&& turns.last().input matches DriveInput::Datagram { local: None, .. } ==> {
                &&& action is Continue
                &&& after.cycle.events == before.cycle.events
            }
            &&& turns.last().input matches DriveInput::Handled(handled) ==> match handled {
                None => action is Continue && after.cycle.events == before.cycle.events,
                Some(DatagramEvent::NewConnection(incoming)) => {
                    &&& action is Continue
                    &&& after.cycle.events == before.cycle.events.push(
                        PollEvent::NewConnection(incoming),
                    )
                },
                Some(DatagramEvent::ConnectionEvent(connection, event)) => {
                    &&& after.cycle.events == before.cycle.events
                    &&& before.handles.contains(connection) ==> action == (DriveAction::Deliver::<
                        P,
                        Seq<u8>,
                    > { connection, event })
                    &&& !before.handles.contains(connection) ==> action is Continue
                },
                Some(DatagramEvent::Response(transmit)) => {
                    &&& after.cycle.events == before.cycle.events
                    &&& action == DriveAction::<P, Seq<u8>>::Respond(transmit)
                },
            }
        }),
{
    lemma_phase_matches(handles, now, turns.drop_last());
}

/// A connection is asked for messages to the endpoint, or for announcements, again
/// after each that it gave, and no more once it had none.
pub proof fn law_connections_are_asked_on<P: Protocol>(
    handles: Set<ConnectionHandle>,
    now: Instant,
    turns: Seq<Turn<P>>,
    connection: ConnectionHandle,
)
    requires
        proper(handles, now, turns),
        turns.len() > 0,
    ensures
        ({
            let question = asked(run(handles, now, turns.drop_last()));
            let action = run(handles, now, turns).actions.last();
            &&& question == Some(DriveAction::PollEndpointEvent::<P, Seq<u8>> { connection }) ==> {
                &&& turns.last().input matches DriveInput::EndpointEvent(message)
                &&& message is Some ==> action == (DriveAction::PollEndpointEvent::<P, Seq<u8>> {
                    connection,
                })
                &&& message is None ==> action is Continue
            }
            &&& question == Some(DriveAction::Poll::<P, Seq<u8>> { connection }) ==> {
                &&& turns.last().input matches DriveInput::Event(event)
                &&& event is Some ==> action == (DriveAction::Poll::<P, Seq<u8>> { connection })
                &&& event is None ==> action is Continue
            }
        }),
{
    lemma_phase_matches(handles, now, turns.drop_last());
}

/// What is told of an announcement names the connection that made it, is of the
/// same kind, and has the same stream, direction or reason; and an announcement of
/// any other kind is not told.
pub proof fn law_announcements_are_told_as_made<I, S, R>(
    connection: ConnectionHandle,
    event: Event<S, R>,
    other: ConnectionHandle,
    stream: S,
    dir: Dir,
    reason: R,
)
    ensures
        ({
            let told = reported::<I, S, R>(connection, event);
            &&& told == Some(PollEvent::<I, S, R>::Connected { connection: other }) <==> other
                == connection && event is Connected
            &&& told == Some(
                PollEvent::<I, S, R>::StreamReadable { connection: other, stream },
            ) <==> other == connection && event == Event::<S, R>::Readable(stream)
            &&& told == Some(
                PollEvent::<I, S, R>::StreamWritable { connection: other, stream },
            ) <==> other == connection && event == Event::<S, R>::Writable(stream)
            &&& told == Some(
                PollEvent::<I, S, R>::StreamsAvailable { connection: other, dir },
            ) <==> other == connection && event == Event::<S, R>::Available(dir)
            &&& told == Some(
                PollEvent::<I, S, R>::ConnectionLost { connection: other, reason },
            ) <==> other == connection && event == Event::<S, R>::ConnectionLost(reason)
            &&& told == Some(
                PollEvent::<I, S, R>::DatagramReceived { connection: other },
            ) <==> other == connection && event is DatagramReceived
            &&& told is None <==> event is Other
        }),
{
}

/// Each announcement of a connection is added to the report at once, as an event
/// about that connection, of its kind and with its stream, direction or reason. One
/// that has no poll event adds nothing, and neither does any other answer in the
/// stages after receiving.
pub proof fn law_announcements_are_added<P: Protocol>(
    handles: Set<ConnectionHandle>,
    now: Instant,
    turns: Seq<Turn<P>>,
    connection: ConnectionHandle,
)
    requires
        proper(handles, now, turns),
        turns.len() > 0,
    ensures
        ({
            let before = run(handles, now, turns.drop_last());
            let earlier = before.cycle.events;
            let events = run(handles, now, turns).cycle.events;
            &&& asked(before) == Some(DriveAction::Poll::<P, Seq<u8>> { connection }) ==> (
            turns.last().input matches DriveInput::Event(Some(event)) ==> match event {
                Event::Connected => events == earlier.push(PollEvent::Connected { connection }),
                Event::Readable(stream) => events == earlier.push(
                    PollEvent::StreamReadable { connection, stream },
                ),
                Event::Writable(stream) => events == earlier.push(
                    PollEvent::StreamWritable { connection, stream },
                ),
                Event::Available(dir) => events == earlier.push(
                    PollEvent::StreamsAvailable { connection, dir },
                ),
                Event::ConnectionLost(reason) => events == earlier.push(
                    PollEvent::ConnectionLost { connection, reason },
                ),
                Event::DatagramReceived => events == earlier.push(
                    PollEvent::DatagramReceived { connection },
                ),
                Event::Other => events == earlier,
            })
            &&& !(turns.last().input is Handled) && !(turns.last().input is Event) ==> events
                == earlier
            &&& turns.last().input == DriveInput::<P>::Event(None) ==> events == earlier
        }),
{
    lemma_phase_matches(handles, now, turns.drop_last());
}

/// The endpoint's reply to a message goes to the connection that sent the message,
/// if that is still in the table; otherwise, and without a reply, nothing is
/// delivered. The connection leaves the table, after the reply, where the message
/// said that it is drained; no other connection leaves.
pub proof fn law_replies_are_dealt_with<P: Protocol>(
    handles: Set<ConnectionHandle>,
    now: Instant,
    turns: Seq<Turn<P>>,
    connection: ConnectionHandle,
    message: P::EndpointEvent,
    reply: Option<P::ConnectionEvent>,
)
    requires
        proper(handles, now, turns),
        turns.len() > 0,
        asked(run(handles, now, turns.drop_last())) == Some(
            DriveAction::HandleEndpointEvent::<P, Seq<u8>> { connection, message },
        ),
        turns.last().input == DriveInput::<P>::Reply(reply),
    ensures
        ({
            let before = run(handles, now, turns.drop_last());
            let after = run(handles, now, turns);
            let action = after.actions.last();
            &&& reply matches Some(event) ==> (before.handles.contains(connection) ==> action == (
            DriveAction::Deliver::<P, Seq<u8>> { connection, event }) && after.handles
                == before.handles)
            &&& !before.handles.contains(connection) ==> action is Continue && after.handles
                == before.handles
            &&& reply is None ==> action is Continue
            &&& forall|other: ConnectionHandle|
                other != connection ==> (#[trigger] after.handles.contains(other)
                    <==> before.handles.contains(other))
        }),
{
    lemma_phase_matches(handles, now, turns.drop_last());
}

/// A step of the state machine extends a run by a turn, and keeps it proper
/// where the input is taken and a walk names the connections in the table. So
/// the laws hold of the cycles of a driver, which goes forward by such steps.
pub proof fn law_steps_extend_runs<P: Protocol>(
    handles: Set<ConnectionHandle>,
    now: Instant,
    turns: Seq<Turn<P>>,
    turn: Turn<P>,
)
    requires
        proper(handles, now, turns),
    ensures
        ({
            let before = run(handles, now, turns);
            let after = run(handles, now, turns.push(turn));
            let step = drive_step(
                before.handles,
                turn.recv_buf,
                before.cycle,
                turn.input,
                turn.order,
            );
            &&& after.handles == step.handles
            &&& after.cycle == step.cycle
            &&& after.actions == before.actions.push(step.action)
            &&& !(step.action is Unexpected) && (walks(before.cycle, turn.input) ==> lists(
                turn.order,
                before.handles,
            )) ==> proper(handles, now, turns.push(turn))
        }),
{
    assert(turns.push(turn).drop_last() == turns);
}

} // verus!
