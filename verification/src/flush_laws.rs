//! What holds of a whole flush.
//!
//! A flush is a run of the state machine of [`crate::flush`]. The laws hold of
//! every run in which each input answers the action before it, whatever the
//! connections and the socket answered and in whatever order the table was
//! walked.

use vstd::prelude::*;

use crate::drive::{lemma_contains_push, lemma_first_of_pending, lists};
use crate::flush::{
    flush_start, flush_step, flush_walks, FlushAction, FlushInput, FlushPhase, FlushState,
    SEND_BATCH_SIZE,
};
use crate::types::{ConnectionHandle, Instant, Protocol, Transmit};

verus! {

/// One turn of a flush.
pub struct FlushTurn<P: Protocol> {
    /// What became of the action before.
    pub input: FlushInput<P>,
    /// The order in which the table is walked, where the turn begins the walk.
    pub order: Seq<ConnectionHandle>,
}

/// Where a run of turns leads.
pub struct FlushRun<P: Protocol> {
    /// The state of the flush.
    pub flush: FlushState,
    /// The actions asked for, one per turn.
    pub actions: Seq<FlushAction<P>>,
}

/// The run of a flush at the time `now`, on a table with these connections.
pub open spec fn flush_run<P: Protocol>(
    handles: Set<ConnectionHandle>,
    now: Instant,
    turns: Seq<FlushTurn<P>>,
) -> FlushRun<P>
    decreases turns.len(),
{
    if turns.len() == 0 {
        FlushRun { flush: flush_start(now), actions: Seq::empty() }
    } else {
        let before = flush_run(handles, now, turns.drop_last());
        let turn = turns.last();
        let (flush, action) = flush_step(handles, before.flush, turn.input, turn.order);
        FlushRun { flush, actions: before.actions.push(action) }
    }
}

/// Each input answers the action before it, and the walk through the table names
/// the connections that are in it.
pub open spec fn flush_proper<P: Protocol>(
    handles: Set<ConnectionHandle>,
    now: Instant,
    turns: Seq<FlushTurn<P>>,
) -> bool
    decreases turns.len(),
{
    turns.len() > 0 ==> {
        let before = flush_run(handles, now, turns.drop_last());
        let turn = turns.last();
        &&& flush_proper(handles, now, turns.drop_last())
        &&& flush_walks(before.flush, turn.input) ==> lists(turn.order, handles)
        &&& !(flush_run(handles, now, turns).actions.last() is Unexpected)
    }
}

/// The action that the next input of a run answers, if there was one.
pub open spec fn flush_asked<P: Protocol>(before: FlushRun<P>) -> Option<FlushAction<P>> {
    if before.actions.len() == 0 {
        None
    } else {
        Some(before.actions.last())
    }
}

/// How many datagrams were sent in a run.
pub open spec fn sent<P: Protocol>(turns: Seq<FlushTurn<P>>) -> nat
    decreases turns.len(),
{
    if turns.len() == 0 {
        0
    } else if turns.last().input is Sent {
        sent(turns.drop_last()) + 1
    } else {
        sent(turns.drop_last())
    }
}

/// The connections that a run asked for a datagram, in order, each as often as
/// it was asked.
pub open spec fn polled<P: Protocol>(actions: Seq<FlushAction<P>>) -> Seq<ConnectionHandle>
    decreases actions.len(),
{
    if actions.len() == 0 {
        Seq::empty()
    } else {
        match actions.last() {
            FlushAction::PollTransmit { connection, .. } => polled(actions.drop_last()).push(
                connection,
            ),
            _ => polled(actions.drop_last()),
        }
    }
}

/// How many datagrams of `connection` were sent in a run: a datagram belongs to
/// the connection that was asked last.
pub open spec fn sent_by<P: Protocol>(
    handles: Set<ConnectionHandle>,
    now: Instant,
    turns: Seq<FlushTurn<P>>,
    connection: ConnectionHandle,
) -> nat
    decreases turns.len(),
{
    if turns.len() == 0 {
        0
    } else {
        let rest = sent_by(handles, now, turns.drop_last(), connection);
        let before = polled(flush_run(handles, now, turns.drop_last()).actions);
        if turns.last().input is Sent && before.len() > 0 && before.last() == connection {
            rest + 1
        } else {
            rest
        }
    }
}

proof fn lemma_polled_push<P: Protocol>(actions: Seq<FlushAction<P>>, action: FlushAction<P>)
    ensures
        polled(actions.push(action)) == match action {
            FlushAction::PollTransmit { connection, .. } => polled(actions).push(connection),
            _ => polled(actions),
        },
{
    assert(actions.push(action).drop_last() == actions);
}

/// The phase of a flush, its last action and the connection that was asked last
/// agree.
spec fn visit_matches<P: Protocol>(now: Instant, run: FlushRun<P>) -> bool {
    let flush = run.flush;
    let visited = polled(run.actions);
    &&& flush.now == now
    &&& match flush_asked(run) {
        None => flush.phase is Start,
        Some(action) => match action {
            FlushAction::PollTransmit { connection, now: at, max_datagrams } => {
                &&& flush.phase is Polling
                &&& connection == flush.current
                &&& at == now
                &&& max_datagrams == SEND_BATCH_SIZE
            },
            FlushAction::Send(_) => flush.phase is Sending,
            FlushAction::Continue => flush.phase is Next,
            FlushAction::Finish(_) => flush.phase is Finished,
            FlushAction::Unexpected => false,
        },
    }
    &&& flush.phase is Polling || flush.phase is Sending ==> {
        &&& visited.len() > 0
        &&& visited.last() == flush.current
        &&& 1 <= flush.left <= SEND_BATCH_SIZE
    }
}

proof fn lemma_visit_matches<P: Protocol>(
    handles: Set<ConnectionHandle>,
    now: Instant,
    turns: Seq<FlushTurn<P>>,
)
    requires
        flush_proper(handles, now, turns),
    ensures
        visit_matches(now, flush_run(handles, now, turns)),
    decreases turns.len(),
{
    if turns.len() > 0 {
        lemma_visit_matches(handles, now, turns.drop_last());
        let before = flush_run(handles, now, turns.drop_last());
        lemma_polled_push(before.actions, flush_run(handles, now, turns).actions.last());
    }
}

/// A flush that ends well returns the number of datagrams that it sent.
pub proof fn law_flush_counts_what_it_sent<P: Protocol>(
    handles: Set<ConnectionHandle>,
    now: Instant,
    turns: Seq<FlushTurn<P>>,
)
    requires
        flush_proper(handles, now, turns),
    ensures
        flush_run(handles, now, turns).flush.total == sent(turns),
        turns.len() > 0 && sent(turns) <= usize::MAX ==> (flush_run(
            handles,
            now,
            turns,
        ).actions.last() matches FlushAction::Finish(Ok(count)) ==> count == sent(turns)),
    decreases turns.len(),
{
    if turns.len() > 0 {
        law_flush_counts_what_it_sent(handles, now, turns.drop_last());
        lemma_visit_matches(handles, now, turns.drop_last());
    }
}

/// A flush fails where, and only where, the socket fails, and with the socket's
/// error; it then asks for nothing more.
pub proof fn law_flush_fails_with_the_socket<P: Protocol>(
    handles: Set<ConnectionHandle>,
    now: Instant,
    turns: Seq<FlushTurn<P>>,
    error: P::IoError,
)
    requires
        flush_proper(handles, now, turns),
        turns.len() > 0,
    ensures
        turns.last().input == FlushInput::<P>::SendFailed(error) <==> flush_run(
            handles,
            now,
            turns,
        ).actions.last() == FlushAction::<P>::Finish(Err(error)),
        turns.last().input is SendFailed ==> flush_run(handles, now, turns).flush.phase is Finished,
{
    lemma_visit_matches(handles, now, turns.drop_last());
}

/// What has been visited, and what has yet to be, of a table with these
/// connections.
spec fn visiting<P: Protocol>(
    handles: Set<ConnectionHandle>,
    now: Instant,
    turns: Seq<FlushTurn<P>>,
) -> bool {
    let flush = flush_run(handles, now, turns).flush;
    let visited = polled(flush_run(handles, now, turns).actions);
    &&& flush.phase is Start ==> visited.len() == 0
    &&& !(flush.phase is Start) ==> {
        &&& flush.pending.no_duplicates()
        &&& forall|connection: ConnectionHandle| #[trigger]
            flush.pending.contains(connection) ==> !visited.contains(connection)
        &&& forall|connection: ConnectionHandle| #[trigger]
            handles.contains(connection) <==> visited.contains(connection)
                || flush.pending.contains(connection)
    }
}

proof fn lemma_visiting<P: Protocol>(
    handles: Set<ConnectionHandle>,
    now: Instant,
    turns: Seq<FlushTurn<P>>,
)
    requires
        flush_proper(handles, now, turns),
    ensures
        visiting(handles, now, turns),
    decreases turns.len(),
{
    if turns.len() > 0 {
        lemma_visiting(handles, now, turns.drop_last());
        lemma_visit_matches(handles, now, turns.drop_last());
        let before = flush_run(handles, now, turns.drop_last());
        let after = flush_run(handles, now, turns);
        let visited = polled(before.actions);
        lemma_polled_push(before.actions, after.actions.last());
        if before.flush.phase is Start {
            let order = turns.last().order;
            assert forall|connection: ConnectionHandle| #[trigger]
                handles.contains(connection) <==> order.contains(connection) by {
                assert(order.to_set().contains(connection) <==> order.contains(connection));
            }
        } else {
            if before.flush.phase is Next && before.flush.pending.len() > 0 {
                lemma_first_of_pending(before.flush.pending);
                let connection = before.flush.pending.first();
                assert(handles.contains(connection));
            }
            assert forall|connection: ConnectionHandle|
                true implies #[trigger] visited.push(after.flush.current).contains(connection)
                == (visited.contains(connection) || connection == after.flush.current) by {
                lemma_contains_push(visited, after.flush.current, connection);
            }
            if before.flush.phase is Sending {
                assert(visited.contains(visited.last()));
            }
        }
    }
}

/// A flush that ends well has asked every connection in the table for what it
/// has to send, and no other.
pub proof fn law_flush_visits_every_connection<P: Protocol>(
    handles: Set<ConnectionHandle>,
    now: Instant,
    turns: Seq<FlushTurn<P>>,
    connection: ConnectionHandle,
)
    requires
        flush_proper(handles, now, turns),
    ensures
        polled(flush_run(handles, now, turns).actions).contains(connection) ==> handles.contains(
            connection,
        ),
        turns.len() > 0 && handles.contains(connection) && (flush_run(
            handles,
            now,
            turns,
        ).actions.last() matches FlushAction::Finish(Ok(_))) ==> polled(
            flush_run(handles, now, turns).actions,
        ).contains(connection),
{
    lemma_visiting(handles, now, turns);
    if turns.len() > 0 {
        lemma_visiting(handles, now, turns.drop_last());
        lemma_visit_matches(handles, now, turns.drop_last());
    } else {
        assert(!polled(flush_run(handles, now, turns).actions).contains(connection));
    }
}

/// How many datagrams of `connection` were sent, by where the flush stands.
spec fn batch_holds<P: Protocol>(
    handles: Set<ConnectionHandle>,
    now: Instant,
    turns: Seq<FlushTurn<P>>,
    connection: ConnectionHandle,
) -> bool {
    let run = flush_run(handles, now, turns);
    let count = sent_by(handles, now, turns, connection);
    &&& count <= SEND_BATCH_SIZE
    &&& !polled(run.actions).contains(connection) ==> count == 0
    &&& (run.flush.phase is Polling || run.flush.phase is Sending) && run.flush.current
        == connection ==> count + run.flush.left == SEND_BATCH_SIZE
}

proof fn lemma_batch_holds<P: Protocol>(
    handles: Set<ConnectionHandle>,
    now: Instant,
    turns: Seq<FlushTurn<P>>,
    connection: ConnectionHandle,
)
    requires
        flush_proper(handles, now, turns),
    ensures
        batch_holds(handles, now, turns, connection),
    decreases turns.len(),
{
    if turns.len() > 0 {
        lemma_batch_holds(handles, now, turns.drop_last(), connection);
        lemma_visit_matches(handles, now, turns.drop_last());
        lemma_visiting(handles, now, turns.drop_last());
        let before = flush_run(handles, now, turns.drop_last());
        let after = flush_run(handles, now, turns);
        lemma_polled_push(before.actions, after.actions.last());
        lemma_contains_push(polled(before.actions), after.flush.current, connection);
        if polled(before.actions).len() > 0 {
            assert(polled(before.actions).contains(polled(before.actions).last()));
        }
        if before.flush.phase is Next && before.flush.pending.len() > 0 {
            lemma_first_of_pending(before.flush.pending);
        }
    }
}

/// A flush sends at most [`SEND_BATCH_SIZE`] datagrams of each connection.
pub proof fn law_flush_sends_a_bounded_batch<P: Protocol>(
    handles: Set<ConnectionHandle>,
    now: Instant,
    turns: Seq<FlushTurn<P>>,
    connection: ConnectionHandle,
)
    requires
        flush_proper(handles, now, turns),
    ensures
        sent_by(handles, now, turns, connection) <= SEND_BATCH_SIZE,
{
    lemma_batch_holds(handles, now, turns, connection);
}

/// A poll of `connection` found in a run that it had nothing to send.
pub open spec fn ran_dry<P: Protocol>(
    handles: Set<ConnectionHandle>,
    now: Instant,
    turns: Seq<FlushTurn<P>>,
    connection: ConnectionHandle,
) -> bool
    decreases turns.len(),
{
    &&& turns.len() > 0
    &&& {
        ||| ran_dry(handles, now, turns.drop_last(), connection)
        ||| {
            &&& flush_asked(flush_run(handles, now, turns.drop_last())) matches Some(
                FlushAction::PollTransmit { connection: asked, .. },
            )
            &&& asked == connection
            &&& turns.last().input == FlushInput::<P>::Transmit(None)
        }
    }
}

/// The socket would not take a datagram of `connection` in a run: of the
/// connection that was asked last.
pub open spec fn was_held_up<P: Protocol>(
    handles: Set<ConnectionHandle>,
    now: Instant,
    turns: Seq<FlushTurn<P>>,
    connection: ConnectionHandle,
) -> bool
    decreases turns.len(),
{
    &&& turns.len() > 0
    &&& {
        ||| was_held_up(handles, now, turns.drop_last(), connection)
        ||| {
            let before = flush_run(handles, now, turns.drop_last());
            &&& flush_asked(before) matches Some(FlushAction::Send(_))
            &&& polled(before.actions).len() > 0
            &&& polled(before.actions).last() == connection
            &&& turns.last().input is WouldBlock
        }
    }
}

/// The visit of a flush to `connection` has come to its end: the connection had
/// nothing left to send, or sent a whole batch, or the socket took no more.
pub open spec fn flushed<P: Protocol>(
    handles: Set<ConnectionHandle>,
    now: Instant,
    turns: Seq<FlushTurn<P>>,
    connection: ConnectionHandle,
) -> bool {
    ||| sent_by(handles, now, turns, connection) == SEND_BATCH_SIZE
    ||| ran_dry(handles, now, turns, connection)
    ||| was_held_up(handles, now, turns, connection)
}

/// Every visit but the one in progress has come to its end, unless the socket
/// failed.
proof fn lemma_flushed<P: Protocol>(
    handles: Set<ConnectionHandle>,
    now: Instant,
    turns: Seq<FlushTurn<P>>,
    connection: ConnectionHandle,
)
    requires
        flush_proper(handles, now, turns),
    ensures
        ({
            let run = flush_run(handles, now, turns);
            let visited = (run.flush.phase is Polling || run.flush.phase is Sending)
                && run.flush.current == connection;
            let failed = flush_asked(run) matches Some(FlushAction::Finish(Err(_)));
            polled(run.actions).contains(connection) && !visited && !failed ==> flushed(
                handles,
                now,
                turns,
                connection,
            )
        }),
    decreases turns.len(),
{
    if turns.len() > 0 {
        let earlier = turns.drop_last();
        lemma_flushed(handles, now, earlier, connection);
        lemma_visit_matches(handles, now, earlier);
        lemma_batch_holds(handles, now, earlier, connection);
        lemma_batch_holds(handles, now, turns, connection);
        let before = flush_run(handles, now, earlier);
        let after = flush_run(handles, now, turns);
        lemma_polled_push(before.actions, after.actions.last());
        lemma_contains_push(polled(before.actions), after.flush.current, connection);
    }
}

/// A flush that ends well has flushed every connection in the table: each was
/// asked for datagrams, and they were sent, until it had none left, until
/// [`SEND_BATCH_SIZE`] were sent, or until the socket would take no more.
pub proof fn law_flush_flushes_every_connection<P: Protocol>(
    handles: Set<ConnectionHandle>,
    now: Instant,
    turns: Seq<FlushTurn<P>>,
    connection: ConnectionHandle,
)
    requires
        flush_proper(handles, now, turns),
        turns.len() > 0,
        flush_run(handles, now, turns).actions.last() matches FlushAction::Finish(Ok(_)),
        handles.contains(connection),
    ensures
        flushed(handles, now, turns, connection),
{
    law_flush_visits_every_connection(handles, now, turns, connection);
    lemma_visit_matches(handles, now, turns);
    lemma_flushed(handles, now, turns, connection);
}

/// What a flush does next follows from the answer to what it did: a datagram that
/// a connection gives is sent; after one that was sent, the same connection is asked
/// again at the time of the flush, unless it has sent [`SEND_BATCH_SIZE`] of them;
/// and once the connection has none, or the socket takes no more, the visit is over.
/// A datagram counts where, and only where, it was sent.
pub proof fn law_flush_acts_on_answers<P: Protocol>(
    handles: Set<ConnectionHandle>,
    now: Instant,
    turns: Seq<FlushTurn<P>>,
)
    requires
        flush_proper(handles, now, turns),
        turns.len() > 0,
    ensures
        ({
            let before = flush_run(handles, now, turns.drop_last());
            let after = flush_run(handles, now, turns);
            let action = after.actions.last();
            let connection = polled(before.actions).last();
            &&& turns.last().input matches FlushInput::Transmit(transmit) ==> match transmit {
                Some(transmit) => action == FlushAction::<P>::Send(transmit),
                None => action is Continue,
            }
            &&& turns.last().input is Sent ==> {
                &&& after.flush.total == before.flush.total + 1
                &&& polled(before.actions).len() > 0
                &&& sent_by(handles, now, turns, connection) < SEND_BATCH_SIZE ==> action == (
                FlushAction::PollTransmit::<P> {
                    connection,
                    now,
                    max_datagrams: SEND_BATCH_SIZE,
                })
                &&& sent_by(handles, now, turns, connection) >= SEND_BATCH_SIZE ==> action
                    is Continue
            }
            &&& turns.last().input is WouldBlock ==> action is Continue
            &&& turns.last().input matches FlushInput::SendFailed(error) ==> action
                == FlushAction::<P>::Finish(Err(error))
            &&& !(turns.last().input is Sent) ==> after.flush.total == before.flush.total
        }),
{
    lemma_visit_matches(handles, now, turns.drop_last());
    let before = flush_run(handles, now, turns.drop_last());
    lemma_batch_holds(handles, now, turns.drop_last(), before.flush.current);
}

/// A connection that a flush asks for a datagram may still send one in this flush:
/// it has not run dry, the socket has not held it up, and its batch is not used up.
pub proof fn law_flush_leaves_ended_visits<P: Protocol>(
    handles: Set<ConnectionHandle>,
    now: Instant,
    turns: Seq<FlushTurn<P>>,
    connection: ConnectionHandle,
)
    requires
        flush_proper(handles, now, turns),
        turns.len() > 0,
        flush_run(handles, now, turns).actions.last() matches FlushAction::PollTransmit {
            connection: asked,
            ..
        } && asked == connection,
    ensures
        !ran_dry(handles, now, turns, connection),
        !was_held_up(handles, now, turns, connection),
        sent_by(handles, now, turns, connection) < SEND_BATCH_SIZE,
{
    lemma_visit_matches(handles, now, turns);
    lemma_batch_holds(handles, now, turns, connection);
    lemma_visit_goes_on(handles, now, turns, connection);
}

proof fn lemma_visit_goes_on<P: Protocol>(
    handles: Set<ConnectionHandle>,
    now: Instant,
    turns: Seq<FlushTurn<P>>,
    connection: ConnectionHandle,
)
    requires
        flush_proper(handles, now, turns),
    ensures
        ({
            let run = flush_run(handles, now, turns);
            let visited = (run.flush.phase is Polling || run.flush.phase is Sending)
                && run.flush.current == connection;
            visited || !polled(run.actions).contains(connection) ==> !ran_dry(
                handles,
                now,
                turns,
                connection,
            ) && !was_held_up(handles, now, turns, connection)
        }),
    decreases turns.len(),
{
    if turns.len() > 0 {
        let earlier = turns.drop_last();
        lemma_visit_goes_on(handles, now, earlier, connection);
        lemma_visit_matches(handles, now, earlier);
        lemma_visiting(handles, now, earlier);
        let before = flush_run(handles, now, earlier);
        let after = flush_run(handles, now, turns);
        lemma_polled_push(before.actions, after.actions.last());
        lemma_contains_push(polled(before.actions), after.flush.current, connection);
        if polled(before.actions).len() > 0 {
            assert(polled(before.actions).contains(polled(before.actions).last()));
        }
        if before.flush.phase is Next && before.flush.pending.len() > 0 {
            lemma_first_of_pending(before.flush.pending);
        }
    }
}

/// How many datagrams a flush of a table of `size` connections can still send.
spec fn sends_left(flush: FlushState, size: nat) -> nat {
    match flush.phase {
        FlushPhase::Start => SEND_BATCH_SIZE as nat * size,
        FlushPhase::Next => SEND_BATCH_SIZE as nat * flush.pending.len(),
        FlushPhase::Polling | FlushPhase::Sending => SEND_BATCH_SIZE as nat * flush.pending.len()
            + flush.left,
        FlushPhase::Finished => 0,
    }
}

proof fn lemma_sends_left<P: Protocol>(
    handles: Set<ConnectionHandle>,
    now: Instant,
    turns: Seq<FlushTurn<P>>,
)
    requires
        flush_proper(handles, now, turns),
        handles.finite(),
    ensures
        sent(turns) + sends_left(flush_run(handles, now, turns).flush, handles.len())
            <= SEND_BATCH_SIZE * handles.len(),
    decreases turns.len(),
{
    if turns.len() > 0 {
        lemma_sends_left(handles, now, turns.drop_last());
        lemma_visit_matches(handles, now, turns.drop_last());
        let before = flush_run(handles, now, turns.drop_last());
        if flush_walks(before.flush, turns.last().input) {
            turns.last().order.unique_seq_to_set();
        }
    }
}

/// A flush sends at most [`SEND_BATCH_SIZE`] datagrams for each connection in
/// the table, all in all.
pub proof fn law_flush_total_is_bounded<P: Protocol>(
    handles: Set<ConnectionHandle>,
    now: Instant,
    turns: Seq<FlushTurn<P>>,
)
    requires
        flush_proper(handles, now, turns),
        handles.finite(),
    ensures
        sent(turns) <= SEND_BATCH_SIZE * handles.len(),
        flush_run(handles, now, turns).flush.total <= SEND_BATCH_SIZE * handles.len(),
{
    lemma_sends_left(handles, now, turns);
    law_flush_counts_what_it_sent(handles, now, turns);
}

/// A flush visits each connection in one stretch: between two polls of a
/// connection it polls no other.
pub proof fn law_flush_visits_in_one_stretch<P: Protocol>(
    handles: Set<ConnectionHandle>,
    now: Instant,
    turns: Seq<FlushTurn<P>>,
)
    requires
        flush_proper(handles, now, turns),
    ensures
        ({
            let visited = polled(flush_run(handles, now, turns).actions);
            forall|i: int, j: int, k: int|
                #![trigger visited[i], visited[j], visited[k]]
                0 <= i <= j <= k < visited.len() && visited[i] == visited[k] ==> visited[j]
                    == visited[i]
        }),
    decreases turns.len(),
{
    if turns.len() > 0 {
        law_flush_visits_in_one_stretch(handles, now, turns.drop_last());
        lemma_visit_matches(handles, now, turns.drop_last());
        lemma_visiting(handles, now, turns.drop_last());
        let before = flush_run(handles, now, turns.drop_last());
        let after = flush_run(handles, now, turns);
        let earlier = polled(before.actions);
        let visited = polled(after.actions);
        lemma_polled_push(before.actions, after.actions.last());
        if before.flush.phase is Next && before.flush.pending.len() > 0 {
            lemma_first_of_pending(before.flush.pending);
        }
        assert forall|i: int, j: int, k: int|
            #![trigger visited[i], visited[j], visited[k]]
            0 <= i <= j <= k < visited.len() && visited[i] == visited[k] implies visited[j]
            == visited[i] by {
            if k < earlier.len() {
                assert(earlier[i] == earlier[k]);
                assert(earlier[j] == visited[j]);
            } else if i < earlier.len() {
                assert(earlier.contains(earlier[i]));
                assert(earlier[i] == earlier[earlier.len() - 1]);
                if j < earlier.len() {
                    assert(earlier[j] == visited[j]);
                }
            }
        }
    }
}

/// A flush sends the datagrams that the connections give it, each as it is
/// given, and nothing else.
pub proof fn law_flush_sends_what_it_is_given<P: Protocol>(
    handles: Set<ConnectionHandle>,
    now: Instant,
    turns: Seq<FlushTurn<P>>,
    transmit: Transmit<P::Address>,
)
    requires
        flush_proper(handles, now, turns),
        turns.len() > 0,
    ensures
        flush_run(handles, now, turns).actions.last() == FlushAction::<P>::Send(transmit)
            <==> turns.last().input == FlushInput::<P>::Transmit(Some(transmit)),
{
    lemma_visit_matches(handles, now, turns.drop_last());
}

/// The most turns that a flush can still take.
spec fn flush_turns_left(flush: FlushState, size: nat) -> nat {
    let visit = (2 * SEND_BATCH_SIZE + 2) as nat;
    match flush.phase {
        FlushPhase::Start => 2 + visit * size,
        FlushPhase::Next => 1 + visit * flush.pending.len(),
        FlushPhase::Polling => 2 + visit * flush.pending.len() + 2 * flush.left,
        FlushPhase::Sending => 1 + visit * flush.pending.len() + 2 * flush.left,
        FlushPhase::Finished => 0,
    }
}

proof fn lemma_flush_turns_left<P: Protocol>(
    handles: Set<ConnectionHandle>,
    now: Instant,
    turns: Seq<FlushTurn<P>>,
)
    requires
        flush_proper(handles, now, turns),
        handles.finite(),
    ensures
        turns.len() + flush_turns_left(flush_run(handles, now, turns).flush, handles.len()) <= 2 + (
        2 * SEND_BATCH_SIZE + 2) * handles.len(),
    decreases turns.len(),
{
    if turns.len() > 0 {
        lemma_flush_turns_left(handles, now, turns.drop_last());
        lemma_visit_matches(handles, now, turns.drop_last());
        let before = flush_run(handles, now, turns.drop_last());
        if flush_walks(before.flush, turns.last().input) {
            turns.last().order.unique_seq_to_set();
        }
    }
}

/// A flush ends: the number of its turns is bounded by the connections in the
/// table.
pub proof fn law_flush_is_bounded<P: Protocol>(
    handles: Set<ConnectionHandle>,
    now: Instant,
    turns: Seq<FlushTurn<P>>,
)
    requires
        flush_proper(handles, now, turns),
        handles.finite(),
    ensures
        turns.len() <= 2 + (2 * SEND_BATCH_SIZE + 2) * handles.len(),
{
    lemma_flush_turns_left(handles, now, turns);
}

/// `input` is an answer to `action`, or starts a flush where there was none.
pub open spec fn flush_answers<P: Protocol>(
    action: Option<FlushAction<P>>,
    input: FlushInput<P>,
) -> bool {
    match action {
        Some(FlushAction::PollTransmit { .. }) => input is Transmit,
        Some(FlushAction::Send(_)) => input is Sent || input is WouldBlock || input is SendFailed,
        Some(FlushAction::Finish(_)) => false,
        _ => input is Ready,
    }
}

/// A flush takes the inputs that answer its last action, and no others; one that
/// it does not take changes nothing.
pub proof fn law_flush_answers_are_taken<P: Protocol>(
    handles: Set<ConnectionHandle>,
    now: Instant,
    turns: Seq<FlushTurn<P>>,
)
    requires
        turns.len() > 0,
        flush_proper(handles, now, turns.drop_last()),
    ensures
        flush_answers(
            flush_asked(flush_run(handles, now, turns.drop_last())),
            turns.last().input,
        ) <==> !(flush_run(handles, now, turns).actions.last() is Unexpected),
        flush_run(handles, now, turns).actions.last() is Unexpected ==> flush_run(
            handles,
            now,
            turns,
        ).flush == flush_run(handles, now, turns.drop_last()).flush,
{
    lemma_visit_matches(handles, now, turns.drop_last());
}

/// A connection that a flush asks for a datagram is in the table, and is asked
/// at the time of the flush for at most [`SEND_BATCH_SIZE`] datagrams.
pub proof fn law_flush_polls_known_connections<P: Protocol>(
    handles: Set<ConnectionHandle>,
    now: Instant,
    turns: Seq<FlushTurn<P>>,
)
    requires
        flush_proper(handles, now, turns),
        turns.len() > 0,
    ensures
        flush_run(handles, now, turns).actions.last() matches FlushAction::PollTransmit {
            connection,
            now: at,
            max_datagrams,
        } ==> handles.contains(connection) && at == now && max_datagrams == SEND_BATCH_SIZE,
{
    let run = flush_run(handles, now, turns);
    lemma_visit_matches(handles, now, turns);
    lemma_visiting(handles, now, turns);
    if polled(run.actions).len() > 0 {
        assert(polled(run.actions).contains(polled(run.actions).last()));
    }
}

/// A step of the state machine extends a run by a turn, and keeps it proper
/// where the input is taken and the walk names the connections in the table. So
/// the laws hold of the flushes of a driver, which go forward by such steps.
pub proof fn law_flush_steps_extend_runs<P: Protocol>(
    handles: Set<ConnectionHandle>,
    now: Instant,
    turns: Seq<FlushTurn<P>>,
    turn: FlushTurn<P>,
)
    requires
        flush_proper(handles, now, turns),
    ensures
        ({
            let before = flush_run(handles, now, turns);
            let after = flush_run(handles, now, turns.push(turn));
            let (flush, action) = flush_step(handles, before.flush, turn.input, turn.order);
            &&& after.flush == flush
            &&& after.actions == before.actions.push(action)
            &&& !(action is Unexpected) && (flush_walks(before.flush, turn.input) ==> lists(
                turn.order,
                handles,
            )) ==> flush_proper(handles, now, turns.push(turn))
        }),
{
    assert(turns.push(turn).drop_last() == turns);
}

} // verus!
