//! What holds of every run of the multiplexer: the order of sequence numbers
//! on the wire, the routing of responses and events, and shutdown.

use vstd::prelude::*;
use crate::multiplexer::{
    awaited, closed, closing, collected, freed, next_sequence, routed, sent, sequence_after,
    unobserved, waiting, ConnectionError, ConnectionState, FrameKind, MultiplexerView, Outcome,
    PayloadView, Routing, SEQUENCE_MODULUS,
};

verus! {

/// The connection after a run of requests was accepted, each given as its
/// payload and whether it expects a reply.
pub open spec fn sent_all(
    pre: MultiplexerView,
    requests: Seq<(PayloadView, bool)>,
) -> MultiplexerView
    decreases requests.len(),
{
    if requests.len() == 0 {
        pre
    } else {
        sent(sent_all(pre, requests.drop_last()), requests.last().0, requests.last().1)
    }
}

/// How far a connection is in its life cycle.
pub open spec fn rank(state: ConnectionState) -> int {
    match state {
        ConnectionState::Open => 0,
        ConnectionState::Closing => 1,
        ConnectionState::Closed => 2,
    }
}

/// Counting on from `last` one request at a time gives the sequence numbers
/// that `next_sequence` gives, all below the modulus.
pub proof fn lemma_sequence_step(last: u32, count: nat)
    requires
        last < SEQUENCE_MODULUS,
    ensures
        sequence_after(last, 0) == last,
        sequence_after(last, count) < SEQUENCE_MODULUS,
        sequence_after(last, count + 1) == next_sequence(sequence_after(last, count)),
{
}

/// A run of requests is written in the order given, behind what the outbox
/// held, and the request at place `k` of the run carries the `k + 1`-th
/// sequence number after the last one given out before.
pub proof fn lemma_wire_order(pre: MultiplexerView, requests: Seq<(PayloadView, bool)>)
    requires
        pre.last_sequence < SEQUENCE_MODULUS,
    ensures
        sent_all(pre, requests).state == pre.state,
        sent_all(pre, requests).events == pre.events,
        sent_all(pre, requests).last_sequence == sequence_after(pre.last_sequence, requests.len()),
        sent_all(pre, requests).outbox.len() == pre.outbox.len() + requests.len(),
        forall|k: int|
            0 <= k < pre.outbox.len() ==> (#[trigger] sent_all(pre, requests).outbox[k])
                == pre.outbox[k],
        forall|k: int|
            0 <= k < requests.len() ==> (#[trigger] sent_all(pre, requests).outbox[pre.outbox.len()
                + k]).sequence == sequence_after(pre.last_sequence, (k + 1) as nat) && sent_all(
                pre,
                requests,
            ).outbox[pre.outbox.len() + k].payload == requests[k].0,
    decreases requests.len(),
{
    if requests.len() > 0 {
        let shorter = requests.drop_last();
        lemma_wire_order(pre, shorter);
        lemma_sequence_step(pre.last_sequence, shorter.len());
        let mid = sent_all(pre, shorter);
        let post = sent_all(pre, requests);
        let n = pre.outbox.len();
        assert forall|k: int| 0 <= k < requests.len() implies (#[trigger] post.outbox[n
            + k]).sequence == sequence_after(pre.last_sequence, (k + 1) as nat) && post.outbox[n
            + k].payload == requests[k].0 by {
            if k < shorter.len() {
                assert(post.outbox[pre.outbox.len() + k] == mid.outbox[pre.outbox.len() + k]);
                assert(shorter[k] == requests[k]);
            }
        }
    }
}

/// Sequence numbers increase in wire order: of two requests of a run, the
/// later one carries the greater number, as long as the numbers have not
/// wrapped around.
pub proof fn lemma_sequences_increase(
    pre: MultiplexerView,
    requests: Seq<(PayloadView, bool)>,
    i: int,
    j: int,
)
    requires
        pre.last_sequence + requests.len() < SEQUENCE_MODULUS,
        0 <= i < j < requests.len(),
    ensures
        sent_all(pre, requests).outbox[pre.outbox.len() + i].sequence < sent_all(
            pre,
            requests,
        ).outbox[pre.outbox.len() + j].sequence,
{
    lemma_wire_order(pre, requests);
}

/// Sequence numbers are unique: two requests of a run that is no longer than
/// the modulus carry different numbers.
pub proof fn lemma_sequences_unique(
    pre: MultiplexerView,
    requests: Seq<(PayloadView, bool)>,
    i: int,
    j: int,
)
    requires
        pre.last_sequence < SEQUENCE_MODULUS,
        requests.len() <= SEQUENCE_MODULUS,
        0 <= i < j < requests.len(),
    ensures
        sent_all(pre, requests).outbox[pre.outbox.len() + i].sequence != sent_all(
            pre,
            requests,
        ).outbox[pre.outbox.len() + j].sequence,
{
    lemma_wire_order(pre, requests);
}

/// A reply or an error reaches the waiter whose sequence number it carries,
/// and no other: that waiter finds it, every other waiter finds what it would
/// have found before, the response is taken out once, and a second frame with
/// the same number is dropped.
pub proof fn lemma_response_reaches_its_waiter(
    pre: MultiplexerView,
    kind: FrameKind,
    sequence: u32,
    payload: Seq<u8>,
    other: u32,
    again: Seq<u8>,
)
    requires
        pre.state != ConnectionState::Closed,
        kind != FrameKind::Event,
        waiting(pre, sequence),
        other != sequence,
    ensures
        routed(pre, kind, sequence, payload).1 == Routing::Delivered(sequence),
        awaited(routed(pre, kind, sequence, payload).0, sequence) == Some(
            if kind == FrameKind::Reply {
                Outcome::Reply(payload)
            } else {
                Outcome::Error(payload)
            },
        ),
        awaited(routed(pre, kind, sequence, payload).0, other) == awaited(pre, other),
        awaited(collected(routed(pre, kind, sequence, payload).0, sequence), sequence) is None,
        routed(routed(pre, kind, sequence, payload).0, kind, sequence, again) == (
            routed(pre, kind, sequence, payload).0,
            Routing::Discarded(ConnectionError::ProtocolViolation),
        ),
{
}

/// A reply or an error that no registered request waits for is dropped, and
/// the connection stays as it was.
pub proof fn lemma_unmatched_response_is_dropped(
    pre: MultiplexerView,
    kind: FrameKind,
    sequence: u32,
    payload: Seq<u8>,
)
    requires
        kind != FrameKind::Event,
        !waiting(pre, sequence),
    ensures
        routed(pre, kind, sequence, payload).0 == pre,
        routed(pre, kind, sequence, payload).1 == Routing::Discarded(
            if pre.state == ConnectionState::Closed {
                ConnectionError::ConnectionClosed
            } else {
                ConnectionError::ProtocolViolation
            },
        ),
{
}

/// An event joins the end of what each present subscriber has still to
/// observe, whatever sequence number its frame carries; a subscriber that
/// arrives afterwards has nothing to observe.
pub proof fn lemma_events_in_order(
    pre: MultiplexerView,
    cursor: int,
    sequence: u32,
    payload: Seq<u8>,
)
    requires
        pre.state != ConnectionState::Closed,
        0 <= cursor <= pre.events.len(),
    ensures
        routed(pre, FrameKind::Event, sequence, payload).1 == Routing::Broadcast,
        unobserved(routed(pre, FrameKind::Event, sequence, payload).0, cursor) == unobserved(
            pre,
            cursor,
        ).push(payload),
        unobserved(
            routed(pre, FrameKind::Event, sequence, payload).0,
            routed(pre, FrameKind::Event, sequence, payload).0.events.len() as int,
        ) == Seq::<Seq<u8>>::empty(),
{
    let post = routed(pre, FrameKind::Event, sequence, payload).0;
    assert(unobserved(post, cursor) =~= unobserved(pre, cursor).push(payload));
    assert(unobserved(post, post.events.len() as int) =~= Seq::<Seq<u8>>::empty());
}

/// Shutting down twice is shutting down once: the second time changes
/// nothing and finds no waiter. A slot that held a response keeps it, and a
/// slot that waited holds the terminal error.
pub proof fn lemma_shutdown_is_idempotent(pre: MultiplexerView)
    ensures
        closed(closed(pre)) == closed(pre),
        forall|k: u32| !waiting(closed(pre), k),
        forall|k: u32|
            pre.slots.contains_key(k) && pre.slots[k] is Some ==> #[trigger] awaited(
                closed(pre),
                k,
            ) == pre.slots[k],
        forall|k: u32|
            !(pre.slots.contains_key(k) && pre.slots[k] is Some) ==> #[trigger] awaited(
                closed(pre),
                k,
            ) == Some(Outcome::ConnectionClosed),
{
    assert(closed(closed(pre)).slots =~= closed(pre).slots);
}

/// The state of a connection only moves forward, and a connection that is not
/// open accepts no request.
pub proof fn lemma_state_moves_forward(
    pre: MultiplexerView,
    payload: PayloadView,
    expects_reply: bool,
    kind: FrameKind,
    sequence: u32,
    bytes: Seq<u8>,
    extension: Seq<char>,
    resource_type: Seq<char>,
)
    ensures
        rank(sent(pre, payload, expects_reply).state) == rank(pre.state),
        rank(routed(pre, kind, sequence, bytes).0.state) == rank(pre.state),
        rank(collected(pre, sequence).state) == rank(pre.state),
        rank(freed(pre, extension, resource_type, sequence).state) == rank(pre.state),
        rank(closing(pre).state) >= rank(pre.state),
        rank(closed(pre).state) >= rank(pre.state),
        closing(pre).state != ConnectionState::Open,
        closed(pre).state == ConnectionState::Closed,
        closing(closed(pre)) == closed(pre),
{
}

} // verus!
