//! The connection multiplexer as a state machine: it assigns sequence numbers
//! in wire order, keeps the table of requests that await a response, routes
//! each incoming frame to its waiter or to the event stream, and shuts down
//! once, draining every waiter with a terminal error.
//!
//! The caller performs the stream I/O: it writes what [`Multiplexer::take_outgoing`]
//! hands out, feeds each decoded frame to [`Multiplexer::handle_frame`], and
//! calls [`Multiplexer::shutdown`] when a read or a write fails.

use vstd::prelude::*;
use crate::resources::{definitions_for, destroyer_of, for_extension, free_request_for};

verus! {

/// Sequence numbers wrap at this value.
pub const SEQUENCE_MODULUS: u32 = 65536;

/// The life cycle of a connection. It only moves forward.
#[derive(Clone, Copy, Debug, PartialEq, Eq, Structural)]
pub enum ConnectionState {
    Open,
    Closing,
    Closed,
}

/// Why an operation of the connection could not be served.
#[derive(Clone, Copy, Debug, PartialEq, Eq, Structural)]
pub enum ConnectionError {
    /// The underlying stream failed; this closes the connection.
    IoFailure,
    /// A malformed frame or a response that nothing awaits; the frame is discarded.
    ProtocolViolation,
    /// The connection is no longer open.
    ConnectionClosed,
    /// A guard was asked to give up a resource that it had already given up.
    ResourceAlreadyReleased,
}

/// What kind of frame the header announces.
#[derive(Clone, Copy, Debug, PartialEq, Eq, Structural)]
pub enum FrameKind {
    Reply,
    Error,
    Event,
}

/// A decoded incoming frame. The payload is opaque to the multiplexer.
#[derive(Debug)]
pub struct Frame {
    pub kind: FrameKind,
    pub sequence: u32,
    pub payload: Vec<u8>,
}

/// What a waiter receives for its request.
#[derive(Debug)]
pub enum ReplyOrError {
    Reply(Vec<u8>),
    Error(Vec<u8>),
    ConnectionClosed,
}

/// Mathematical model of a [`ReplyOrError`].
pub ghost enum Outcome {
    Reply(Seq<u8>),
    Error(Seq<u8>),
    ConnectionClosed,
}

impl View for ReplyOrError {
    type V = Outcome;

    open spec fn view(&self) -> Outcome {
        match self {
            ReplyOrError::Reply(bytes) => Outcome::Reply(bytes@),
            ReplyOrError::Error(bytes) => Outcome::Error(bytes@),
            ReplyOrError::ConnectionClosed => Outcome::ConnectionClosed,
        }
    }
}

/// The model of a delivery slot: empty while the response is awaited.
pub open spec fn slot_view(outcome: Option<ReplyOrError>) -> Option<Outcome> {
    match outcome {
        None => None,
        Some(r) => Some(r@),
    }
}

/// What a request carries onto the wire.
#[derive(Debug)]
pub enum Payload {
    /// A request that its sender has already encoded.
    Bytes(Vec<u8>),
    /// The request that frees the resource `id`, named by the registry.
    Free { request_name: &'static str, id: u32 },
}

/// Mathematical model of a [`Payload`].
pub ghost enum PayloadView {
    Bytes(Seq<u8>),
    Free { request_name: Seq<char>, id: u32 },
}

impl View for Payload {
    type V = PayloadView;

    open spec fn view(&self) -> PayloadView {
        match self {
            Payload::Bytes(bytes) => PayloadView::Bytes(bytes@),
            Payload::Free { request_name, id } => PayloadView::Free {
                request_name: request_name@,
                id: *id,
            },
        }
    }
}

/// A request with the sequence number that it was given.
#[derive(Debug)]
pub struct Outgoing {
    pub sequence: u32,
    pub payload: Payload,
}

/// Mathematical model of an [`Outgoing`].
pub ghost struct OutgoingView {
    pub sequence: u32,
    pub payload: PayloadView,
}

impl View for Outgoing {
    type V = OutgoingView;

    open spec fn view(&self) -> OutgoingView {
        OutgoingView { sequence: self.sequence, payload: self.payload@ }
    }
}

/// What became of an incoming frame.
#[derive(Clone, Copy, Debug, PartialEq, Eq, Structural)]
pub enum Routing {
    /// A reply or error was put into the slot of the request with this sequence number.
    Delivered(u32),
    /// An event was appended to the event stream.
    Broadcast,
    /// The frame was dropped, for the reason given: a protocol violation
    /// where no request awaited the response, and a closed connection where
    /// the frame came too late. Neither is fatal.
    Discarded(ConnectionError),
}

/// What the reader of the stream reports to the multiplexer.
#[derive(Debug)]
pub enum ReadEvent {
    /// A frame was read and decoded.
    Frame(Frame),
    /// The stream failed, or ended.
    Failure,
}

/// What the reader of the stream has to do next.
#[derive(Debug)]
pub enum ReadAction {
    /// Read on; the frame was routed as said.
    Continue(Routing),
    /// Stop reading: the connection is closed, after a failure of the stream
    /// or because it had been closed before. The requests with the sequence
    /// numbers in `waiters` waited and have received the terminal error.
    Stop { reason: ConnectionError, waiters: Vec<u32> },
}

/// Mathematical model of a [`Multiplexer`].
pub ghost struct MultiplexerView {
    pub state: ConnectionState,
    /// The sequence number given out last; 0 before the first request.
    pub last_sequence: u32,
    /// The delivery slot of each registered request: `None` while it waits.
    pub slots: Map<u32, Option<Outcome>>,
    /// The requests in wire order that the caller has not yet taken.
    pub outbox: Seq<OutgoingView>,
    /// Every event received so far, in order of arrival.
    pub events: Seq<Seq<u8>>,
}

/// The sequence number that follows `last`.
pub open spec fn next_sequence(last: u32) -> u32 {
    if last as int + 1 >= SEQUENCE_MODULUS as int {
        0
    } else {
        (last + 1) as u32
    }
}

/// The sequence number of the `count`-th request after the one numbered `last`.
pub open spec fn sequence_after(last: u32, count: nat) -> u32 {
    ((last as int + count as int) % (SEQUENCE_MODULUS as int)) as u32
}

/// The connection after a request was accepted for writing: the request
/// stands last in the outbox with the next sequence number, and a request
/// that expects a reply has a waiting slot under that number. A slot that a
/// request with the same number left behind, before the numbers wrapped
/// around, is superseded, so that no number ever has two slots.
pub open spec fn sent(
    pre: MultiplexerView,
    payload: PayloadView,
    expects_reply: bool,
) -> MultiplexerView {
    let sequence = next_sequence(pre.last_sequence);
    MultiplexerView {
        last_sequence: sequence,
        slots: if expects_reply {
            pre.slots.insert(sequence, None)
        } else {
            pre.slots
        },
        outbox: pre.outbox.push(OutgoingView { sequence, payload }),
        ..pre
    }
}

/// Whether the request numbered `sequence` is registered and still waits.
pub open spec fn waiting(pre: MultiplexerView, sequence: u32) -> bool {
    pre.slots.contains_key(sequence) && pre.slots[sequence] is None
}

/// What the read loop does with a frame: the next connection and the routing.
pub open spec fn routed(
    pre: MultiplexerView,
    kind: FrameKind,
    sequence: u32,
    payload: Seq<u8>,
) -> (MultiplexerView, Routing) {
    if pre.state == ConnectionState::Closed {
        (pre, Routing::Discarded(ConnectionError::ConnectionClosed))
    } else if kind == FrameKind::Event {
        (MultiplexerView { events: pre.events.push(payload), ..pre }, Routing::Broadcast)
    } else if waiting(pre, sequence) {
        let outcome = if kind == FrameKind::Reply {
            Outcome::Reply(payload)
        } else {
            Outcome::Error(payload)
        };
        (
            MultiplexerView { slots: pre.slots.insert(sequence, Some(outcome)), ..pre },
            Routing::Delivered(sequence),
        )
    } else {
        (pre, Routing::Discarded(ConnectionError::ProtocolViolation))
    }
}

/// What a waiter finds in its slot: `None` while it has to wait on.
pub open spec fn awaited(pre: MultiplexerView, sequence: u32) -> Option<Outcome> {
    if pre.slots.contains_key(sequence) && pre.slots[sequence] is Some {
        pre.slots[sequence]
    } else if pre.state == ConnectionState::Closed {
        Some(Outcome::ConnectionClosed)
    } else {
        None
    }
}

/// The connection after a waiter looked into its slot: a response is taken out once.
pub open spec fn collected(pre: MultiplexerView, sequence: u32) -> MultiplexerView {
    if pre.slots.contains_key(sequence) && pre.slots[sequence] is Some {
        MultiplexerView { slots: pre.slots.remove(sequence), ..pre }
    } else {
        pre
    }
}

/// What a slot holds after shutdown: the terminal error where it waited, and
/// else the response that it held.
pub open spec fn drained(slot: Option<Outcome>) -> Option<Outcome> {
    if slot is None {
        Some(Outcome::ConnectionClosed)
    } else {
        slot
    }
}

/// The connection after shutdown: closed, and every waiting slot holds the terminal error.
pub open spec fn closed(pre: MultiplexerView) -> MultiplexerView {
    MultiplexerView {
        state: ConnectionState::Closed,
        slots: pre.slots.map_values(|slot: Option<Outcome>| drained(slot)),
        ..pre
    }
}

/// The events that a receiver at `cursor` has still to observe, in order.
pub open spec fn unobserved(pre: MultiplexerView, cursor: int) -> Seq<Seq<u8>> {
    if 0 <= cursor <= pre.events.len() {
        pre.events.subrange(cursor, pre.events.len() as int)
    } else {
        Seq::empty()
    }
}

/// The connection after a guard asked to free a resource: the registry's
/// free request is sent, expecting no reply, if the registry names one and the
/// connection is open; else nothing changes.
pub open spec fn freed(
    pre: MultiplexerView,
    extension: Seq<char>,
    resource_type: Seq<char>,
    id: u32,
) -> MultiplexerView {
    match destroyer_of(definitions_for(extension), resource_type) {
        Some(request_name) => if pre.state == ConnectionState::Open {
            sent(pre, PayloadView::Free { request_name, id }, false)
        } else {
            pre
        },
        None => pre,
    }
}

/// The connection once a close was asked for: an open one is closing.
pub open spec fn closing(pre: MultiplexerView) -> MultiplexerView {
    MultiplexerView {
        state: if pre.state == ConnectionState::Open {
            ConnectionState::Closing
        } else {
            pre.state
        },
        ..pre
    }
}

/// One delivery slot of the pending request table.
#[derive(Debug)]
struct Slot {
    sequence: u32,
    outcome: Option<ReplyOrError>,
}

spec fn has(s: Seq<Slot>, sequence: u32, i: int) -> bool {
    0 <= i < s.len() && s[i].sequence == sequence
}

spec fn waits_at(s: Seq<Slot>, sequence: u32, i: int) -> bool {
    has(s, sequence, i) && s[i].outcome is None
}

spec fn waits_before(s: Seq<Slot>, sequence: u32, end: int) -> bool {
    exists|j: int| 0 <= j < end && waits_at(s, sequence, j)
}

spec fn distinct(s: Seq<Slot>) -> bool {
    forall|k: u32, i: int, j: int| #[trigger] has(s, k, i) && #[trigger] has(s, k, j) ==> i == j
}

spec fn table(s: Seq<Slot>) -> Map<u32, Option<Outcome>> {
    Map::new(
        |k: u32| exists|i: int| has(s, k, i),
        |k: u32| slot_view(s[choose|i: int| has(s, k, i)].outcome),
    )
}

proof fn lemma_at(s: Seq<Slot>, i: int)
    requires
        distinct(s),
        0 <= i < s.len(),
    ensures
        table(s).contains_key(s[i].sequence),
        table(s)[s[i].sequence] == slot_view(s[i].outcome),
{
    let k = s[i].sequence;
    assert(has(s, k, i));
    let c = choose|c: int| has(s, k, c);
    assert(has(s, k, c));
}

proof fn lemma_absent(s: Seq<Slot>, k: u32)
    requires
        forall|j: int| 0 <= j < s.len() ==> (#[trigger] s[j]).sequence != k,
    ensures
        !table(s).contains_key(k),
{
    if table(s).contains_key(k) {
        let c = choose|c: int| has(s, k, c);
        assert(has(s, k, c));
        assert(s[c].sequence == k);
    }
}

proof fn lemma_push(s: Seq<Slot>, x: Slot)
    requires
        distinct(s),
        forall|j: int| 0 <= j < s.len() ==> (#[trigger] s[j]).sequence != x.sequence,
    ensures
        distinct(s.push(x)),
        table(s.push(x)) == table(s).insert(x.sequence, slot_view(x.outcome)),
{
    let t = s.push(x);
    assert forall|k: u32, i: int, j: int| #[trigger]
        has(t, k, i) && #[trigger] has(t, k, j) implies i == j by {
        if i < s.len() {
            assert(has(s, k, i));
        }
        if j < s.len() {
            assert(has(s, k, j));
        }
    }
    let goal = table(s).insert(x.sequence, slot_view(x.outcome));
    assert forall|k: u32| table(t).contains_key(k) <==> goal.contains_key(k) by {
        if table(t).contains_key(k) {
            let c = choose|c: int| has(t, k, c);
            if c < s.len() {
                assert(has(s, k, c));
            }
        }
        if goal.contains_key(k) {
            if k == x.sequence {
                assert(has(t, k, s.len() as int));
            } else {
                let c = choose|c: int| has(s, k, c);
                assert(has(t, k, c));
            }
        }
    }
    assert forall|k: u32| table(t).contains_key(k) implies table(t)[k] == goal[k] by {
        let c = choose|c: int| has(t, k, c);
        lemma_at(t, c);
        if c < s.len() {
            assert(has(s, k, c));
            lemma_at(s, c);
        }
    }
    assert(table(t) =~= goal);
}

proof fn lemma_update(s: Seq<Slot>, i: int, x: Slot)
    requires
        distinct(s),
        0 <= i < s.len(),
        s[i].sequence == x.sequence,
    ensures
        distinct(s.update(i, x)),
        table(s.update(i, x)) == table(s).insert(x.sequence, slot_view(x.outcome)),
{
    let t = s.update(i, x);
    assert forall|k: u32, a: int, b: int| #[trigger]
        has(t, k, a) && #[trigger] has(t, k, b) implies a == b by {
        assert(has(s, k, a));
        assert(has(s, k, b));
    }
    let goal = table(s).insert(x.sequence, slot_view(x.outcome));
    assert forall|k: u32| table(t).contains_key(k) <==> goal.contains_key(k) by {
        if table(t).contains_key(k) {
            let c = choose|c: int| has(t, k, c);
            assert(has(s, k, c));
        }
        if goal.contains_key(k) {
            if k == x.sequence {
                assert(has(t, k, i));
            } else {
                let c = choose|c: int| has(s, k, c);
                assert(has(t, k, c));
            }
        }
    }
    assert forall|k: u32| table(t).contains_key(k) implies table(t)[k] == goal[k] by {
        let c = choose|c: int| has(t, k, c);
        lemma_at(t, c);
        assert(has(s, k, c));
        lemma_at(s, c);
        if c == i {
        } else {
            assert(k != x.sequence) by {
                assert(has(s, x.sequence, i));
            }
        }
    }
    assert(table(t) =~= goal);
}

proof fn lemma_remove(s: Seq<Slot>, i: int)
    requires
        distinct(s),
        0 <= i < s.len(),
    ensures
        distinct(s.remove(i)),
        table(s.remove(i)) == table(s).remove(s[i].sequence),
{
    let t = s.remove(i);
    let gone = s[i].sequence;
    assert forall|a: int| 0 <= a < t.len() implies #[trigger] t[a] == s[if a < i {
        a
    } else {
        a + 1
    }] by {}
    assert forall|k: u32, a: int, b: int| #[trigger]
        has(t, k, a) && #[trigger] has(t, k, b) implies a == b by {
        let a2 = if a < i { a } else { a + 1 };
        let b2 = if b < i { b } else { b + 1 };
        assert(has(s, k, a2));
        assert(has(s, k, b2));
    }
    let goal = table(s).remove(gone);
    assert forall|k: u32| table(t).contains_key(k) <==> goal.contains_key(k) by {
        if table(t).contains_key(k) {
            let c = choose|c: int| has(t, k, c);
            let c2 = if c < i { c } else { c + 1 };
            assert(has(s, k, c2));
            assert(has(s, gone, i));
        }
        if goal.contains_key(k) {
            let c = choose|c: int| has(s, k, c);
            assert(has(s, k, c));
            assert(c != i);
            let c2 = if c < i { c } else { c - 1 };
            assert(has(t, k, c2));
        }
    }
    assert forall|k: u32| table(t).contains_key(k) implies table(t)[k] == goal[k] by {
        let c = choose|c: int| has(t, k, c);
        lemma_at(t, c);
        let c2 = if c < i { c } else { c + 1 };
        assert(has(s, k, c2));
        assert(has(s, gone, i));
        assert(t[c] == s[c2]);
        lemma_at(s, c2);
    }
    assert(table(t) =~= goal);
}

proof fn lemma_drain(before: Seq<Slot>, after: Seq<Slot>)
    requires
        distinct(before),
        after.len() == before.len(),
        forall|j: int|
            0 <= j < before.len() ==> (#[trigger] after[j]).sequence == before[j].sequence
                && slot_view(after[j].outcome) == drained(slot_view(before[j].outcome)),
    ensures
        distinct(after),
        table(after) == table(before).map_values(|slot: Option<Outcome>| drained(slot)),
{
    assert forall|k: u32, a: int, b: int| #[trigger]
        has(after, k, a) && #[trigger] has(after, k, b) implies a == b by {
        assert(has(before, k, a));
        assert(has(before, k, b));
    }
    let goal = table(before).map_values(|slot: Option<Outcome>| drained(slot));
    assert forall|k: u32| table(after).contains_key(k) <==> goal.contains_key(k) by {
        if table(after).contains_key(k) {
            let c = choose|c: int| has(after, k, c);
            assert(has(before, k, c));
        }
        if goal.contains_key(k) {
            let c = choose|c: int| has(before, k, c);
            assert(has(after, k, c));
        }
    }
    assert forall|k: u32| table(after).contains_key(k) implies table(after)[k] == goal[k] by {
        let c = choose|c: int| has(after, k, c);
        assert(has(before, k, c));
        lemma_at(after, c);
        lemma_at(before, c);
    }
    assert(table(after) =~= goal);
}

/// Where an event subscriber stands in the event stream.
#[derive(Debug)]
pub struct EventReceiver {
    cursor: usize,
}

impl EventReceiver {
    /// The number of events that arrived before this receiver's next one.
    pub closed spec fn position(&self) -> int {
        self.cursor as int
    }

    /// The number of events that arrived before this receiver's next one.
    pub fn cursor(&self) -> (r: usize)
        ensures
            r == self.position(),
    {
        self.cursor
    }
}

/// What a subscriber gets when it asks for its next event.
#[derive(Debug)]
pub enum EventPoll {
    /// The next event in order of arrival.
    Event(Vec<u8>),
    /// No further event has arrived yet.
    Pending,
    /// The stream has ended: the connection is closed and every event was observed.
    Closed,
}

/// The connection multiplexer.
#[derive(Debug)]
pub struct Multiplexer {
    state: ConnectionState,
    last_sequence: u32,
    slots: Vec<Slot>,
    outbox: Vec<Outgoing>,
    events: Vec<Vec<u8>>,
}

impl View for Multiplexer {
    type V = MultiplexerView;

    closed spec fn view(&self) -> MultiplexerView {
        MultiplexerView {
            state: self.state,
            last_sequence: self.last_sequence,
            slots: table(self.slots@),
            outbox: self.outbox@.map_values(|o: Outgoing| o@),
            events: self.events@.map_values(|e: Vec<u8>| e@),
        }
    }
}

/// A copy of a byte string.
pub fn copy_bytes(bytes: &Vec<u8>) -> (r: Vec<u8>)
    ensures
        r@ == bytes@,
{
    let mut r: Vec<u8> = Vec::new();
    let mut i: usize = 0;
    while i < bytes.len()
        invariant
            i <= bytes@.len(),
            r@ == bytes@.subrange(0, i as int),
        decreases bytes@.len() - i,
    {
        r.push(bytes[i]);
        assert(r@ =~= bytes@.subrange(0, i + 1));
        i += 1;
    }
    assert(r@ =~= bytes@);
    r
}

impl Multiplexer {
    /// The invariant of the connection: sequence numbers stay below the
    /// modulus, no sequence number has two slots, and a closed connection has
    /// no waiting slot left.
    pub closed spec fn wf(&self) -> bool {
        &&& self.last_sequence < SEQUENCE_MODULUS
        &&& distinct(self.slots@)
        &&& self.state == ConnectionState::Closed ==> forall|j: int|
            0 <= j < self.slots@.len() ==> (#[trigger] self.slots@[j]).outcome is Some
    }

    /// In a well-formed connection the model obeys the same invariant.
    pub proof fn lemma_wf(&self)
        requires
            self.wf(),
        ensures
            self@.last_sequence < SEQUENCE_MODULUS,
            self@.state == ConnectionState::Closed ==> forall|k: u32| !waiting(self@, k),
    {
        if self.state == ConnectionState::Closed {
            assert forall|k: u32| !waiting(self@, k) by {
                if self@.slots.contains_key(k) {
                    let c = choose|c: int| has(self.slots@, k, c);
                    assert(has(self.slots@, k, c));
                    lemma_at(self.slots@, c);
                }
            }
        }
    }

    /// An open connection on which nothing has been sent or received.
    pub fn new() -> (r: Multiplexer)
        ensures
            r.wf(),
            r@ == (MultiplexerView {
                state: ConnectionState::Open,
                last_sequence: 0,
                slots: Map::empty(),
                outbox: Seq::empty(),
                events: Seq::empty(),
            }),
    {
        let r = Multiplexer {
            state: ConnectionState::Open,
            last_sequence: 0,
            slots: Vec::new(),
            outbox: Vec::new(),
            events: Vec::new(),
        };
        assert(r@.slots =~= Map::empty());
        assert(r@.outbox =~= Seq::empty());
        assert(r@.events =~= Seq::empty());
        r
    }

    /// The state of the connection.
    pub fn state(&self) -> (r: ConnectionState)
        ensures
            r == self@.state,
    {
        self.state
    }

    /// The sequence number given out last; 0 before the first request.
    pub fn last_sequence(&self) -> (r: u32)
        ensures
            r == self@.last_sequence,
    {
        self.last_sequence
    }

    fn position(&self, sequence: u32) -> (r: Option<usize>)
        ensures
            match r {
                Some(i) => has(self.slots@, sequence, i as int),
                None => forall|j: int|
                    0 <= j < self.slots@.len() ==> (#[trigger] self.slots@[j]).sequence != sequence,
            },
    {
        let mut i: usize = 0;
        while i < self.slots.len()
            invariant
                i <= self.slots@.len(),
                forall|j: int| 0 <= j < i ==> (#[trigger] self.slots@[j]).sequence != sequence,
            decreases self.slots@.len() - i,
        {
            if self.slots[i].sequence == sequence {
                return Some(i);
            }
            i += 1;
        }
        None
    }

    fn enqueue(&mut self, payload: Payload, expects_reply: bool) -> (r: Result<
        u32,
        ConnectionError,
    >)
        requires
            old(self).wf(),
        ensures
            final(self).wf(),
            old(self)@.state != ConnectionState::Open ==> r == Err::<u32, ConnectionError>(
                ConnectionError::ConnectionClosed,
            ) && final(self)@ == old(self)@,
            old(self)@.state == ConnectionState::Open ==> r == Ok::<u32, ConnectionError>(
                next_sequence(old(self)@.last_sequence),
            ) && final(self)@ == sent(old(self)@, payload@, expects_reply),
    {
        if self.state != ConnectionState::Open {
            return Err(ConnectionError::ConnectionClosed);
        }
        let sequence: u32 = if self.last_sequence + 1 >= SEQUENCE_MODULUS {
            0
        } else {
            self.last_sequence + 1
        };
        if expects_reply {
            let slot = Slot { sequence, outcome: None };
            match self.position(sequence) {
                Some(i) => {
                    proof {
                        lemma_update(self.slots@, i as int, slot);
                    }
                    self.slots.set(i, slot);
                },
                None => {
                    proof {
                        lemma_push(self.slots@, slot);
                    }
                    self.slots.push(slot);
                },
            }
        }
        self.last_sequence = sequence;
        self.outbox.push(Outgoing { sequence, payload });
        assert(final(self)@.outbox =~= sent(old(self)@, payload@, expects_reply).outbox);
        Ok(sequence)
    }

    /// Accepts an encoded request for writing: gives it the next sequence
    /// number, appends it to the outbox in wire order and, if a reply is
    /// expected, registers its delivery slot. Fails, changing nothing, unless
    /// the connection is open.
    pub fn send_request(&mut self, bytes: Vec<u8>, expects_reply: bool) -> (r: Result<
        u32,
        ConnectionError,
    >)
        requires
            old(self).wf(),
        ensures
            final(self).wf(),
            old(self)@.state != ConnectionState::Open ==> r == Err::<u32, ConnectionError>(
                ConnectionError::ConnectionClosed,
            ) && final(self)@ == old(self)@,
            old(self)@.state == ConnectionState::Open ==> r == Ok::<u32, ConnectionError>(
                next_sequence(old(self)@.last_sequence),
            ) && final(self)@ == sent(old(self)@, PayloadView::Bytes(bytes@), expects_reply),
    {
        self.enqueue(Payload::Bytes(bytes), expects_reply)
    }

    /// Frees a resource on behalf of its guard: looks up the request that
    /// frees a resource of this type and sends it, expecting no reply. Where
    /// the registry names no such request, or the connection is not open,
    /// nothing happens.
    pub fn free_resource(&mut self, extension: &str, resource_type: &str, id: u32)
        requires
            old(self).wf(),
        ensures
            final(self).wf(),
            final(self)@ == freed(old(self)@, extension@, resource_type@, id),
    {
        let list = for_extension(extension);
        match free_request_for(&list, resource_type) {
            Some(request_name) => {
                let _ = self.enqueue(Payload::Free { request_name, id }, false);
            },
            None => {},
        }
    }

    /// Hands out the requests accepted since the last call, in wire order, for
    /// the caller to write to the stream.
    pub fn take_outgoing(&mut self) -> (r: Vec<Outgoing>)
        requires
            old(self).wf(),
        ensures
            final(self).wf(),
            r@.map_values(|o: Outgoing| o@) == old(self)@.outbox,
            final(self)@ == (MultiplexerView { outbox: Seq::empty(), ..old(self)@ }),
    {
        let mut out: Vec<Outgoing> = Vec::new();
        std::mem::swap(&mut self.outbox, &mut out);
        assert(final(self)@.outbox =~= Seq::empty());
        out
    }

    /// Routes one decoded frame. An event joins the event stream. A reply or
    /// an error goes into the slot of the request with its sequence number, if
    /// that request is registered and still waits; else the frame is dropped.
    /// A closed connection drops every frame.
    pub fn handle_frame(&mut self, frame: Frame) -> (r: Routing)
        requires
            old(self).wf(),
        ensures
            final(self).wf(),
            (final(self)@, r) == routed(old(self)@, frame.kind, frame.sequence, frame.payload@),
    {
        if self.state == ConnectionState::Closed {
            return Routing::Discarded(ConnectionError::ConnectionClosed);
        }
        let Frame { kind, sequence, payload } = frame;
        if kind == FrameKind::Event {
            self.events.push(payload);
            assert(final(self)@.events =~= old(self)@.events.push(payload@));
            return Routing::Broadcast;
        }
        match self.position(sequence) {
            Some(i) => {
                proof {
                    lemma_at(self.slots@, i as int);
                }
                if self.slots[i].outcome.is_none() {
                    let outcome = if kind == FrameKind::Reply {
                        ReplyOrError::Reply(payload)
                    } else {
                        ReplyOrError::Error(payload)
                    };
                    let slot = Slot { sequence, outcome: Some(outcome) };
                    proof {
                        lemma_update(self.slots@, i as int, slot);
                    }
                    self.slots.set(i, slot);
                    Routing::Delivered(sequence)
                } else {
                    Routing::Discarded(ConnectionError::ProtocolViolation)
                }
            },
            None => {
                proof {
                    lemma_absent(self.slots@, sequence);
                }
                Routing::Discarded(ConnectionError::ProtocolViolation)
            },
        }
    }

    /// Looks into the delivery slot of a request. A response that has arrived
    /// is taken out, once. Without one, a closed connection answers with the
    /// terminal error, and any other has the caller wait on (`None`).
    pub fn await_reply(&mut self, sequence: u32) -> (r: Option<ReplyOrError>)
        requires
            old(self).wf(),
        ensures
            final(self).wf(),
            slot_view(r) == awaited(old(self)@, sequence),
            final(self)@ == collected(old(self)@, sequence),
    {
        match self.position(sequence) {
            Some(i) => {
                proof {
                    lemma_at(self.slots@, i as int);
                    lemma_remove(self.slots@, i as int);
                }
                if self.slots[i].outcome.is_some() {
                    let ghost before = self.slots@;
                    let slot = self.slots.remove(i);
                    assert forall|j: int| 0 <= j < self.slots@.len() implies (#[trigger]
                        self.slots@[j]) == before[if j < i { j } else { j + 1 }] by {}
                    return slot.outcome;
                }
            },
            None => {
                proof {
                    lemma_absent(self.slots@, sequence);
                }
            },
        }
        if self.state == ConnectionState::Closed {
            Some(ReplyOrError::ConnectionClosed)
        } else {
            None
        }
    }

    /// Asks for the connection to close: an open connection is closing from
    /// now on and accepts no further request.
    pub fn begin_close(&mut self)
        requires
            old(self).wf(),
        ensures
            final(self).wf(),
            final(self)@ == closing(old(self)@),
    {
        if self.state == ConnectionState::Open {
            self.state = ConnectionState::Closing;
        }
    }

    /// Shuts the connection down, as after a failed read or write: it passes
    /// through closing to closed, and every slot that still waits receives the
    /// terminal error. Returns the sequence numbers of those slots, each once.
    pub fn shutdown(&mut self) -> (r: Vec<u32>)
        requires
            old(self).wf(),
        ensures
            final(self).wf(),
            final(self)@ == closed(old(self)@),
            r@.no_duplicates(),
            forall|k: u32| r@.contains(k) <==> waiting(old(self)@, k),
    {
        let ghost before = self.slots@;
        self.state = ConnectionState::Closing;
        let mut waiters: Vec<u32> = Vec::new();
        let mut i: usize = 0;
        while i < self.slots.len()
            invariant
                distinct(before),
                before == old(self).slots@,
                self.slots@.len() == before.len(),
                i <= before.len(),
                self.state == ConnectionState::Closing,
                self.last_sequence == old(self).last_sequence,
                self.outbox == old(self).outbox,
                self.events == old(self).events,
                forall|j: int|
                    0 <= j < before.len() ==> (#[trigger] self.slots@[j]).sequence
                        == before[j].sequence,
                forall|j: int|
                    0 <= j < i ==> slot_view((#[trigger] self.slots@[j]).outcome) == drained(
                        slot_view(before[j].outcome),
                    ),
                forall|j: int| i <= j < before.len() ==> #[trigger] self.slots@[j] == before[j],
                forall|m: int|
                    0 <= m < waiters@.len() ==> waits_before(
                        before,
                        #[trigger] waiters@[m],
                        i as int,
                    ),
                forall|j: int|
                    0 <= j < i && (#[trigger] before[j]).outcome is None ==> waiters@.contains(
                        before[j].sequence,
                    ),
                waiters@.no_duplicates(),
            decreases before.len() - i,
        {
            let ghost earlier = waiters@;
            if self.slots[i].outcome.is_none() {
                let sequence: u32 = self.slots[i].sequence;
                proof {
                    assert(waits_at(before, sequence, i as int));
                    if earlier.contains(sequence) {
                        let m = choose|m: int| 0 <= m < earlier.len() && earlier[m] == sequence;
                        assert(waits_before(before, earlier[m], i as int));
                        let j = choose|j: int| 0 <= j < i && waits_at(before, sequence, j);
                        assert(has(before, sequence, j));
                    }
                }
                self.slots.set(i, Slot { sequence, outcome: Some(ReplyOrError::ConnectionClosed) });
                waiters.push(sequence);
                proof {
                    assert forall|j: int| 0 <= j < i + 1 && (#[trigger] before[j]).outcome
                        is None implies waiters@.contains(before[j].sequence) by {
                        if j < i {
                            let m = choose|m: int|
                                0 <= m < earlier.len() && earlier[m] == before[j].sequence;
                            assert(waiters@[m] == before[j].sequence);
                        } else {
                            assert(waiters@[earlier.len() as int] == before[j].sequence);
                        }
                    }
                }
            }
            proof {
                assert forall|m: int| 0 <= m < waiters@.len() implies waits_before(
                    before,
                    #[trigger] waiters@[m],
                    i + 1,
                ) by {
                    if m < earlier.len() {
                        assert(waits_before(before, earlier[m], i as int));
                        let j = choose|j: int| 0 <= j < i && waits_at(before, earlier[m], j);
                        assert(waits_at(before, waiters@[m], j));
                    } else {
                        assert(waits_at(before, waiters@[m], i as int));
                    }
                }
            }
            i += 1;
        }
        self.state = ConnectionState::Closed;
        proof {
            lemma_drain(before, self.slots@);
            assert forall|k: u32| waiters@.contains(k) <==> waiting(old(self)@, k) by {
                if waiters@.contains(k) {
                    let m = choose|m: int| 0 <= m < waiters@.len() && waiters@[m] == k;
                    assert(waits_before(before, waiters@[m], i as int));
                    let j = choose|j: int| 0 <= j < i && waits_at(before, k, j);
                    lemma_at(before, j);
                }
                if waiting(old(self)@, k) {
                    let c = choose|c: int| has(before, k, c);
                    assert(has(before, k, c));
                    lemma_at(before, c);
                }
            }
        }
        waiters
    }

    /// One turn of the read loop. A frame is routed, and the reader reads on;
    /// on a failure of the stream, or once the connection is closed, the
    /// connection shuts down and the reader stops.
    pub fn read_step(&mut self, event: ReadEvent) -> (r: ReadAction)
        requires
            old(self).wf(),
        ensures
            final(self).wf(),
            match event {
                ReadEvent::Frame(frame) if old(self)@.state != ConnectionState::Closed => {
                    &&& r matches ReadAction::Continue(routing)
                    &&& (final(self)@, routing) == routed(
                        old(self)@,
                        frame.kind,
                        frame.sequence,
                        frame.payload@,
                    )
                },
                _ => {
                    &&& r matches ReadAction::Stop { reason, waiters }
                    &&& reason == (if event is Failure {
                        ConnectionError::IoFailure
                    } else {
                        ConnectionError::ConnectionClosed
                    })
                    &&& final(self)@ == closed(old(self)@)
                    &&& waiters@.no_duplicates()
                    &&& forall|k: u32| waiters@.contains(k) <==> waiting(old(self)@, k)
                },
            },
    {
        match event {
            ReadEvent::Frame(frame) => {
                if self.state != ConnectionState::Closed {
                    ReadAction::Continue(self.handle_frame(frame))
                } else {
                    ReadAction::Stop {
                        reason: ConnectionError::ConnectionClosed,
                        waiters: self.shutdown(),
                    }
                }
            },
            ReadEvent::Failure => ReadAction::Stop {
                reason: ConnectionError::IoFailure,
                waiters: self.shutdown(),
            },
        }
    }

    /// A new subscriber to the event stream. It observes the events that
    /// arrive from now on, and none that arrived before.
    pub fn subscribe_events(&self) -> (r: EventReceiver)
        ensures
            r.position() == self@.events.len(),
            unobserved(self@, r.position()) == Seq::<Seq<u8>>::empty(),
    {
        assert(self@.events.subrange(self@.events.len() as int, self@.events.len() as int)
            =~= Seq::<Seq<u8>>::empty());
        EventReceiver { cursor: self.events.len() }
    }

    /// The next event of a subscriber, in order of arrival. With none left, a
    /// closed connection answers that the stream has ended, and any other that
    /// the subscriber has to wait.
    pub fn next_event(&self, receiver: &mut EventReceiver) -> (r: EventPoll)
        ensures
            old(receiver).position() < self@.events.len() ==> final(receiver).position() == old(
                receiver,
            ).position() + 1 && match r {
                EventPoll::Event(bytes) => bytes@ == self@.events[old(receiver).position()],
                _ => false,
            },
            old(receiver).position() >= self@.events.len() ==> final(receiver).position() == old(
                receiver,
            ).position() && (r is Closed <==> self@.state == ConnectionState::Closed) && (r
                is Pending <==> self@.state != ConnectionState::Closed),
    {
        if receiver.cursor < self.events.len() {
            let bytes = copy_bytes(&self.events[receiver.cursor]);
            receiver.cursor = receiver.cursor + 1;
            EventPoll::Event(bytes)
        } else if self.state == ConnectionState::Closed {
            EventPoll::Closed
        } else {
            EventPoll::Pending
        }
    }
}

} // verus!
