use x11rb_async::multiplexer::{
    copy_bytes, ConnectionError, ConnectionState, EventPoll, Frame, FrameKind, Multiplexer,
    Payload, ReadAction, ReadEvent, ReplyOrError, Routing, SEQUENCE_MODULUS,
};

const VIOLATION: Routing = Routing::Discarded(ConnectionError::ProtocolViolation);

fn reply(sequence: u32, payload: Vec<u8>) -> Frame {
    Frame { kind: FrameKind::Reply, sequence, payload }
}

fn error(sequence: u32, payload: Vec<u8>) -> Frame {
    Frame { kind: FrameKind::Error, sequence, payload }
}

fn event(payload: Vec<u8>) -> Frame {
    Frame { kind: FrameKind::Event, sequence: 0, payload }
}

#[test]
fn new_connection_is_open_and_empty() {
    let mut mux = Multiplexer::new();
    assert_eq!(mux.state(), ConnectionState::Open);
    assert_eq!(mux.last_sequence(), 0);
    assert!(mux.take_outgoing().is_empty());
    assert!(mux.await_reply(1).is_none());
}

#[test]
fn three_requests_are_numbered_in_order_and_replies_may_overtake() {
    let mut mux = Multiplexer::new();
    assert_eq!(mux.send_request(vec![b'A'], true), Ok(1));
    assert_eq!(mux.send_request(vec![b'B'], true), Ok(2));
    assert_eq!(mux.send_request(vec![b'C'], true), Ok(3));

    assert_eq!(mux.handle_frame(reply(2, vec![20])), Routing::Delivered(2));
    match mux.await_reply(2) {
        Some(ReplyOrError::Reply(bytes)) => assert_eq!(bytes, vec![20]),
        other => panic!("unexpected {:?}", other),
    }
    assert!(mux.await_reply(1).is_none());
    assert!(mux.await_reply(3).is_none());

    assert_eq!(mux.handle_frame(reply(1, vec![10])), Routing::Delivered(1));
    match mux.await_reply(1) {
        Some(ReplyOrError::Reply(bytes)) => assert_eq!(bytes, vec![10]),
        other => panic!("unexpected {:?}", other),
    }
    assert!(mux.await_reply(3).is_none());
    assert_eq!(mux.state(), ConnectionState::Open);
}

#[test]
fn outbox_keeps_wire_order_and_sequence_numbers() {
    let mut mux = Multiplexer::new();
    mux.send_request(vec![1, 2], false).unwrap();
    mux.send_request(vec![], true).unwrap();
    mux.send_request(vec![3], false).unwrap();
    let out = mux.take_outgoing();
    assert_eq!(out.len(), 3);
    let numbers: Vec<u32> = out.iter().map(|o| o.sequence).collect();
    assert_eq!(numbers, vec![1, 2, 3]);
    match &out[0].payload {
        Payload::Bytes(bytes) => assert_eq!(bytes, &vec![1, 2]),
        other => panic!("unexpected {:?}", other),
    }
    match &out[2].payload {
        Payload::Bytes(bytes) => assert_eq!(bytes, &vec![3]),
        other => panic!("unexpected {:?}", other),
    }
    assert!(mux.take_outgoing().is_empty());
    assert_eq!(mux.send_request(vec![4], false), Ok(4));
    let out = mux.take_outgoing();
    assert_eq!(out.len(), 1);
    assert_eq!(out[0].sequence, 4);
}

#[test]
fn sequence_numbers_are_unique_and_increasing() {
    let mut mux = Multiplexer::new();
    let mut last = 0;
    for _ in 0..1000 {
        let next = mux.send_request(vec![0], false).unwrap();
        assert!(next > last);
        last = next;
    }
    assert_eq!(last, 1000);
    assert_eq!(mux.last_sequence(), 1000);
}

#[test]
fn sequence_numbers_wrap_at_the_modulus() {
    assert_eq!(SEQUENCE_MODULUS, 65536);
    let mut mux = Multiplexer::new();
    for expected in 1..SEQUENCE_MODULUS {
        assert_eq!(mux.send_request(Vec::new(), false), Ok(expected));
    }
    assert_eq!(mux.last_sequence(), 65535);
    assert_eq!(mux.send_request(Vec::new(), false), Ok(0));
    assert_eq!(mux.send_request(Vec::new(), false), Ok(1));
}

#[test]
fn a_wrapped_sequence_number_supersedes_an_abandoned_slot() {
    let mut mux = Multiplexer::new();
    assert_eq!(mux.send_request(Vec::new(), true), Ok(1));
    assert_eq!(mux.handle_frame(reply(1, vec![7])), Routing::Delivered(1));
    for _ in 1..SEQUENCE_MODULUS {
        mux.send_request(Vec::new(), false).unwrap();
    }
    assert_eq!(mux.last_sequence(), 0);
    assert_eq!(mux.send_request(Vec::new(), true), Ok(1));
    assert!(mux.await_reply(1).is_none());
    assert_eq!(mux.handle_frame(reply(1, vec![8])), Routing::Delivered(1));
    match mux.await_reply(1) {
        Some(ReplyOrError::Reply(bytes)) => assert_eq!(bytes, vec![8]),
        other => panic!("unexpected {:?}", other),
    }
}

#[test]
fn a_response_is_delivered_once_to_its_own_waiter() {
    let mut mux = Multiplexer::new();
    mux.send_request(vec![1], true).unwrap();
    mux.send_request(vec![2], true).unwrap();
    assert_eq!(mux.handle_frame(error(1, vec![9, 9])), Routing::Delivered(1));
    assert_eq!(mux.handle_frame(reply(1, vec![5])), VIOLATION);
    assert!(mux.await_reply(2).is_none());
    match mux.await_reply(1) {
        Some(ReplyOrError::Error(bytes)) => assert_eq!(bytes, vec![9, 9]),
        other => panic!("unexpected {:?}", other),
    }
    assert!(mux.await_reply(1).is_none());
    assert_eq!(mux.handle_frame(reply(1, vec![5])), VIOLATION);
    assert!(mux.await_reply(1).is_none());
}

#[test]
fn unmatched_responses_are_dropped() {
    let mut mux = Multiplexer::new();
    assert_eq!(mux.handle_frame(reply(42, vec![1])), VIOLATION);
    assert_eq!(mux.handle_frame(error(42, vec![1])), VIOLATION);
    mux.send_request(vec![1], false).unwrap();
    assert_eq!(mux.handle_frame(reply(1, vec![1])), VIOLATION);
    assert!(mux.await_reply(1).is_none());
    assert!(mux.await_reply(42).is_none());
    assert_eq!(mux.state(), ConnectionState::Open);
    assert_eq!(mux.send_request(vec![2], true), Ok(2));
}

#[test]
fn events_reach_present_subscribers_in_order() {
    let mut mux = Multiplexer::new();
    assert_eq!(mux.handle_frame(event(vec![0])), Routing::Broadcast);
    let mut first = mux.subscribe_events();
    assert_eq!(first.cursor(), 1);
    assert!(matches!(mux.next_event(&mut first), EventPoll::Pending));
    assert_eq!(mux.handle_frame(event(vec![1])), Routing::Broadcast);
    let mut second = mux.subscribe_events();
    assert_eq!(mux.handle_frame(event(vec![2])), Routing::Broadcast);

    match mux.next_event(&mut first) {
        EventPoll::Event(bytes) => assert_eq!(bytes, vec![1]),
        other => panic!("unexpected {:?}", other),
    }
    match mux.next_event(&mut first) {
        EventPoll::Event(bytes) => assert_eq!(bytes, vec![2]),
        other => panic!("unexpected {:?}", other),
    }
    assert!(matches!(mux.next_event(&mut first), EventPoll::Pending));
    assert_eq!(first.cursor(), 3);

    match mux.next_event(&mut second) {
        EventPoll::Event(bytes) => assert_eq!(bytes, vec![2]),
        other => panic!("unexpected {:?}", other),
    }
    assert!(matches!(mux.next_event(&mut second), EventPoll::Pending));
}

#[test]
fn events_carry_no_sequence_number() {
    let mut mux = Multiplexer::new();
    mux.send_request(vec![1], true).unwrap();
    let mut receiver = mux.subscribe_events();
    let frame = Frame { kind: FrameKind::Event, sequence: 1, payload: vec![3] };
    assert_eq!(mux.handle_frame(frame), Routing::Broadcast);
    assert!(mux.await_reply(1).is_none());
    match mux.next_event(&mut receiver) {
        EventPoll::Event(bytes) => assert_eq!(bytes, vec![3]),
        other => panic!("unexpected {:?}", other),
    }
}

#[test]
fn io_failure_drains_pending_requests_and_refuses_new_ones() {
    let mut mux = Multiplexer::new();
    for _ in 0..4 {
        mux.send_request(Vec::new(), false).unwrap();
    }
    assert_eq!(mux.send_request(vec![5], true), Ok(5));
    assert_eq!(mux.send_request(vec![6], true), Ok(6));
    mux.take_outgoing();

    let mut drained = mux.shutdown();
    drained.sort();
    assert_eq!(drained, vec![5, 6]);
    assert_eq!(mux.state(), ConnectionState::Closed);
    assert!(matches!(mux.await_reply(5), Some(ReplyOrError::ConnectionClosed)));
    assert!(matches!(mux.await_reply(6), Some(ReplyOrError::ConnectionClosed)));

    assert_eq!(mux.send_request(vec![7], true), Err(ConnectionError::ConnectionClosed));
    assert!(mux.take_outgoing().is_empty());
    assert_eq!(mux.last_sequence(), 6);
}

#[test]
fn shutdown_twice_is_shutdown_once() {
    let mut mux = Multiplexer::new();
    mux.send_request(vec![1], true).unwrap();
    mux.send_request(vec![2], true).unwrap();
    assert_eq!(mux.handle_frame(reply(1, vec![11])), Routing::Delivered(1));
    assert_eq!(mux.shutdown(), vec![2]);
    assert_eq!(mux.shutdown(), Vec::<u32>::new());
    assert_eq!(mux.state(), ConnectionState::Closed);
    match mux.await_reply(1) {
        Some(ReplyOrError::Reply(bytes)) => assert_eq!(bytes, vec![11]),
        other => panic!("unexpected {:?}", other),
    }
    assert!(matches!(mux.await_reply(2), Some(ReplyOrError::ConnectionClosed)));
    assert!(matches!(mux.await_reply(2), Some(ReplyOrError::ConnectionClosed)));
    assert!(matches!(mux.await_reply(99), Some(ReplyOrError::ConnectionClosed)));
}

#[test]
fn a_closed_connection_drops_frames_and_ends_the_event_stream() {
    let mut mux = Multiplexer::new();
    let mut receiver = mux.subscribe_events();
    mux.handle_frame(event(vec![1]));
    mux.shutdown();
    assert_eq!(
        mux.handle_frame(event(vec![2])),
        Routing::Discarded(ConnectionError::ConnectionClosed)
    );
    assert_eq!(
        mux.handle_frame(reply(1, vec![2])),
        Routing::Discarded(ConnectionError::ConnectionClosed)
    );
    match mux.next_event(&mut receiver) {
        EventPoll::Event(bytes) => assert_eq!(bytes, vec![1]),
        other => panic!("unexpected {:?}", other),
    }
    assert!(matches!(mux.next_event(&mut receiver), EventPoll::Closed));
    assert!(matches!(mux.next_event(&mut receiver), EventPoll::Closed));
    let mut late = mux.subscribe_events();
    assert!(matches!(mux.next_event(&mut late), EventPoll::Closed));
}

#[test]
fn a_closing_connection_refuses_requests_and_still_routes() {
    let mut mux = Multiplexer::new();
    assert_eq!(mux.send_request(vec![1], true), Ok(1));
    mux.begin_close();
    assert_eq!(mux.state(), ConnectionState::Closing);
    assert_eq!(mux.send_request(vec![2], true), Err(ConnectionError::ConnectionClosed));
    assert_eq!(mux.take_outgoing().len(), 1);
    assert!(mux.await_reply(1).is_none());
    assert_eq!(mux.handle_frame(reply(1, vec![4])), Routing::Delivered(1));
    mux.begin_close();
    assert_eq!(mux.state(), ConnectionState::Closing);
    assert_eq!(mux.shutdown(), Vec::<u32>::new());
    mux.begin_close();
    assert_eq!(mux.state(), ConnectionState::Closed);
    assert!(matches!(mux.await_reply(1), Some(ReplyOrError::Reply(_))));
}

#[test]
fn free_resource_sends_the_registered_request() {
    let mut mux = Multiplexer::new();
    mux.free_resource("xproto", "Pixmap", 12);
    mux.free_resource("render", "Glyphset", 13);
    let out = mux.take_outgoing();
    assert_eq!(out.len(), 2);
    assert_eq!(out[0].sequence, 1);
    match &out[0].payload {
        Payload::Free { request_name, id } => {
            assert_eq!(*request_name, "FreePixmap");
            assert_eq!(*id, 12);
        }
        other => panic!("unexpected {:?}", other),
    }
    assert_eq!(out[1].sequence, 2);
    match &out[1].payload {
        Payload::Free { request_name, id } => {
            assert_eq!(*request_name, "FreeGlyphSet");
            assert_eq!(*id, 13);
        }
        other => panic!("unexpected {:?}", other),
    }
    assert!(mux.await_reply(1).is_none());
    assert_eq!(mux.handle_frame(reply(1, vec![0])), VIOLATION);
}

#[test]
fn free_resource_ignores_what_it_cannot_free() {
    let mut mux = Multiplexer::new();
    mux.free_resource("xproto", "Nothing", 1);
    mux.free_resource("composite", "Window", 1);
    mux.free_resource("nowhere", "Window", 1);
    mux.free_resource("", "", 1);
    assert!(mux.take_outgoing().is_empty());
    assert_eq!(mux.last_sequence(), 0);
    mux.shutdown();
    mux.free_resource("xproto", "Window", 1);
    assert!(mux.take_outgoing().is_empty());
    assert_eq!(mux.state(), ConnectionState::Closed);
}

#[test]
fn copy_bytes_copies() {
    assert_eq!(copy_bytes(&vec![1, 2, 3]), vec![1, 2, 3]);
    assert_eq!(copy_bytes(&Vec::new()), Vec::<u8>::new());
}

#[test]
fn read_step_routes_frames_and_stops_on_failure() {
    let mut mux = Multiplexer::new();
    mux.send_request(vec![1], true).unwrap();
    mux.send_request(vec![2], true).unwrap();
    mux.send_request(vec![3], true).unwrap();
    match mux.read_step(ReadEvent::Frame(reply(2, vec![8]))) {
        ReadAction::Continue(routing) => assert_eq!(routing, Routing::Delivered(2)),
        other => panic!("unexpected {:?}", other),
    }
    match mux.read_step(ReadEvent::Frame(reply(9, vec![8]))) {
        ReadAction::Continue(routing) => {
            assert_eq!(routing, VIOLATION)
        }
        other => panic!("unexpected {:?}", other),
    }
    match mux.read_step(ReadEvent::Frame(event(vec![4]))) {
        ReadAction::Continue(routing) => assert_eq!(routing, Routing::Broadcast),
        other => panic!("unexpected {:?}", other),
    }
    assert_eq!(mux.state(), ConnectionState::Open);
    match mux.read_step(ReadEvent::Failure) {
        ReadAction::Stop { reason, mut waiters } => {
            assert_eq!(reason, ConnectionError::IoFailure);
            waiters.sort();
            assert_eq!(waiters, vec![1, 3]);
        }
        other => panic!("unexpected {:?}", other),
    }
    assert_eq!(mux.state(), ConnectionState::Closed);
    match mux.read_step(ReadEvent::Frame(reply(1, vec![8]))) {
        ReadAction::Stop { reason, waiters } => {
            assert_eq!(reason, ConnectionError::ConnectionClosed);
            assert!(waiters.is_empty());
        }
        other => panic!("unexpected {:?}", other),
    }
    match mux.read_step(ReadEvent::Failure) {
        ReadAction::Stop { reason, waiters } => {
            assert_eq!(reason, ConnectionError::IoFailure);
            assert!(waiters.is_empty());
        }
        other => panic!("unexpected {:?}", other),
    }
    assert!(matches!(mux.await_reply(2), Some(ReplyOrError::Reply(_))));
    assert!(matches!(mux.await_reply(1), Some(ReplyOrError::ConnectionClosed)));
}
