use nysia_core::stream::registry::{AttachedStream, StreamRegistry, OUTBOX_FRAMES};
use nysia_core::stream::sink::{after_chunk, Admission, Offer, SendOutcome, StreamSink};
use nysia_core::wire::{
    CreditFrame, CreditWindow, Frame, FrameBody, SessionExit, StreamId, MAX_FRAME_PAYLOAD_BYTES,
};

const WINDOW: CreditWindow = CreditWindow {
    per_stream_initial: 256 * 1024,
    per_stream_max: 1024 * 1024,
    total_initial: 512 * 1024,
    total_max: 2 * 1024 * 1024,
    pending_cap: 256 * 1024,
    ack_batch: 64 * 1024,
    chunk: 16 * 1024,
};

const FIRST: StreamId = StreamId { raw: 1 };

fn output(stream: StreamId, bytes: usize) -> Frame {
    Frame { stream, body: FrameBody::Output(vec![b'x'; bytes]) }
}

fn sink_with(capacity: usize, window: CreditWindow) -> (StreamSink, tokio::sync::mpsc::Receiver<Frame>) {
    let (tx, rx) = tokio::sync::mpsc::channel(capacity);
    (StreamSink::new(FIRST, tx, window), rx)
}

fn is_open(registry: &StreamRegistry, stream: AttachedStream) -> bool {
    registry.sink(stream.connection, stream.stream).is_some_and(|sink| !sink.is_closed())
}

#[test]
fn a_sink_spends_its_allowance_and_then_refuses_to_send() {
    let (mut sink, mut rx) = sink_with(1024, WINDOW);
    let chunk = WINDOW.chunk as usize;
    let mut sent = 0usize;
    while sink.send(output(FIRST, chunk)) == SendOutcome::Sent {
        sent += chunk;
        assert!(sent <= WINDOW.per_stream_initial as usize + chunk, "ran away");
    }
    assert!(sink.is_blocked(), "the allowance should be spent");
    assert_eq!(sink.send(output(FIRST, chunk)), SendOutcome::WouldBlock);

    rx.try_recv().expect("a frame was queued");
    sink.replenish(WINDOW.ack_batch);
    assert!(!sink.is_blocked());
    assert_eq!(sink.send(output(FIRST, 16)), SendOutcome::Sent);
}

#[test]
fn credit_is_charged_in_payload_bytes_so_an_ack_returns_exactly_what_was_spent() {
    let (mut sink, _rx) = sink_with(1024, WINDOW);
    let opening = sink.credit();
    let payload = 700i64;
    let frames = 32i64;
    for _ in 0..frames {
        assert_eq!(sink.send(output(FIRST, payload as usize)), SendOutcome::Sent);
    }
    assert_eq!(sink.credit(), opening - payload * frames);
    for _ in 0..frames {
        sink.replenish(payload as u32);
    }
    assert_eq!(sink.credit(), opening);
}

#[test]
fn a_frame_that_is_not_output_never_spends_credit() {
    let (mut sink, _rx) = sink_with(1024, WINDOW);
    let before = sink.credit();
    let bell = Frame { stream: FIRST, body: FrameBody::Bell(Vec::new()) };
    assert_eq!(sink.send(bell), SendOutcome::Sent);
    let exit = Frame { stream: FIRST, body: FrameBody::Exit(SessionExit::Exited { code: 0 }) };
    assert_eq!(sink.send(exit), SendOutcome::Sent);
    let status = Frame { stream: FIRST, body: FrameBody::AgentStatus(b"{}".to_vec()) };
    assert_eq!(sink.send(status), SendOutcome::Sent);
    assert_eq!(sink.credit(), before);
}

#[test]
fn an_ack_larger_than_the_window_cannot_turn_the_window_off() {
    let (mut sink, _rx) = sink_with(1024, WINDOW);
    assert_eq!(sink.replenish(u32::MAX), i64::from(WINDOW.per_stream_max));
    assert_eq!(sink.credit(), i64::from(WINDOW.per_stream_max));
}

#[test]
fn a_closed_client_stops_the_sink_rather_than_stalling_it() {
    let (mut sink, rx) = sink_with(1, WINDOW);
    drop(rx);
    assert_eq!(sink.send(output(FIRST, 8)), SendOutcome::Closed);
    assert!(sink.is_closed());
}

#[test]
fn a_client_that_disconnects_takes_its_own_streams_and_nobody_else_s() {
    let mut registry = StreamRegistry::new(WINDOW);
    let my_stream = registry.bind("mine");
    let _their_stream = registry.bind("theirs");

    let mine = registry.attach("mine").expect("attaches");
    let theirs = registry.attach("theirs").expect("attaches");
    assert_eq!(registry.len(), 2);

    registry.unbind(my_stream.key);
    assert!(!is_open(&registry, mine), "my stream should have gone with me");
    assert!(is_open(&registry, theirs), "somebody else's stream must not go with me");
    assert_eq!(registry.len(), 1);
    assert!(registry.attach("mine").is_none(), "and my hub should be gone too");
}

#[test]
fn ids_are_numbered_per_connection_and_start_at_first_on_each() {
    let mut registry = StreamRegistry::new(WINDOW);
    let _mine = registry.bind("nysia-test");
    let _theirs = registry.bind("somebody-else");

    let first = registry.attach("nysia-test").expect("attaches");
    let second = registry.attach("nysia-test").expect("attaches");
    assert_eq!(first.stream, FIRST);
    assert_eq!(second.stream, StreamId { raw: 2 });

    let ours = registry.attach("somebody-else").expect("attaches");
    assert_eq!(ours.stream, FIRST);
    assert_ne!(ours.connection, first.connection);
}

#[test]
fn a_second_connection_under_one_client_id_does_not_take_the_first_one_s_down() {
    let mut registry = StreamRegistry::new(WINDOW);
    let first = registry.bind("nysia-test");
    let stale = registry.attach("nysia-test").expect("attaches");

    let second = registry.bind("nysia-test");
    assert_ne!(first.key, second.key);
    assert!(!is_open(&registry, stale), "its sinks must not stay attached");

    let live = registry.attach("nysia-test").expect("attaches");
    assert_eq!(live.stream, FIRST, "a fresh connection counts from the start");
    assert_eq!(live.connection, second.key);

    registry.unbind(first.key);
    assert!(is_open(&registry, live), "the live stream must have survived");
    assert!(
        registry.attach("nysia-test").is_some(),
        "and the client must still have somewhere to route output to"
    );
}

#[test]
fn a_superseded_connection_is_woken_rather_than_left_parked() {
    let mut registry = StreamRegistry::new(WINDOW);
    let first = registry.bind("nysia-test");
    assert_eq!(first.superseded, None);
    let second = registry.bind("nysia-test");
    assert_eq!(second.superseded, Some(first.key), "the one to wake is named");
    let other = registry.bind("somebody-else");
    assert_eq!(other.superseded, None);
}

#[test]
fn attaching_needs_a_stream_connection_and_detaching_is_scoped_to_one() {
    let mut registry = StreamRegistry::new(WINDOW);
    assert!(
        registry.attach("nysia-test").is_none(),
        "attaching with no stream connection must be refused, not queued"
    );

    let _stream = registry.bind("nysia-test");
    let first = registry.attach("nysia-test").expect("attaches");
    let _second = registry.attach("nysia-test").expect("attaches");
    assert_eq!(registry.len(), 2);
    assert_eq!(registry.next_stream_id("nysia-test"), Some(StreamId { raw: 3 }));

    assert!(registry.detach("nysia-test", first.stream));
    assert!(
        !registry.detach("nysia-test", first.stream),
        "detaching twice is not an error but is not a second success either"
    );
    assert_eq!(registry.len(), 1);
    assert_eq!(
        registry.next_stream_id("nysia-test"),
        Some(StreamId { raw: 3 }),
        "a detached id is retired, never recycled"
    );
}

fn credit_of(registry: &StreamRegistry, stream: AttachedStream) -> i64 {
    registry.sink(stream.connection, stream.stream).expect("an open stream").credit()
}

#[test]
fn an_ack_finds_its_stream_on_its_own_connection_and_a_grant_is_ignored() {
    let mut registry = StreamRegistry::new(WINDOW);
    let mine = registry.bind("nysia-test");
    let ours = registry.bind("somebody-else");
    let attached = registry.attach("nysia-test").expect("attaches");
    let id = attached.stream;
    let elsewhere = registry.attach("somebody-else").expect("attaches");
    assert_eq!(elsewhere.stream, id, "both connections count from one");

    let pending = vec![b'x'; 4096];
    assert_eq!(registry.feed(attached, &pending), 4096);
    let spent = credit_of(&registry, attached);
    assert_eq!(spent, i64::from(WINDOW.per_stream_initial) - 4096);
    assert!(registry.apply_credit(mine.key, id, &CreditFrame::Ack { bytes: 4096 }));
    assert_eq!(credit_of(&registry, attached), spent + 4096);

    assert_eq!(registry.feed(elsewhere, &pending), 4096);
    let theirs_spent = credit_of(&registry, elsewhere);
    assert!(registry.apply_credit(ours.key, id, &CreditFrame::Ack { bytes: 4096 }));
    assert!(credit_of(&registry, elsewhere) > theirs_spent);

    let before = credit_of(&registry, attached);
    let grant = CreditFrame::Grant { bytes: u32::MAX, window: WINDOW };
    assert!(!registry.apply_credit(mine.key, id, &grant));
    assert_eq!(credit_of(&registry, attached), before);

    registry.detach("nysia-test", id);
    assert!(!registry.apply_credit(mine.key, id, &CreditFrame::Ack { bytes: 1 }));
}

#[test]
fn a_registry_serves_the_window_it_was_given_and_refuses_an_incoherent_one() {
    let tight = CreditWindow {
        per_stream_initial: 2 * 1024,
        per_stream_max: 4 * 1024,
        total_initial: 2 * 1024,
        total_max: 4 * 1024,
        pending_cap: 2 * 1024,
        ack_batch: 512,
        chunk: 256,
    };
    let mut registry = StreamRegistry::with_window(tight, true, WINDOW);
    let _stream = registry.bind("nysia-test");
    let attached = registry.attach("nysia-test").expect("attaches");
    let sink = registry.sink(attached.connection, attached.stream).expect("an open stream");
    assert_eq!(sink.window(), tight);
    assert_eq!(sink.credit(), i64::from(tight.per_stream_initial));

    let broken = CreditWindow { chunk: 0, ..WINDOW };
    assert_eq!(StreamRegistry::with_window(broken, false, WINDOW).window(), WINDOW);
}

#[test]
fn the_opening_grant_carries_the_window_so_the_client_holds_no_constants() {
    let (sink, _rx) = sink_with(1, WINDOW);
    let frame = sink.opening_grant();
    assert_eq!(frame.stream, FIRST);
    match frame.body {
        FrameBody::Credit(CreditFrame::Grant { bytes, window }) => {
            assert_eq!(window, WINDOW);
            assert_eq!(bytes, WINDOW.per_stream_initial);
        }
        _ => panic!("the opening frame is a grant"),
    }
}

#[test]
fn what_a_sink_sends_is_what_its_queue_hands_out_in_order() {
    let (mut sink, mut rx) = sink_with(8, WINDOW);
    for byte in [b'a', b'b', b'c'] {
        let frame = Frame { stream: FIRST, body: FrameBody::Output(vec![byte]) };
        assert_eq!(sink.send(frame), SendOutcome::Sent);
    }
    for byte in [b'a', b'b', b'c'] {
        match rx.try_recv().expect("a frame").body {
            FrameBody::Output(bytes) => assert_eq!(bytes, [byte]),
            _ => panic!("output"),
        }
    }
    assert!(rx.try_recv().is_err());
}

#[test]
fn a_full_queue_holds_output_back_and_spends_nothing() {
    let (mut sink, mut rx) = sink_with(1, WINDOW);
    assert_eq!(sink.send(output(FIRST, 10)), SendOutcome::Sent);
    let spent = sink.credit();
    assert_eq!(sink.send(output(FIRST, 10)), SendOutcome::WouldBlock);
    assert_eq!(sink.credit(), spent);
    rx.try_recv().expect("room is made");
    assert_eq!(sink.send(output(FIRST, 10)), SendOutcome::Sent);
    assert_eq!(sink.credit(), spent - 10);
}

#[test]
fn a_payload_no_frame_may_carry_is_dropped() {
    let (mut sink, mut rx) = sink_with(4, WINDOW);
    let before = sink.credit();
    let over = output(FIRST, MAX_FRAME_PAYLOAD_BYTES + 1);
    assert_eq!(sink.consider(&over, false), Admission::TooLong);
    assert_eq!(sink.send(over), SendOutcome::Dropped);
    assert_eq!(sink.credit(), before);
    assert!(rx.try_recv().is_err());
}

#[test]
fn each_answer_of_the_queue_leads_to_its_own_outcome() {
    let (mut sink, _rx) = sink_with(4, WINDOW);
    let frame = output(FIRST, 5);
    assert_eq!(sink.consider(&frame, false), Admission::Offered);
    assert_eq!(sink.consider(&frame, true), Admission::Closed);
    assert_eq!(sink.settle(5, Offer::Taken), SendOutcome::Sent);
    assert_eq!(sink.credit(), i64::from(WINDOW.per_stream_initial) - 5);
    assert_eq!(sink.settle(5, Offer::Full), SendOutcome::WouldBlock);
    assert_eq!(sink.settle(5, Offer::Gone), SendOutcome::Closed);
    assert!(sink.is_closed());
}

#[test]
fn a_sink_is_fed_in_chunks_and_stops_where_its_allowance_does() {
    let window = CreditWindow { per_stream_initial: 10, chunk: 4, ..WINDOW };
    let (mut sink, mut rx) = sink_with(16, window);
    let pending: Vec<u8> = (0u8..20).collect();
    assert_eq!(sink.feed(&pending, 0), 12, "the last chunk may overdraw");
    assert_eq!(sink.credit(), -2);
    let mut got = Vec::new();
    while let Ok(frame) = rx.try_recv() {
        match frame.body {
            FrameBody::Output(bytes) => got.push(bytes),
            _ => panic!("output"),
        }
    }
    assert_eq!(got, [vec![0, 1, 2, 3], vec![4, 5, 6, 7], vec![8, 9, 10, 11]]);
    sink.replenish(100);
    assert_eq!(sink.feed(&pending, 12), 20);
}

#[test]
fn a_status_goes_to_an_open_stream_and_a_closed_one_says_so() {
    let mut registry = StreamRegistry::new(WINDOW);
    let mut bound = registry.bind("nysia-test");
    let stream = registry.attach("nysia-test").expect("attaches");
    assert_eq!(registry.send_status(stream, b"{}".to_vec()), SendOutcome::Sent);
    match bound.outbox.try_recv().expect("a frame").body {
        FrameBody::AgentStatus(bytes) => assert_eq!(bytes, b"{}"),
        _ => panic!("a status"),
    }
    registry.close_watched(stream);
    assert_eq!(registry.send_status(stream, b"{}".to_vec()), SendOutcome::Closed);
    registry.detach("nysia-test", stream.stream);
    assert_eq!(registry.send_status(stream, b"{}".to_vec()), SendOutcome::Closed);
}

#[test]
fn an_outbox_holds_its_frames_and_no_more() {
    let window = CreditWindow { per_stream_initial: 1024 * 1024, chunk: 1, ..WINDOW };
    let mut registry = StreamRegistry::new(window);
    let _bound = registry.bind("nysia-test");
    let stream = registry.attach("nysia-test").expect("attaches");
    let pending = vec![b'x'; OUTBOX_FRAMES + 10];
    assert_eq!(registry.feed(stream, &pending), OUTBOX_FRAMES);
}

#[test]
fn an_empty_registry_counts_nothing() {
    let mut registry = StreamRegistry::new(WINDOW);
    assert!(registry.is_empty());
    assert_eq!(registry.len(), 0);
    assert_eq!(registry.connections(), 0);
    assert_eq!(registry.bound(), 0);
    let bound = registry.bind("nysia-test");
    assert_eq!(registry.connections(), 1);
    assert_eq!(registry.bound(), 1);
    assert!(registry.is_empty(), "a connection with no streams is still empty");
    registry.unbind(bound.key);
    assert_eq!(registry.connections(), 0);
    assert_eq!(registry.bound(), 1, "a number once handed out is not handed out again");
    assert_eq!(registry.next_stream_id("nysia-test"), None);
}

#[test]
fn a_chunk_larger_than_a_frame_carries_is_sent_in_frames_that_carry_it() {
    let window = CreditWindow {
        per_stream_initial: 8 * 1024 * 1024,
        per_stream_max: 8 * 1024 * 1024,
        chunk: 2 * 1024 * 1024,
        ..WINDOW
    };
    let (mut sink, mut rx) = sink_with(8, window);
    let pending: Vec<u8> = (0..MAX_FRAME_PAYLOAD_BYTES + 3).map(|at| (at % 251) as u8).collect();
    assert_eq!(sink.feed(&pending, 0), pending.len());
    assert_eq!(sink.credit(), 8 * 1024 * 1024 - pending.len() as i64);
    let mut carried = Vec::new();
    let mut frames = 0;
    while let Ok(frame) = rx.try_recv() {
        match frame.body {
            FrameBody::Output(bytes) => carried.extend(bytes),
            _ => panic!("output"),
        }
        frames += 1;
    }
    assert_eq!(frames, 2);
    assert!(carried == pending);
}

#[test]
fn a_frame_that_was_sent_is_queued_and_spent_and_one_that_was_not_is_neither() {
    let (mut sink, mut rx) = sink_with(1, WINDOW);
    let opening = sink.credit();
    assert_eq!(sink.send(output(FIRST, 9)), SendOutcome::Sent);
    assert_eq!(sink.credit(), opening - 9);
    assert_eq!(sink.send(output(FIRST, 9)), SendOutcome::WouldBlock);
    assert_eq!(sink.credit(), opening - 9);
    assert!(rx.try_recv().is_ok());
    assert!(rx.try_recv().is_err());
}

#[test]
fn a_stream_s_frames_come_out_of_its_own_connection_s_outbox_and_no_other() {
    let mut registry = StreamRegistry::new(WINDOW);
    let mut mine = registry.bind("mine");
    let mut theirs = registry.bind("theirs");
    let a = registry.attach("mine").expect("attaches");
    let b = registry.attach("theirs").expect("attaches");
    assert_eq!(registry.feed(a, &b"for me".to_vec()), 6);
    assert_eq!(registry.feed(b, &b"for them".to_vec()), 8);
    for (bound, expected) in [(&mut mine, &b"for me"[..]), (&mut theirs, &b"for them"[..])] {
        match bound.outbox.try_recv().expect("a frame").body {
            FrameBody::Output(bytes) => assert_eq!(bytes, expected),
            _ => panic!("output"),
        }
        assert!(bound.outbox.try_recv().is_err(), "and nothing else");
    }
}

#[test]
fn a_bind_takes_the_streams_of_the_connection_it_replaces_out_of_the_count() {
    let mut registry = StreamRegistry::new(WINDOW);
    let _first = registry.bind("mine");
    let _other = registry.bind("theirs");
    for client in ["mine", "mine", "theirs"] {
        registry.attach(client).expect("attaches");
    }
    assert_eq!(registry.len(), 3);
    let _second = registry.bind("mine");
    assert_eq!(registry.len(), 1);
    assert_eq!(registry.connections(), 2);
}

#[test]
fn a_chunk_goes_on_stops_or_finishes_by_its_outcome() {
    assert_eq!(after_chunk(2, 5, 9, SendOutcome::Sent), (5, true));
    assert_eq!(after_chunk(2, 5, 9, SendOutcome::WouldBlock), (2, false));
    assert_eq!(after_chunk(2, 5, 9, SendOutcome::Dropped), (2, false));
    assert_eq!(after_chunk(2, 5, 9, SendOutcome::Closed), (9, false));
}
