use nysia_core::agent_status::{
    AgentStatusService, Recorded, RestoreSummary, Restored,
};
use nysia_core::stream::registry::{BoundStream, StreamRegistry};
use nysia_core::wire::{CreditWindow, FrameBody};

const WINDOW: CreditWindow = CreditWindow {
    per_stream_initial: 64,
    per_stream_max: 128,
    total_initial: 128,
    total_max: 256,
    pending_cap: 64,
    ack_batch: 16,
    chunk: 16,
};

type Record = Result<
    Option<nysia_core::agent_status::AgentStatusChange<&'static str, &'static str, bool>>,
    &'static str,
>;

fn service() -> AgentStatusService<&'static str> {
    AgentStatusService::with_store("the store")
}

fn statuses(bound: &mut BoundStream) -> Vec<Vec<u8>> {
    let mut out = Vec::new();
    while let Ok(frame) = bound.outbox.try_recv() {
        match frame.body {
            FrameBody::AgentStatus(bytes) => out.push(bytes),
            other => panic!("a status, got {other:?}"),
        }
    }
    out
}

#[test]
fn what_was_recorded_is_the_change_that_is_told() {
    let recorded: Record = service().record(Recorded::Written(Some("done")), "lead", true);
    let change = recorded.expect("the row persists").expect("a change");
    assert_eq!(change.status, "done");
    assert_eq!(change.changed, "lead");
    assert!(change.notify);
}

#[test]
fn an_event_that_maps_to_nothing_is_no_failure_and_no_change() {
    let recorded: Record = service().record(Recorded::Unmapped, "lead", true);
    assert!(recorded.expect("an unmapped event is not a failure").is_none());
    let recorded: Record = service().record(Recorded::Written(None), "lead", true);
    assert!(recorded.expect("a row that is gone again is not a failure").is_none());
}

#[test]
fn a_store_that_refuses_a_row_is_the_failure_a_hook_sees() {
    let recorded: Record = service().record(Recorded::NotWritten("full"), "lead", true);
    assert_eq!(recorded.expect_err("not written"), "full");
    let recorded: Record = service().record(Recorded::NotRead("torn"), "lead", true);
    assert_eq!(recorded.expect_err("not read back"), "torn");
}

#[test]
fn a_restore_counts_what_became_of_each_row() {
    let service = service();
    assert_eq!(
        service.restore(&vec![Restored::Superseded]),
        RestoreSummary { applied: 0, superseded: 1, failed: 0 }
    );
    assert_eq!(
        service.restore(&vec![
            Restored::Applied,
            Restored::Failed,
            Restored::Applied,
            Restored::Superseded,
        ]),
        RestoreSummary { applied: 2, superseded: 1, failed: 1 }
    );
    assert_eq!(
        service.restore(&Vec::new()),
        RestoreSummary { applied: 0, superseded: 0, failed: 0 }
    );
    assert_eq!(*service.store(), "the store");
}

#[test]
fn a_status_reaches_every_subscriber_and_spends_no_credit() {
    let mut streams = StreamRegistry::new(WINDOW);
    let mut one = streams.bind("one");
    let mut two = streams.bind("two");
    let a = streams.attach("one").expect("attaches");
    let b = streams.attach("two").expect("attaches");
    let mut service = service();
    service.subscribe(a);
    service.subscribe(b);
    service.broadcast(&mut streams, Some(vec![b'x'; 1000]));
    for bound in [&mut one, &mut two] {
        assert_eq!(statuses(bound), [vec![b'x'; 1000]]);
    }
    for stream in [a, b] {
        let sink = streams.sink(stream.connection, stream.stream).expect("open");
        assert_eq!(sink.credit(), i64::from(WINDOW.per_stream_initial));
    }
    service.broadcast(&mut streams, None);
    assert!(statuses(&mut one).is_empty(), "what could not be encoded is sent to nobody");
    assert_eq!(service.subscribers(), 2);
}

#[test]
fn a_subscriber_that_left_is_dropped_and_one_that_is_slow_is_kept() {
    let mut streams = StreamRegistry::new(WINDOW);
    let gone = streams.bind("gone");
    let mut slow = streams.bind("slow");
    let a = streams.attach("gone").expect("attaches");
    let b = streams.attach("slow").expect("attaches");
    let mut service = service();
    service.subscribe(a);
    service.subscribe(b);
    drop(gone);
    for _ in 0..2000 {
        service.broadcast(&mut streams, Some(b"{}".to_vec()));
    }
    assert_eq!(service.subscribers(), 1, "only the one that left is dropped");
    let queued = statuses(&mut slow).len();
    assert!(queued < 2000, "the slow one missed some");
    service.broadcast(&mut streams, Some(b"last".to_vec()));
    assert_eq!(statuses(&mut slow), [b"last".to_vec()], "and hears the next");
}

#[test]
fn a_subscriber_is_forgotten_by_its_stream_or_with_its_connection() {
    let mut streams = StreamRegistry::new(WINDOW);
    let one = streams.bind("one");
    let two = streams.bind("two");
    let a = streams.attach("one").expect("attaches");
    let b = streams.attach("one").expect("attaches");
    let c = streams.attach("two").expect("attaches");
    let mut service = service();
    for stream in [a, b, c] {
        service.subscribe(stream);
    }
    assert!(service.unsubscribe(&mut streams, a.connection, a.stream));
    assert!(streams.sink(a.connection, a.stream).expect("listed").is_closed());
    assert!(!service.unsubscribe(&mut streams, a.connection, a.stream), "once is enough");
    assert_eq!(service.subscribers(), 2);
    service.forget_connection(one.key);
    assert_eq!(service.subscribers(), 1);
    service.forget_connection(two.key);
    assert_eq!(service.subscribers(), 0);
}

#[test]
fn a_change_no_frame_may_carry_is_dropped_and_its_subscriber_is_kept() {
    let mut streams = StreamRegistry::new(WINDOW);
    let mut one = streams.bind("one");
    let stream = streams.attach("one").expect("attaches");
    let mut service = service();
    service.subscribe(stream);
    service.broadcast(&mut streams, Some(vec![b'x'; nysia_core::wire::MAX_FRAME_PAYLOAD_BYTES + 1]));
    assert_eq!(service.subscribers(), 1);
    assert!(statuses(&mut one).is_empty());
}
