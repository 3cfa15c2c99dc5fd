use nysia_core::errors::{envelope, store_envelope, LAST_RESORT};
use nysia_core::wire::ErrorCode;

#[test]
fn every_envelope_carries_at_least_one_step() {
    let built = envelope(
        ErrorCode::Internal,
        "something went wrong".to_owned(),
        "try again",
        &vec![],
    );
    assert_eq!(built.next_steps(), &["try again"]);
}

#[test]
fn a_blank_first_step_is_replaced_rather_than_losing_the_error() {
    for blank in ["", "   ", "\t\n"] {
        let built = envelope(ErrorCode::Internal, "boom".to_owned(), blank, &vec!["and then this"]);
        assert_eq!(built.next_steps(), &[LAST_RESORT, "and then this"]);
    }
}

#[test]
fn blank_later_steps_are_dropped_without_dropping_the_list() {
    let built = envelope(
        ErrorCode::Internal,
        "boom".to_owned(),
        "first",
        &vec!["", "second", "  "],
    );
    assert_eq!(built.next_steps(), &["first", "second"]);
}

#[test]
fn a_store_failure_says_what_happens_to_the_status_that_was_lost() {
    let envelope = store_envelope("the store is poisoned".to_owned());
    assert_eq!(envelope.code(), ErrorCode::Internal);
    assert!(envelope.next_steps().iter().any(|step| step.contains("spooled")));
}
