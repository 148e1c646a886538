use spatialos_specs::commands::{
    CommandOutcome, CommandRequestsComp, CommandSenderRes, CommandStatus, Continuation,
    outcome_of_status, CommandFailure,
};
use spatialos_specs::entities::EntityId;
use spatialos_specs::schema::{CommandRequestData, CommandResponseData, ComponentValue, FieldValue};
use spatialos_specs::transport::Transport;

fn request_payload(n: u64) -> CommandRequestData {
    CommandRequestData {
        command_index: 0,
        payload: ComponentValue { fields: vec![FieldValue::Number(n)] },
    }
}

fn response_payload(n: u64) -> CommandResponseData {
    CommandResponseData {
        command_index: 0,
        payload: ComponentValue { fields: vec![FieldValue::Number(n)] },
    }
}

fn ledger_with_requests(ids: &[u64]) -> CommandRequestsComp {
    let mut ledger: CommandRequestsComp = Default::default();
    for id in ids {
        ledger.on_request(*id, request_payload(*id), "caller".to_string(), vec![]);
    }
    ledger
}

#[test]
fn unanswered_request_persists_across_respond_calls() {
    let mut ledger = ledger_with_requests(&[7]);
    ledger.respond(|_request, _worker, _attrs| None);
    assert_eq!(ledger.pending_requests().len(), 1);
    assert_eq!(ledger.pending_requests()[0].request_id, 7);
    assert_eq!(ledger.queued_responses().len(), 0);

    ledger.respond(|_request, _worker, _attrs| None);
    assert_eq!(ledger.pending_requests().len(), 1);

    ledger.respond(|_request, _worker, _attrs| Some(response_payload(99)));
    assert_eq!(ledger.pending_requests().len(), 0);
    assert_eq!(ledger.queued_responses().len(), 1);
    assert_eq!(ledger.queued_responses()[0].request_id, 7);
    assert_eq!(ledger.queued_responses()[0].response, response_payload(99));
}

#[test]
fn respond_keeps_arrival_order() {
    // Answer requests 1 and 3 out of 1..=4; both the produced responses and
    // the requests left pending keep arrival order.
    let mut ledger = ledger_with_requests(&[1, 2, 3, 4]);
    ledger.respond_with(vec![
        Some(response_payload(11)),
        None,
        Some(response_payload(33)),
        None,
    ]);
    let pending: Vec<u64> = ledger.pending_requests().iter().map(|r| r.request_id).collect();
    assert_eq!(pending, vec![2, 4]);
    let produced: Vec<u64> = ledger.queued_responses().iter().map(|r| r.request_id).collect();
    assert_eq!(produced, vec![1, 3]);
}

#[test]
fn respond_sees_caller_identity() {
    let mut ledger: CommandRequestsComp = Default::default();
    ledger.on_request(
        5,
        request_payload(5),
        "worker-a".to_string(),
        vec!["admin".to_string()],
    );
    ledger.respond(|_request, worker, attrs| {
        assert_eq!(worker, "worker-a");
        assert_eq!(attrs, &vec!["admin".to_string()]);
        Some(response_payload(1))
    });
    assert_eq!(ledger.queued_responses().len(), 1);
}

#[test]
fn flush_responses_transmits_and_empties_queue() {
    let mut ledger = ledger_with_requests(&[7, 8]);
    ledger.respond_with(vec![Some(response_payload(70)), None]);
    let mut transport = Transport::new();
    ledger.flush_responses(&mut transport, 1003);
    assert_eq!(ledger.queued_responses().len(), 0);
    assert_eq!(ledger.pending_requests().len(), 1);
    assert_eq!(transport.sent_responses().len(), 1);
    assert_eq!(transport.sent_responses()[0].request_id, 7);
    assert_eq!(transport.sent_responses()[0].component_id, 1003);
    assert_eq!(transport.sent_responses()[0].response, response_payload(70));
}

#[test]
fn continuation_fires_exactly_once() {
    let mut sender = CommandSenderRes::new(1003);
    sender.send_command(
        EntityId::new(4),
        request_payload(1),
        Continuation { tag: 77, state: ComponentValue { fields: vec![] } },
    );
    let mut transport = Transport::with_first_request_id(42);
    sender.flush_requests(&mut transport);
    assert_eq!(sender.buffered_requests().len(), 0);
    assert_eq!(transport.sent_requests().len(), 1);
    assert_eq!(transport.sent_requests()[0].request_id, 42);
    assert_eq!(sender.stored_callback_count(), 1);

    // Success status: the continuation fires with the decoded payload.
    let fired = sender
        .got_command_response(42, CommandOutcome::Success(response_payload(8)))
        .unwrap();
    assert_eq!(fired.continuation.tag, 77);
    assert_eq!(fired.outcome, CommandOutcome::Success(response_payload(8)));
    assert_eq!(sender.stored_callback_count(), 0);

    // A duplicate response with the same identifier has no effect.
    let again = sender.got_command_response(42, CommandOutcome::Success(response_payload(8)));
    assert!(again.is_none());
}

#[test]
fn failure_status_fires_continuation_with_failure() {
    let mut sender = CommandSenderRes::new(1003);
    sender.send_command(
        EntityId::new(4),
        request_payload(1),
        Continuation { tag: 1, state: ComponentValue { fields: vec![] } },
    );
    let mut transport = Transport::new();
    sender.flush_requests(&mut transport);
    let id = transport.sent_requests()[0].request_id;
    let outcome = outcome_of_status(CommandStatus::Timeout, 1);
    let fired = sender.got_command_response(id, outcome).unwrap();
    assert_eq!(fired.outcome, CommandOutcome::Failure(CommandFailure::Timeout));
}

#[test]
fn unknown_response_identifier_is_dropped() {
    let mut sender = CommandSenderRes::new(1003);
    let fired = sender.got_command_response(43, CommandOutcome::Success(response_payload(1)));
    assert!(fired.is_none());
}

#[test]
fn status_decode_distinguishes_every_failure() {
    assert_eq!(
        outcome_of_status(CommandStatus::Success(response_payload(3)), 1),
        CommandOutcome::Success(response_payload(3))
    );
    // A success payload whose command index the type does not define is
    // delivered as a malformed-response failure, not a crash.
    assert_eq!(
        outcome_of_status(CommandStatus::Success(response_payload(3)), 0),
        CommandOutcome::Failure(CommandFailure::MalformedResponse)
    );
    assert_eq!(
        outcome_of_status(CommandStatus::NotFound, 1),
        CommandOutcome::Failure(CommandFailure::NotFound)
    );
    assert_eq!(
        outcome_of_status(CommandStatus::AuthorityLost, 1),
        CommandOutcome::Failure(CommandFailure::AuthorityLost)
    );
    assert_eq!(
        outcome_of_status(CommandStatus::PermissionDenied, 1),
        CommandOutcome::Failure(CommandFailure::PermissionDenied)
    );
    assert_eq!(
        outcome_of_status(CommandStatus::ApplicationError, 1),
        CommandOutcome::Failure(CommandFailure::ApplicationError)
    );
    assert_eq!(
        outcome_of_status(CommandStatus::InternalError, 1),
        CommandOutcome::Failure(CommandFailure::InternalError)
    );
}
