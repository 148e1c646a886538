//! The command subsystem: inbound requests that must be answered exactly
//! once, and outbound requests correlated to asynchronous responses.
//!
//! [`CommandRequestsComp`] is the per-entity ledger of unanswered inbound
//! requests and queued responses. [`CommandSenderRes`] is the per-component
//! correlator: it buffers outbound requests and stores each request's
//! continuation under the transport-assigned identifier until the matching
//! response event arrives.

use vstd::prelude::*;
use crate::assoc::{
    assoc_get, assoc_has, assoc_put, assoc_remove, lemma_assoc_put_unique,
    lemma_assoc_remove_absent, lemma_assoc_remove_unique, unique_keys,
};
use crate::entities::EntityId;
use crate::schema::{CommandRequestData, CommandResponseData, ComponentValue};
use crate::transport::{SentRequest, SentResponse, Transport};

verus! {

/// One unanswered inbound command request: its identifier, payload, and the
/// identity and capability labels of the requesting party.
#[derive(Debug, PartialEq, Eq)]
pub struct IncomingRequest {
    pub request_id: u64,
    pub request: CommandRequestData,
    pub caller_worker_id: String,
    pub caller_attribute_set: Vec<String>,
}

/// A produced response awaiting transmission, keyed by the identifier of
/// the request it answers.
#[derive(Debug, PartialEq, Eq)]
pub struct OutgoingResponse {
    pub request_id: u64,
    pub response: CommandResponseData,
}

/// The abstract state of a request ledger: pending requests and queued
/// responses, both in arrival order.
#[verifier::ext_equal]
pub struct LedgerState {
    pub requests: Seq<IncomingRequest>,
    pub responses: Seq<OutgoingResponse>,
}

/// The requests left pending after answering those requests whose decision
/// is `Some`: the subsequence of unanswered requests, arrival order kept.
pub open spec fn kept_requests(
    reqs: Seq<IncomingRequest>,
    ds: Seq<Option<CommandResponseData>>,
) -> Seq<IncomingRequest>
    recommends
        ds.len() == reqs.len(),
    decreases reqs.len(),
{
    if reqs.len() == 0 {
        Seq::empty()
    } else {
        let rest = kept_requests(reqs.drop_first(), ds.drop_first());
        if ds[0] is Some {
            rest
        } else {
            seq![reqs[0]] + rest
        }
    }
}

/// The responses produced by answering those requests whose decision is
/// `Some`, each keyed by its request's identifier, in arrival order.
pub open spec fn produced_responses(
    reqs: Seq<IncomingRequest>,
    ds: Seq<Option<CommandResponseData>>,
) -> Seq<OutgoingResponse>
    recommends
        ds.len() == reqs.len(),
    decreases reqs.len(),
{
    if reqs.len() == 0 {
        Seq::empty()
    } else {
        let rest = produced_responses(reqs.drop_first(), ds.drop_first());
        match ds[0] {
            Some(resp) => seq![
                OutgoingResponse { request_id: reqs[0].request_id, response: resp },
            ] + rest,
            None => rest,
        }
    }
}

/// How many decisions answer their request.
pub open spec fn count_answered(ds: Seq<Option<CommandResponseData>>) -> int
    decreases ds.len(),
{
    if ds.len() == 0 {
        0
    } else {
        (if ds[0] is Some {
            1int
        } else {
            0int
        }) + count_answered(ds.drop_first())
    }
}

/// The position of the `k`-th answering decision.
pub open spec fn answered_index(ds: Seq<Option<CommandResponseData>>, k: int) -> int
    recommends
        0 <= k < count_answered(ds),
    decreases ds.len(),
{
    if ds.len() == 0 {
        0
    } else if ds[0] is Some {
        if k == 0 {
            0
        } else {
            1 + answered_index(ds.drop_first(), k - 1)
        }
    } else {
        1 + answered_index(ds.drop_first(), k)
    }
}

/// Answering never reorders requests relative to arrival order: the `k`-th
/// produced response originates from the `k`-th answered request, and the
/// origins are strictly increasing request positions.
pub proof fn lemma_respond_preserves_arrival_order(
    reqs: Seq<IncomingRequest>,
    ds: Seq<Option<CommandResponseData>>,
)
    requires
        ds.len() == reqs.len(),
    ensures
        produced_responses(reqs, ds).len() == count_answered(ds),
        forall|k: int|
            0 <= k < count_answered(ds) ==> {
                let i = #[trigger] answered_index(ds, k);
                &&& 0 <= i < ds.len()
                &&& ds[i] is Some
                &&& produced_responses(reqs, ds)[k] == (OutgoingResponse {
                    request_id: reqs[i].request_id,
                    response: ds[i]->0,
                })
            },
        forall|k1: int, k2: int|
            0 <= k1 < k2 < count_answered(ds) ==> answered_index(ds, k1) < answered_index(
                ds,
                k2,
            ),
    decreases reqs.len(),
{
    if reqs.len() > 0 {
        lemma_respond_preserves_arrival_order(reqs.drop_first(), ds.drop_first());
        let shift: int = if ds[0] is Some {
            1
        } else {
            0
        };
        assert forall|k: int| 0 <= k < count_answered(ds) implies {
            let i = #[trigger] answered_index(ds, k);
            &&& 0 <= i < ds.len()
            &&& ds[i] is Some
            &&& produced_responses(reqs, ds)[k] == (OutgoingResponse {
                request_id: reqs[i].request_id,
                response: ds[i]->0,
            })
        } by {
            if !(ds[0] is Some && k == 0) {
                let i = answered_index(ds, k);
                let it = answered_index(ds.drop_first(), k - shift);
                assert(i == 1 + it);
                assert(ds[i] == ds.drop_first()[it]);
                assert(reqs[i] == reqs.drop_first()[it]);
                assert(produced_responses(reqs, ds)[k] == produced_responses(
                    reqs.drop_first(),
                    ds.drop_first(),
                )[k - shift]);
            }
        }
        assert forall|k1: int, k2: int|
            0 <= k1 < k2 < count_answered(ds) implies answered_index(ds, k1) < answered_index(
            ds,
            k2,
        ) by {
            if !(ds[0] is Some && k1 == 0) {
                assert(answered_index(ds, k1) == 1 + answered_index(ds.drop_first(), k1 - shift));
            }
            assert(answered_index(ds, k2) == 1 + answered_index(ds.drop_first(), k2 - shift));
        }
    }
}

/// A request whose decision is `None` stays in the ledger: it remains
/// present, in arrival order, until some later call answers it.
pub proof fn lemma_unanswered_request_persists(
    reqs: Seq<IncomingRequest>,
    ds: Seq<Option<CommandResponseData>>,
    i: int,
)
    requires
        ds.len() == reqs.len(),
        0 <= i < reqs.len(),
        ds[i] is None,
    ensures
        kept_requests(reqs, ds).contains(reqs[i]),
    decreases reqs.len(),
{
    if i == 0 {
        assert(kept_requests(reqs, ds)[0] == reqs[0]);
    } else {
        lemma_unanswered_request_persists(reqs.drop_first(), ds.drop_first(), i - 1);
        let rest = kept_requests(reqs.drop_first(), ds.drop_first());
        let j = choose|j: int| 0 <= j < rest.len() && rest[j] == reqs.drop_first()[i - 1];
        if ds[0] is Some {
            assert(kept_requests(reqs, ds)[j] == reqs[i]);
        } else {
            assert(kept_requests(reqs, ds)[j + 1] == reqs[i]);
        }
    }
}

/// The per-entity, per-component-type ledger of inbound command requests
/// that have not been answered yet, plus the produced responses awaiting
/// transmission.
///
/// A request persists across frames until some call to [`respond`] (or
/// [`respond_with`]) answers it; there is no timeout or auto-rejection.
///
/// [`respond`]: CommandRequestsComp::respond
/// [`respond_with`]: CommandRequestsComp::respond_with
#[derive(Debug)]
pub struct CommandRequestsComp {
    requests: Vec<IncomingRequest>,
    responses: Vec<OutgoingResponse>,
}

impl View for CommandRequestsComp {
    type V = LedgerState;

    closed spec fn view(&self) -> LedgerState {
        LedgerState { requests: self.requests@, responses: self.responses@ }
    }
}

impl Default for CommandRequestsComp {
    /// An empty ledger.
    fn default() -> (r: Self)
        ensures
            r@.requests.len() == 0,
            r@.responses.len() == 0,
    {
        CommandRequestsComp { requests: Vec::new(), responses: Vec::new() }
    }
}

impl CommandRequestsComp {
    /// Append an inbound command request to the pending list. Requests are
    /// never deduplicated: a duplicate identifier is appended as a new
    /// entry.
    pub fn on_request(
        &mut self,
        request_id: u64,
        request: CommandRequestData,
        caller_worker_id: String,
        caller_attribute_set: Vec<String>,
    )
        ensures
            final(self)@.requests == old(self)@.requests.push(
                (IncomingRequest { request_id, request, caller_worker_id, caller_attribute_set }),
            ),
            final(self)@.responses == old(self)@.responses,
    {
        self.requests.push(
            IncomingRequest { request_id, request, caller_worker_id, caller_attribute_set },
        );
    }

    /// Answer pending requests by explicit decisions, one per pending
    /// request in arrival order: `Some(response)` answers the request and
    /// moves it to the response queue; `None` leaves it pending. Neither
    /// the pending requests nor the produced responses are reordered.
    pub fn respond_with(&mut self, decisions: Vec<Option<CommandResponseData>>)
        requires
            decisions@.len() == old(self)@.requests.len(),
        ensures
            final(self)@.requests == kept_requests(old(self)@.requests, decisions@),
            final(self)@.responses == old(self)@.responses + produced_responses(
                old(self)@.requests,
                decisions@,
            ),
    {
        let ghost reqs0 = self.requests@;
        let ghost ds0 = decisions@;
        let ghost resp0 = self.responses@;
        let mut decisions = decisions;
        let mut kept: Vec<IncomingRequest> = Vec::new();
        while self.requests.len() > 0
            invariant
                self.requests@.len() == decisions@.len(),
                kept_requests(reqs0, ds0) == kept@ + kept_requests(self.requests@, decisions@),
                resp0 + produced_responses(reqs0, ds0) == self.responses@ + produced_responses(
                    self.requests@,
                    decisions@,
                ),
            decreases self.requests@.len(),
        {
            let ghost reqs_pre = self.requests@;
            let ghost ds_pre = decisions@;
            let ghost resps_pre = self.responses@;
            let ghost kept_pre = kept@;
            let req = self.requests.remove(0);
            let d = decisions.remove(0);
            proof {
                assert(reqs_pre.drop_first() =~= self.requests@);
                assert(ds_pre.drop_first() =~= decisions@);
            }
            match d {
                Some(resp) => {
                    let ghost respg = resp;
                    self.responses.push(
                        OutgoingResponse { request_id: req.request_id, response: resp },
                    );
                    proof {
                        assert(produced_responses(reqs_pre, ds_pre) == seq![
                            (OutgoingResponse { request_id: reqs_pre[0].request_id, response: respg }),
                        ] + produced_responses(reqs_pre.drop_first(), ds_pre.drop_first()));
                        assert(resps_pre + produced_responses(reqs_pre, ds_pre)
                            =~= self.responses@ + produced_responses(self.requests@, decisions@));
                    }
                },
                None => {
                    kept.push(req);
                    proof {
                        assert(kept_requests(reqs_pre, ds_pre) == seq![req] + kept_requests(
                            reqs_pre.drop_first(),
                            ds_pre.drop_first(),
                        ));
                        assert(kept_pre + kept_requests(reqs_pre, ds_pre) =~= kept@
                            + kept_requests(self.requests@, decisions@));
                    }
                },
            }
        }
        self.requests = kept;
        proof {
            assert(kept_requests(reqs0, ds0) =~= kept@);
            assert(resp0 + produced_responses(reqs0, ds0) =~= self.responses@);
        }
    }

    /// Answer pending requests with a responder: it is invoked once per
    /// pending request, in arrival order, with the request payload and the
    /// requesting party's identity and capability labels. Returning
    /// `Some(response)` answers the request; returning `None` leaves it
    /// pending for a future call.
    pub fn respond<F: Fn(&CommandRequestData, &String, &Vec<String>) -> Option<
        CommandResponseData,
    >>(&mut self, responder: F)
        requires
            forall|i: int|
                0 <= i < old(self)@.requests.len() ==> call_requires(
                    responder,
                    (
                        &old(self)@.requests[i].request,
                        &old(self)@.requests[i].caller_worker_id,
                        &old(self)@.requests[i].caller_attribute_set,
                    ),
                ),
        ensures
            exists|ds: Seq<Option<CommandResponseData>>|
                {
                    &&& ds.len() == old(self)@.requests.len()
                    &&& (forall|i: int|
                        0 <= i < ds.len() ==> call_ensures(
                            responder,
                            (
                                &old(self)@.requests[i].request,
                                &old(self)@.requests[i].caller_worker_id,
                                &old(self)@.requests[i].caller_attribute_set,
                            ),
                            ds[i],
                        ))
                    &&& final(self)@.requests == kept_requests(old(self)@.requests, ds)
                    &&& final(self)@.responses == old(self)@.responses + produced_responses(
                        old(self)@.requests,
                        ds,
                    )
                },
    {
        let n = self.requests.len();
        let mut decisions: Vec<Option<CommandResponseData>> = Vec::new();
        let mut i: usize = 0;
        while i < n
            invariant
                n == self.requests@.len(),
                self.requests@ == old(self)@.requests,
                self.responses@ == old(self)@.responses,
                i <= n,
                decisions@.len() == i,
                forall|j: int|
                    0 <= j < n ==> call_requires(
                        responder,
                        (
                            &old(self)@.requests[j].request,
                            &old(self)@.requests[j].caller_worker_id,
                            &old(self)@.requests[j].caller_attribute_set,
                        ),
                    ),
                forall|j: int|
                    0 <= j < i ==> call_ensures(
                        responder,
                        (
                            &old(self)@.requests[j].request,
                            &old(self)@.requests[j].caller_worker_id,
                            &old(self)@.requests[j].caller_attribute_set,
                        ),
                        decisions@[j],
                    ),
            decreases n - i,
        {
            let req = &self.requests[i];
            let d = responder(&req.request, &req.caller_worker_id, &req.caller_attribute_set);
            decisions.push(d);
            i = i + 1;
        }
        let ghost ds = decisions@;
        self.respond_with(decisions);
    }

    /// Transmit every queued response, keyed by its original request
    /// identifier, then empty the response queue. Pending requests are
    /// untouched.
    pub fn flush_responses(&mut self, transport: &mut Transport, component_id: u32)
        ensures
            final(self)@.responses.len() == 0,
            final(self)@.requests == old(self)@.requests,
            final(transport).responses() == old(transport).responses() + old(
                self,
            )@.responses.map_values(
                |o: OutgoingResponse|
                    (SentResponse { request_id: o.request_id, component_id, response: o.response }),
            ),
            final(transport).updates() == old(transport).updates(),
            final(transport).requests() == old(transport).requests(),
            final(transport).next_request_id() == old(transport).next_request_id(),
    {
        let ghost resp0 = self.responses@;
        let ghost sent0 = old(transport).responses();
        while self.responses.len() > 0
            invariant
                self.requests@ == old(self)@.requests,
                resp0.map_values(
                    |o: OutgoingResponse|
                        (SentResponse {
                            request_id: o.request_id,
                            component_id,
                            response: o.response,
                        }),
                ) == transport.responses().skip(sent0.len() as int) + self.responses@.map_values(
                    |o: OutgoingResponse|
                        (SentResponse {
                            request_id: o.request_id,
                            component_id,
                            response: o.response,
                        }),
                ),
                sent0.len() <= transport.responses().len(),
                transport.responses().subrange(0, sent0.len() as int) == sent0,
                transport.updates() == old(transport).updates(),
                transport.requests() == old(transport).requests(),
                transport.next_request_id() == old(transport).next_request_id(),
            decreases self.responses@.len(),
        {
            let o = self.responses.remove(0);
            transport.send_command_response(o.request_id, component_id, o.response);
        }
        proof {
            assert(final(transport).responses() =~= sent0 + resp0.map_values(
                |o: OutgoingResponse|
                    (SentResponse { request_id: o.request_id, component_id, response: o.response }),
            ));
        }
    }

    /// Read access to the pending requests, in arrival order.
    pub fn pending_requests(&self) -> (r: &Vec<IncomingRequest>)
        ensures
            r@ == self@.requests,
    {
        &self.requests
    }

    /// Read access to the produced responses awaiting transmission.
    pub fn queued_responses(&self) -> (r: &Vec<OutgoingResponse>)
        ensures
            r@ == self@.responses,
    {
        &self.responses
    }
}

/// The continuation stored for an outbound command request: a dispatch tag
/// plus whatever state the caller needs when the response arrives.
#[derive(Debug, PartialEq, Eq)]
pub struct Continuation {
    pub tag: u64,
    pub state: ComponentValue,
}

/// The transport-level status of a command response event.
#[derive(Debug, PartialEq, Eq)]
pub enum CommandStatus {
    Success(CommandResponseData),
    Timeout,
    NotFound,
    AuthorityLost,
    PermissionDenied,
    ApplicationError,
    InternalError,
}

/// A failure delivered to a continuation as data, never as a fatal error.
#[derive(Debug, PartialEq, Eq, Structural, Clone, Copy)]
pub enum CommandFailure {
    Timeout,
    NotFound,
    AuthorityLost,
    PermissionDenied,
    ApplicationError,
    InternalError,
    /// The response claimed success but its payload did not decode for this
    /// component type.
    MalformedResponse,
}

/// What a continuation is fired with: the decoded typed response on
/// success, and a typed failure status otherwise.
#[derive(Debug, PartialEq, Eq)]
pub enum CommandOutcome {
    Success(CommandResponseData),
    Failure(CommandFailure),
}

/// A continuation removed from the correlator, ready to be run once with
/// its outcome.
#[derive(Debug, PartialEq, Eq)]
pub struct FiredContinuation {
    pub continuation: Continuation,
    pub outcome: CommandOutcome,
}

/// The outcome delivered for a response event with status `status`, for a
/// component type with `n_commands` commands: a success payload exactly when
/// the status carries success and its command index decodes; every other
/// status becomes the corresponding typed failure.
pub open spec fn spec_outcome_of_status(status: CommandStatus, n_commands: u32) -> CommandOutcome {
    match status {
        CommandStatus::Success(data) => if data.command_index < n_commands {
            CommandOutcome::Success(data)
        } else {
            CommandOutcome::Failure(CommandFailure::MalformedResponse)
        },
        CommandStatus::Timeout => CommandOutcome::Failure(CommandFailure::Timeout),
        CommandStatus::NotFound => CommandOutcome::Failure(CommandFailure::NotFound),
        CommandStatus::AuthorityLost => CommandOutcome::Failure(CommandFailure::AuthorityLost),
        CommandStatus::PermissionDenied => CommandOutcome::Failure(
            CommandFailure::PermissionDenied,
        ),
        CommandStatus::ApplicationError => CommandOutcome::Failure(
            CommandFailure::ApplicationError,
        ),
        CommandStatus::InternalError => CommandOutcome::Failure(CommandFailure::InternalError),
    }
}

/// Decode a response event's status into the outcome its continuation will
/// be fired with.
pub fn outcome_of_status(status: CommandStatus, n_commands: u32) -> (r: CommandOutcome)
    ensures
        r == spec_outcome_of_status(status, n_commands),
{
    match status {
        CommandStatus::Success(data) => {
            if data.command_index < n_commands {
                CommandOutcome::Success(data)
            } else {
                CommandOutcome::Failure(CommandFailure::MalformedResponse)
            }
        },
        CommandStatus::Timeout => CommandOutcome::Failure(CommandFailure::Timeout),
        CommandStatus::NotFound => CommandOutcome::Failure(CommandFailure::NotFound),
        CommandStatus::AuthorityLost => CommandOutcome::Failure(CommandFailure::AuthorityLost),
        CommandStatus::PermissionDenied => CommandOutcome::Failure(
            CommandFailure::PermissionDenied,
        ),
        CommandStatus::ApplicationError => CommandOutcome::Failure(
            CommandFailure::ApplicationError,
        ),
        CommandStatus::InternalError => CommandOutcome::Failure(CommandFailure::InternalError),
    }
}

/// An outbound request's continuation fires exactly once: consuming the
/// response for `request_id` removes the stored continuation, so a second
/// response event with the same identifier finds nothing and is dropped.
/// Which payload it fires with is fixed by [`spec_outcome_of_status`]: a
/// success payload exactly when the correlated response carries success
/// status, and a typed failure otherwise.
pub proof fn lemma_continuation_fires_once(cbs: Seq<(u64, Continuation)>, request_id: u64)
    requires
        unique_keys(cbs),
    ensures
        !assoc_has(assoc_remove(cbs, request_id), request_id),
{
    lemma_assoc_remove_absent(cbs, request_id);
}

/// An outbound command request buffered until the next flush, with the
/// continuation to store once the transport assigns its identifier.
#[derive(Debug, PartialEq, Eq)]
pub struct BufferedRequest {
    pub entity_id: EntityId,
    pub request: CommandRequestData,
    pub callback: Continuation,
}

/// The abstract state of a correlator: the stored continuations keyed by
/// outbound request identifier, and the not-yet-sent outbound requests.
#[verifier::ext_equal]
pub struct SenderState {
    pub component_id: u32,
    pub callbacks: Seq<(u64, Continuation)>,
    pub buffered: Seq<BufferedRequest>,
}

/// The continuations stored after flushing `buf`, when the transport
/// assigns identifiers `first`, `first + 1`, ... in buffer order.
pub open spec fn callbacks_after_flush(
    cbs: Seq<(u64, Continuation)>,
    buf: Seq<BufferedRequest>,
    first: u64,
) -> Seq<(u64, Continuation)>
    recommends
        first + buf.len() <= u64::MAX,
    decreases buf.len(),
{
    if buf.len() == 0 {
        cbs
    } else {
        callbacks_after_flush(
            assoc_put(cbs, first, buf[0].callback),
            buf.drop_first(),
            (first + 1) as u64,
        )
    }
}

/// The outbound requests transmitted by flushing `buf` for component
/// `component_id`, under identifiers `first`, `first + 1`, ...
pub open spec fn flushed_requests(
    buf: Seq<BufferedRequest>,
    component_id: u32,
    first: u64,
) -> Seq<SentRequest>
    recommends
        first + buf.len() <= u64::MAX,
{
    Seq::new(
        buf.len(),
        |i: int|
            (SentRequest {
                request_id: (first + i) as u64,
                entity_id: buf[i].entity_id,
                component_id,
                request: buf[i].request,
            }),
    )
}

/// The per-component-type command correlator: a map from outbound request
/// identifier to the stored continuation, plus a buffer of not-yet-sent
/// outbound requests.
///
/// A stored continuation is removed exactly when the matching response
/// event arrives; it is held indefinitely if no response ever arrives.
#[derive(Debug)]
pub struct CommandSenderRes {
    component_id: u32,
    callbacks: Vec<(u64, Continuation)>,
    buffered_requests: Vec<BufferedRequest>,
}

impl View for CommandSenderRes {
    type V = SenderState;

    closed spec fn view(&self) -> SenderState {
        SenderState {
            component_id: self.component_id,
            callbacks: self.callbacks@,
            buffered: self.buffered_requests@,
        }
    }
}

impl CommandSenderRes {
    /// Each outbound request identifier stores at most one continuation.
    pub open spec fn wf(self) -> bool {
        unique_keys(self@.callbacks)
    }

    /// An empty correlator for the component type `component_id`.
    pub fn new(component_id: u32) -> (r: CommandSenderRes)
        ensures
            r@.component_id == component_id,
            r@.callbacks.len() == 0,
            r@.buffered.len() == 0,
            r.wf(),
    {
        CommandSenderRes { component_id, callbacks: Vec::new(), buffered_requests: Vec::new() }
    }

    /// Buffer an outbound command request for transmission at the next
    /// flush. The continuation is stored at flush time, keyed by the
    /// identifier the transport assigns.
    pub fn send_command(
        &mut self,
        entity_id: EntityId,
        request: CommandRequestData,
        callback: Continuation,
    )
        ensures
            final(self)@.buffered == old(self)@.buffered.push(
                (BufferedRequest { entity_id, request, callback }),
            ),
            final(self)@.callbacks == old(self)@.callbacks,
            final(self)@.component_id == old(self)@.component_id,
    {
        self.buffered_requests.push(BufferedRequest { entity_id, request, callback });
    }

    /// Transmit every buffered outbound request: for each, in buffer order,
    /// obtain a transport-assigned identifier, store the continuation under
    /// that identifier, and record the request for transmission.
    pub fn flush_requests(&mut self, transport: &mut Transport)
        requires
            old(self).wf(),
            old(transport).next_request_id() + old(self)@.buffered.len() <= u64::MAX,
        ensures
            final(self).wf(),
            final(self)@.buffered.len() == 0,
            final(self)@.component_id == old(self)@.component_id,
            final(self)@.callbacks == callbacks_after_flush(
                old(self)@.callbacks,
                old(self)@.buffered,
                old(transport).next_request_id(),
            ),
            final(transport).next_request_id() == old(transport).next_request_id() + old(
                self,
            )@.buffered.len(),
            final(transport).requests() == old(transport).requests() + flushed_requests(
                old(self)@.buffered,
                old(self)@.component_id,
                old(transport).next_request_id(),
            ),
            final(transport).updates() == old(transport).updates(),
            final(transport).responses() == old(transport).responses(),
    {
        let ghost buf0 = self.buffered_requests@;
        let ghost first0 = transport.next_request_id();
        let ghost sent0 = old(transport).requests();
        while self.buffered_requests.len() > 0
            invariant
                self.wf(),
                self@.component_id == old(self)@.component_id,
                transport.next_request_id() + self.buffered_requests@.len() <= u64::MAX,
                callbacks_after_flush(old(self)@.callbacks, buf0, first0)
                    == callbacks_after_flush(
                    self@.callbacks,
                    self.buffered_requests@,
                    transport.next_request_id(),
                ),
                sent0 + flushed_requests(buf0, old(self)@.component_id, first0)
                    =~= (transport.requests() + flushed_requests(
                    self.buffered_requests@,
                    old(self)@.component_id,
                    transport.next_request_id(),
                )),
                transport.updates() == old(transport).updates(),
                transport.responses() == old(transport).responses(),
                transport.next_request_id() == first0 + (buf0.len()
                    - self.buffered_requests@.len()),
            decreases self.buffered_requests@.len(),
        {
            let ghost buf_pre = self.buffered_requests@;
            let ghost next_pre = transport.next_request_id();
            let ghost cbs_pre = self@.callbacks;
            let ghost reqs_sent_pre = transport.requests();
            let b = self.buffered_requests.remove(0);
            let ghost bg = b;
            let BufferedRequest { entity_id, request, callback } = b;
            let id = transport.send_command_request(entity_id, self.component_id, request);
            self.store_callback(id, callback);
            proof {
                assert(buf_pre.drop_first() =~= self.buffered_requests@);
                assert(callbacks_after_flush(cbs_pre, buf_pre, next_pre)
                    == callbacks_after_flush(
                    assoc_put(cbs_pre, next_pre, bg.callback),
                    buf_pre.drop_first(),
                    (next_pre + 1) as u64,
                ));
                assert(reqs_sent_pre + flushed_requests(
                    buf_pre,
                    old(self)@.component_id,
                    next_pre,
                ) =~= transport.requests() + flushed_requests(
                    self.buffered_requests@,
                    old(self)@.component_id,
                    transport.next_request_id(),
                ));
            }
        }
        proof {
            assert(transport.requests() =~= sent0 + flushed_requests(
                buf0,
                old(self)@.component_id,
                first0,
            ));
        }
    }

    /// Store `callback` under the outbound identifier `id`, replacing any
    /// continuation already stored there.
    fn store_callback(&mut self, id: u64, callback: Continuation)
        requires
            old(self).wf(),
        ensures
            final(self).wf(),
            final(self)@.callbacks == assoc_put(old(self)@.callbacks, id, callback),
            final(self)@.buffered == old(self)@.buffered,
            final(self)@.component_id == old(self)@.component_id,
    {
        proof {
            crate::assoc::lemma_assoc_index(self@.callbacks, id);
            lemma_assoc_put_unique(self@.callbacks, id, callback);
        }
        let n = self.callbacks.len();
        let mut i: usize = 0;
        while i < n
            invariant
                n == self.callbacks@.len(),
                i <= n,
                self.callbacks@ == old(self)@.callbacks,
                self.buffered_requests@ == old(self)@.buffered,
                self@.component_id == old(self)@.component_id,
                old(self).wf(),
                forall|j: int| 0 <= j < i ==> self.callbacks@[j].0 != id,
            decreases n - i,
        {
            proof {
                crate::assoc::lemma_assoc_index(self.callbacks@, id);
                lemma_assoc_put_unique(self.callbacks@, id, callback);
            }
            if self.callbacks[i].0 == id {
                self.callbacks[i] = (id, callback);
                return ;
            }
            i = i + 1;
        }
        proof {
            crate::assoc::lemma_assoc_index(self.callbacks@, id);
            lemma_assoc_put_unique(self.callbacks@, id, callback);
        }
        self.callbacks.push((id, callback));
    }

    /// Consume the response event for outbound request `request_id`: remove
    /// and return the stored continuation together with the outcome it must
    /// be fired with. Returns `None`, changing nothing, if no continuation
    /// is stored under that identifier (already consumed, or unknown): such
    /// an event is dropped, never fatal.
    pub fn got_command_response(&mut self, request_id: u64, outcome: CommandOutcome) -> (r: Option<
        FiredContinuation,
    >)
        requires
            old(self).wf(),
        ensures
            final(self).wf(),
            final(self)@.buffered == old(self)@.buffered,
            final(self)@.component_id == old(self)@.component_id,
            match assoc_get(old(self)@.callbacks, request_id) {
                Some(k) => {
                    &&& r matches Some(fired) && fired.continuation == k && fired.outcome
                        == outcome
                    &&& final(self)@.callbacks == assoc_remove(old(self)@.callbacks, request_id)
                    &&& !assoc_has(final(self)@.callbacks, request_id)
                },
                None => {
                    &&& r is None
                    &&& final(self)@.callbacks == old(self)@.callbacks
                },
            },
    {
        proof {
            crate::assoc::lemma_assoc_index(self@.callbacks, request_id);
            lemma_assoc_remove_unique(self@.callbacks, request_id);
            lemma_assoc_remove_absent(self@.callbacks, request_id);
        }
        let n = self.callbacks.len();
        let mut i: usize = 0;
        while i < n
            invariant
                n == self.callbacks@.len(),
                i <= n,
                self.callbacks@ == old(self)@.callbacks,
                self.buffered_requests@ == old(self)@.buffered,
                self@.component_id == old(self)@.component_id,
                old(self).wf(),
                forall|j: int| 0 <= j < i ==> self.callbacks@[j].0 != request_id,
            decreases n - i,
        {
            proof {
                crate::assoc::lemma_assoc_index(self.callbacks@, request_id);
                lemma_assoc_remove_unique(self.callbacks@, request_id);
                lemma_assoc_remove_absent(self.callbacks@, request_id);
            }
            if self.callbacks[i].0 == request_id {
                let pair = self.callbacks.remove(i);
                return Some(FiredContinuation { continuation: pair.1, outcome });
            }
            i = i + 1;
        }
        proof {
            crate::assoc::lemma_assoc_index(self.callbacks@, request_id);
        }
        None
    }

    /// Read access to the buffered outbound requests.
    pub fn buffered_requests(&self) -> (r: &Vec<BufferedRequest>)
        ensures
            r@ == self@.buffered,
    {
        &self.buffered_requests
    }

    /// How many continuations are currently stored.
    pub fn stored_callback_count(&self) -> (r: usize)
        ensures
            r == self@.callbacks.len(),
    {
        self.callbacks.len()
    }
}

} // verus!
