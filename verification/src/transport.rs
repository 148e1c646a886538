//! The outbound side of the transport boundary.
//!
//! The core never performs network sends itself: it records every outbound
//! message in a [`Transport`] buffer, in transmission order, and assigns the
//! transport-side identifiers for outbound command requests. The surrounding
//! session layer drains the buffers and performs the actual sends.

use vstd::prelude::*;
use crate::entities::EntityId;
use crate::schema::{CommandRequestData, CommandResponseData, ComponentUpdate, FieldValue};

verus! {

/// A component update on its way to the remote authority.
#[derive(Debug, PartialEq, Eq)]
pub struct SentUpdate {
    pub entity_id: EntityId,
    pub component_id: u32,
    pub update: ComponentUpdate,
}

/// The abstract content of a recorded component update.
#[verifier::ext_equal]
pub struct SentUpdateView {
    pub entity_id: EntityId,
    pub component_id: u32,
    pub fields: Seq<Option<FieldValue>>,
}

impl View for SentUpdate {
    type V = SentUpdateView;

    open spec fn view(&self) -> SentUpdateView {
        SentUpdateView {
            entity_id: self.entity_id,
            component_id: self.component_id,
            fields: self.update.fields@,
        }
    }
}

/// An outbound command request, under its transport-assigned identifier.
#[derive(Debug, PartialEq, Eq)]
pub struct SentRequest {
    pub request_id: u64,
    pub entity_id: EntityId,
    pub component_id: u32,
    pub request: CommandRequestData,
}

/// A response to an inbound command request, keyed by that request's
/// identifier.
#[derive(Debug, PartialEq, Eq)]
pub struct SentResponse {
    pub request_id: u64,
    pub component_id: u32,
    pub response: CommandResponseData,
}

/// The abstract state of a transport buffer: the recorded traffic with
/// update contents abstracted, and the identifier allocator.
#[verifier::ext_equal]
pub struct TransportModel {
    pub updates: Seq<SentUpdateView>,
    pub requests: Seq<SentRequest>,
    pub responses: Seq<SentResponse>,
    pub next_request_id: u64,
}

/// One frame's outbound traffic, in transmission order per message kind,
/// plus the allocator for outbound request identifiers.
pub struct Transport {
    sent_updates: Vec<SentUpdate>,
    sent_requests: Vec<SentRequest>,
    sent_responses: Vec<SentResponse>,
    next_request_id: u64,
}

impl Transport {
    /// The component updates recorded so far, oldest first.
    pub closed spec fn updates(self) -> Seq<SentUpdate> {
        self.sent_updates@
    }

    /// The command requests recorded so far, oldest first.
    pub closed spec fn requests(self) -> Seq<SentRequest> {
        self.sent_requests@
    }

    /// The command responses recorded so far, oldest first.
    pub closed spec fn responses(self) -> Seq<SentResponse> {
        self.sent_responses@
    }

    /// The next outbound request identifier this transport will assign.
    pub closed spec fn next_request_id(self) -> u64 {
        self.next_request_id
    }

    /// The whole buffer as one abstract record.
    pub open spec fn model(self) -> TransportModel {
        TransportModel {
            updates: self.updates().map_values(|u: SentUpdate| u@),
            requests: self.requests(),
            responses: self.responses(),
            next_request_id: self.next_request_id(),
        }
    }

    pub fn new() -> (r: Transport)
        ensures
            r.updates() == Seq::<SentUpdate>::empty(),
            r.requests() == Seq::<SentRequest>::empty(),
            r.responses() == Seq::<SentResponse>::empty(),
            r.next_request_id() == 1,
    {
        Transport {
            sent_updates: Vec::new(),
            sent_requests: Vec::new(),
            sent_responses: Vec::new(),
            next_request_id: 1,
        }
    }

    /// A transport whose first assigned outbound request identifier is
    /// `first`.
    pub fn with_first_request_id(first: u64) -> (r: Transport)
        ensures
            r.updates() == Seq::<SentUpdate>::empty(),
            r.requests() == Seq::<SentRequest>::empty(),
            r.responses() == Seq::<SentResponse>::empty(),
            r.next_request_id() == first,
    {
        Transport {
            sent_updates: Vec::new(),
            sent_requests: Vec::new(),
            sent_responses: Vec::new(),
            next_request_id: first,
        }
    }

    /// Record a component update for transmission.
    pub fn send_component_update(
        &mut self,
        entity_id: EntityId,
        component_id: u32,
        update: ComponentUpdate,
    )
        ensures
            final(self).updates() == old(self).updates().push(
                (SentUpdate { entity_id, component_id, update }),
            ),
            final(self).requests() == old(self).requests(),
            final(self).responses() == old(self).responses(),
            final(self).next_request_id() == old(self).next_request_id(),
    {
        self.sent_updates.push(SentUpdate { entity_id, component_id, update });
    }

    /// Record an outbound command request for transmission and assign it a
    /// fresh outbound request identifier.
    pub fn send_command_request(
        &mut self,
        entity_id: EntityId,
        component_id: u32,
        request: CommandRequestData,
    ) -> (id: u64)
        requires
            old(self).next_request_id() < u64::MAX,
        ensures
            id == old(self).next_request_id(),
            final(self).next_request_id() == old(self).next_request_id() + 1,
            final(self).requests() == old(self).requests().push(
                (SentRequest { request_id: id, entity_id, component_id, request }),
            ),
            final(self).updates() == old(self).updates(),
            final(self).responses() == old(self).responses(),
    {
        let id = self.next_request_id;
        self.next_request_id = self.next_request_id + 1;
        self.sent_requests.push(SentRequest { request_id: id, entity_id, component_id, request });
        id
    }

    /// Record a response to the inbound command request `request_id` for
    /// transmission.
    pub fn send_command_response(
        &mut self,
        request_id: u64,
        component_id: u32,
        response: CommandResponseData,
    )
        ensures
            final(self).responses() == old(self).responses().push(
                (SentResponse { request_id, component_id, response }),
            ),
            final(self).updates() == old(self).updates(),
            final(self).requests() == old(self).requests(),
            final(self).next_request_id() == old(self).next_request_id(),
    {
        self.sent_responses.push(SentResponse { request_id, component_id, response });
    }

    /// The next outbound request identifier this transport will assign.
    pub fn next_outbound_request_id(&self) -> (r: u64)
        ensures
            r == self.next_request_id(),
    {
        self.next_request_id
    }

    /// Read access to the recorded component updates.
    pub fn sent_updates(&self) -> (r: &Vec<SentUpdate>)
        ensures
            r@ == self.updates(),
    {
        &self.sent_updates
    }

    /// Read access to the recorded command requests.
    pub fn sent_requests(&self) -> (r: &Vec<SentRequest>)
        ensures
            r@ == self.requests(),
    {
        &self.sent_requests
    }

    /// Read access to the recorded command responses.
    pub fn sent_responses(&self) -> (r: &Vec<SentResponse>)
        ensures
            r@ == self.responses(),
    {
        &self.sent_responses
    }
}

} // verus!
