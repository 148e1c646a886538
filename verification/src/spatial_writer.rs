//! The outbound replication driver.

use vstd::prelude::*;
use crate::component_registry::{ComponentRegistry, replicate_all, total_buffered};
use crate::entities::EntityIds;
use crate::transport::Transport;

verus! {

/// The system that replicates changes in the local world outward, once per
/// frame, after all application logic has run.
///
/// For every registered dispatcher, in registration order, it flushes
/// replication state and command traffic into the transport buffer. It must
/// not run concurrently with application logic or with inbound processing:
/// the host scheduler has to serialize them.
pub struct SpatialWriterSystem;

impl SpatialWriterSystem {
    /// Flush all pending outbound state of every registered component
    /// type, in registration order.
    pub fn run(
        &self,
        registry: &mut ComponentRegistry,
        entity_ids: &EntityIds,
        transport: &mut Transport,
    )
        requires
            old(registry).wf(),
            old(transport).next_request_id() + total_buffered(old(registry)@) <= u64::MAX,
        ensures
            final(registry).wf(),
            final(registry)@ == replicate_all(
                old(registry)@,
                entity_ids@,
                old(transport).model(),
            ).0,
            final(transport).model() == replicate_all(
                old(registry)@,
                entity_ids@,
                old(transport).model(),
            ).1,
    {
        registry.replicate_all(entity_ids, transport);
    }
}

} // verus!
