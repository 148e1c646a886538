//! The inbound event dispatcher: a single pass over one frame's batch of
//! inbound operations, strictly in delivery order.
//!
//! The reader owns the identity mapping between remote entity identifiers
//! and local handles, and routes every operation through the registry.
//! Unknown component-type identifiers and lookup misses are silently
//! ignored; malformed payloads are skipped; later operations in the same
//! batch still process.

use vstd::prelude::*;
use crate::assoc::{assoc_get, assoc_put, assoc_remove};
use crate::commands::{CommandStatus, FiredContinuation};
use crate::component_registry::{
    ComponentRegistry, DispatcherState, route, spec_add_component, spec_apply_authority_change,
    spec_apply_component_update, spec_on_command_request, spec_on_command_response,
    spec_remove_component, spec_remove_entity,
};
use crate::entities::{Entity, EntityId, EntityIds};
use crate::schema::{CommandRequestData, ComponentUpdate, ComponentValue};

verus! {

/// One inbound operation from the remote authority's stream.
#[derive(Debug)]
pub enum WorkerOp {
    AddEntity { entity_id: EntityId },
    RemoveEntity { entity_id: EntityId },
    AddComponent { entity_id: EntityId, component_id: u32, data: ComponentValue },
    RemoveComponent { entity_id: EntityId, component_id: u32 },
    ComponentUpdate { entity_id: EntityId, component_id: u32, update: ComponentUpdate },
    AuthorityChange { entity_id: EntityId, component_id: u32, authority: bool },
    CommandRequest {
        entity_id: EntityId,
        component_id: u32,
        request_id: u64,
        request: CommandRequestData,
        caller_worker_id: String,
        caller_attribute_set: Vec<String>,
    },
    CommandResponse { component_id: u32, request_id: u64, status: CommandStatus },
    /// Any other operation kind: ignored.
    Unrecognized,
}

/// The abstract state of the reader: the identity mapping and the local
/// handle allocator.
#[verifier::ext_equal]
pub struct ReaderState {
    pub mappings: Seq<(EntityId, Entity)>,
    pub next_local: u64,
}

/// The effect of one inbound operation on the identity mapping and the
/// registry, together with the continuation it fires, if any.
pub open spec fn step_op(r: ReaderState, g: Seq<DispatcherState>, op: WorkerOp) -> (
    ReaderState,
    Seq<DispatcherState>,
    Option<FiredContinuation>,
) {
    match op {
        WorkerOp::AddEntity { entity_id } => (
            ReaderState {
                mappings: assoc_put(r.mappings, entity_id, (Entity { index: r.next_local })),
                next_local: (r.next_local + 1) as u64,
            },
            g,
            None,
        ),
        WorkerOp::RemoveEntity { entity_id } => match assoc_get(r.mappings, entity_id) {
            Some(local) => (
                ReaderState { mappings: assoc_remove(r.mappings, entity_id), ..r },
                g.map_values(|d: DispatcherState| spec_remove_entity(d, local)),
                None,
            ),
            None => (r, g, None),
        },
        WorkerOp::AddComponent { entity_id, component_id, data } => match assoc_get(
            r.mappings,
            entity_id,
        ) {
            Some(local) => (
                r,
                route(g, component_id, |d: DispatcherState| spec_add_component(d, local, data)),
                None,
            ),
            None => (r, g, None),
        },
        WorkerOp::RemoveComponent { entity_id, component_id } => match assoc_get(
            r.mappings,
            entity_id,
        ) {
            Some(local) => (
                r,
                route(g, component_id, |d: DispatcherState| spec_remove_component(d, local)),
                None,
            ),
            None => (r, g, None),
        },
        WorkerOp::ComponentUpdate { entity_id, component_id, update } => match assoc_get(
            r.mappings,
            entity_id,
        ) {
            Some(local) => (
                r,
                route(
                    g,
                    component_id,
                    |d: DispatcherState| spec_apply_component_update(d, local, update),
                ),
                None,
            ),
            None => (r, g, None),
        },
        WorkerOp::AuthorityChange { entity_id, component_id, authority } => match assoc_get(
            r.mappings,
            entity_id,
        ) {
            Some(local) => (
                r,
                route(
                    g,
                    component_id,
                    |d: DispatcherState| spec_apply_authority_change(d, local, authority),
                ),
                None,
            ),
            None => (r, g, None),
        },
        WorkerOp::CommandRequest {
            entity_id,
            component_id,
            request_id,
            request,
            caller_worker_id,
            caller_attribute_set,
        } => match assoc_get(r.mappings, entity_id) {
            Some(local) => (
                r,
                route(
                    g,
                    component_id,
                    |d: DispatcherState|
                        spec_on_command_request(
                            d,
                            local,
                            request_id,
                            request,
                            caller_worker_id,
                            caller_attribute_set,
                        ),
                ),
                None,
            ),
            None => (r, g, None),
        },
        WorkerOp::CommandResponse { component_id, request_id, status } => (
            r,
            route(g, component_id, |d: DispatcherState| spec_on_command_response(d, request_id)),
            ComponentRegistry::spec_fired(g, component_id, request_id, status),
        ),
        WorkerOp::Unrecognized => (r, g, None),
    }
}

/// The effect of one frame's batch, operation by operation in delivery
/// order, accumulating the continuations fired by response events.
pub open spec fn run_ops(r: ReaderState, g: Seq<DispatcherState>, ops: Seq<WorkerOp>) -> (
    ReaderState,
    Seq<DispatcherState>,
    Seq<FiredContinuation>,
)
    decreases ops.len(),
{
    if ops.len() == 0 {
        (r, g, Seq::empty())
    } else {
        let (r1, g1, f1) = step_op(r, g, ops[0]);
        let (r2, g2, fs) = run_ops(r1, g1, ops.drop_first());
        (
            r2,
            g2,
            match f1 {
                Some(f) => seq![f] + fs,
                None => fs,
            },
        )
    }
}

/// The inbound event dispatcher. It exclusively owns and mutates the
/// identity mapping; everything else only looks up.
pub struct SpatialReader {
    spatial_to_specs_entity: EntityIds,
}

impl View for SpatialReader {
    type V = ReaderState;

    closed spec fn view(&self) -> ReaderState {
        ReaderState {
            mappings: self.spatial_to_specs_entity@,
            next_local: self.spatial_to_specs_entity.next_local(),
        }
    }
}

impl SpatialReader {
    /// Every local handle in the mapping was allocated in the past.
    pub open spec fn wf(self) -> bool {
        forall|i: int|
            0 <= i < self@.mappings.len() ==> (#[trigger] self@.mappings[i]).1.index
                < self@.next_local
    }

    /// A reader with no entities mapped.
    pub fn new() -> (r: SpatialReader)
        ensures
            r@.mappings == Seq::<(EntityId, Entity)>::empty(),
            r@.next_local == 0,
            r.wf(),
    {
        SpatialReader { spatial_to_specs_entity: EntityIds::new() }
    }

    /// Read access to the identity mapping, for the outbound driver and for
    /// application logic; only the reader itself ever mutates it.
    pub fn entity_ids(&self) -> (r: &EntityIds)
        ensures
            r@ == self@.mappings,
            r.next_local() == self@.next_local,
    {
        &self.spatial_to_specs_entity
    }

    /// Consume one frame's batch of inbound operations, strictly in
    /// delivery order, routing each through the registry, and return the
    /// continuations fired by command response events, in delivery order.
    pub fn process(&mut self, registry: &mut ComponentRegistry, ops: Vec<WorkerOp>) -> (fired:
        Vec<FiredContinuation>)
        requires
            old(self).wf(),
            old(registry).wf(),
            old(self)@.next_local + ops@.len() <= u64::MAX,
        ensures
            final(self).wf(),
            final(registry).wf(),
            final(self)@ == run_ops(old(self)@, old(registry)@, ops@).0,
            final(registry)@ == run_ops(old(self)@, old(registry)@, ops@).1,
            fired@ == run_ops(old(self)@, old(registry)@, ops@).2,
    {
        let ghost r0 = self@;
        let ghost g0 = registry@;
        let ghost ops0 = ops@;
        let mut ops = ops;
        let mut fired: Vec<FiredContinuation> = Vec::new();
        while ops.len() > 0
            invariant
                self.wf(),
                registry.wf(),
                r0 == old(self)@,
                g0 == old(registry)@,
                self@.next_local + ops@.len() <= u64::MAX,
                run_ops(r0, g0, ops0).0 == run_ops(self@, registry@, ops@).0,
                run_ops(r0, g0, ops0).1 == run_ops(self@, registry@, ops@).1,
                run_ops(r0, g0, ops0).2 =~= fired@ + run_ops(self@, registry@, ops@).2,
            decreases ops@.len(),
        {
            let ghost r_pre = self@;
            let ghost g_pre = registry@;
            let ghost ops_pre = ops@;
            let ghost fired_pre = fired@;
            let op = ops.remove(0);
            let ghost opg = op;
            proof {
                assert(ops_pre.drop_first() =~= ops@);
            }
            match op {
                WorkerOp::AddEntity { entity_id } => {
                    let fresh = self.spatial_to_specs_entity.record(entity_id);
                    proof {
                        assert(fresh == (Entity { index: r_pre.next_local }));
                        assert(opg == (WorkerOp::AddEntity { entity_id }));
                        assert(self@.mappings =~~= assoc_put(
                            r_pre.mappings,
                            entity_id,
                            (Entity { index: r_pre.next_local }),
                        ));
                        assert(self@.next_local == (r_pre.next_local + 1) as u64);
                        assert(self@ =~~= (ReaderState {
                            mappings: assoc_put(
                                r_pre.mappings,
                                entity_id,
                                (Entity { index: r_pre.next_local }),
                            ),
                            next_local: (r_pre.next_local + 1) as u64,
                        }));
                        assert(self@ == step_op(r_pre, g_pre, opg).0);
                    }
                },
                WorkerOp::RemoveEntity { entity_id } => {
                    match self.spatial_to_specs_entity.drop_mapping(entity_id) {
                        Some(local) => {
                            registry.remove_entity(local);
                            proof {
                                assert(self@ =~~= (ReaderState {
                                    mappings: assoc_remove(r_pre.mappings, entity_id),
                                    next_local: r_pre.next_local,
                                }));
                                assert(self@ == step_op(r_pre, g_pre, opg).0);
                            }
                        },
                        None => {
                            proof {
                                crate::assoc::lemma_assoc_index(r_pre.mappings, entity_id);
                                assert(self@ =~~= r_pre);
                                assert(self@ == step_op(r_pre, g_pre, opg).0);
                            }
                        },
                    }
                },
                WorkerOp::AddComponent { entity_id, component_id, data } => {
                    match self.spatial_to_specs_entity.get_local(entity_id) {
                        Some(local) => {
                            let _ = registry.add_component(component_id, local, data);
                            proof {
                                assert(self@ == step_op(r_pre, g_pre, opg).0);
                            }
                        },
                        None => {
                            proof {
                                assert(self@ == step_op(r_pre, g_pre, opg).0);
                            }
                        },
                    }
                },
                WorkerOp::RemoveComponent { entity_id, component_id } => {
                    match self.spatial_to_specs_entity.get_local(entity_id) {
                        Some(local) => {
                            registry.remove_component(component_id, local);
                            proof {
                                assert(self@ == step_op(r_pre, g_pre, opg).0);
                            }
                        },
                        None => {
                            proof {
                                assert(self@ == step_op(r_pre, g_pre, opg).0);
                            }
                        },
                    }
                },
                WorkerOp::ComponentUpdate { entity_id, component_id, update } => {
                    match self.spatial_to_specs_entity.get_local(entity_id) {
                        Some(local) => {
                            let _ = registry.apply_component_update(component_id, local, &update);
                            proof {
                                assert(self@ == step_op(r_pre, g_pre, opg).0);
                            }
                        },
                        None => {
                            proof {
                                assert(self@ == step_op(r_pre, g_pre, opg).0);
                            }
                        },
                    }
                },
                WorkerOp::AuthorityChange { entity_id, component_id, authority } => {
                    match self.spatial_to_specs_entity.get_local(entity_id) {
                        Some(local) => {
                            registry.apply_authority_change(component_id, local, authority);
                            proof {
                                assert(self@ == step_op(r_pre, g_pre, opg).0);
                            }
                        },
                        None => {
                            proof {
                                assert(self@ == step_op(r_pre, g_pre, opg).0);
                            }
                        },
                    }
                },
                WorkerOp::CommandRequest {
                    entity_id,
                    component_id,
                    request_id,
                    request,
                    caller_worker_id,
                    caller_attribute_set,
                } => {
                    match self.spatial_to_specs_entity.get_local(entity_id) {
                        Some(local) => {
                            let _ = registry.on_command_request(
                                component_id,
                                local,
                                request_id,
                                request,
                                caller_worker_id,
                                caller_attribute_set,
                            );
                            proof {
                                assert(self@ == step_op(r_pre, g_pre, opg).0);
                            }
                        },
                        None => {
                            proof {
                                assert(self@ == step_op(r_pre, g_pre, opg).0);
                            }
                        },
                    }
                },
                WorkerOp::CommandResponse { component_id, request_id, status } => {
                    match registry.on_command_response(component_id, request_id, status) {
                        Some(f) => {
                            fired.push(f);
                        },
                        None => {},
                    }
                    proof {
                        assert(self@ == step_op(r_pre, g_pre, opg).0);
                    }
                },
                WorkerOp::Unrecognized => {
                    proof {
                        assert(self@ == step_op(r_pre, g_pre, opg).0);
                    }
                },
            }
            proof {
                assert(self@ =~~= step_op(r_pre, g_pre, opg).0);
                assert(registry@ =~~= step_op(r_pre, g_pre, opg).1);
                assert(fired@ =~= (match step_op(r_pre, g_pre, opg).2 {
                    Some(f) => fired_pre.push(f),
                    None => fired_pre,
                }));
                assert(run_ops(r_pre, g_pre, ops_pre).0 == run_ops(self@, registry@, ops@).0);
                assert(run_ops(r_pre, g_pre, ops_pre).1 == run_ops(self@, registry@, ops@).1);
                assert(fired_pre + run_ops(r_pre, g_pre, ops_pre).2 =~= fired@ + run_ops(
                    self@,
                    registry@,
                    ops@,
                ).2);
            }
        }
        fired
    }
}

/// The system that drives inbound processing: it consumes one frame's
/// batch of operations through a [`SpatialReader`]. It must run before
/// application logic each frame.
pub struct SpatialReaderSystem;

impl SpatialReaderSystem {
    /// Process one frame's batch of inbound operations.
    pub fn run(
        &self,
        reader: &mut SpatialReader,
        registry: &mut ComponentRegistry,
        ops: Vec<WorkerOp>,
    ) -> (fired: Vec<FiredContinuation>)
        requires
            old(reader).wf(),
            old(registry).wf(),
            old(reader)@.next_local + ops@.len() <= u64::MAX,
        ensures
            final(reader).wf(),
            final(registry).wf(),
            final(reader)@ == run_ops(old(reader)@, old(registry)@, ops@).0,
            final(registry)@ == run_ops(old(reader)@, old(registry)@, ops@).1,
            fired@ == run_ops(old(reader)@, old(registry)@, ops@).2,
    {
        reader.process(registry, ops)
    }
}

} // verus!
