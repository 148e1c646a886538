//! The component registry: one type-erased dispatcher per registered
//! component type, keyed by component-type identifier.
//!
//! A [`ComponentDispatcher`] owns everything the core keeps for one
//! component type: the replication cells of the entities that possess it,
//! the per-entity authority markers, the per-entity command ledgers and the
//! outbound command correlator. The [`ComponentRegistry`] is the keyed
//! table of dispatchers that keeps the dispatch loop type-agnostic.

use vstd::prelude::*;
use crate::SpatialComponent;
use crate::CellState;
use crate::assoc::{
    assoc_get, assoc_has, assoc_index, assoc_put, assoc_remove, lemma_assoc_index,
};
use crate::commands::{
    CommandRequestsComp, CommandSenderRes, FiredContinuation, IncomingRequest, LedgerState,
    OutgoingResponse, SenderState, callbacks_after_flush, flushed_requests,
    spec_outcome_of_status, CommandStatus,
};
use crate::entities::{Entity, EntityId, EntityIds, lookup_remote};
use crate::schema::{
    CommandRequestData, ComponentUpdate, ComponentValue, FieldValue, full_update_of,
    merged_fields,
};
use crate::transport::{SentResponse, SentUpdate, SentUpdateView, Transport, TransportModel};

verus! {

/// A protocol or data error on an inbound operation: the offending
/// operation is skipped and reported; it never stops the dispatch loop.
#[derive(Debug, PartialEq, Eq, Structural, Clone, Copy)]
pub enum ProtocolError {
    /// An inbound payload did not decode for this component type.
    MalformedPayload,
    /// An inbound command request carried a command index this component
    /// type does not define.
    UnknownCommandIndex,
    /// An update arrived for an entity that has no cell of this type.
    MissingCell,
}

/// The abstract state of one per-component-type dispatcher.
#[verifier::ext_equal]
pub struct DispatcherState {
    pub component_id: u32,
    pub arity: usize,
    pub n_commands: u32,
    pub cells: Seq<(Entity, CellState)>,
    pub authoritative: Seq<Entity>,
    pub ledgers: Seq<(Entity, LedgerState)>,
    pub sender: SenderState,
}

/// Attaching a cell: a well-typed inbound value becomes a clean cell for
/// `entity`; a malformed value changes nothing.
pub open spec fn spec_add_component(
    d: DispatcherState,
    entity: Entity,
    value: ComponentValue,
) -> DispatcherState {
    if value.fields@.len() == d.arity {
        DispatcherState {
            cells: assoc_put(
                d.cells,
                entity,
                (CellState { value: value.fields@, dirty: false, pending: None }),
            ),
            ..d
        }
    } else {
        d
    }
}

/// Detaching a cell, a no-op if `entity` has none.
pub open spec fn spec_remove_component(d: DispatcherState, entity: Entity) -> DispatcherState {
    DispatcherState { cells: assoc_remove(d.cells, entity), ..d }
}

/// Applying an inbound partial update to the cell of `entity`: the update
/// merges into the cached value; dirty and pending state are untouched.
/// A malformed update, or an update for an entity without a cell, changes
/// nothing.
pub open spec fn spec_apply_component_update(
    d: DispatcherState,
    entity: Entity,
    update: ComponentUpdate,
) -> DispatcherState {
    if update.fields@.len() == d.arity {
        match assoc_get(d.cells, entity) {
            Some(c) => DispatcherState {
                cells: assoc_put(
                    d.cells,
                    entity,
                    (CellState {
                        value: merged_fields(c.value, update.fields@),
                        dirty: c.dirty,
                        pending: c.pending,
                    }),
                ),
                ..d
            },
            None => d,
        }
    } else {
        d
    }
}

/// The position of the first occurrence of `e`, or -1 if absent.
pub open spec fn entity_index(s: Seq<Entity>, e: Entity) -> int
    decreases s.len(),
{
    if s.len() == 0 {
        -1
    } else if s[0] == e {
        0
    } else if entity_index(s.drop_first(), e) == -1 {
        -1
    } else {
        1 + entity_index(s.drop_first(), e)
    }
}

/// `entity_index` finds exactly the first occurrence of `e`.
pub proof fn lemma_entity_index(s: Seq<Entity>, e: Entity)
    ensures
        -1 <= entity_index(s, e) < s.len(),
        entity_index(s, e) >= 0 ==> s[entity_index(s, e)] == e,
        entity_index(s, e) >= 0 ==> forall|j: int| 0 <= j < entity_index(s, e) ==> s[j] != e,
        entity_index(s, e) == -1 ==> forall|j: int| 0 <= j < s.len() ==> s[j] != e,
        (entity_index(s, e) >= 0) == s.contains(e),
    decreases s.len(),
{
    if s.len() > 0 && s[0] != e {
        lemma_entity_index(s.drop_first(), e);
        if entity_index(s, e) >= 0 {
            assert forall|j: int| 0 <= j < entity_index(s, e) implies s[j] != e by {
                if j >= 1 {
                    assert(s[j] == s.drop_first()[j - 1]);
                }
            }
        } else {
            assert forall|j: int| 0 <= j < s.len() implies s[j] != e by {
                if j >= 1 {
                    assert(s[j] == s.drop_first()[j - 1]);
                }
            }
            assert(!s.contains(e)) by {
                if s.contains(e) {
                    let w = choose|w: int| 0 <= w < s.len() && s[w] == e;
                }
            }
        }
        if s.drop_first().contains(e) {
            let w = choose|w: int| 0 <= w < s.drop_first().len() && s.drop_first()[w] == e;
            assert(s[w + 1] == e);
        }
    }
}

/// The authority set after an authority-change event for `entity`.
pub open spec fn spec_set_authority(s: Seq<Entity>, entity: Entity, authority: bool) -> Seq<
    Entity,
> {
    if authority {
        if entity_index(s, entity) >= 0 {
            s
        } else {
            s.push(entity)
        }
    } else {
        if entity_index(s, entity) >= 0 {
            s.remove(entity_index(s, entity))
        } else {
            s
        }
    }
}

/// Setting the per-entity authority marker; cells, ledgers and the
/// correlator are untouched.
pub open spec fn spec_apply_authority_change(
    d: DispatcherState,
    entity: Entity,
    authority: bool,
) -> DispatcherState {
    DispatcherState { authoritative: spec_set_authority(d.authoritative, entity, authority), ..d }
}

/// The ledger of `entity`, or an empty one if it has none yet.
pub open spec fn ledger_or_empty(ledgers: Seq<(Entity, LedgerState)>, entity: Entity) -> LedgerState {
    match assoc_get(ledgers, entity) {
        Some(l) => l,
        None => LedgerState { requests: Seq::empty(), responses: Seq::empty() },
    }
}

/// Routing an inbound command request: a request with a known command index
/// is appended to the entity's ledger, creating the ledger if absent; an
/// unknown command index changes nothing.
pub open spec fn spec_on_command_request(
    d: DispatcherState,
    entity: Entity,
    request_id: u64,
    request: CommandRequestData,
    caller_worker_id: String,
    caller_attribute_set: Vec<String>,
) -> DispatcherState {
    if request.command_index < d.n_commands {
        let l = ledger_or_empty(d.ledgers, entity);
        DispatcherState {
            ledgers: assoc_put(
                d.ledgers,
                entity,
                (LedgerState {
                    requests: l.requests.push(
                        (IncomingRequest {
                            request_id,
                            request,
                            caller_worker_id,
                            caller_attribute_set,
                        }),
                    ),
                    responses: l.responses,
                }),
            ),
            ..d
        }
    } else {
        d
    }
}

/// Routing an inbound command response: the stored continuation for the
/// event's request identifier, if any, is removed.
pub open spec fn spec_on_command_response(d: DispatcherState, request_id: u64) -> DispatcherState {
    DispatcherState {
        sender: SenderState {
            callbacks: assoc_remove(d.sender.callbacks, request_id),
            ..d.sender
        },
        ..d
    }
}

/// Tearing down everything this dispatcher keeps for a removed entity.
pub open spec fn spec_remove_entity(d: DispatcherState, entity: Entity) -> DispatcherState {
    DispatcherState {
        cells: assoc_remove(d.cells, entity),
        authoritative: spec_set_authority(d.authoritative, entity, false),
        ledgers: assoc_remove(d.ledgers, entity),
        ..d
    }
}

/// What a cell transmits when flushed: the entire value if fully dirty,
/// else the pending partial update, else nothing.
pub open spec fn cell_flush_update(c: CellState) -> Option<Seq<Option<FieldValue>>> {
    if c.dirty {
        Some(full_update_of(c.value))
    } else {
        c.pending
    }
}

/// A cell after a flush: value kept, both flags cleared.
pub open spec fn flushed_cell(c: CellState) -> CellState {
    CellState { value: c.value, dirty: false, pending: None }
}

/// Whether the outbound driver flushes the cell of `e`: only entities that
/// hold authority and still have an identity mapping replicate.
pub open spec fn cell_flushes(e: Entity, auth: Seq<Entity>, ids: Seq<(EntityId, Entity)>) -> bool {
    entity_index(auth, e) >= 0 && lookup_remote(ids, e) is Some
}

/// The cells after the outbound driver has walked them: flushed where the
/// entity holds authority and is still mapped, untouched elsewhere.
pub open spec fn replicated_cells(
    cells: Seq<(Entity, CellState)>,
    auth: Seq<Entity>,
    ids: Seq<(EntityId, Entity)>,
) -> Seq<(Entity, CellState)> {
    Seq::new(
        cells.len(),
        |i: int|
            if cell_flushes(cells[i].0, auth, ids) {
                (cells[i].0, flushed_cell(cells[i].1))
            } else {
                cells[i]
            },
    )
}

/// The component updates the outbound driver transmits, in cell storage
/// order: one per flushed dirty cell, none for clean or skipped cells.
pub open spec fn replicated_update_views(
    cells: Seq<(Entity, CellState)>,
    auth: Seq<Entity>,
    ids: Seq<(EntityId, Entity)>,
    component_id: u32,
) -> Seq<SentUpdateView>
    decreases cells.len(),
{
    if cells.len() == 0 {
        Seq::empty()
    } else {
        let head: Seq<SentUpdateView> = if cell_flushes(cells[0].0, auth, ids)
            && cell_flush_update(cells[0].1) is Some {
            seq![
                (SentUpdateView {
                    entity_id: lookup_remote(ids, cells[0].0)->0,
                    component_id,
                    fields: cell_flush_update(cells[0].1)->0,
                }),
            ]
        } else {
            Seq::empty()
        };
        head + replicated_update_views(cells.drop_first(), auth, ids, component_id)
    }
}

/// Every queued response of every ledger, in ledger storage order, keyed by
/// its original request identifier.
pub open spec fn flushed_ledger_responses(
    ledgers: Seq<(Entity, LedgerState)>,
    component_id: u32,
) -> Seq<SentResponse>
    decreases ledgers.len(),
{
    if ledgers.len() == 0 {
        Seq::empty()
    } else {
        ledgers[0].1.responses.map_values(
            |o: OutgoingResponse|
                (SentResponse { request_id: o.request_id, component_id, response: o.response }),
        ) + flushed_ledger_responses(ledgers.drop_first(), component_id)
    }
}

/// The ledgers kept after a flush: responses are emptied everywhere, and
/// entries with no pending requests left are pruned.
pub open spec fn pruned_ledgers(ledgers: Seq<(Entity, LedgerState)>) -> Seq<(Entity, LedgerState)>
    decreases ledgers.len(),
{
    if ledgers.len() == 0 {
        Seq::empty()
    } else {
        let head: Seq<(Entity, LedgerState)> = if ledgers[0].1.requests.len() > 0 {
            seq![
                (
                    ledgers[0].0,
                    LedgerState { requests: ledgers[0].1.requests, responses: Seq::empty() },
                ),
            ]
        } else {
            Seq::empty()
        };
        head + pruned_ledgers(ledgers.drop_first())
    }
}

/// Everything the core keeps for one component type, behind the uniform
/// dispatch interface: the replication cells, authority markers, command
/// ledgers, and the outbound command correlator.
pub struct ComponentDispatcher {
    component_id: u32,
    arity: usize,
    n_commands: u32,
    cells: Vec<(Entity, SpatialComponent)>,
    authoritative: Vec<Entity>,
    ledgers: Vec<(Entity, CommandRequestsComp)>,
    sender: CommandSenderRes,
}

impl View for ComponentDispatcher {
    type V = DispatcherState;

    closed spec fn view(&self) -> DispatcherState {
        DispatcherState {
            component_id: self.component_id,
            arity: self.arity,
            n_commands: self.n_commands,
            cells: self.cells@.map_values(|p: (Entity, SpatialComponent)| (p.0, p.1@)),
            authoritative: self.authoritative@,
            ledgers: self.ledgers@.map_values(|p: (Entity, CommandRequestsComp)| (p.0, p.1@)),
            sender: self.sender@,
        }
    }
}

/// Every cell is well formed and matches the type's arity, and the
/// correlator stores at most one continuation per identifier.
pub open spec fn state_wf(d: DispatcherState) -> bool {
    &&& forall|i: int|
        0 <= i < d.cells.len() ==> {
            let c = (#[trigger] d.cells[i]).1;
            &&& !(c.dirty && c.pending is Some)
            &&& match c.pending {
                Some(p) => p.len() == c.value.len(),
                None => true,
            }
            &&& c.value.len() == d.arity
        }
    &&& crate::assoc::unique_keys(d.sender.callbacks)
    &&& d.sender.component_id == d.component_id
}

impl ComponentDispatcher {
    /// Every cell is well formed and matches this type's arity, and the
    /// correlator stores at most one continuation per identifier.
    pub open spec fn wf(self) -> bool {
        state_wf(self@)
    }

    /// Set up the storage for a component type: no cells, no authority, no
    /// ledgers, an empty correlator.
    pub fn new(component_id: u32, arity: usize, n_commands: u32) -> (r: ComponentDispatcher)
        ensures
            r@ == (DispatcherState {
                component_id,
                arity,
                n_commands,
                cells: Seq::empty(),
                authoritative: Seq::empty(),
                ledgers: Seq::empty(),
                sender: SenderState {
                    component_id,
                    callbacks: Seq::empty(),
                    buffered: Seq::empty(),
                },
            }),
            r.wf(),
    {
        let r = ComponentDispatcher {
            component_id,
            arity,
            n_commands,
            cells: Vec::new(),
            authoritative: Vec::new(),
            ledgers: Vec::new(),
            sender: CommandSenderRes::new(component_id),
        };
        proof {
            assert(r@.cells =~~= Seq::<(Entity, CellState)>::empty());
            assert(r@.ledgers =~~= Seq::<(Entity, LedgerState)>::empty());
            assert(r@ =~~= (DispatcherState {
                component_id,
                arity,
                n_commands,
                cells: Seq::empty(),
                authoritative: Seq::empty(),
                ledgers: Seq::empty(),
                sender: SenderState {
                    component_id,
                    callbacks: Seq::empty(),
                    buffered: Seq::empty(),
                },
            }));
        }
        r
    }

    /// This dispatcher's component-type identifier.
    pub fn component_id(&self) -> (r: u32)
        ensures
            r == self@.component_id,
    {
        self.component_id
    }

    /// How many fields this component type has.
    pub fn arity(&self) -> (r: usize)
        ensures
            r == self@.arity,
    {
        self.arity
    }

    /// How many outbound command requests are buffered on this dispatcher.
    pub fn outbound_buffer_len(&self) -> (r: usize)
        ensures
            r == self@.sender.buffered.len(),
    {
        self.sender.buffered_requests().len()
    }

    /// The position of `entity`'s cell, if it has one.
    fn cell_index(&self, entity: Entity) -> (r: Option<usize>)
        ensures
            match r {
                Some(i) => assoc_index(self@.cells, entity) == i && i < self@.cells.len(),
                None => assoc_index(self@.cells, entity) == -1,
            },
    {
        let n = self.cells.len();
        let mut i: usize = 0;
        while i < n
            invariant
                n == self.cells@.len(),
                n == self@.cells.len(),
                i <= n,
                forall|j: int| 0 <= j < i ==> (#[trigger] self@.cells[j]).0 != entity,
            decreases n - i,
        {
            proof {
                lemma_assoc_index(self@.cells, entity);
                assert(self@.cells[i as int].0 == self.cells@[i as int].0);
            }
            if self.cells[i].0 == entity {
                return Some(i);
            }
            i = i + 1;
        }
        proof {
            lemma_assoc_index(self@.cells, entity);
        }
        None
    }

    /// Attach a replication cell for `entity`, initialized from the inbound
    /// value; an existing cell is replaced. A value whose shape does not
    /// match this component type is reported and changes nothing.
    pub fn add_component(&mut self, entity: Entity, value: ComponentValue) -> (r: Result<
        (),
        ProtocolError,
    >)
        requires
            old(self).wf(),
        ensures
            final(self).wf(),
            final(self)@ == spec_add_component(old(self)@, entity, value),
            r == (if value.fields@.len() == old(self)@.arity {
                Ok::<(), ProtocolError>(())
            } else {
                Err::<(), ProtocolError>(ProtocolError::MalformedPayload)
            }),
    {
        if value.arity() != self.arity {
            return Err(ProtocolError::MalformedPayload);
        }
        let cell = SpatialComponent::new(value);
        match self.cell_index(entity) {
            Some(i) => {
                self.cells[i] = (entity, cell);
                proof {
                    assert(final(self)@.cells =~~= assoc_put(
                        old(self)@.cells,
                        entity,
                        (CellState { value: value.fields@, dirty: false, pending: None }),
                    ));
                    assert(final(self)@ =~~= spec_add_component(old(self)@, entity, value));
                }
            },
            None => {
                self.cells.push((entity, cell));
                proof {
                    assert(final(self)@.cells =~~= assoc_put(
                        old(self)@.cells,
                        entity,
                        (CellState { value: value.fields@, dirty: false, pending: None }),
                    ));
                    assert(final(self)@ =~~= spec_add_component(old(self)@, entity, value));
                }
            },
        }
        Ok(())
    }

    /// Detach `entity`'s replication cell, if it has one.
    pub fn remove_component(&mut self, entity: Entity)
        requires
            old(self).wf(),
        ensures
            final(self).wf(),
            final(self)@ == spec_remove_component(old(self)@, entity),
    {
        match self.cell_index(entity) {
            Some(i) => {
                self.cells.remove(i);
                proof {
                    assert(final(self)@.cells =~~= assoc_remove(old(self)@.cells, entity));
                    assert(final(self)@ =~~= spec_remove_component(old(self)@, entity));
                }
            },
            None => {
                proof {
                    assert(final(self)@ =~~= spec_remove_component(old(self)@, entity));
                }
            },
        }
    }

    /// Apply an inbound partial update to `entity`'s cell: the update
    /// merges into the cached value, and the local dirty/pending state is
    /// untouched. A malformed update or a missing cell is reported and
    /// changes nothing.
    pub fn apply_component_update(&mut self, entity: Entity, update: &ComponentUpdate) -> (r:
        Result<(), ProtocolError>)
        requires
            old(self).wf(),
        ensures
            final(self).wf(),
            final(self)@ == spec_apply_component_update(old(self)@, entity, *update),
            r == (if update.fields@.len() != old(self)@.arity {
                Err::<(), ProtocolError>(ProtocolError::MalformedPayload)
            } else if assoc_get(old(self)@.cells, entity) is None {
                Err::<(), ProtocolError>(ProtocolError::MissingCell)
            } else {
                Ok::<(), ProtocolError>(())
            }),
    {
        if update.fields.len() != self.arity {
            return Err(ProtocolError::MalformedPayload);
        }
        match self.cell_index(entity) {
            Some(i) => {
                proof {
                    lemma_assoc_index(self@.cells, entity);
                }
                let cell = &mut self.cells[i].1;
                cell.apply_update_to_value(update);
                proof {
                    assert(final(self)@.cells =~~= assoc_put(
                        old(self)@.cells,
                        entity,
                        (CellState {
                            value: merged_fields(
                                assoc_get(old(self)@.cells, entity)->0.value,
                                update.fields@,
                            ),
                            dirty: assoc_get(old(self)@.cells, entity)->0.dirty,
                            pending: assoc_get(old(self)@.cells, entity)->0.pending,
                        }),
                    ));
                    assert(final(self)@ =~~= spec_apply_component_update(
                        old(self)@,
                        entity,
                        *update,
                    ));
                }
                Ok(())
            },
            None => {
                proof {
                    lemma_assoc_index(self@.cells, entity);
                    assert(final(self)@ =~~= spec_apply_component_update(
                        old(self)@,
                        entity,
                        *update,
                    ));
                }
                Err(ProtocolError::MissingCell)
            },
        }
    }

    /// Set the authority marker for `entity`: only an authority-change
    /// event may grant or revoke the permission to mutate and replicate.
    pub fn apply_authority_change(&mut self, entity: Entity, authority: bool)
        requires
            old(self).wf(),
        ensures
            final(self).wf(),
            final(self)@ == spec_apply_authority_change(old(self)@, entity, authority),
    {
        let n = self.authoritative.len();
        let mut i: usize = 0;
        while i < n
            invariant
                n == self.authoritative@.len(),
                i <= n,
                *self == *old(self),
                old(self).wf(),
                forall|j: int| 0 <= j < i ==> self.authoritative@[j] != entity,
            decreases n - i,
        {
            proof {
                lemma_entity_index(self.authoritative@, entity);
            }
            if self.authoritative[i] == entity {
                if !authority {
                    self.authoritative.remove(i);
                }
                proof {
                    assert(final(self)@ =~~= spec_apply_authority_change(
                        old(self)@,
                        entity,
                        authority,
                    ));
                }
                return ;
            }
            i = i + 1;
        }
        proof {
            lemma_entity_index(self.authoritative@, entity);
        }
        if authority {
            self.authoritative.push(entity);
        }
        proof {
            assert(final(self)@ =~~= spec_apply_authority_change(old(self)@, entity, authority));
        }
    }

    /// Whether this process currently holds authority over `entity`'s
    /// component instance.
    pub fn has_authority(&self, entity: Entity) -> (r: bool)
        ensures
            r == (entity_index(self@.authoritative, entity) >= 0),
    {
        let n = self.authoritative.len();
        let mut i: usize = 0;
        while i < n
            invariant
                n == self.authoritative@.len(),
                i <= n,
                forall|j: int| 0 <= j < i ==> self.authoritative@[j] != entity,
            decreases n - i,
        {
            proof {
                lemma_entity_index(self.authoritative@, entity);
            }
            if self.authoritative[i] == entity {
                return true;
            }
            i = i + 1;
        }
        proof {
            lemma_entity_index(self.authoritative@, entity);
        }
        false
    }

    /// The position of `entity`'s ledger, if it has one.
    fn ledger_index(&self, entity: Entity) -> (r: Option<usize>)
        ensures
            match r {
                Some(i) => assoc_index(self@.ledgers, entity) == i && i < self@.ledgers.len(),
                None => assoc_index(self@.ledgers, entity) == -1,
            },
    {
        let n = self.ledgers.len();
        let mut i: usize = 0;
        while i < n
            invariant
                n == self.ledgers@.len(),
                n == self@.ledgers.len(),
                i <= n,
                forall|j: int| 0 <= j < i ==> (#[trigger] self@.ledgers[j]).0 != entity,
            decreases n - i,
        {
            proof {
                lemma_assoc_index(self@.ledgers, entity);
                assert(self@.ledgers[i as int].0 == self.ledgers@[i as int].0);
            }
            if self.ledgers[i].0 == entity {
                return Some(i);
            }
            i = i + 1;
        }
        proof {
            lemma_assoc_index(self@.ledgers, entity);
        }
        None
    }

    /// Route an inbound command request to `entity`'s ledger, creating the
    /// ledger if absent. A request whose command index this component type
    /// does not define is reported and changes nothing.
    pub fn on_command_request(
        &mut self,
        entity: Entity,
        request_id: u64,
        request: CommandRequestData,
        caller_worker_id: String,
        caller_attribute_set: Vec<String>,
    ) -> (r: Result<(), ProtocolError>)
        requires
            old(self).wf(),
        ensures
            final(self).wf(),
            final(self)@ == spec_on_command_request(
                old(self)@,
                entity,
                request_id,
                request,
                caller_worker_id,
                caller_attribute_set,
            ),
            r == (if request.command_index < old(self)@.n_commands {
                Ok::<(), ProtocolError>(())
            } else {
                Err::<(), ProtocolError>(ProtocolError::UnknownCommandIndex)
            }),
    {
        if request.command_index >= self.n_commands {
            return Err(ProtocolError::UnknownCommandIndex);
        }
        match self.ledger_index(entity) {
            Some(i) => {
                proof {
                    lemma_assoc_index(self@.ledgers, entity);
                }
                let ledger = &mut self.ledgers[i].1;
                ledger.on_request(request_id, request, caller_worker_id, caller_attribute_set);
                proof {
                    assert(final(self)@.ledgers =~~= spec_on_command_request(
                        old(self)@,
                        entity,
                        request_id,
                        request,
                        caller_worker_id,
                        caller_attribute_set,
                    ).ledgers);
                    assert(final(self)@ =~~= spec_on_command_request(
                        old(self)@,
                        entity,
                        request_id,
                        request,
                        caller_worker_id,
                        caller_attribute_set,
                    ));
                }
            },
            None => {
                proof {
                    lemma_assoc_index(self@.ledgers, entity);
                }
                let mut ledger: CommandRequestsComp = Default::default();
                ledger.on_request(request_id, request, caller_worker_id, caller_attribute_set);
                self.ledgers.push((entity, ledger));
                proof {
                    assert(final(self)@.ledgers =~~= spec_on_command_request(
                        old(self)@,
                        entity,
                        request_id,
                        request,
                        caller_worker_id,
                        caller_attribute_set,
                    ).ledgers);
                    assert(final(self)@ =~~= spec_on_command_request(
                        old(self)@,
                        entity,
                        request_id,
                        request,
                        caller_worker_id,
                        caller_attribute_set,
                    ));
                }
            },
        }
        Ok(())
    }

    /// Route an inbound command response to the correlator: remove and
    /// return the stored continuation together with the outcome it must be
    /// fired with. An event whose identifier stores no continuation is
    /// dropped.
    pub fn on_command_response(&mut self, request_id: u64, status: CommandStatus) -> (r: Option<
        FiredContinuation,
    >)
        requires
            old(self).wf(),
        ensures
            final(self).wf(),
            final(self)@ == spec_on_command_response(old(self)@, request_id),
            match assoc_get(old(self)@.sender.callbacks, request_id) {
                Some(k) => r matches Some(fired) && fired.continuation == k && fired.outcome
                    == spec_outcome_of_status(status, old(self)@.n_commands),
                None => r is None,
            },
    {
        let outcome = crate::commands::outcome_of_status(status, self.n_commands);
        let r = self.sender.got_command_response(request_id, outcome);
        proof {
            lemma_assoc_index(old(self)@.sender.callbacks, request_id);
            assert(final(self)@ =~~= spec_on_command_response(old(self)@, request_id));
        }
        r
    }

    /// Flush all pending outbound state for this component type, in storage
    /// order: first replicate every dirty or pending cell whose entity
    /// holds authority and is still mapped (clearing its flags, exactly one
    /// transmission per flushed dirty cell), then transmit the buffered
    /// outbound command requests, then transmit all queued command
    /// responses and prune the ledger entries left with nothing in flight.
    pub fn replicate(&mut self, entity_ids: &EntityIds, transport: &mut Transport)
        requires
            old(self).wf(),
            old(transport).next_request_id() + old(self)@.sender.buffered.len() <= u64::MAX,
        ensures
            final(self).wf(),
            final(self)@.component_id == old(self)@.component_id,
            final(self)@.arity == old(self)@.arity,
            final(self)@.n_commands == old(self)@.n_commands,
            final(self)@.authoritative == old(self)@.authoritative,
            final(self)@.cells == replicated_cells(
                old(self)@.cells,
                old(self)@.authoritative,
                entity_ids@,
            ),
            final(self)@.ledgers == pruned_ledgers(old(self)@.ledgers),
            final(self)@.sender == (SenderState {
                component_id: old(self)@.component_id,
                callbacks: callbacks_after_flush(
                    old(self)@.sender.callbacks,
                    old(self)@.sender.buffered,
                    old(transport).next_request_id(),
                ),
                buffered: Seq::empty(),
            }),
            final(transport).updates().map_values(|u: SentUpdate| u@) == old(
                transport,
            ).updates().map_values(|u: SentUpdate| u@) + replicated_update_views(
                old(self)@.cells,
                old(self)@.authoritative,
                entity_ids@,
                old(self)@.component_id,
            ),
            final(transport).requests() == old(transport).requests() + flushed_requests(
                old(self)@.sender.buffered,
                old(self)@.component_id,
                old(transport).next_request_id(),
            ),
            final(transport).responses() == old(transport).responses() + flushed_ledger_responses(
                old(self)@.ledgers,
                old(self)@.component_id,
            ),
            final(transport).next_request_id() == old(transport).next_request_id() + old(
                self,
            )@.sender.buffered.len(),
    {
        let ghost cells0 = self@.cells;
        let ghost auth0 = self@.authoritative;
        let ghost ids0 = entity_ids@;
        let ghost cid = self@.component_id;
        let ghost upd0 = old(transport).updates().map_values(|u: SentUpdate| u@);

        // Replicate the cells of authoritative, still-mapped entities.
        let n = self.cells.len();
        let mut i: usize = 0;
        proof {
            assert(cells0.skip(0) =~= cells0);
        }
        while i < n
            invariant
                n == self.cells@.len(),
                i <= n,
                old(self).wf(),
                self@.component_id == old(self)@.component_id,
                self@.arity == old(self)@.arity,
                self@.n_commands == old(self)@.n_commands,
                self@.authoritative == auth0,
                self@.ledgers == old(self)@.ledgers,
                self@.sender == old(self)@.sender,
                cells0 == old(self)@.cells,
                auth0 == old(self)@.authoritative,
                cid == old(self)@.component_id,
                ids0 == entity_ids@,
                upd0 == old(transport).updates().map_values(|u: SentUpdate| u@),
                self@.cells.len() == cells0.len(),
                forall|j: int|
                    0 <= j < i ==> self@.cells[j] == replicated_cells(cells0, auth0, ids0)[j],
                forall|j: int| i <= j < n ==> self@.cells[j] == cells0[j],
                upd0 + replicated_update_views(cells0, auth0, ids0, cid) =~= (
                transport.updates().map_values(|u: SentUpdate| u@) + replicated_update_views(
                    cells0.skip(i as int),
                    auth0,
                    ids0,
                    cid,
                )),
                transport.requests() == old(transport).requests(),
                transport.responses() == old(transport).responses(),
                transport.next_request_id() == old(transport).next_request_id(),
            decreases n - i,
        {
            proof {
                assert(cells0.skip(i as int).drop_first() =~= cells0.skip(i as int + 1));
                assert(cells0.skip(i as int)[0] == cells0[i as int]);
            }
            let entity = self.cells[i].0;
            proof {
                assert(self@.cells[i as int] == cells0[i as int]);
                assert(self@.cells[i as int].0 == self.cells@[i as int].0);
                assert(self@.cells[i as int].1 == self.cells@[i as int].1@);
                assert(entity == cells0[i as int].0);
                assert(ids0 == entity_ids@);
            }
            if self.has_authority(entity) {
                match entity_ids.get_remote(entity) {
                    Some(remote) => {
                        let component_id = self.component_id;
                        proof {
                            assert(cell_flushes(cells0[i as int].0, auth0, ids0));
                            assert(lookup_remote(ids0, cells0[i as int].0) == Some(remote));
                        }
                        let cell = &mut self.cells[i].1;
                        cell.replicate(transport, remote, component_id);
                        proof {
                            assert(self@.cells[i as int].1 == self.cells@[i as int].1@);
                            assert(self@.cells[i as int] == (
                            cells0[i as int].0,
                            flushed_cell(cells0[i as int].1),
                            ));
                            assert(upd0 + replicated_update_views(cells0, auth0, ids0, cid) =~~= (
                            transport.updates().map_values(|u: SentUpdate| u@)
                                + replicated_update_views(
                                cells0.skip(i as int + 1),
                                auth0,
                                ids0,
                                cid,
                            )));
                        }
                    },
                    None => {
                        proof {
                            assert(!cell_flushes(cells0[i as int].0, auth0, ids0));
                        }
                    },
                }
            } else {
                proof {
                    assert(!cell_flushes(cells0[i as int].0, auth0, ids0));
                }
            }
            i = i + 1;
        }
        proof {
            assert(cells0.skip(n as int) =~= Seq::<(Entity, CellState)>::empty());
            assert(replicated_update_views(cells0.skip(n as int), auth0, ids0, cid)
                =~= Seq::<SentUpdateView>::empty());
            assert(self@.cells =~= replicated_cells(cells0, auth0, ids0));
        }

        // Transmit the buffered outbound command requests.
        self.sender.flush_requests(transport);

        // Transmit queued command responses and prune empty ledger entries.
        let ghost ledgers0 = self@.ledgers;
        let ghost resp0 = transport.responses();
        let mut kept: Vec<(Entity, CommandRequestsComp)> = Vec::new();
        while self.ledgers.len() > 0
            invariant
                self@.component_id == old(self)@.component_id,
                self@.arity == old(self)@.arity,
                self@.n_commands == old(self)@.n_commands,
                self@.authoritative == auth0,
                auth0 == old(self)@.authoritative,
                cid == old(self)@.component_id,
                ids0 == entity_ids@,
                cells0 == old(self)@.cells,
                upd0 == old(transport).updates().map_values(|u: SentUpdate| u@),
                ledgers0 == old(self)@.ledgers,
                resp0 == old(transport).responses(),
                self@.cells == replicated_cells(
                    old(self)@.cells,
                    old(self)@.authoritative,
                    ids0,
                ),
                old(self).wf(),
                self@.sender == (SenderState {
                    component_id: old(self)@.component_id,
                    callbacks: callbacks_after_flush(
                        old(self)@.sender.callbacks,
                        old(self)@.sender.buffered,
                        old(transport).next_request_id(),
                    ),
                    buffered: Seq::empty(),
                }),
                crate::assoc::unique_keys(self@.sender.callbacks),
                pruned_ledgers(ledgers0) =~= kept@.map_values(
                    |p: (Entity, CommandRequestsComp)| (p.0, p.1@),
                ) + pruned_ledgers(self@.ledgers),
                resp0 + flushed_ledger_responses(ledgers0, cid) =~= transport.responses()
                    + flushed_ledger_responses(self@.ledgers, cid),
                forall|j: int|
                    0 <= j < kept@.len() ==> (#[trigger] kept@[j]).1@.responses.len() == 0,
                transport.updates().map_values(|u: SentUpdate| u@) =~= upd0
                    + replicated_update_views(cells0, auth0, ids0, cid),
                transport.requests() == old(transport).requests() + flushed_requests(
                    old(self)@.sender.buffered,
                    old(self)@.component_id,
                    old(transport).next_request_id(),
                ),
                transport.next_request_id() == old(transport).next_request_id() + old(
                    self,
                )@.sender.buffered.len(),
            decreases self.ledgers@.len(),
        {
            let ghost ledgers_pre = self@.ledgers;
            let ghost resp_pre = transport.responses();
            let ghost kept_pre = kept@.map_values(|p: (Entity, CommandRequestsComp)| (p.0, p.1@));
            let (entity, mut ledger) = self.ledgers.remove(0);
            proof {
                assert(ledgers_pre.drop_first() =~= self@.ledgers);
            }
            let component_id = self.component_id;
            ledger.flush_responses(transport, component_id);
            proof {
                assert(resp_pre + flushed_ledger_responses(ledgers_pre, cid) =~= (
                transport.responses() + flushed_ledger_responses(self@.ledgers, cid)));
            }
            if ledger.pending_requests().len() > 0 {
                kept.push((entity, ledger));
                proof {
                    assert(pruned_ledgers(ledgers_pre) =~~= seq![
                        (entity, LedgerState { requests: ledgers_pre[0].1.requests, responses: Seq::empty() }),
                    ] + pruned_ledgers(self@.ledgers));
                    assert(kept@.map_values(|p: (Entity, CommandRequestsComp)| (p.0, p.1@))
                        =~~= kept_pre + seq![
                        (entity, LedgerState { requests: ledgers_pre[0].1.requests, responses: Seq::empty() }),
                    ]);
                    assert(pruned_ledgers(ledgers0) =~~= kept@.map_values(
                        |p: (Entity, CommandRequestsComp)| (p.0, p.1@),
                    ) + pruned_ledgers(self@.ledgers));
                }
            } else {
                proof {
                    assert(pruned_ledgers(ledgers_pre) =~~= pruned_ledgers(self@.ledgers));
                }
            }
        }
        self.ledgers = kept;
        proof {
            assert(pruned_ledgers(ledgers0) =~~= self@.ledgers);
            assert(final(transport).responses() =~= old(transport).responses()
                + flushed_ledger_responses(ledgers0, cid));
            assert(final(transport).updates().map_values(|u: SentUpdate| u@)
                =~= upd0 + replicated_update_views(cells0, auth0, ids0, cid));
        }
    }

    /// Read access to `entity`'s replication cell, if it has one.
    pub fn get_cell(&self, entity: Entity) -> (r: Option<&SpatialComponent>)
        ensures
            match r {
                Some(c) => assoc_get(self@.cells, entity) == Some(c@),
                None => assoc_get(self@.cells, entity) is None,
            },
    {
        proof {
            lemma_assoc_index(self@.cells, entity);
        }
        match self.cell_index(entity) {
            Some(i) => Some(&self.cells[i].1),
            None => None,
        }
    }

    /// Read access to `entity`'s command ledger, if it has one.
    pub fn get_ledger(&self, entity: Entity) -> (r: Option<&CommandRequestsComp>)
        ensures
            match r {
                Some(l) => assoc_get(self@.ledgers, entity) == Some(l@),
                None => assoc_get(self@.ledgers, entity) is None,
            },
    {
        proof {
            lemma_assoc_index(self@.ledgers, entity);
        }
        match self.ledger_index(entity) {
            Some(i) => Some(&self.ledgers[i].1),
            None => None,
        }
    }

    /// Apply and accumulate a partial update on `entity`'s cell, as
    /// [`SpatialComponent::send_update`] does. The entity must possess the
    /// component and the update must match this type's shape.
    pub fn send_update(&mut self, entity: Entity, update: ComponentUpdate) -> (r: Result<
        (),
        crate::UsageError,
    >)
        requires
            old(self).wf(),
            assoc_has(old(self)@.cells, entity),
            update.fields@.len() == old(self)@.arity,
        ensures
            final(self).wf(),
            ({
                let c = assoc_get(old(self)@.cells, entity)->0;
                match r {
                    Ok(()) => {
                        &&& !c.dirty
                        &&& final(self)@ == (DispatcherState {
                            cells: assoc_put(
                                old(self)@.cells,
                                entity,
                                (CellState {
                                    value: merged_fields(c.value, update.fields@),
                                    dirty: false,
                                    pending: Some(
                                        match c.pending {
                                            Some(p) => crate::schema::merged_updates(
                                                p,
                                                update.fields@,
                                            ),
                                            None => update.fields@,
                                        },
                                    ),
                                }),
                            ),
                            ..old(self)@
                        })
                    },
                    Err(e) => {
                        &&& e == crate::UsageError::UpdateWhileDirty
                        &&& c.dirty
                        &&& final(self)@ == old(self)@
                    },
                }
            }),
    {
        match self.cell_index(entity) {
            Some(i) => {
                proof {
                    lemma_assoc_index(self@.cells, entity);
                }
                let cell = &mut self.cells[i].1;
                let r = cell.send_update(update);
                proof {
                    if r is Ok {
                        assert(final(self)@.cells =~~= assoc_put(
                            old(self)@.cells,
                            entity,
                            final(self)@.cells[i as int].1,
                        ));
                        assert(final(self)@ =~~= (DispatcherState {
                            cells: final(self)@.cells,
                            ..old(self)@
                        }));
                    } else {
                        assert(final(self)@ =~~= old(self)@);
                    }
                }
                r
            },
            None => {
                proof {
                    lemma_assoc_index(self@.cells, entity);
                }
                vstd::pervasive::unreached()
            },
        }
    }

    /// Write one field of `entity`'s cached value directly, as
    /// [`SpatialComponent::mutate`] does: the entire value is marked for
    /// transmission at the next flush.
    pub fn mutate(&mut self, entity: Entity, field: usize, new_value: FieldValue) -> (r: Result<
        (),
        crate::UsageError,
    >)
        requires
            old(self).wf(),
            assoc_has(old(self)@.cells, entity),
            field < old(self)@.arity,
        ensures
            final(self).wf(),
            ({
                let c = assoc_get(old(self)@.cells, entity)->0;
                match r {
                    Ok(()) => {
                        &&& c.pending is None
                        &&& final(self)@ == (DispatcherState {
                            cells: assoc_put(
                                old(self)@.cells,
                                entity,
                                (CellState {
                                    value: c.value.update(field as int, new_value),
                                    dirty: true,
                                    pending: None,
                                }),
                            ),
                            ..old(self)@
                        })
                    },
                    Err(e) => {
                        &&& e == crate::UsageError::MutateWhileUpdatePending
                        &&& c.pending is Some
                        &&& final(self)@ == old(self)@
                    },
                }
            }),
    {
        match self.cell_index(entity) {
            Some(i) => {
                proof {
                    lemma_assoc_index(self@.cells, entity);
                }
                let cell = &mut self.cells[i].1;
                let r = cell.mutate(field, new_value);
                proof {
                    if r is Ok {
                        assert(final(self)@.cells =~~= assoc_put(
                            old(self)@.cells,
                            entity,
                            final(self)@.cells[i as int].1,
                        ));
                        assert(final(self)@ =~~= (DispatcherState {
                            cells: final(self)@.cells,
                            ..old(self)@
                        }));
                    } else {
                        assert(final(self)@ =~~= old(self)@);
                    }
                }
                r
            },
            None => {
                proof {
                    lemma_assoc_index(self@.cells, entity);
                }
                vstd::pervasive::unreached()
            },
        }
    }

    /// Answer the pending requests of `entity`'s ledger by explicit
    /// decisions, as [`CommandRequestsComp::respond_with`] does.
    pub fn respond_with(
        &mut self,
        entity: Entity,
        decisions: Vec<Option<crate::schema::CommandResponseData>>,
    )
        requires
            old(self).wf(),
            assoc_has(old(self)@.ledgers, entity),
            decisions@.len() == assoc_get(old(self)@.ledgers, entity)->0.requests.len(),
        ensures
            final(self).wf(),
            ({
                let l = assoc_get(old(self)@.ledgers, entity)->0;
                final(self)@ == (DispatcherState {
                    ledgers: assoc_put(
                        old(self)@.ledgers,
                        entity,
                        (LedgerState {
                            requests: crate::commands::kept_requests(l.requests, decisions@),
                            responses: l.responses + crate::commands::produced_responses(
                                l.requests,
                                decisions@,
                            ),
                        }),
                    ),
                    ..old(self)@
                })
            }),
    {
        match self.ledger_index(entity) {
            Some(i) => {
                proof {
                    lemma_assoc_index(self@.ledgers, entity);
                }
                let ledger = &mut self.ledgers[i].1;
                ledger.respond_with(decisions);
                proof {
                    assert(final(self)@.ledgers =~~= assoc_put(
                        old(self)@.ledgers,
                        entity,
                        final(self)@.ledgers[i as int].1,
                    ));
                    assert(final(self)@ =~~= (DispatcherState {
                        ledgers: final(self)@.ledgers,
                        ..old(self)@
                    }));
                }
            },
            None => {
                proof {
                    lemma_assoc_index(self@.ledgers, entity);
                }
                vstd::pervasive::unreached()
            },
        }
    }

    /// Buffer an outbound command request for `entity_id`, as
    /// [`CommandSenderRes::send_command`] does.
    pub fn send_command(
        &mut self,
        entity_id: EntityId,
        request: CommandRequestData,
        callback: crate::commands::Continuation,
    )
        requires
            old(self).wf(),
        ensures
            final(self).wf(),
            final(self)@ == (DispatcherState {
                sender: SenderState {
                    buffered: old(self)@.sender.buffered.push(
                        (crate::commands::BufferedRequest { entity_id, request, callback }),
                    ),
                    ..old(self)@.sender
                },
                ..old(self)@
            }),
    {
        self.sender.send_command(entity_id, request, callback);
        proof {
            assert(final(self)@ =~~= (DispatcherState {
                sender: SenderState {
                    buffered: old(self)@.sender.buffered.push(
                        (crate::commands::BufferedRequest { entity_id, request, callback }),
                    ),
                    ..old(self)@.sender
                },
                ..old(self)@
            }));
        }
    }

    /// Tear down everything kept for a removed entity: its cell, its
    /// authority marker and its ledger. Stored continuations are kept: an
    /// outstanding outbound request stays correlated until its response
    /// arrives.
    pub fn remove_entity(&mut self, entity: Entity)
        requires
            old(self).wf(),
        ensures
            final(self).wf(),
            final(self)@ == spec_remove_entity(old(self)@, entity),
    {
        self.remove_component(entity);
        self.apply_authority_change(entity, false);
        match self.ledger_index(entity) {
            Some(i) => {
                self.ledgers.remove(i);
            },
            None => {},
        }
        proof {
            assert(final(self)@.ledgers =~~= spec_remove_entity(old(self)@, entity).ledgers);
            assert(final(self)@ =~~= spec_remove_entity(old(self)@, entity));
        }
    }
}

/// The position of the dispatcher registered for `component_id`, or -1 if
/// the identifier is unknown.
pub open spec fn reg_index(g: Seq<DispatcherState>, component_id: u32) -> int
    decreases g.len(),
{
    if g.len() == 0 {
        -1
    } else if g[0].component_id == component_id {
        0
    } else if reg_index(g.drop_first(), component_id) == -1 {
        -1
    } else {
        1 + reg_index(g.drop_first(), component_id)
    }
}

/// `reg_index` finds exactly the first dispatcher with the identifier.
pub proof fn lemma_reg_index(g: Seq<DispatcherState>, component_id: u32)
    ensures
        -1 <= reg_index(g, component_id) < g.len(),
        reg_index(g, component_id) >= 0 ==> g[reg_index(g, component_id)].component_id
            == component_id,
        reg_index(g, component_id) >= 0 ==> forall|j: int|
            0 <= j < reg_index(g, component_id) ==> (#[trigger] g[j]).component_id != component_id,
        reg_index(g, component_id) == -1 ==> forall|j: int|
            0 <= j < g.len() ==> (#[trigger] g[j]).component_id != component_id,
    decreases g.len(),
{
    if g.len() > 0 && g[0].component_id != component_id {
        lemma_reg_index(g.drop_first(), component_id);
        if reg_index(g, component_id) >= 0 {
            assert forall|j: int|
                0 <= j < reg_index(g, component_id) implies (#[trigger] g[j]).component_id
                != component_id by {
                if j >= 1 {
                    assert(g[j] == g.drop_first()[j - 1]);
                }
            }
        } else {
            assert forall|j: int|
                0 <= j < g.len() implies (#[trigger] g[j]).component_id != component_id by {
                if j >= 1 {
                    assert(g[j] == g.drop_first()[j - 1]);
                }
            }
        }
    }
}

/// Route a per-dispatcher transition to the dispatcher registered for
/// `component_id`; an unknown identifier changes nothing.
pub open spec fn route(
    g: Seq<DispatcherState>,
    component_id: u32,
    f: spec_fn(DispatcherState) -> DispatcherState,
) -> Seq<DispatcherState> {
    if reg_index(g, component_id) >= 0 {
        g.update(reg_index(g, component_id), f(g[reg_index(g, component_id)]))
    } else {
        g
    }
}

/// The state of a freshly registered component type.
pub open spec fn empty_dispatcher_state(
    component_id: u32,
    arity: usize,
    n_commands: u32,
) -> DispatcherState {
    DispatcherState {
        component_id,
        arity,
        n_commands,
        cells: Seq::empty(),
        authoritative: Seq::empty(),
        ledgers: Seq::empty(),
        sender: SenderState { component_id, callbacks: Seq::empty(), buffered: Seq::empty() },
    }
}

/// How many outbound command requests are buffered over all dispatchers.
pub open spec fn total_buffered(g: Seq<DispatcherState>) -> int
    decreases g.len(),
{
    if g.len() == 0 {
        0
    } else {
        g[0].sender.buffered.len() + total_buffered(g.drop_first())
    }
}

pub proof fn lemma_total_buffered_nonneg(g: Seq<DispatcherState>)
    ensures
        total_buffered(g) >= 0,
    decreases g.len(),
{
    if g.len() > 0 {
        lemma_total_buffered_nonneg(g.drop_first());
    }
}

/// One dispatcher's turn in the outbound flush: its replication, command
/// request and command response traffic appended to the transport, and its
/// own state flushed.
pub open spec fn replicate_step(
    d: DispatcherState,
    ids: Seq<(EntityId, Entity)>,
    t: TransportModel,
) -> (DispatcherState, TransportModel) {
    (
        DispatcherState {
            cells: replicated_cells(d.cells, d.authoritative, ids),
            ledgers: pruned_ledgers(d.ledgers),
            sender: SenderState {
                component_id: d.component_id,
                callbacks: callbacks_after_flush(
                    d.sender.callbacks,
                    d.sender.buffered,
                    t.next_request_id,
                ),
                buffered: Seq::empty(),
            },
            ..d
        },
        TransportModel {
            updates: t.updates + replicated_update_views(
                d.cells,
                d.authoritative,
                ids,
                d.component_id,
            ),
            requests: t.requests + flushed_requests(
                d.sender.buffered,
                d.component_id,
                t.next_request_id,
            ),
            responses: t.responses + flushed_ledger_responses(d.ledgers, d.component_id),
            next_request_id: (t.next_request_id + d.sender.buffered.len()) as u64,
        },
    )
}

/// The outbound flush of the whole registry, one dispatcher after another
/// in registration order.
pub open spec fn replicate_all(
    g: Seq<DispatcherState>,
    ids: Seq<(EntityId, Entity)>,
    t: TransportModel,
) -> (Seq<DispatcherState>, TransportModel)
    decreases g.len(),
{
    if g.len() == 0 {
        (Seq::empty(), t)
    } else {
        let (d1, t1) = replicate_step(g[0], ids, t);
        let (rest, t2) = replicate_all(g.drop_first(), ids, t1);
        (seq![d1] + rest, t2)
    }
}

/// The global table mapping a component-type identifier to its dispatcher.
///
/// Registration happens during setup; afterwards the registry is the single
/// seam through which the dispatch loop and the outbound driver reach every
/// component type. Iteration order is registration order, so replication
/// order is reproducible within a run.
pub struct ComponentRegistry {
    interfaces: Vec<ComponentDispatcher>,
}

impl View for ComponentRegistry {
    type V = Seq<DispatcherState>;

    closed spec fn view(&self) -> Seq<DispatcherState> {
        self.interfaces@.map_values(|d: ComponentDispatcher| d@)
    }
}

impl Default for ComponentRegistry {
    /// A registry with no component types registered.
    fn default() -> (r: Self)
        ensures
            r@ == Seq::<DispatcherState>::empty(),
            r.wf(),
    {
        let r = ComponentRegistry { interfaces: Vec::new() };
        proof {
            assert(r@ =~= Seq::<DispatcherState>::empty());
        }
        r
    }
}

impl ComponentRegistry {
    /// Every dispatcher is well formed and no component identifier is
    /// registered twice.
    pub open spec fn wf(self) -> bool {
        &&& forall|i: int| 0 <= i < self@.len() ==> state_wf(#[trigger] self@[i])
        &&& forall|i: int, j: int|
            0 <= i < j < self@.len() ==> (#[trigger] self@[i]).component_id
                != (#[trigger] self@[j]).component_id
    }

    /// A registry with no component types registered.
    pub fn new() -> (r: ComponentRegistry)
        ensures
            r@ == Seq::<DispatcherState>::empty(),
            r.wf(),
    {
        Default::default()
    }

    /// The position of the dispatcher for `component_id`, if registered.
    fn interface_index(&self, component_id: u32) -> (r: Option<usize>)
        ensures
            match r {
                Some(i) => reg_index(self@, component_id) == i && i < self@.len(),
                None => reg_index(self@, component_id) == -1,
            },
    {
        let n = self.interfaces.len();
        let mut i: usize = 0;
        while i < n
            invariant
                n == self.interfaces@.len(),
                n == self@.len(),
                i <= n,
                forall|j: int| 0 <= j < i ==> (#[trigger] self@[j]).component_id != component_id,
            decreases n - i,
        {
            proof {
                lemma_reg_index(self@, component_id);
                assert(self@[i as int].component_id == self.interfaces@[i as int]@.component_id);
            }
            if self.interfaces[i].component_id() == component_id {
                return Some(i);
            }
            i = i + 1;
        }
        proof {
            lemma_reg_index(self@, component_id);
        }
        None
    }

    /// Install a dispatcher for a component type, keyed by its identifier.
    /// Idempotent: registering an identifier that is already present
    /// changes nothing, so repeated registration is safe.
    pub fn register_component(&mut self, component_id: u32, arity: usize, n_commands: u32)
        requires
            old(self).wf(),
        ensures
            final(self).wf(),
            final(self)@ == (if reg_index(old(self)@, component_id) >= 0 {
                old(self)@
            } else {
                old(self)@.push(empty_dispatcher_state(component_id, arity, n_commands))
            }),
    {
        match self.interface_index(component_id) {
            Some(_) => {},
            None => {
                proof {
                    lemma_reg_index(self@, component_id);
                }
                self.interfaces.push(ComponentDispatcher::new(component_id, arity, n_commands));
                proof {
                    assert(final(self)@ =~~= old(self)@.push(
                        empty_dispatcher_state(component_id, arity, n_commands),
                    ));
                }
            },
        }
    }

    /// The dispatcher registered for `component_id`, or none if the
    /// identifier is unknown: unknown identifiers are ignored by callers.
    pub fn get_interface(&self, component_id: u32) -> (r: Option<&ComponentDispatcher>)
        ensures
            match r {
                Some(d) => reg_index(self@, component_id) >= 0 && d@ == self@[reg_index(
                    self@,
                    component_id,
                )],
                None => reg_index(self@, component_id) == -1,
            },
    {
        match self.interface_index(component_id) {
            Some(i) => Some(&self.interfaces[i]),
            None => None,
        }
    }

    /// How many component types are registered.
    pub fn interface_count(&self) -> (r: usize)
        ensures
            r == self@.len(),
    {
        self.interfaces.len()
    }

    /// Route an inbound add-component event: attach a cell for `entity`,
    /// initialized from the inbound value. Unknown identifiers are ignored;
    /// a malformed value is reported and skipped.
    pub fn add_component(&mut self, component_id: u32, entity: Entity, value: ComponentValue) -> (r:
        Result<(), ProtocolError>)
        requires
            old(self).wf(),
        ensures
            final(self).wf(),
            final(self)@ == route(
                old(self)@,
                component_id,
                |d: DispatcherState| spec_add_component(d, entity, value),
            ),
    {
        match self.interface_index(component_id) {
            Some(i) => {
                proof {
                    assert(state_wf(self@[i as int]));
                }
                let d = &mut self.interfaces[i];
                let r = d.add_component(entity, value);
                proof {
                    assert(final(self)@ =~~= route(
                        old(self)@,
                        component_id,
                        |d: DispatcherState| spec_add_component(d, entity, value),
                    ));
                }
                r
            },
            None => {
                proof {
                    assert(final(self)@ =~~= route(
                        old(self)@,
                        component_id,
                        |d: DispatcherState| spec_add_component(d, entity, value),
                    ));
                }
                Ok(())
            },
        }
    }

    /// Route an inbound remove-component event: detach `entity`'s cell.
    pub fn remove_component(&mut self, component_id: u32, entity: Entity)
        requires
            old(self).wf(),
        ensures
            final(self).wf(),
            final(self)@ == route(
                old(self)@,
                component_id,
                |d: DispatcherState| spec_remove_component(d, entity),
            ),
    {
        match self.interface_index(component_id) {
            Some(i) => {
                proof {
                    assert(state_wf(self@[i as int]));
                }
                let d = &mut self.interfaces[i];
                d.remove_component(entity);
                proof {
                    assert(final(self)@ =~~= route(
                        old(self)@,
                        component_id,
                        |d: DispatcherState| spec_remove_component(d, entity),
                    ));
                }
            },
            None => {
                proof {
                    assert(final(self)@ =~~= route(
                        old(self)@,
                        component_id,
                        |d: DispatcherState| spec_remove_component(d, entity),
                    ));
                }
            },
        }
    }

    /// Route an inbound component-update event: merge the partial update
    /// into `entity`'s cached value.
    pub fn apply_component_update(
        &mut self,
        component_id: u32,
        entity: Entity,
        update: &ComponentUpdate,
    ) -> (r: Result<(), ProtocolError>)
        requires
            old(self).wf(),
        ensures
            final(self).wf(),
            final(self)@ == route(
                old(self)@,
                component_id,
                |d: DispatcherState| spec_apply_component_update(d, entity, *update),
            ),
    {
        match self.interface_index(component_id) {
            Some(i) => {
                proof {
                    assert(state_wf(self@[i as int]));
                }
                let d = &mut self.interfaces[i];
                let r = d.apply_component_update(entity, update);
                proof {
                    assert(final(self)@ =~~= route(
                        old(self)@,
                        component_id,
                        |d: DispatcherState| spec_apply_component_update(d, entity, *update),
                    ));
                }
                r
            },
            None => {
                proof {
                    assert(final(self)@ =~~= route(
                        old(self)@,
                        component_id,
                        |d: DispatcherState| spec_apply_component_update(d, entity, *update),
                    ));
                }
                Ok(())
            },
        }
    }

    /// Route an inbound authority-change event: set the authority marker
    /// for `entity`.
    pub fn apply_authority_change(&mut self, component_id: u32, entity: Entity, authority: bool)
        requires
            old(self).wf(),
        ensures
            final(self).wf(),
            final(self)@ == route(
                old(self)@,
                component_id,
                |d: DispatcherState| spec_apply_authority_change(d, entity, authority),
            ),
    {
        match self.interface_index(component_id) {
            Some(i) => {
                proof {
                    assert(state_wf(self@[i as int]));
                }
                let d = &mut self.interfaces[i];
                d.apply_authority_change(entity, authority);
                proof {
                    assert(final(self)@ =~~= route(
                        old(self)@,
                        component_id,
                        |d: DispatcherState| spec_apply_authority_change(d, entity, authority),
                    ));
                }
            },
            None => {
                proof {
                    assert(final(self)@ =~~= route(
                        old(self)@,
                        component_id,
                        |d: DispatcherState| spec_apply_authority_change(d, entity, authority),
                    ));
                }
            },
        }
    }

    /// Route an inbound command request to `entity`'s ledger of the
    /// addressed component type.
    pub fn on_command_request(
        &mut self,
        component_id: u32,
        entity: Entity,
        request_id: u64,
        request: CommandRequestData,
        caller_worker_id: String,
        caller_attribute_set: Vec<String>,
    ) -> (r: Result<(), ProtocolError>)
        requires
            old(self).wf(),
        ensures
            final(self).wf(),
            final(self)@ == route(
                old(self)@,
                component_id,
                |d: DispatcherState|
                    spec_on_command_request(
                        d,
                        entity,
                        request_id,
                        request,
                        caller_worker_id,
                        caller_attribute_set,
                    ),
            ),
    {
        match self.interface_index(component_id) {
            Some(i) => {
                proof {
                    assert(state_wf(self@[i as int]));
                }
                let d = &mut self.interfaces[i];
                let r = d.on_command_request(
                    entity,
                    request_id,
                    request,
                    caller_worker_id,
                    caller_attribute_set,
                );
                proof {
                    assert(final(self)@ =~~= route(
                        old(self)@,
                        component_id,
                        |d: DispatcherState|
                            spec_on_command_request(
                                d,
                                entity,
                                request_id,
                                request,
                                caller_worker_id,
                                caller_attribute_set,
                            ),
                    ));
                }
                r
            },
            None => {
                proof {
                    assert(final(self)@ =~~= route(
                        old(self)@,
                        component_id,
                        |d: DispatcherState|
                            spec_on_command_request(
                                d,
                                entity,
                                request_id,
                                request,
                                caller_worker_id,
                                caller_attribute_set,
                            ),
                    ));
                }
                Ok(())
            },
        }
    }

    /// The continuation fired by an inbound command response, if the
    /// addressed component type is registered and a continuation is stored
    /// under the event's request identifier.
    pub open spec fn spec_fired(
        g: Seq<DispatcherState>,
        component_id: u32,
        request_id: u64,
        status: CommandStatus,
    ) -> Option<FiredContinuation> {
        if reg_index(g, component_id) >= 0 {
            let d = g[reg_index(g, component_id)];
            match assoc_get(d.sender.callbacks, request_id) {
                Some(k) => Some(
                    FiredContinuation {
                        continuation: k,
                        outcome: spec_outcome_of_status(status, d.n_commands),
                    },
                ),
                None => None,
            }
        } else {
            None
        }
    }

    /// Route an inbound command response: remove and return the stored
    /// continuation with its outcome. An unknown identifier or an unknown
    /// component type is dropped, never fatal.
    pub fn on_command_response(
        &mut self,
        component_id: u32,
        request_id: u64,
        status: CommandStatus,
    ) -> (r: Option<FiredContinuation>)
        requires
            old(self).wf(),
        ensures
            final(self).wf(),
            final(self)@ == route(
                old(self)@,
                component_id,
                |d: DispatcherState| spec_on_command_response(d, request_id),
            ),
            r == Self::spec_fired(old(self)@, component_id, request_id, status),
    {
        match self.interface_index(component_id) {
            Some(i) => {
                proof {
                    assert(state_wf(self@[i as int]));
                }
                let d = &mut self.interfaces[i];
                let r = d.on_command_response(request_id, status);
                proof {
                    assert(final(self)@ =~~= route(
                        old(self)@,
                        component_id,
                        |d: DispatcherState| spec_on_command_response(d, request_id),
                    ));
                }
                r
            },
            None => {
                proof {
                    assert(final(self)@ =~~= route(
                        old(self)@,
                        component_id,
                        |d: DispatcherState| spec_on_command_response(d, request_id),
                    ));
                }
                None
            },
        }
    }

    /// Apply and accumulate a partial update on `entity`'s cell of the
    /// registered type `component_id`, as application logic does between
    /// frames.
    pub fn send_update(
        &mut self,
        component_id: u32,
        entity: Entity,
        update: ComponentUpdate,
    ) -> (r: Result<(), crate::UsageError>)
        requires
            old(self).wf(),
            reg_index(old(self)@, component_id) >= 0,
            assoc_has(old(self)@[reg_index(old(self)@, component_id)].cells, entity),
            update.fields@.len() == old(self)@[reg_index(old(self)@, component_id)].arity,
        ensures
            final(self).wf(),
            ({
                let idx = reg_index(old(self)@, component_id);
                let d = old(self)@[idx];
                let c = assoc_get(d.cells, entity)->0;
                match r {
                    Ok(()) => {
                        &&& !c.dirty
                        &&& final(self)@ == old(self)@.update(
                            idx,
                            (DispatcherState {
                                cells: assoc_put(
                                    d.cells,
                                    entity,
                                    (CellState {
                                        value: merged_fields(c.value, update.fields@),
                                        dirty: false,
                                        pending: Some(
                                            match c.pending {
                                                Some(p) => crate::schema::merged_updates(
                                                    p,
                                                    update.fields@,
                                                ),
                                                None => update.fields@,
                                            },
                                        ),
                                    }),
                                ),
                                ..d
                            }),
                        )
                    },
                    Err(e) => {
                        &&& e == crate::UsageError::UpdateWhileDirty
                        &&& c.dirty
                        &&& final(self)@ == old(self)@
                    },
                }
            }),
    {
        match self.interface_index(component_id) {
            Some(i) => {
                proof {
                    assert(state_wf(self@[i as int]));
                }
                let d = &mut self.interfaces[i];
                let ghost g_pre = old(self)@;
                let r = d.send_update(entity, update);
                proof {
                    assert(final(self)@ =~~= g_pre.update(i as int, final(self)@[i as int]));
                    if r is Err {
                        assert(final(self)@ =~~= g_pre);
                    }
                }
                r
            },
            None => vstd::pervasive::unreached(),
        }
    }

    /// Write one field of `entity`'s cached value of the registered type
    /// `component_id` directly, marking the entire value for transmission.
    pub fn mutate(
        &mut self,
        component_id: u32,
        entity: Entity,
        field: usize,
        new_value: FieldValue,
    ) -> (r: Result<(), crate::UsageError>)
        requires
            old(self).wf(),
            reg_index(old(self)@, component_id) >= 0,
            assoc_has(old(self)@[reg_index(old(self)@, component_id)].cells, entity),
            field < old(self)@[reg_index(old(self)@, component_id)].arity,
        ensures
            final(self).wf(),
            ({
                let idx = reg_index(old(self)@, component_id);
                let d = old(self)@[idx];
                let c = assoc_get(d.cells, entity)->0;
                match r {
                    Ok(()) => {
                        &&& c.pending is None
                        &&& final(self)@ == old(self)@.update(
                            idx,
                            (DispatcherState {
                                cells: assoc_put(
                                    d.cells,
                                    entity,
                                    (CellState {
                                        value: c.value.update(field as int, new_value),
                                        dirty: true,
                                        pending: None,
                                    }),
                                ),
                                ..d
                            }),
                        )
                    },
                    Err(e) => {
                        &&& e == crate::UsageError::MutateWhileUpdatePending
                        &&& c.pending is Some
                        &&& final(self)@ == old(self)@
                    },
                }
            }),
    {
        match self.interface_index(component_id) {
            Some(i) => {
                proof {
                    assert(state_wf(self@[i as int]));
                }
                let d = &mut self.interfaces[i];
                let ghost g_pre = old(self)@;
                let r = d.mutate(entity, field, new_value);
                proof {
                    assert(final(self)@ =~~= g_pre.update(i as int, final(self)@[i as int]));
                    if r is Err {
                        assert(final(self)@ =~~= g_pre);
                    }
                }
                r
            },
            None => vstd::pervasive::unreached(),
        }
    }

    /// Answer the pending requests of `entity`'s ledger of the registered
    /// type `component_id` by explicit decisions.
    pub fn respond_with(
        &mut self,
        component_id: u32,
        entity: Entity,
        decisions: Vec<Option<crate::schema::CommandResponseData>>,
    )
        requires
            old(self).wf(),
            reg_index(old(self)@, component_id) >= 0,
            assoc_has(old(self)@[reg_index(old(self)@, component_id)].ledgers, entity),
            decisions@.len() == assoc_get(
                old(self)@[reg_index(old(self)@, component_id)].ledgers,
                entity,
            )->0.requests.len(),
        ensures
            final(self).wf(),
            ({
                let idx = reg_index(old(self)@, component_id);
                let d = old(self)@[idx];
                let l = assoc_get(d.ledgers, entity)->0;
                final(self)@ == old(self)@.update(
                    idx,
                    (DispatcherState {
                        ledgers: assoc_put(
                            d.ledgers,
                            entity,
                            (LedgerState {
                                requests: crate::commands::kept_requests(l.requests, decisions@),
                                responses: l.responses + crate::commands::produced_responses(
                                    l.requests,
                                    decisions@,
                                ),
                            }),
                        ),
                        ..d
                    }),
                )
            }),
    {
        match self.interface_index(component_id) {
            Some(i) => {
                proof {
                    assert(state_wf(self@[i as int]));
                }
                let d = &mut self.interfaces[i];
                let ghost g_pre = old(self)@;
                d.respond_with(entity, decisions);
                proof {
                    assert(final(self)@ =~~= g_pre.update(i as int, final(self)@[i as int]));
                }
            },
            None => vstd::pervasive::unreached(),
        }
    }

    /// Buffer an outbound command request of the registered type
    /// `component_id` for transmission at the next flush.
    pub fn send_command(
        &mut self,
        component_id: u32,
        entity_id: EntityId,
        request: CommandRequestData,
        callback: crate::commands::Continuation,
    )
        requires
            old(self).wf(),
            reg_index(old(self)@, component_id) >= 0,
        ensures
            final(self).wf(),
            ({
                let idx = reg_index(old(self)@, component_id);
                let d = old(self)@[idx];
                final(self)@ == old(self)@.update(
                    idx,
                    (DispatcherState {
                        sender: SenderState {
                            buffered: d.sender.buffered.push(
                                (crate::commands::BufferedRequest { entity_id, request, callback }),
                            ),
                            ..d.sender
                        },
                        ..d
                    }),
                )
            }),
    {
        match self.interface_index(component_id) {
            Some(i) => {
                proof {
                    assert(state_wf(self@[i as int]));
                }
                let d = &mut self.interfaces[i];
                let ghost g_pre = old(self)@;
                d.send_command(entity_id, request, callback);
                proof {
                    assert(final(self)@ =~~= g_pre.update(i as int, final(self)@[i as int]));
                }
            },
            None => vstd::pervasive::unreached(),
        }
    }

    /// Tear down what every dispatcher keeps for a removed entity.
    pub fn remove_entity(&mut self, entity: Entity)
        requires
            old(self).wf(),
        ensures
            final(self).wf(),
            final(self)@ == old(self)@.map_values(
                |d: DispatcherState| spec_remove_entity(d, entity),
            ),
    {
        let n = self.interfaces.len();
        let mut i: usize = 0;
        while i < n
            invariant
                n == self.interfaces@.len(),
                n == self@.len(),
                i <= n,
                old(self).wf(),
                self@.len() == old(self)@.len(),
                forall|j: int| 0 <= j < i ==> state_wf(#[trigger] self@[j]),
                forall|j: int|
                    0 <= j < self@.len() ==> (#[trigger] self@[j]).component_id == old(
                        self,
                    )@[j].component_id,
                forall|j: int|
                    0 <= j < i ==> self@[j] == spec_remove_entity(
                        (#[trigger] old(self)@[j]),
                        entity,
                    ),
                forall|j: int| i <= j < n ==> self@[j] == old(self)@[j],
            decreases n - i,
        {
            let ghost g_pre = self@;
            proof {
                assert(self@[i as int] == old(self)@[i as int]);
                assert(state_wf(self@[i as int]));
            }
            let d = &mut self.interfaces[i];
            d.remove_entity(entity);
            proof {
                assert(self@ =~= g_pre.update(i as int, self@[i as int]));
                assert forall|j: int| 0 <= j < self@.len() && j != i implies self@[j] == g_pre[j]
                by {
                    assert(self@[j] == g_pre.update(i as int, self@[i as int])[j]);
                }
            }
            i = i + 1;
        }
        proof {
            assert(final(self)@ =~~= old(self)@.map_values(
                |d: DispatcherState| spec_remove_entity(d, entity),
            ));
        }
    }

    /// Whether the outbound flush can assign a fresh transport identifier
    /// to every buffered outbound request. False only when the identifier
    /// space is exhausted, which the host must treat as fatal.
    pub fn can_flush(&self, transport: &Transport) -> (r: bool)
        ensures
            r == (transport.next_request_id() + total_buffered(self@) <= u64::MAX),
    {
        let ghost g0 = self@;
        proof {
            assert(g0.skip(0) =~= g0);
        }
        let n = self.interfaces.len();
        let mut acc: u64 = transport.next_outbound_request_id();
        let mut i: usize = 0;
        while i < n
            invariant
                n == self.interfaces@.len(),
                n == self@.len(),
                g0 == self@,
                i <= n,
                acc <= u64::MAX,
                acc == transport.next_request_id() + total_buffered(g0) - total_buffered(
                    g0.skip(i as int),
                ),
                transport.next_request_id() + total_buffered(g0) - total_buffered(
                    g0.skip(i as int),
                ) <= u64::MAX,
            decreases n - i,
        {
            proof {
                assert(g0.skip(i as int).drop_first() =~= g0.skip(i as int + 1));
                assert(g0.skip(i as int)[0] == g0[i as int]);
                assert(self@[i as int] == self.interfaces@[i as int]@);
                lemma_total_buffered_nonneg(g0.skip(i as int + 1));
            }
            let len = self.interfaces[i].outbound_buffer_len();
            match acc.checked_add(len as u64) {
                Some(next_acc) => {
                    acc = next_acc;
                },
                None => {
                    return false;
                },
            }
            i = i + 1;
        }
        proof {
            assert(g0.skip(n as int) =~= Seq::<DispatcherState>::empty());
        }
        true
    }

    /// Flush all pending outbound state of every registered component type,
    /// in registration order: replication traffic of authoritative
    /// entities, then buffered outbound command requests, then queued
    /// command responses, pruning ledger entries left with nothing in
    /// flight.
    pub fn replicate_all(&mut self, entity_ids: &EntityIds, transport: &mut Transport)
        requires
            old(self).wf(),
            old(transport).next_request_id() + total_buffered(old(self)@) <= u64::MAX,
        ensures
            final(self).wf(),
            final(self)@ == replicate_all(old(self)@, entity_ids@, old(transport).model()).0,
            final(transport).model() == replicate_all(
                old(self)@,
                entity_ids@,
                old(transport).model(),
            ).1,
    {
        let ghost g0 = self@;
        let ghost ids0 = entity_ids@;
        let ghost t0 = old(transport).model();
        let n = self.interfaces.len();
        let mut i: usize = 0;
        proof {
            assert(g0.skip(0) =~= g0);
        }
        while i < n
            invariant
                n == self.interfaces@.len(),
                n == self@.len(),
                i <= n,
                old(self).wf(),
                g0 == old(self)@,
                n == g0.len(),
                ids0 == entity_ids@,
                t0 == old(transport).model(),
                forall|j: int| 0 <= j < i ==> state_wf(#[trigger] self@[j]),
                forall|j: int|
                    0 <= j < i ==> (#[trigger] self@[j]).component_id == g0[j].component_id,
                forall|j: int| i <= j < n ==> self@[j] == g0[j],
                replicate_all(g0, ids0, t0).0 =~~= self@.take(i as int) + replicate_all(
                    g0.skip(i as int),
                    ids0,
                    transport.model(),
                ).0,
                replicate_all(g0, ids0, t0).1 == replicate_all(
                    g0.skip(i as int),
                    ids0,
                    transport.model(),
                ).1,
                transport.next_request_id() + total_buffered(g0.skip(i as int)) <= u64::MAX,
            decreases n - i,
        {
            proof {
                assert(g0.skip(i as int).drop_first() =~= g0.skip(i as int + 1));
                assert(g0.skip(i as int)[0] == g0[i as int]);
                lemma_total_buffered_nonneg(g0.skip(i as int + 1));
            }
            let ghost t_pre = transport.model();
            let ghost g_pre = self@;
            proof {
                assert(self@[i as int] == g0[i as int]);
                assert(state_wf(g0[i as int]));
            }
            let d = &mut self.interfaces[i];
            d.replicate(entity_ids, transport);
            proof {
                assert(self@ =~= g_pre.update(i as int, self@[i as int]));
                assert forall|j: int| 0 <= j < self@.len() && j != i implies self@[j] == g_pre[j]
                by {
                    assert(self@[j] == g_pre.update(i as int, self@[i as int])[j]);
                }
                assert(self@[i as int] == replicate_step(g0[i as int], ids0, t_pre).0);
                assert(transport.model() =~~= replicate_step(g0[i as int], ids0, t_pre).1);
                assert(replicate_all(g0.skip(i as int), ids0, t_pre).0 == seq![
                    replicate_step(g0[i as int], ids0, t_pre).0,
                ] + replicate_all(g0.skip(i as int + 1), ids0, transport.model()).0);
                assert(self@.take(i as int + 1) =~= self@.take(i as int).push(self@[i as int]));
                assert(replicate_all(g0, ids0, t0).0 =~~= self@.take(i as int + 1)
                    + replicate_all(g0.skip(i as int + 1), ids0, transport.model()).0);
            }
            i = i + 1;
        }
        proof {
            assert(g0.skip(n as int) =~= Seq::<DispatcherState>::empty());
            assert(self@.take(n as int) =~= self@);
            assert(final(self)@ =~~= replicate_all(g0, ids0, t0).0);
        }
    }
}

} // verus!
