//! Synchronization core for replicating a local entity/component world with a
//! remote authoritative simulation.
//!
//! The crate models the per-frame replication pipeline: inbound operations are
//! consumed by [`SpatialReader`], routed through the [`ComponentRegistry`] to
//! per-entity replication cells ([`SpatialComponent`]), command ledgers and the
//! command correlator, and once per frame [`SpatialWriterSystem`] flushes all
//! pending outbound state into a [`Transport`] buffer.

use vstd::prelude::*;

pub mod assoc;
pub mod commands;
pub mod component_registry;
pub mod entities;
pub mod schema;
pub mod spatial_reader;
pub mod spatial_writer;
pub mod transport;

use crate::entities::EntityId;
use crate::schema::{
    ComponentUpdate, ComponentValue, FieldValue, full_update_of, merged_fields, merged_updates,
};
use crate::transport::Transport;

verus! {

/// Usage errors: the two local mutation paths of a cell are mutually
/// exclusive within one flush cycle.
#[derive(Debug, PartialEq, Eq, Structural, Clone, Copy)]
pub enum UsageError {
    /// `mutate` was called while a pending partial update is active.
    MutateWhileUpdatePending,
    /// `send_update` was called while the cell is fully dirty.
    UpdateWhileDirty,
}

/// The abstract state of a replication cell: the cached value, the
/// fully-dirty flag, and the optional pending partial update.
#[verifier::ext_equal]
pub struct CellState {
    pub value: Seq<FieldValue>,
    pub dirty: bool,
    pub pending: Option<Seq<Option<FieldValue>>>,
}

/// Per-entity, per-component replication state: the cached component value,
/// a fully-dirty flag, and an optional accumulated partial update.
///
/// There are two ways to change a component locally, and a cell accepts only
/// one of them per flush cycle:
///
/// * [`SpatialComponent::mutate`] writes a field directly and marks the
///   whole value for transmission;
/// * [`SpatialComponent::send_update`] applies and accumulates a partial
///   update, so only the touched fields are transmitted.
///
/// Mixing the two before a flush is a usage error, reported immediately.
#[derive(Debug)]
pub struct SpatialComponent {
    value: ComponentValue,
    value_is_dirty: bool,
    current_update: Option<ComponentUpdate>,
}

impl View for SpatialComponent {
    type V = CellState;

    closed spec fn view(&self) -> CellState {
        CellState {
            value: self.value.fields@,
            dirty: self.value_is_dirty,
            pending: match self.current_update {
                Some(u) => Some(u.fields@),
                None => None,
            },
        }
    }
}

impl SpatialComponent {
    /// At most one of the two local mutation paths is active, and a pending
    /// update always matches the value's arity.
    pub open spec fn wf(self) -> bool {
        &&& !(self@.dirty && self@.pending is Some)
        &&& match self@.pending {
            Some(p) => p.len() == self@.value.len(),
            None => true,
        }
    }

    /// Wrap a component value in a clean cell.
    pub fn new(value: ComponentValue) -> (r: SpatialComponent)
        ensures
            r@.value == value.fields@,
            !r@.dirty,
            r@.pending is None,
            r.wf(),
    {
        SpatialComponent { value, value_is_dirty: false, current_update: None }
    }

    /// The cached component value.
    pub fn value(&self) -> (r: &ComponentValue)
        ensures
            r.fields@ == self@.value,
    {
        &self.value
    }

    /// Whether the whole value is marked for transmission.
    pub fn is_dirty(&self) -> (r: bool)
        ensures
            r == self@.dirty,
    {
        self.value_is_dirty
    }

    /// Whether a pending partial update is waiting for the next flush.
    pub fn has_pending_update(&self) -> (r: bool)
        ensures
            r == (self@.pending is Some),
    {
        self.current_update.is_some()
    }

    /// Read access to the accumulated pending partial update, if any.
    pub fn pending_update(&self) -> (r: Option<&ComponentUpdate>)
        ensures
            match r {
                Some(u) => self@.pending == Some(u.fields@),
                None => self@.pending is None,
            },
    {
        match &self.current_update {
            Some(u) => Some(u),
            None => None,
        }
    }

    /// Write one field of the cached value directly, marking the entire
    /// value for transmission at the next flush.
    ///
    /// Fails, changing nothing, if a pending partial update is active: the
    /// two local mutation paths are mutually exclusive per flush cycle.
    pub fn mutate(&mut self, field: usize, new_value: FieldValue) -> (r: Result<(), UsageError>)
        requires
            old(self).wf(),
            field < old(self)@.value.len(),
        ensures
            final(self).wf(),
            match r {
                Ok(()) => {
                    &&& old(self)@.pending is None
                    &&& final(self)@.value == old(self)@.value.update(field as int, new_value)
                    &&& final(self)@.dirty
                    &&& final(self)@.pending is None
                },
                Err(e) => {
                    &&& e == UsageError::MutateWhileUpdatePending
                    &&& old(self)@.pending is Some
                    &&& final(self)@ == old(self)@
                },
            },
    {
        if self.current_update.is_some() {
            return Err(UsageError::MutateWhileUpdatePending);
        }
        self.value_is_dirty = true;
        self.value.fields[field] = new_value;
        Ok(())
    }

    /// Apply the partial update `update` to the cached value immediately and
    /// accumulate it into the pending update slot, so readers always see the
    /// latest local state while only the touched fields are transmitted.
    ///
    /// Fails, changing nothing, if the cell is already fully dirty.
    pub fn send_update(&mut self, update: ComponentUpdate) -> (r: Result<(), UsageError>)
        requires
            old(self).wf(),
            update.fields@.len() == old(self)@.value.len(),
        ensures
            final(self).wf(),
            match r {
                Ok(()) => {
                    &&& !old(self)@.dirty
                    &&& !final(self)@.dirty
                    &&& final(self)@.value == merged_fields(old(self)@.value, update.fields@)
                    &&& final(self)@.pending == Some(
                        match old(self)@.pending {
                            Some(p) => merged_updates(p, update.fields@),
                            None => update.fields@,
                        },
                    )
                },
                Err(e) => {
                    &&& e == UsageError::UpdateWhileDirty
                    &&& old(self)@.dirty
                    &&& final(self)@ == old(self)@
                },
            },
    {
        if self.value_is_dirty {
            return Err(UsageError::UpdateWhileDirty);
        }
        self.value.merge(&update);
        let taken = self.current_update.take();
        match taken {
            Some(mut current) => {
                current.merge(update);
                self.current_update = Some(current);
            },
            None => {
                self.current_update = Some(update);
            },
        }
        Ok(())
    }

    /// Merge an inbound remote update into the cached value. Remote updates
    /// are tracked independently of the local dirty/pending state, which is
    /// left untouched.
    pub fn apply_update_to_value(&mut self, update: &ComponentUpdate)
        requires
            old(self).wf(),
            update.fields@.len() == old(self)@.value.len(),
        ensures
            final(self).wf(),
            final(self)@.value == merged_fields(old(self)@.value, update.fields@),
            final(self)@.dirty == old(self)@.dirty,
            final(self)@.pending == old(self)@.pending,
    {
        self.value.merge(update);
    }

    /// The full cached value as a partial update carrying every field.
    pub fn to_update(&self) -> (r: ComponentUpdate)
        ensures
            r.fields@ == full_update_of(self@.value),
    {
        ComponentUpdate::full_of(&self.value)
    }

    /// Flush this cell's outbound state: if fully dirty, transmit the entire
    /// value as an update; else if a pending update exists, transmit it
    /// verbatim; else transmit nothing. Either flag is cleared, the cached
    /// value is untouched, and at most one transmission occurs.
    pub fn replicate(&mut self, transport: &mut Transport, entity_id: EntityId, component_id: u32)
        requires
            old(self).wf(),
        ensures
            final(self).wf(),
            !final(self)@.dirty,
            final(self)@.pending is None,
            final(self)@.value == old(self)@.value,
            !old(self)@.dirty && old(self)@.pending is None ==> final(transport).updates() == old(
                transport,
            ).updates(),
            old(self)@.dirty || old(self)@.pending is Some ==> {
                &&& final(transport).updates().len() == old(transport).updates().len() + 1
                &&& final(transport).updates().drop_last() == old(transport).updates()
                &&& final(transport).updates().last().entity_id == entity_id
                &&& final(transport).updates().last().component_id == component_id
                &&& final(transport).updates().last().update.fields@ == (if old(self)@.dirty {
                    full_update_of(old(self)@.value)
                } else {
                    old(self)@.pending->0
                })
            },
            final(transport).requests() == old(transport).requests(),
            final(transport).responses() == old(transport).responses(),
            final(transport).next_request_id() == old(transport).next_request_id(),
    {
        if self.value_is_dirty {
            self.value_is_dirty = false;
            let update = self.to_update();
            transport.send_component_update(entity_id, component_id, update);
        } else {
            let taken = self.current_update.take();
            match taken {
                Some(update) => {
                    transport.send_component_update(entity_id, component_id, update);
                },
                None => {},
            }
        }
    }
}

} // verus!
