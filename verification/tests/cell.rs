use spatialos_specs::UsageError;
use spatialos_specs::SpatialComponent;
use spatialos_specs::entities::EntityId;
use spatialos_specs::schema::{ComponentUpdate, ComponentValue, FieldValue};
use spatialos_specs::transport::Transport;

fn player_value(name: &str, direction: u64) -> ComponentValue {
    ComponentValue {
        fields: vec![FieldValue::Text(name.to_string()), FieldValue::Number(direction)],
    }
}

fn name_only_update(name: &str) -> ComponentUpdate {
    ComponentUpdate { fields: vec![Some(FieldValue::Text(name.to_string())), None] }
}

fn direction_only_update(direction: u64) -> ComponentUpdate {
    ComponentUpdate { fields: vec![None, Some(FieldValue::Number(direction))] }
}

#[test]
fn send_update_merges_into_value_and_pending() {
    let mut cell = SpatialComponent::new(player_value("A", 5));
    cell.send_update(name_only_update("B")).unwrap();
    assert_eq!(*cell.value(), player_value("B", 5));
    assert_eq!(*cell.pending_update().unwrap(), name_only_update("B"));
    assert!(!cell.is_dirty());
}

#[test]
fn send_update_accumulates_last_writer_per_field() {
    // Two updates with no intervening flush: the pending update is their
    // field-wise merge in call order, and the cached value is that same
    // merge applied to the prior value.
    let mut cell = SpatialComponent::new(player_value("A", 5));
    cell.send_update(name_only_update("B")).unwrap();
    cell.send_update(direction_only_update(9)).unwrap();
    assert_eq!(*cell.value(), player_value("B", 9));
    assert_eq!(
        *cell.pending_update().unwrap(),
        ComponentUpdate {
            fields: vec![
                Some(FieldValue::Text("B".to_string())),
                Some(FieldValue::Number(9)),
            ],
        }
    );

    // A later write to an already-touched field wins.
    cell.send_update(name_only_update("C")).unwrap();
    assert_eq!(*cell.value(), player_value("C", 9));
    assert_eq!(
        *cell.pending_update().unwrap(),
        ComponentUpdate {
            fields: vec![
                Some(FieldValue::Text("C".to_string())),
                Some(FieldValue::Number(9)),
            ],
        }
    );
}

#[test]
fn mutate_after_send_update_fails() {
    let mut cell = SpatialComponent::new(player_value("A", 5));
    cell.send_update(name_only_update("B")).unwrap();
    let err = cell.mutate(0, FieldValue::Text("C".to_string())).unwrap_err();
    assert_eq!(err, UsageError::MutateWhileUpdatePending);
    // Nothing changed.
    assert_eq!(*cell.value(), player_value("B", 5));
    assert!(!cell.is_dirty());
}

#[test]
fn send_update_after_mutate_fails() {
    let mut cell = SpatialComponent::new(player_value("A", 5));
    cell.mutate(0, FieldValue::Text("C".to_string())).unwrap();
    let err = cell.send_update(name_only_update("D")).unwrap_err();
    assert_eq!(err, UsageError::UpdateWhileDirty);
    assert_eq!(*cell.value(), player_value("C", 5));
    assert!(cell.is_dirty());
    assert!(cell.pending_update().is_none());
}

#[test]
fn replicate_dirty_cell_sends_full_value_once() {
    let mut cell = SpatialComponent::new(player_value("A", 5));
    cell.mutate(0, FieldValue::Text("C".to_string())).unwrap();
    let mut transport = Transport::new();
    cell.replicate(&mut transport, EntityId::new(10), 1002);
    assert!(!cell.is_dirty());
    assert!(cell.pending_update().is_none());
    assert_eq!(transport.sent_updates().len(), 1);
    let sent = &transport.sent_updates()[0];
    assert_eq!(sent.entity_id, EntityId::new(10));
    assert_eq!(sent.component_id, 1002);
    assert_eq!(
        sent.update,
        ComponentUpdate {
            fields: vec![
                Some(FieldValue::Text("C".to_string())),
                Some(FieldValue::Number(5)),
            ],
        }
    );
}

#[test]
fn replicate_pending_update_sends_it_verbatim() {
    let mut cell = SpatialComponent::new(player_value("A", 5));
    cell.send_update(name_only_update("B")).unwrap();
    let mut transport = Transport::new();
    cell.replicate(&mut transport, EntityId::new(10), 1002);
    assert!(!cell.is_dirty());
    assert!(cell.pending_update().is_none());
    assert_eq!(transport.sent_updates().len(), 1);
    assert_eq!(transport.sent_updates()[0].update, name_only_update("B"));
    // The cached value survives the flush.
    assert_eq!(*cell.value(), player_value("B", 5));
}

#[test]
fn replicate_clean_cell_sends_nothing() {
    let mut cell = SpatialComponent::new(player_value("A", 5));
    let mut transport = Transport::new();
    cell.replicate(&mut transport, EntityId::new(10), 1002);
    assert_eq!(transport.sent_updates().len(), 0);
}

#[test]
fn apply_remote_update_ignores_dirty_state() {
    // A remote update merges into the cached value without touching the
    // local dirty/pending tracking.
    let mut cell = SpatialComponent::new(player_value("A", 5));
    cell.send_update(direction_only_update(9)).unwrap();
    cell.apply_update_to_value(&name_only_update("Z"));
    assert_eq!(*cell.value(), player_value("Z", 9));
    assert_eq!(*cell.pending_update().unwrap(), direction_only_update(9));
}
