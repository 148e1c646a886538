use spatialos_specs::UsageError;
use spatialos_specs::component_registry::{ComponentDispatcher, ProtocolError};
use spatialos_specs::entities::Entity;
use spatialos_specs::schema::{ComponentUpdate, ComponentValue, FieldValue};

fn pair_value(a: u64, b: u64) -> ComponentValue {
    ComponentValue { fields: vec![FieldValue::Number(a), FieldValue::Number(b)] }
}

#[test]
fn add_component_rejects_wrong_shape() {
    let mut dispatcher = ComponentDispatcher::new(1002, 2, 0);
    let entity = Entity { index: 0 };
    let err = dispatcher
        .add_component(entity, ComponentValue { fields: vec![FieldValue::Number(1)] })
        .unwrap_err();
    assert_eq!(err, ProtocolError::MalformedPayload);
    assert!(dispatcher.get_cell(entity).is_none());
}

#[test]
fn update_without_cell_is_a_protocol_error() {
    let mut dispatcher = ComponentDispatcher::new(1002, 2, 0);
    let entity = Entity { index: 0 };
    let err = dispatcher
        .apply_component_update(
            entity,
            &ComponentUpdate { fields: vec![Some(FieldValue::Number(1)), None] },
        )
        .unwrap_err();
    assert_eq!(err, ProtocolError::MissingCell);
}

#[test]
fn command_request_with_undefined_index_is_an_error() {
    let mut dispatcher = ComponentDispatcher::new(1002, 2, 1);
    let entity = Entity { index: 0 };
    let err = dispatcher
        .on_command_request(
            entity,
            7,
            spatialos_specs::schema::CommandRequestData {
                command_index: 1,
                payload: ComponentValue { fields: vec![] },
            },
            "caller".to_string(),
            vec![],
        )
        .unwrap_err();
    assert_eq!(err, ProtocolError::UnknownCommandIndex);
    assert!(dispatcher.get_ledger(entity).is_none());
}

#[test]
fn mixing_mutation_paths_fails_through_the_dispatcher() {
    let mut dispatcher = ComponentDispatcher::new(1002, 2, 0);
    let entity = Entity { index: 0 };
    dispatcher.add_component(entity, pair_value(1, 2)).unwrap();
    dispatcher
        .send_update(entity, ComponentUpdate { fields: vec![Some(FieldValue::Number(9)), None] })
        .unwrap();
    let err = dispatcher.mutate(entity, 0, FieldValue::Number(3)).unwrap_err();
    assert_eq!(err, UsageError::MutateWhileUpdatePending);
    assert_eq!(*dispatcher.get_cell(entity).unwrap().value(), pair_value(9, 2));
}

#[test]
fn authority_marker_is_set_only_by_authority_changes() {
    let mut dispatcher = ComponentDispatcher::new(1002, 2, 0);
    let entity = Entity { index: 0 };
    dispatcher.add_component(entity, pair_value(1, 2)).unwrap();
    assert!(!dispatcher.has_authority(entity));
    dispatcher.apply_authority_change(entity, true);
    assert!(dispatcher.has_authority(entity));
    dispatcher.apply_authority_change(entity, false);
    assert!(!dispatcher.has_authority(entity));
}
