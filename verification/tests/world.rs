use spatialos_specs::commands::{
    CommandOutcome, CommandStatus, Continuation,
};
use spatialos_specs::component_registry::ComponentRegistry;
use spatialos_specs::entities::EntityId;
use spatialos_specs::schema::{
    CommandRequestData, CommandResponseData, ComponentUpdate, ComponentValue, FieldValue,
};
use spatialos_specs::spatial_reader::{SpatialReader, WorkerOp};
use spatialos_specs::spatial_writer::SpatialWriterSystem;
use spatialos_specs::transport::Transport;

const PLAYER: u32 = 1002;
const PLAYER_CREATOR: u32 = 1003;

fn world_value(name: &str, direction: u64) -> ComponentValue {
    ComponentValue {
        fields: vec![FieldValue::Text(name.to_string()), FieldValue::Number(direction)],
    }
}

fn world_name_update(name: &str) -> ComponentUpdate {
    ComponentUpdate { fields: vec![Some(FieldValue::Text(name.to_string())), None] }
}

fn world_request(n: u64) -> CommandRequestData {
    CommandRequestData {
        command_index: 0,
        payload: ComponentValue { fields: vec![FieldValue::Number(n)] },
    }
}

fn world_response(n: u64) -> CommandResponseData {
    CommandResponseData {
        command_index: 0,
        payload: ComponentValue { fields: vec![FieldValue::Number(n)] },
    }
}

fn setup_world() -> (ComponentRegistry, SpatialReader) {
    let mut registry = ComponentRegistry::new();
    registry.register_component(PLAYER, 2, 0);
    registry.register_component(PLAYER_CREATOR, 1, 1);
    // Registration is idempotent: a second registration changes nothing.
    registry.register_component(PLAYER, 2, 0);
    assert_eq!(registry.interface_count(), 2);
    (registry, SpatialReader::new())
}

#[test]
fn inbound_partial_update_touches_only_present_fields() {
    // Entity E is added, the component with identifier 1002 is attached
    // with name "A"; an inbound partial update sets only the name to "B":
    // afterwards the name is "B" and the other field is unchanged.
    let (mut registry, mut reader) = setup_world();
    let e = EntityId::new(10);
    let fired = reader.process(&mut registry, vec![
        WorkerOp::AddEntity { entity_id: e },
        WorkerOp::AddComponent { entity_id: e, component_id: PLAYER, data: world_value("A", 5) },
        WorkerOp::ComponentUpdate {
            entity_id: e,
            component_id: PLAYER,
            update: world_name_update("B"),
        },
    ]);
    assert!(fired.is_empty());
    let local = reader.entity_ids().get_local(e).unwrap();
    let dispatcher = registry.get_interface(PLAYER).unwrap();
    let cell = dispatcher.get_cell(local).unwrap();
    assert_eq!(*cell.value(), world_value("B", 5));
    // The remote update did not mark the cell for outbound replication.
    assert!(!cell.is_dirty());
    assert!(cell.pending_update().is_none());
}

#[test]
fn mutation_replicates_full_value_exactly_once() {
    // Application logic mutates the name to "C": the next outbound flush
    // transmits the full value exactly once, and a further flush with no
    // new mutation transmits nothing.
    let (mut registry, mut reader) = setup_world();
    let e = EntityId::new(10);
    reader.process(&mut registry, vec![
        WorkerOp::AddEntity { entity_id: e },
        WorkerOp::AddComponent { entity_id: e, component_id: PLAYER, data: world_value("A", 5) },
        WorkerOp::AuthorityChange { entity_id: e, component_id: PLAYER, authority: true },
    ]);
    let local = reader.entity_ids().get_local(e).unwrap();
    registry.mutate(PLAYER, local, 0, FieldValue::Text("C".to_string())).unwrap();

    let mut transport = Transport::new();
    let writer = SpatialWriterSystem;
    writer.run(&mut registry, reader.entity_ids(), &mut transport);
    assert_eq!(transport.sent_updates().len(), 1);
    let sent = &transport.sent_updates()[0];
    assert_eq!(sent.entity_id, e);
    assert_eq!(sent.component_id, PLAYER);
    assert_eq!(
        sent.update,
        ComponentUpdate {
            fields: vec![
                Some(FieldValue::Text("C".to_string())),
                Some(FieldValue::Number(5)),
            ],
        }
    );

    writer.run(&mut registry, reader.entity_ids(), &mut transport);
    assert_eq!(transport.sent_updates().len(), 1);
}

#[test]
fn entity_without_authority_is_not_replicated() {
    let (mut registry, mut reader) = setup_world();
    let e = EntityId::new(10);
    reader.process(&mut registry, vec![
        WorkerOp::AddEntity { entity_id: e },
        WorkerOp::AddComponent { entity_id: e, component_id: PLAYER, data: world_value("A", 5) },
    ]);
    let local = reader.entity_ids().get_local(e).unwrap();
    registry.mutate(PLAYER, local, 0, FieldValue::Text("C".to_string())).unwrap();

    let mut transport = Transport::new();
    let writer = SpatialWriterSystem;
    writer.run(&mut registry, reader.entity_ids(), &mut transport);
    assert_eq!(transport.sent_updates().len(), 0);
    // The cell stays dirty until authority is granted.
    let dispatcher = registry.get_interface(PLAYER).unwrap();
    assert!(dispatcher.get_cell(local).unwrap().is_dirty());
}

#[test]
fn inbound_command_request_answered_across_frames() {
    // An inbound command request with identifier 7 arrives; a first respond
    // answers nothing, so the entry stays pending; a second respond answers
    // it, moving it to the response queue.
    let (mut registry, mut reader) = setup_world();
    let e = EntityId::new(10);
    reader.process(&mut registry, vec![
        WorkerOp::AddEntity { entity_id: e },
        WorkerOp::CommandRequest {
            entity_id: e,
            component_id: PLAYER_CREATOR,
            request_id: 7,
            request: world_request(1),
            caller_worker_id: "caller".to_string(),
            caller_attribute_set: vec![],
        },
    ]);
    let local = reader.entity_ids().get_local(e).unwrap();

    registry.respond_with(PLAYER_CREATOR, local, vec![None]);
    {
        let ledger = registry.get_interface(PLAYER_CREATOR).unwrap().get_ledger(local).unwrap();
        assert_eq!(ledger.pending_requests().len(), 1);
        assert_eq!(ledger.pending_requests()[0].request_id, 7);
        assert_eq!(ledger.queued_responses().len(), 0);
    }

    registry.respond_with(PLAYER_CREATOR, local, vec![Some(world_response(2))]);
    {
        let ledger = registry.get_interface(PLAYER_CREATOR).unwrap().get_ledger(local).unwrap();
        assert_eq!(ledger.pending_requests().len(), 0);
        assert_eq!(ledger.queued_responses().len(), 1);
        assert_eq!(ledger.queued_responses()[0].request_id, 7);
    }

    // The flush transmits the response and prunes the now-empty ledger.
    let mut transport = Transport::new();
    let writer = SpatialWriterSystem;
    writer.run(&mut registry, reader.entity_ids(), &mut transport);
    assert_eq!(transport.sent_responses().len(), 1);
    assert_eq!(transport.sent_responses()[0].request_id, 7);
    assert_eq!(transport.sent_responses()[0].component_id, PLAYER_CREATOR);
    assert!(registry.get_interface(PLAYER_CREATOR).unwrap().get_ledger(local).is_none());
}

#[test]
fn outbound_command_round_trip() {
    // send_command buffers a request; the flush assigns outbound
    // identifier 42 and stores the continuation; a success response for 42
    // fires the continuation with the decoded payload; a response for the
    // unknown identifier 43 is dropped without error.
    let (mut registry, mut reader) = setup_world();
    let e = EntityId::new(10);
    reader.process(&mut registry, vec![WorkerOp::AddEntity { entity_id: e }]);

    registry.send_command(
        PLAYER_CREATOR,
        e,
        world_request(1),
        Continuation { tag: 5, state: ComponentValue { fields: vec![] } },
    );
    let mut transport = Transport::with_first_request_id(42);
    let writer = SpatialWriterSystem;
    writer.run(&mut registry, reader.entity_ids(), &mut transport);
    assert_eq!(transport.sent_requests().len(), 1);
    assert_eq!(transport.sent_requests()[0].request_id, 42);
    assert_eq!(transport.sent_requests()[0].entity_id, e);
    assert_eq!(transport.sent_requests()[0].component_id, PLAYER_CREATOR);

    let fired = reader.process(&mut registry, vec![
        WorkerOp::CommandResponse {
            component_id: PLAYER_CREATOR,
            request_id: 42,
            status: CommandStatus::Success(world_response(9)),
        },
        WorkerOp::CommandResponse {
            component_id: PLAYER_CREATOR,
            request_id: 43,
            status: CommandStatus::Success(world_response(9)),
        },
    ]);
    assert_eq!(fired.len(), 1);
    assert_eq!(fired[0].continuation.tag, 5);
    assert_eq!(fired[0].outcome, CommandOutcome::Success(world_response(9)));

    // A duplicate response for 42 finds no continuation.
    let fired_again = reader.process(&mut registry, vec![WorkerOp::CommandResponse {
        component_id: PLAYER_CREATOR,
        request_id: 42,
        status: CommandStatus::Success(world_response(9)),
    }]);
    assert!(fired_again.is_empty());
}

#[test]
fn remove_entity_reclaims_cells_and_ledgers() {
    let (mut registry, mut reader) = setup_world();
    let e = EntityId::new(10);
    reader.process(&mut registry, vec![
        WorkerOp::AddEntity { entity_id: e },
        WorkerOp::AddComponent { entity_id: e, component_id: PLAYER, data: world_value("A", 5) },
    ]);
    let local = reader.entity_ids().get_local(e).unwrap();
    reader.process(&mut registry, vec![WorkerOp::RemoveEntity { entity_id: e }]);
    assert!(reader.entity_ids().get_local(e).is_none());
    assert!(registry.get_interface(PLAYER).unwrap().get_cell(local).is_none());
}

#[test]
fn unknown_component_and_malformed_payload_are_skipped() {
    let (mut registry, mut reader) = setup_world();
    let e = EntityId::new(10);
    // An unknown component identifier, a malformed payload (wrong arity),
    // an update for an entity without a cell, and an unrecognized
    // operation: each is skipped, and later operations still process.
    reader.process(&mut registry, vec![
        WorkerOp::AddEntity { entity_id: e },
        WorkerOp::AddComponent { entity_id: e, component_id: 9999, data: world_value("A", 5) },
        WorkerOp::AddComponent {
            entity_id: e,
            component_id: PLAYER,
            data: ComponentValue { fields: vec![FieldValue::Number(1)] },
        },
        WorkerOp::ComponentUpdate {
            entity_id: e,
            component_id: PLAYER,
            update: world_name_update("B"),
        },
        WorkerOp::Unrecognized,
        WorkerOp::AddComponent { entity_id: e, component_id: PLAYER, data: world_value("A", 5) },
    ]);
    let local = reader.entity_ids().get_local(e).unwrap();
    let cell = registry.get_interface(PLAYER).unwrap().get_cell(local).unwrap();
    assert_eq!(*cell.value(), world_value("A", 5));
    assert!(registry.get_interface(9999).is_none());
}

#[test]
fn command_request_with_unknown_index_is_skipped() {
    let (mut registry, mut reader) = setup_world();
    let e = EntityId::new(10);
    reader.process(&mut registry, vec![
        WorkerOp::AddEntity { entity_id: e },
        WorkerOp::CommandRequest {
            entity_id: e,
            component_id: PLAYER_CREATOR,
            request_id: 7,
            request: CommandRequestData {
                command_index: 3,
                payload: ComponentValue { fields: vec![] },
            },
            caller_worker_id: "caller".to_string(),
            caller_attribute_set: vec![],
        },
    ]);
    let local = reader.entity_ids().get_local(e).unwrap();
    assert!(registry.get_interface(PLAYER_CREATOR).unwrap().get_ledger(local).is_none());
}

#[test]
fn reader_system_drives_inbound_processing() {
    let (mut registry, mut reader) = setup_world();
    let e = EntityId::new(11);
    let system = spatialos_specs::spatial_reader::SpatialReaderSystem;
    let fired = system.run(&mut reader, &mut registry, vec![
        WorkerOp::AddEntity { entity_id: e },
        WorkerOp::AddComponent { entity_id: e, component_id: PLAYER, data: world_value("A", 1) },
    ]);
    assert!(fired.is_empty());
    let local = reader.entity_ids().get_local(e).unwrap();
    assert!(registry.get_interface(PLAYER).unwrap().get_cell(local).is_some());
}

#[test]
fn empty_update_touches_no_field_but_still_flushes() {
    let mut cell = spatialos_specs::SpatialComponent::new(world_value("A", 5));
    cell.send_update(ComponentUpdate::empty(2)).unwrap();
    assert_eq!(*cell.value(), world_value("A", 5));
    let mut transport = Transport::new();
    cell.replicate(&mut transport, EntityId::new(1), PLAYER);
    // The accumulated (empty) pending update is transmitted verbatim.
    assert_eq!(transport.sent_updates().len(), 1);
    assert_eq!(
        transport.sent_updates()[0].update,
        ComponentUpdate { fields: vec![None, None] }
    );
}
