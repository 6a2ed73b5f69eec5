use orisa::actor::{ControlMessage, ExecutorStatus, WorldActor};
use orisa::api::{send_save_package_content, set_delay, ExecutionContext};
use orisa::chat::ToClientMessage;
use orisa::package::PackageReference;
use orisa::state::{Error, State};
use orisa::types::{GameTime, Id, Message};
use orisa::value::SerializableValue;
use orisa::world::World;

fn message_to(target: Id, user: Option<Id>, name: &str, payload: SerializableValue) -> Message {
    Message { target, immediate_sender: target, original_user: user, name: name.to_string(), payload }
}

#[test]
fn command_to_a_user_is_handled_by_the_kind_of_the_user() {
    let mut state = State::new();
    assert_eq!(state.entrance(), Id(0));
    assert_eq!(state.entrance().to_string(), "#0");
    let alice = state.get_or_create_user("alice");
    assert_eq!(alice.to_string(), "#1");
    assert_eq!(state.parent(alice), Ok(Some(Id(0))));
    let world = World::new(state);
    let mut actor = WorldActor::new();
    let payload = SerializableValue::Dict(vec![("message".to_string(), SerializableValue::String("look".to_string()))]);
    let message = message_to(alice, Some(alice), "command", payload);
    let dispatch = actor.execute_message(&world, message.duplicate()).unwrap();
    assert_eq!(dispatch.kind, PackageReference::for_user("alice"));
    assert_eq!(dispatch.kind.to_string(), "alice/live.user");
    assert_eq!(dispatch.slot, 0);
    assert_eq!(dispatch.status, ExecutorStatus::Missing);
    assert_eq!(dispatch.context, ExecutionContext::new(message, false));
    assert!(!dispatch.context.in_query);
    assert_eq!(dispatch.context.get_id(), alice);
}

#[test]
fn message_to_what_is_no_object_is_dropped() {
    let world = World::new(State::new());
    let mut actor = WorldActor::new();
    let r = actor.execute_message(&world, message_to(Id(5), None, "x", SerializableValue::Nil));
    assert_eq!(r, Err(Error::InvalidObjectId(Id(5))));
    assert_eq!(actor.executor_count(), 0);
    let q = actor.execute_query(&world, message_to(Id(5), None, "x", SerializableValue::Nil));
    assert_eq!(q, Err(Error::InvalidObjectId(Id(5))));
    let next = actor.execute_message(&world, message_to(Id(0), None, "x", SerializableValue::Nil)).unwrap();
    assert_eq!(next.kind, PackageReference::for_room());
}

#[test]
fn each_kind_has_one_interpreter() {
    let mut state = State::new();
    let alice = state.get_or_create_user("alice");
    let bob = state.get_or_create_user("bob");
    let hall = state.create_object(PackageReference::for_room());
    let world = World::new(state);
    let mut actor = WorldActor::new();
    let slots: Vec<usize> = [Id(0), alice, hall, bob, alice, Id(0)]
        .iter()
        .map(|id| actor.execute_message(&world, message_to(*id, None, "x", SerializableValue::Nil)).unwrap().slot)
        .collect();
    assert_eq!(slots, vec![0, 1, 0, 2, 1, 0]);
    assert_eq!(actor.executor_count(), 3);
}

#[test]
fn recorded_status_is_handed_to_the_next_turn() {
    let world = World::new(State::new());
    let mut actor = WorldActor::new();
    let room = PackageReference::for_room();
    assert_eq!(actor.executor(&room), (0, ExecutorStatus::Missing));
    actor.record(&room, ExecutorStatus::Created);
    assert_eq!(actor.executor(&room), (0, ExecutorStatus::Created));
    actor.record(&room, ExecutorStatus::Loaded);
    let d = actor.execute_message(&world, message_to(Id(0), None, "x", SerializableValue::Nil)).unwrap();
    assert_eq!(d.status, ExecutorStatus::Loaded);
    let q = actor.execute_query(&world, message_to(Id(0), None, "x", SerializableValue::Nil)).unwrap();
    assert_eq!(q.status, ExecutorStatus::Loaded);
    assert!(q.context.in_query);
    assert_eq!(actor.executor_count(), 1);
}

#[test]
fn failed_interpreter_fails_every_turn_until_reload() {
    let world = World::new(State::new());
    let mut actor = WorldActor::new();
    let room = PackageReference::for_room();
    actor.record(&room, ExecutorStatus::Failed("no memory".to_string()));
    for _ in 0..3 {
        let d = actor.execute_message(&world, message_to(Id(0), None, "x", SerializableValue::Nil)).unwrap();
        assert_eq!(d.status, ExecutorStatus::Failed("no memory".to_string()));
        assert_eq!(d.status.duplicate(), d.status);
    }
    actor.handle_control(ControlMessage::ReloadCode);
    let d = actor.execute_message(&world, message_to(Id(0), None, "x", SerializableValue::Nil)).unwrap();
    assert_eq!(d.status, ExecutorStatus::Missing);
}

#[test]
fn saving_a_package_reloads_every_kind() {
    let mut state = State::new();
    let alice = state.get_or_create_user("alice");
    let bob = state.get_or_create_user("bob");
    let mut world = World::new(state);
    let mut actor = WorldActor::new();
    for id in [alice, bob, Id(0)] {
        let d = actor.execute_message(&world, message_to(id, None, "x", SerializableValue::Nil)).unwrap();
        actor.record(&d.kind, ExecutorStatus::Loaded);
    }
    assert_eq!(actor.executor_count(), 3);
    let turn = ExecutionContext::new(message_to(alice, Some(alice), "save", SerializableValue::Nil), false);
    assert_eq!(send_save_package_content(&mut world, &turn, "alice/live.user", "return 2".to_string()), Ok(()));
    assert!(world.reload_requested);
    actor.handle_control(ControlMessage::ReloadCode);
    world.reload_requested = false;
    assert_eq!(actor.executor_count(), 0);
    let for_bob = actor.execute_message(&world, message_to(bob, None, "x", SerializableValue::Nil)).unwrap();
    assert_eq!(for_bob.status, ExecutorStatus::Missing);
    assert_eq!(for_bob.kind, PackageReference::for_user("bob"));
    assert_eq!(for_bob.slot, 0);
    let for_alice = actor.execute_message(&world, message_to(alice, None, "x", SerializableValue::Nil)).unwrap();
    assert_eq!(for_alice.status, ExecutorStatus::Missing);
    assert_eq!(for_alice.slot, 1);
    assert_eq!(
        world.state.get_live_package_content(&for_alice.kind),
        Some("return 2".to_string())
    );
    assert_eq!(world.state.get_live_package_content(&for_bob.kind), None);
}

#[test]
fn script_failure_is_told_to_the_user_at_the_origin() {
    let mut world = World::new(State::new());
    let with_user = message_to(Id(0), Some(Id(7)), "x", SerializableValue::Nil);
    WorldActor::report_error(&mut world, &with_user, "boom".to_string());
    assert_eq!(
        world.client_messages,
        vec![(Id(7), ToClientMessage::Log { level: "error".to_string(), message: "boom".to_string() })]
    );
    let without = message_to(Id(0), None, "x", SerializableValue::Nil);
    WorldActor::report_error(&mut world, &without, "boom".to_string());
    assert_eq!(world.client_messages.len(), 1);
}

#[test]
fn clock_follows_the_time_since_the_start() {
    let mut state = State::new();
    let alice = state.get_or_create_user("alice");
    state.set_current_time(GameTime(1000));
    let mut world = World::new(state);
    let mut actor = WorldActor::new();
    assert_eq!(actor.start_game_time(), None);
    actor.started(&world);
    assert_eq!(actor.start_game_time(), Some(GameTime(1000)));
    let turn = ExecutionContext::new(message_to(alice, Some(alice), "x", SerializableValue::Nil), false);
    set_delay(&mut world, &turn, Some("late".to_string()), 10, "late".to_string(), SerializableValue::Integer(2)).unwrap();
    set_delay(&mut world, &turn, Some("soon".to_string()), 3, "soon".to_string(), SerializableValue::Integer(1)).unwrap();
    actor.advance_time(&mut world, 0);
    assert_eq!(world.state.get_current_time(), GameTime(1000));
    assert!(world.outbox.is_empty());
    actor.advance_time(&mut world, 2);
    assert_eq!(world.state.get_current_time(), GameTime(1002));
    assert!(world.outbox.is_empty());
    actor.advance_time(&mut world, 3);
    assert_eq!(world.state.get_current_time(), GameTime(1003));
    assert_eq!(
        world.outbox,
        vec![Message { target: alice, immediate_sender: alice, original_user: Some(alice), name: "soon".to_string(), payload: SerializableValue::Integer(1) }]
    );
    actor.advance_time(&mut world, 3);
    actor.advance_time(&mut world, 1);
    assert_eq!(world.state.get_current_time(), GameTime(1003));
    assert_eq!(world.outbox.len(), 1);
    actor.advance_time(&mut world, 60);
    assert_eq!(world.state.get_current_time(), GameTime(1060));
    assert_eq!(world.outbox.len(), 2);
    assert_eq!(world.outbox[1].name, "late");
    assert_eq!(world.outbox[1].payload, SerializableValue::Integer(2));
}
