use orisa::chat::ToClientMessage;
use orisa::package::PackageReference;
use orisa::state::State;
use orisa::types::{GameTime, Id, Message, Timer};
use orisa::value::SerializableValue;
use orisa::world::{sort_by_time, World};

fn timer(at: u64, name: &str, user: Option<Id>) -> Timer {
    Timer { target_time: GameTime(at), original_user: user, message_name: name.to_string(), payload: SerializableValue::String(name.to_string()) }
}

#[test]
fn new_world_has_nothing_to_carry_out() {
    let w = World::new(State::new());
    assert!(w.outbox.is_empty());
    assert!(w.client_messages.is_empty());
    assert!(!w.reload_requested);
    assert_eq!(w.get_state(), &State::new());
}

#[test]
fn messages_queue_in_the_order_sent() {
    let mut w = World::new(State::new());
    for name in ["a", "b", "c"] {
        w.send_message(Message { target: Id(0), immediate_sender: Id(0), original_user: None, name: name.to_string(), payload: SerializableValue::Nil });
    }
    let names: Vec<String> = w.outbox.iter().map(|m| m.name.clone()).collect();
    assert_eq!(names, vec!["a", "b", "c"]);
    w.send_client_message(Id(3), ToClientMessage::log("info", "x".to_string()));
    w.send_client_message(Id(4), ToClientMessage::log("error", "y".to_string()));
    assert_eq!(w.client_messages[0], (Id(3), ToClientMessage::Log { level: "info".to_string(), message: "x".to_string() }));
    assert_eq!(w.client_messages[1].0, Id(4));
    w.reload_code();
    assert!(w.reload_requested);
    assert_eq!(w.get_state(), &State::new());
}

#[test]
fn advancing_delivers_due_timers_as_messages() {
    let mut state = State::new();
    let a = state.create_object(PackageReference::for_room());
    let b = state.create_object(PackageReference::for_room());
    state.set_timer(a, "x".to_string(), timer(5, "x", Some(Id(9)))).unwrap();
    state.set_timer(a, "y".to_string(), timer(6, "y", None)).unwrap();
    state.set_timer(b, "z".to_string(), timer(4, "z", None)).unwrap();
    state.set_timer(b, "w".to_string(), timer(50, "w", None)).unwrap();
    let mut w = World::new(state);
    w.send_message(Message { target: Id(0), immediate_sender: Id(0), original_user: None, name: "earlier".to_string(), payload: SerializableValue::Nil });
    w.advance_time(GameTime(6));
    assert_eq!(w.state.get_current_time(), GameTime(6));
    assert_eq!(
        w.outbox,
        vec![
            Message { target: Id(0), immediate_sender: Id(0), original_user: None, name: "earlier".to_string(), payload: SerializableValue::Nil },
            Message { target: b, immediate_sender: b, original_user: None, name: "z".to_string(), payload: SerializableValue::String("z".to_string()) },
            Message { target: a, immediate_sender: a, original_user: Some(Id(9)), name: "x".to_string(), payload: SerializableValue::String("x".to_string()) },
            Message { target: a, immediate_sender: a, original_user: None, name: "y".to_string(), payload: SerializableValue::String("y".to_string()) },
        ]
    );
    assert_eq!(w.state.get_timer(b, "w"), Ok(Some(timer(50, "w", None))));
    assert_eq!(w.state.get_timer(a, "x"), Ok(None));
}

#[test]
fn advancing_to_the_past_changes_nothing() {
    let mut state = State::new();
    state.set_current_time(GameTime(10));
    state.set_timer(Id(0), "x".to_string(), timer(3, "x", None)).unwrap();
    state.set_timer(Id(0), "y".to_string(), timer(10, "y", None)).unwrap();
    let mut w = World::new(state);
    let before = w.clone();
    w.advance_time(GameTime(10));
    assert_eq!(w, before);
    w.advance_time(GameTime(2));
    assert_eq!(w, before);
    w.advance_time(GameTime(11));
    assert_eq!(w.state.get_current_time(), GameTime(11));
    assert!(w.outbox.is_empty());
}

#[test]
fn timers_are_sorted_by_time_and_ties_keep_their_order() {
    let given = vec![
        (Id(1), timer(30, "a", None)),
        (Id(2), timer(10, "b", None)),
        (Id(3), timer(30, "c", None)),
        (Id(4), timer(20, "d", None)),
        (Id(5), timer(10, "e", None)),
        (Id(6), timer(30, "f", None)),
    ];
    let names: Vec<String> = sort_by_time(given).into_iter().map(|(_, t)| t.message_name).collect();
    assert_eq!(names, vec!["b", "e", "d", "a", "c", "f"]);
    assert_eq!(sort_by_time(vec![]), vec![]);
    let one = vec![(Id(1), timer(5, "x", None))];
    assert_eq!(sort_by_time(vec![(Id(1), timer(5, "x", None))]), one);
}

#[test]
fn timers_of_many_objects_fire_earliest_first() {
    let mut state = State::new();
    let mut ids = vec![];
    for _ in 0..5 {
        ids.push(state.create_object(PackageReference::for_room()));
    }
    let times = [50u64, 10, 40, 20, 30];
    for (id, at) in ids.iter().zip(times.iter()) {
        state.set_timer(*id, "t".to_string(), timer(*at, &format!("at{}", at), None)).unwrap();
    }
    let mut w = World::new(state);
    w.advance_time(GameTime(45));
    let names: Vec<String> = w.outbox.iter().map(|m| m.name.clone()).collect();
    assert_eq!(names, vec!["at10", "at20", "at30", "at40"]);
    let targets: Vec<Id> = w.outbox.iter().map(|m| m.target).collect();
    assert_eq!(targets, vec![ids[1], ids[3], ids[4], ids[2]]);
    w.advance_time(GameTime(50));
    assert_eq!(w.outbox.len(), 5);
    assert_eq!(w.outbox[4].name, "at50");
}
