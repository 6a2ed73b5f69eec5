use orisa::api::{
    clear_delay, create_object, first_loaded, get_all_users, get_attr, get_children, get_kind,
    get_package_content, get_parent, get_state, get_username, list_attrs, move_object,
    print_override, query, require, send, send_save_package_content, send_user_backlog_html,
    send_user_edit_file, send_user_tell_html, set_attr, set_delay, set_state, ApiError,
    ExecutionContext, PackageContent, PackageSource,
};
use orisa::chat::{ChatRowContent, ToClientMessage};
use orisa::package::{PackageError, PackageReference};
use orisa::state::{Error, State};
use orisa::types::{GameTime, Id, Message, Timer};
use orisa::value::SerializableValue;
use orisa::world::World;

fn text(s: &str) -> SerializableValue {
    SerializableValue::String(s.to_string())
}

fn thing() -> PackageReference {
    PackageReference::new("system.thing").unwrap()
}

fn turn_of(target: Id, user: Option<Id>, is_query: bool) -> ExecutionContext {
    ExecutionContext::new(
        Message {
            target,
            immediate_sender: Id(0),
            original_user: user,
            name: "command".to_string(),
            payload: SerializableValue::Nil,
        },
        is_query,
    )
}

fn world_with_two_users() -> (World, Id, Id) {
    let mut state = State::new();
    let alice = state.get_or_create_user("alice");
    let bob = state.get_or_create_user("bob");
    (World::new(state), alice, bob)
}

#[test]
fn context_knows_who_asks() {
    let c = turn_of(Id(4), Some(Id(2)), true);
    assert_eq!(c.get_id(), Id(4));
    assert_eq!(c.get_original_user(), Some(Id(2)));
    assert!(c.in_query);
    assert_eq!(
        c.message_to(Id(9), "hi".to_string(), text("p")),
        Message {
            target: Id(9),
            immediate_sender: Id(4),
            original_user: Some(Id(2)),
            name: "hi".to_string(),
            payload: text("p"),
        }
    );
}

#[test]
fn state_round_trip_by_the_object_itself() {
    let (mut w, alice, _) = world_with_two_users();
    let c = turn_of(alice, Some(alice), false);
    assert_eq!(get_state(&w, &c, alice, "k"), Ok(SerializableValue::Nil));
    assert_eq!(set_state(&mut w, &c, alice, "k".to_string(), text("v")), Ok(SerializableValue::Nil));
    assert_eq!(get_state(&w, &c, alice, "k"), Ok(text("v")));
    assert_eq!(set_state(&mut w, &c, alice, "k".to_string(), text("w")), Ok(text("v")));
    assert_eq!(get_state(&w, &c, alice, "k"), Ok(text("w")));
}

#[test]
fn state_of_another_object_is_out_of_reach() {
    let (mut w, alice, bob) = world_with_two_users();
    let as_alice = turn_of(alice, Some(alice), false);
    let as_bob = turn_of(bob, Some(bob), false);
    set_state(&mut w, &as_alice, alice, "k".to_string(), text("v")).unwrap();
    let before = w.clone();
    assert_eq!(get_state(&w, &as_bob, alice, "k"), Err(ApiError::GetOtherState));
    assert_eq!(set_state(&mut w, &as_bob, alice, "k".to_string(), text("x")), Err(ApiError::SetOtherState));
    assert_eq!(w, before);
    assert_eq!(get_state(&w, &as_alice, alice, "k"), Ok(text("v")));
}

#[test]
fn attribute_set_by_one_is_read_by_all() {
    let (mut w, alice, bob) = world_with_two_users();
    let as_alice = turn_of(alice, Some(alice), false);
    assert_eq!(set_attr(&mut w, &as_alice, alice, "name".to_string(), text("Alice")), Ok(SerializableValue::Nil));
    assert_eq!(get_attr(&w, alice, "name"), Ok(text("Alice")));
    assert_eq!(get_attr(&w, bob, "name"), Ok(SerializableValue::Nil));
    assert_eq!(list_attrs(&w, alice), Ok(vec![text("name")]));
    assert_eq!(set_attr(&mut w, &as_alice, alice, "name".to_string(), text("A")), Ok(text("Alice")));
    assert_eq!(get_attr(&w, alice, "name"), Ok(text("A")));
}

#[test]
fn attribute_of_another_object_cannot_be_set() {
    let (mut w, alice, bob) = world_with_two_users();
    let as_bob = turn_of(bob, Some(bob), false);
    let before = w.clone();
    assert_eq!(set_attr(&mut w, &as_bob, alice, "name".to_string(), text("x")), Err(ApiError::SetOtherAttr));
    assert_eq!(w, before);
    assert_eq!(get_attr(&w, Id(50), "name"), Err(ApiError::State(Error::InvalidObjectId(Id(50)))));
    assert_eq!(list_attrs(&w, Id(50)), Err(ApiError::State(Error::InvalidObjectId(Id(50)))));
}

#[test]
fn caller_that_is_no_object_gets_the_graph_error() {
    let (mut w, _, _) = world_with_two_users();
    let c = turn_of(Id(50), None, false);
    let before = w.clone();
    assert_eq!(set_state(&mut w, &c, Id(50), "k".to_string(), text("v")), Err(ApiError::State(Error::InvalidObjectId(Id(50)))));
    assert_eq!(get_state(&w, &c, Id(50), "k"), Err(ApiError::State(Error::InvalidObjectId(Id(50)))));
    assert_eq!(set_attr(&mut w, &c, Id(50), "k".to_string(), text("v")), Err(ApiError::State(Error::InvalidObjectId(Id(50)))));
    assert_eq!(w, before);
}

#[test]
fn query_cannot_change_anything() {
    let (mut w, alice, bob) = world_with_two_users();
    let q = turn_of(alice, Some(alice), true);
    let before = w.clone();
    assert_eq!(set_attr(&mut w, &q, alice, "a".to_string(), text("v")), Err(ApiError::MutationDuringQuery));
    assert_eq!(set_state(&mut w, &q, alice, "a".to_string(), text("v")), Err(ApiError::MutationDuringQuery));
    assert_eq!(send(&mut w, &q, bob, "hi".to_string(), SerializableValue::Nil), Err(ApiError::MutationDuringQuery));
    assert_eq!(create_object(&mut w, &q, None, thing(), SerializableValue::Nil), Err(ApiError::MutationDuringQuery));
    assert_eq!(move_object(&mut w, &q, alice, None), Err(ApiError::MutationDuringQuery));
    assert_eq!(send_user_tell_html(&mut w, &q, "x"), Err(ApiError::MutationDuringQuery));
    assert_eq!(send_user_backlog_html(&mut w, &q, &vec!["x".to_string()]), Err(ApiError::MutationDuringQuery));
    assert_eq!(send_user_edit_file(&mut w, &q, "n".to_string(), "c".to_string()), Err(ApiError::MutationDuringQuery));
    assert_eq!(set_delay(&mut w, &q, None, 5, "m".to_string(), SerializableValue::Nil), Err(ApiError::MutationDuringQuery));
    assert_eq!(clear_delay(&mut w, &q, "t".to_string()), Err(ApiError::MutationDuringQuery));
    assert_eq!(send_save_package_content(&mut w, &q, "alice/live.user", "x".to_string()), Err(ApiError::MutationDuringQuery));
    assert_eq!(w, before);
    assert_eq!(get_attr(&w, alice, "a"), Ok(SerializableValue::Nil));
    assert_eq!(get_state(&w, &q, alice, "a"), Ok(SerializableValue::Nil));
}

#[test]
fn query_cannot_ask_for_a_query() {
    let (w, alice, bob) = world_with_two_users();
    let q = turn_of(alice, Some(alice), true);
    assert_eq!(query(&w, &q, bob, "look".to_string(), SerializableValue::Nil), Err(ApiError::NestedQuery));
}

#[test]
fn query_is_planned_for_the_target() {
    let (mut w, alice, bob) = world_with_two_users();
    let lamp = w.state.create_object(thing());
    let rug = w.state.create_object(thing());
    let c = turn_of(alice, Some(bob), false);
    let plan = query(&w, &c, lamp, "describe".to_string(), text("p")).unwrap();
    assert_eq!(
        plan.message,
        Message {
            target: lamp,
            immediate_sender: alice,
            original_user: Some(bob),
            name: "describe".to_string(),
            payload: text("p"),
        }
    );
    assert!(!plan.same_kind);
    let from_lamp = turn_of(lamp, None, false);
    assert!(query(&w, &from_lamp, rug, "x".to_string(), SerializableValue::Nil).unwrap().same_kind);
    assert!(query(&w, &from_lamp, lamp, "x".to_string(), SerializableValue::Nil).unwrap().same_kind);
    assert_eq!(
        query(&w, &c, Id(40), "x".to_string(), SerializableValue::Nil),
        Err(ApiError::State(Error::InvalidObjectId(Id(40))))
    );
    let nobody = turn_of(Id(41), None, true);
    assert_eq!(
        query(&w, &nobody, Id(40), "x".to_string(), SerializableValue::Nil),
        Err(ApiError::State(Error::InvalidObjectId(Id(41))))
    );
}

#[test]
fn send_queues_the_message_behind_the_others() {
    let (mut w, alice, bob) = world_with_two_users();
    let c = turn_of(alice, Some(bob), false);
    assert_eq!(send(&mut w, &c, bob, "first".to_string(), text("1")), Ok(()));
    assert_eq!(send(&mut w, &c, Id(99), "second".to_string(), text("2")), Ok(()));
    assert_eq!(w.outbox.len(), 2);
    assert_eq!(
        w.outbox[0],
        Message { target: bob, immediate_sender: alice, original_user: Some(bob), name: "first".to_string(), payload: text("1") }
    );
    assert_eq!(w.outbox[1].target, Id(99));
    assert_eq!(w.outbox[1].name, "second");
}

#[test]
fn reads_of_the_graph() {
    let (mut w, alice, bob) = world_with_two_users();
    let lamp = w.state.create_object(thing());
    w.state.move_object(lamp, Some(alice)).unwrap();
    assert_eq!(get_children(&w, Id(0)), vec![alice, bob]);
    assert_eq!(get_children(&w, alice), vec![lamp]);
    assert_eq!(get_parent(&w, lamp), Ok(Some(alice)));
    assert_eq!(get_parent(&w, Id(0)), Ok(None));
    assert_eq!(get_parent(&w, Id(30)), Err(ApiError::State(Error::InvalidObjectId(Id(30)))));
    assert_eq!(get_username(&w, alice), Some("alice".to_string()));
    assert_eq!(get_username(&w, lamp), None);
    assert_eq!(get_kind(&w, lamp), Ok(thing()));
    assert_eq!(get_kind(&w, alice), Ok(PackageReference::for_user("alice")));
    assert_eq!(get_kind(&w, Id(30)), Err(ApiError::State(Error::InvalidObjectId(Id(30)))));
    assert_eq!(
        get_all_users(&w),
        SerializableValue::Dict(vec![("alice".to_string(), text("#1")), ("bob".to_string(), text("#2"))])
    );
}

#[test]
fn created_object_is_told_that_it_was_created() {
    let (mut w, alice, bob) = world_with_two_users();
    let c = turn_of(alice, Some(bob), false);
    let id = create_object(&mut w, &c, Some(alice), thing(), text("hello")).unwrap();
    assert_eq!(id, Id(3));
    assert_eq!(w.state.parent(id), Ok(Some(alice)));
    assert_eq!(w.state.kind(id), Ok(thing()));
    assert_eq!(
        w.outbox,
        vec![Message { target: id, immediate_sender: alice, original_user: Some(bob), name: "created".to_string(), payload: text("hello") }]
    );
    let free = create_object(&mut w, &c, None, thing(), SerializableValue::Nil).unwrap();
    assert_eq!(free, Id(4));
    assert_eq!(w.state.parent(free), Ok(None));
    assert_eq!(w.outbox.len(), 2);
}

#[test]
fn object_created_under_nothing_real_stays_but_is_not_told() {
    let (mut w, alice, _) = world_with_two_users();
    let c = turn_of(alice, None, false);
    assert_eq!(
        create_object(&mut w, &c, Some(Id(70)), thing(), SerializableValue::Nil),
        Err(ApiError::State(Error::InvalidObjectId(Id(70))))
    );
    assert_eq!(w.state.object_count(), 4);
    assert_eq!(w.state.parent(Id(3)), Ok(None));
    assert!(w.outbox.is_empty());
    assert_eq!(
        create_object(&mut w, &c, Some(Id(4)), thing(), SerializableValue::Nil),
        Err(ApiError::State(Error::CyclicHierarchy))
    );
    assert_eq!(w.state.object_count(), 5);
}

#[test]
fn object_moves_itself_and_both_sides_are_told() {
    let (mut w, alice, bob) = world_with_two_users();
    let hall = w.state.create_object(PackageReference::for_room());
    let c = turn_of(alice, Some(bob), false);
    assert_eq!(move_object(&mut w, &c, alice, Some(hall)), Ok(()));
    assert_eq!(w.state.parent(alice), Ok(Some(hall)));
    let payload = SerializableValue::Dict(vec![("child".to_string(), text("#1")), ("new_parent".to_string(), text("#3"))]);
    assert_eq!(
        w.outbox,
        vec![
            Message { target: alice, immediate_sender: alice, original_user: Some(bob), name: "parent_changed".to_string(), payload: payload.duplicate() },
            Message { target: hall, immediate_sender: alice, original_user: Some(bob), name: "child_added".to_string(), payload },
        ]
    );
}

#[test]
fn move_to_nowhere_tells_the_child_only() {
    let (mut w, alice, _) = world_with_two_users();
    let c = turn_of(alice, None, false);
    assert_eq!(move_object(&mut w, &c, alice, None), Ok(()));
    assert_eq!(w.state.parent(alice), Ok(None));
    assert_eq!(
        w.outbox,
        vec![Message {
            target: alice,
            immediate_sender: alice,
            original_user: None,
            name: "parent_changed".to_string(),
            payload: SerializableValue::Dict(vec![("child".to_string(), text("#1")), ("new_parent".to_string(), SerializableValue::Nil)]),
        }]
    );
}

#[test]
fn object_moves_what_is_in_its_room_only() {
    let (mut w, alice, bob) = world_with_two_users();
    let lamp = w.state.create_object(thing());
    let far = w.state.create_object(thing());
    w.state.move_object(lamp, Some(bob)).unwrap();
    let c = turn_of(alice, Some(alice), false);
    assert_eq!(move_object(&mut w, &c, lamp, Some(alice)), Ok(()));
    assert_eq!(w.state.parent(lamp), Ok(Some(alice)));
    let before = w.clone();
    assert_eq!(move_object(&mut w, &c, far, Some(alice)), Err(ApiError::MoveNotAllowed));
    assert_eq!(move_object(&mut w, &c, Id(60), Some(alice)), Err(ApiError::State(Error::InvalidObjectId(Id(60)))));
    assert_eq!(move_object(&mut w, &c, alice, Some(lamp)), Err(ApiError::State(Error::CyclicHierarchy)));
    assert_eq!(move_object(&mut w, &c, alice, Some(Id(60))), Err(ApiError::State(Error::InvalidObjectId(Id(60)))));
    assert_eq!(w, before);
    let q = turn_of(alice, Some(alice), true);
    assert_eq!(move_object(&mut w, &q, far, Some(alice)), Err(ApiError::MoveNotAllowed));
    assert_eq!(move_object(&mut w, &q, lamp, None), Err(ApiError::MutationDuringQuery));
    assert_eq!(w, before);
}

#[test]
fn client_messages_go_to_the_object_that_asks() {
    let (mut w, alice, bob) = world_with_two_users();
    let c = turn_of(alice, Some(bob), false);
    assert_eq!(send_user_tell_html(&mut w, &c, "<b>hi</b>"), Ok(()));
    assert_eq!(send_user_backlog_html(&mut w, &c, &vec!["one".to_string(), "two".to_string()]), Ok(()));
    assert_eq!(send_user_edit_file(&mut w, &c, "alice/live.user".to_string(), "return 1".to_string()), Ok(()));
    assert_eq!(w.client_messages.len(), 3);
    assert_eq!(w.client_messages[0].0, alice);
    match &w.client_messages[0].1 {
        ToClientMessage::Tell { content: ChatRowContent::HtmlContent { id, html } } => {
            assert_eq!(html, "<b>hi</b>");
            assert!(!id.is_empty());
        }
        other => panic!("not a row of html: {:?}", other),
    }
    match &w.client_messages[1].1 {
        ToClientMessage::Backlog { history } => {
            assert_eq!(history.len(), 2);
            match (&history[0], &history[1]) {
                (ChatRowContent::HtmlContent { id: a, html: x }, ChatRowContent::HtmlContent { id: b, html: y }) => {
                    assert_eq!(x, "one");
                    assert_eq!(y, "two");
                    assert_ne!(a, b);
                }
                other => panic!("not rows of html: {:?}", other),
            }
        }
        other => panic!("not a backlog: {:?}", other),
    }
    assert_eq!(
        w.client_messages[2],
        (alice, ToClientMessage::EditFile { name: "alice/live.user".to_string(), content: "return 1".to_string() })
    );
    assert!(w.outbox.is_empty());
}

#[test]
fn printed_line_names_the_object_and_the_message() {
    let (mut w, alice, bob) = world_with_two_users();
    let c = turn_of(alice, Some(bob), false);
    let line = print_override(&mut w, &c, &vec!["a".to_string(), "b c".to_string()]);
    assert_eq!(line, "#1 (for command): a b c ");
    assert_eq!(
        w.client_messages,
        vec![(bob, ToClientMessage::Log { level: "info".to_string(), message: "#1 (for command): a b c ".to_string() })]
    );
    let silent = turn_of(alice, None, false);
    assert_eq!(print_override(&mut w, &silent, &vec![]), "#1 (for command): ");
    assert_eq!(w.client_messages.len(), 1);
    let q = turn_of(bob, Some(alice), true);
    assert_eq!(print_override(&mut w, &q, &vec!["x".to_string()]), "#2 (for command): x ");
    assert_eq!(w.client_messages.len(), 2);
    assert_eq!(w.client_messages[1].0, alice);
}

#[test]
fn delay_arms_a_timer_of_the_object_that_asks() {
    let (mut w, alice, bob) = world_with_two_users();
    w.state.set_current_time(GameTime(100));
    let c = turn_of(alice, Some(bob), false);
    assert_eq!(set_delay(&mut w, &c, Some("t".to_string()), 5, "tick".to_string(), text("p")), Ok("t".to_string()));
    assert_eq!(
        w.state.get_timer(alice, "t"),
        Ok(Some(Timer { target_time: GameTime(105), original_user: Some(bob), message_name: "tick".to_string(), payload: text("p") }))
    );
    assert_eq!(set_delay(&mut w, &c, Some("t".to_string()), 1, "tock".to_string(), SerializableValue::Nil), Ok("t".to_string()));
    assert_eq!(
        w.state.get_timer(alice, "t"),
        Ok(Some(Timer { target_time: GameTime(101), original_user: Some(bob), message_name: "tock".to_string(), payload: SerializableValue::Nil }))
    );
    assert_eq!(w.state.get_timer(bob, "t"), Ok(None));
}

#[test]
fn delay_without_a_name_gets_a_new_one() {
    let (mut w, alice, _) = world_with_two_users();
    let c = turn_of(alice, None, false);
    let first = set_delay(&mut w, &c, None, 2, "m".to_string(), SerializableValue::Nil).unwrap();
    let second = set_delay(&mut w, &c, None, 3, "m".to_string(), SerializableValue::Nil).unwrap();
    assert!(!first.is_empty());
    assert_ne!(first, second);
    assert_eq!(w.state.get_timer(alice, &first).unwrap().unwrap().target_time, GameTime(2));
    assert_eq!(w.state.get_timer(alice, &second).unwrap().unwrap().target_time, GameTime(3));
}

#[test]
fn delay_shorter_than_a_second_is_refused() {
    let (mut w, alice, _) = world_with_two_users();
    let c = turn_of(alice, None, false);
    let before = w.clone();
    assert_eq!(set_delay(&mut w, &c, Some("t".to_string()), 0, "m".to_string(), SerializableValue::Nil), Err(ApiError::DelayTooShort));
    assert_eq!(w, before);
    let nobody = turn_of(Id(90), None, false);
    assert_eq!(
        set_delay(&mut w, &nobody, Some("t".to_string()), 1, "m".to_string(), SerializableValue::Nil),
        Err(ApiError::State(Error::InvalidObjectId(Id(90))))
    );
    assert_eq!(w, before);
}

#[test]
fn cleared_delay_is_gone() {
    let (mut w, alice, _) = world_with_two_users();
    let c = turn_of(alice, None, false);
    set_delay(&mut w, &c, Some("t".to_string()), 5, "m".to_string(), SerializableValue::Nil).unwrap();
    assert_eq!(clear_delay(&mut w, &c, "t".to_string()), Ok("t".to_string()));
    assert_eq!(w.state.get_timer(alice, "t"), Ok(None));
    assert_eq!(clear_delay(&mut w, &c, "never".to_string()), Ok("never".to_string()));
    let nobody = turn_of(Id(90), None, false);
    assert_eq!(clear_delay(&mut w, &nobody, "t".to_string()), Err(ApiError::State(Error::InvalidObjectId(Id(90)))));
}

#[test]
fn user_saves_a_live_package_of_their_own() {
    let (mut w, alice, _) = world_with_two_users();
    let c = turn_of(alice, Some(alice), false);
    assert!(!w.reload_requested);
    assert_eq!(send_save_package_content(&mut w, &c, "alice/live.user", "return 1".to_string()), Ok(()));
    assert!(w.reload_requested);
    assert_eq!(
        w.state.get_live_package_content(&PackageReference::for_user("alice")),
        Some("return 1".to_string())
    );
    assert_eq!(
        get_package_content(&w, "alice/live.user"),
        Ok(PackageContent::Live { content: Some("return 1".to_string()) })
    );
}

#[test]
fn nobody_saves_the_package_of_another() {
    let (mut w, alice, bob) = world_with_two_users();
    let lamp = w.state.create_object(thing());
    let before = w.clone();
    let as_bob = turn_of(bob, Some(bob), false);
    assert_eq!(send_save_package_content(&mut w, &as_bob, "alice/live.user", "x".to_string()), Err(ApiError::NotYourPackage));
    let as_alice = turn_of(alice, Some(alice), false);
    assert_eq!(send_save_package_content(&mut w, &as_alice, "alice/repo.user", "x".to_string()), Err(ApiError::NotYourPackage));
    assert_eq!(send_save_package_content(&mut w, &as_alice, "alice.user", "x".to_string()), Err(ApiError::NotYourPackage));
    assert_eq!(send_save_package_content(&mut w, &as_alice, "system.main", "x".to_string()), Err(ApiError::NotYourPackage));
    assert_eq!(send_save_package_content(&mut w, &as_alice, "carol/live.user", "x".to_string()), Err(ApiError::NotYourPackage));
    assert_eq!(
        send_save_package_content(&mut w, &as_alice, "not a package", "x".to_string()),
        Err(ApiError::Package(PackageError::InvalidReference))
    );
    let as_lamp = turn_of(lamp, Some(alice), false);
    assert_eq!(send_save_package_content(&mut w, &as_lamp, "alice/live.user", "x".to_string()), Err(ApiError::NotYourPackage));
    let as_bob_query = turn_of(bob, Some(bob), true);
    assert_eq!(send_save_package_content(&mut w, &as_bob_query, "alice/live.user", "x".to_string()), Err(ApiError::NotYourPackage));
    assert_eq!(w, before);
}

#[test]
fn package_content_is_found_where_the_package_lives() {
    let (mut w, _, _) = world_with_two_users();
    assert_eq!(get_package_content(&w, "alice/live.user"), Ok(PackageContent::Live { content: None }));
    assert_eq!(get_package_content(&w, "system.main"), Ok(PackageContent::SystemFile { package: "main".to_string() }));
    assert_eq!(get_package_content(&w, "alice/repo.main"), Err(ApiError::NotSystemPackage));
    assert_eq!(get_package_content(&w, "alice.main"), Err(ApiError::NotSystemPackage));
    assert_eq!(get_package_content(&w, "???"), Err(ApiError::Package(PackageError::InvalidReference)));
    w.state.set_live_package_content(PackageReference::new("alice/live.util").unwrap(), "return {}".to_string());
    assert_eq!(
        get_package_content(&w, "alice/live.util"),
        Ok(PackageContent::Live { content: Some("return {}".to_string()) })
    );
}

#[test]
fn require_finds_live_and_system_packages() {
    let (mut w, _, _) = world_with_two_users();
    w.state.set_live_package_content(PackageReference::new("alice/live.util").unwrap(), "return {}".to_string());
    assert_eq!(
        require(&w, "alice/live.util"),
        Ok(PackageSource::Live { content: "return {}".to_string(), chunk_name: "alice/live.util".to_string() })
    );
    assert_eq!(
        require(&w, "system.main"),
        Ok(PackageSource::SystemFile { package: "main".to_string(), chunk_name: "system.main".to_string() })
    );
    assert_eq!(require(&w, "alice/live.absent"), Err(ApiError::PackageNotFound));
    assert_eq!(require(&w, "alice/repo.util"), Err(ApiError::UnsupportedRepo));
    assert_eq!(require(&w, "alice.util"), Err(ApiError::UnsupportedRepo));
    assert_eq!(require(&w, "system.a.b"), Err(ApiError::Package(PackageError::InvalidReference)));
    assert_eq!(require(&w, "../etc/passwd"), Err(ApiError::Package(PackageError::InvalidReference)));
}

#[test]
fn module_that_came_first_is_kept() {
    assert_eq!(first_loaded(None, 7), (7, true));
    assert_eq!(first_loaded(Some(3), 7), (3, false));
    assert_eq!(first_loaded(Some("a"), "b"), ("a", false));
}
