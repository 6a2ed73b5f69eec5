use orisa::package::PackageReference;
use orisa::state::{Error, State};
use orisa::types::{GameTime, Id, Timer};
use orisa::value::SerializableValue;

fn thing() -> PackageReference {
    PackageReference::new("system.thing").unwrap()
}

fn text(s: &str) -> SerializableValue {
    SerializableValue::String(s.to_string())
}

fn timer(at: u64, name: &str) -> Timer {
    Timer {
        target_time: GameTime(at),
        original_user: None,
        message_name: name.to_string(),
        payload: SerializableValue::Nil,
    }
}

#[test]
fn new_world_has_the_entrance_only() {
    let s = State::new();
    assert_eq!(s.object_count(), 1);
    assert_eq!(s.entrance(), Id(0));
    assert_eq!(s.parent(Id(0)), Ok(None));
    assert_eq!(s.kind(Id(0)), Ok(PackageReference::for_room()));
    assert_eq!(s.get_current_time(), GameTime(0));
    assert_eq!(s.get_all_users(), vec![]);
    assert!(s.is_valid(Id(0)));
    assert!(!s.is_valid(Id(1)));
}

#[test]
fn created_objects_get_ids_in_order() {
    let mut s = State::new();
    let mut ids = vec![];
    for _ in 0..20 {
        ids.push(s.create_object(thing()));
    }
    for (i, id) in ids.iter().enumerate() {
        assert_eq!(*id, Id(i + 1));
        assert!(s.is_valid(*id));
        assert_eq!(s.parent(*id), Ok(None));
        assert_eq!(s.kind(*id), Ok(thing()));
    }
    for i in 0..ids.len() {
        for j in (i + 1)..ids.len() {
            assert_ne!(ids[i], ids[j]);
        }
    }
    assert_eq!(s.object_count(), 21);
}

#[test]
fn unknown_ids_are_refused() {
    let mut s = State::new();
    let ghost = Id(5);
    assert_eq!(s.parent(ghost), Err(Error::InvalidObjectId(ghost)));
    assert_eq!(s.kind(ghost), Err(Error::InvalidObjectId(ghost)));
    assert_eq!(s.get_attr(ghost, "a"), Err(Error::InvalidObjectId(ghost)));
    assert_eq!(s.get_state(ghost, "a"), Err(Error::InvalidObjectId(ghost)));
    assert_eq!(s.set_attr(ghost, "a".to_string(), text("x")), Err(Error::InvalidObjectId(ghost)));
    assert_eq!(s.set_state(ghost, "a".to_string(), text("x")), Err(Error::InvalidObjectId(ghost)));
    assert_eq!(s.list_attrs(ghost), Err(Error::InvalidObjectId(ghost)));
    assert_eq!(s.set_timer(ghost, "t".to_string(), timer(1, "m")), Err(Error::InvalidObjectId(ghost)));
    assert_eq!(s.clear_timer(ghost, "t"), Err(Error::InvalidObjectId(ghost)));
    assert_eq!(s.get_timer(ghost, "t"), Err(Error::InvalidObjectId(ghost)));
    assert_eq!(s.room(ghost), Err(Error::InvalidObjectId(ghost)));
    assert_eq!(s.move_object(ghost, None), Err(Error::InvalidObjectId(ghost)));
    assert_eq!(s.move_object(Id(0), Some(ghost)), Err(Error::InvalidObjectId(ghost)));
    assert_eq!(s.move_object(ghost, Some(Id(9))), Err(Error::InvalidObjectId(ghost)));
    assert_eq!(s.children(ghost), vec![]);
    assert_eq!(s, State::new());
}

#[test]
fn children_come_in_order_of_creation() {
    let mut s = State::new();
    let a = s.create_object(thing());
    let b = s.create_object(thing());
    let c = s.create_object(thing());
    assert_eq!(s.move_object(c, Some(Id(0))), Ok(()));
    assert_eq!(s.move_object(a, Some(Id(0))), Ok(()));
    assert_eq!(s.move_object(b, Some(a)), Ok(()));
    assert_eq!(s.children(Id(0)), vec![a, c]);
    assert_eq!(s.children(a), vec![b]);
    assert_eq!(s.children(b), vec![]);
    assert_eq!(s.parent(b), Ok(Some(a)));
    assert_eq!(s.move_object(a, None), Ok(()));
    assert_eq!(s.children(Id(0)), vec![c]);
    assert_eq!(s.parent(a), Ok(None));
}

#[test]
fn move_under_itself_is_refused() {
    let mut s = State::new();
    let a = s.create_object(thing());
    let before = s.clone();
    assert_eq!(s.move_object(a, Some(a)), Err(Error::CyclicHierarchy));
    assert_eq!(s, before);
}

#[test]
fn move_under_a_descendant_is_refused() {
    let mut s = State::new();
    let a = s.create_object(thing());
    let b = s.create_object(thing());
    let c = s.create_object(thing());
    assert_eq!(s.move_object(b, Some(a)), Ok(()));
    assert_eq!(s.move_object(c, Some(b)), Ok(()));
    let before = s.clone();
    assert_eq!(s.move_object(a, Some(c)), Err(Error::CyclicHierarchy));
    assert_eq!(s.move_object(a, Some(b)), Err(Error::CyclicHierarchy));
    assert_eq!(s.move_object(b, Some(c)), Err(Error::CyclicHierarchy));
    assert_eq!(s, before);
    assert_eq!(s.move_object(c, Some(a)), Ok(()));
    assert_eq!(s.move_object(b, Some(c)), Ok(()));
    assert_eq!(s.parent(b), Ok(Some(c)));
    assert_eq!(s.parent(c), Ok(Some(a)));
}

#[test]
fn every_chain_of_parents_ends_after_many_moves() {
    let mut s = State::new();
    let n = 12usize;
    for _ in 0..n {
        s.create_object(thing());
    }
    let mut seed: usize = 7;
    for _ in 0..400 {
        seed = seed.wrapping_mul(1103515245).wrapping_add(12345) % 2147483648;
        let child = Id(seed % (n + 1));
        seed = seed.wrapping_mul(1103515245).wrapping_add(12345) % 2147483648;
        let parent = Id(seed % (n + 1));
        let before = s.clone();
        match s.move_object(child, Some(parent)) {
            Ok(()) => assert_eq!(s.parent(child), Ok(Some(parent))),
            Err(e) => {
                assert_eq!(e, Error::CyclicHierarchy);
                assert_eq!(s, before);
            }
        }
        for start in 0..=n {
            let mut cur = Some(Id(start));
            let mut steps = 0;
            while let Some(c) = cur {
                cur = s.parent(c).unwrap();
                steps += 1;
                assert!(steps <= n + 1, "the chain from #{} goes round", start);
            }
        }
    }
}

#[test]
fn room_is_the_topmost_ancestor() {
    let mut s = State::new();
    let a = s.create_object(thing());
    let b = s.create_object(thing());
    let c = s.create_object(thing());
    s.move_object(a, Some(Id(0))).unwrap();
    s.move_object(b, Some(a)).unwrap();
    assert_eq!(s.room(Id(0)), Ok(Id(0)));
    assert_eq!(s.room(a), Ok(Id(0)));
    assert_eq!(s.room(b), Ok(Id(0)));
    assert_eq!(s.room(c), Ok(c));
    assert_eq!(s.shares_room(a, b), Ok(true));
    assert_eq!(s.shares_room(b, Id(0)), Ok(true));
    assert_eq!(s.shares_room(b, c), Ok(false));
    assert_eq!(s.shares_room(c, c), Ok(true));
    assert_eq!(s.shares_room(Id(9), c), Err(Error::InvalidObjectId(Id(9))));
    assert_eq!(s.shares_room(c, Id(9)), Err(Error::InvalidObjectId(Id(9))));
    assert_eq!(s.shares_room(Id(8), Id(9)), Err(Error::InvalidObjectId(Id(8))));
}

#[test]
fn attributes_are_set_and_read() {
    let mut s = State::new();
    let a = s.create_object(thing());
    assert_eq!(s.get_attr(a, "name"), Ok(None));
    assert_eq!(s.set_attr(a, "name".to_string(), text("lamp")), Ok(None));
    assert_eq!(s.get_attr(a, "name"), Ok(Some(text("lamp"))));
    assert_eq!(s.set_attr(a, "name".to_string(), text("rug")), Ok(Some(text("lamp"))));
    assert_eq!(s.get_attr(a, "name"), Ok(Some(text("rug"))));
    assert_eq!(s.get_attr(Id(0), "name"), Ok(None));
    assert_eq!(s.get_state(a, "name"), Ok(None));
}

#[test]
fn attributes_are_listed_in_the_order_they_were_first_set() {
    let mut s = State::new();
    let a = s.create_object(thing());
    assert_eq!(s.list_attrs(a), Ok(vec![]));
    s.set_attr(a, "b".to_string(), text("1")).unwrap();
    s.set_attr(a, "a".to_string(), text("2")).unwrap();
    s.set_attr(a, "c".to_string(), text("3")).unwrap();
    s.set_attr(a, "a".to_string(), text("4")).unwrap();
    assert_eq!(s.list_attrs(a), Ok(vec!["b".to_string(), "a".to_string(), "c".to_string()]));
    assert_eq!(s.get_attr(a, "a"), Ok(Some(text("4"))));
    assert_eq!(s.get_attr(a, "b"), Ok(Some(text("1"))));
}

#[test]
fn private_storage_is_kept_apart_from_attributes() {
    let mut s = State::new();
    let a = s.create_object(thing());
    let b = s.create_object(thing());
    assert_eq!(s.set_state(a, "k".to_string(), SerializableValue::Integer(1)), Ok(None));
    assert_eq!(s.set_state(a, "k".to_string(), SerializableValue::Integer(2)), Ok(Some(SerializableValue::Integer(1))));
    assert_eq!(s.get_state(a, "k"), Ok(Some(SerializableValue::Integer(2))));
    assert_eq!(s.get_state(b, "k"), Ok(None));
    assert_eq!(s.get_attr(a, "k"), Ok(None));
    assert_eq!(s.get_state(a, "K"), Ok(None));
    assert_eq!(s.list_attrs(a), Ok(vec![]));
}

#[test]
fn user_is_made_once_and_put_in_the_entrance() {
    let mut s = State::new();
    let alice = s.get_or_create_user("alice");
    assert_eq!(alice, Id(1));
    assert_eq!(s.parent(alice), Ok(Some(Id(0))));
    assert_eq!(s.kind(alice), Ok(PackageReference::for_user("alice")));
    assert_eq!(s.get_or_create_user("alice"), alice);
    assert_eq!(s.object_count(), 2);
    let bob = s.get_or_create_user("bob");
    assert_eq!(bob, Id(2));
    assert_eq!(s.username(alice), Some("alice".to_string()));
    assert_eq!(s.username(bob), Some("bob".to_string()));
    assert_eq!(s.username(Id(0)), None);
    assert_eq!(s.username(Id(77)), None);
    assert_eq!(s.user_id("alice"), Some(alice));
    assert_eq!(s.user_id("carol"), None);
    assert_eq!(s.get_all_users(), vec![("alice".to_string(), alice), ("bob".to_string(), bob)]);
    assert_eq!(s.children(Id(0)), vec![alice, bob]);
}

#[test]
fn user_stays_a_user_after_moving() {
    let mut s = State::new();
    let alice = s.get_or_create_user("alice");
    let room = s.create_object(PackageReference::for_room());
    s.move_object(alice, Some(room)).unwrap();
    assert_eq!(s.get_or_create_user("alice"), alice);
    assert_eq!(s.parent(alice), Ok(Some(room)));
}

#[test]
fn live_packages_are_written_and_read() {
    let mut s = State::new();
    let p = PackageReference::new("alice/live.user").unwrap();
    assert_eq!(s.get_live_package_content(&p), None);
    s.set_live_package_content(p.clone(), "return 1".to_string());
    assert_eq!(s.get_live_package_content(&p), Some("return 1".to_string()));
    s.set_live_package_content(p.clone(), "return 2".to_string());
    assert_eq!(s.get_live_package_content(&p), Some("return 2".to_string()));
    let q = PackageReference::new("alice/live.other").unwrap();
    assert_eq!(s.get_live_package_content(&q), None);
}

#[test]
fn packages_that_are_not_live_are_not_written() {
    let mut s = State::new();
    let before = s.clone();
    let system = PackageReference::new("system.main").unwrap();
    s.set_live_package_content(system.clone(), "x".to_string());
    assert_eq!(s, before);
    assert_eq!(s.get_live_package_content(&system), None);
    let other = PackageReference::new("alice/repo.main").unwrap();
    s.set_live_package_content(other.clone(), "x".to_string());
    assert_eq!(s, before);
    assert_eq!(s.get_live_package_content(&other), None);
}

#[test]
fn clock_moves_forward_only() {
    let mut s = State::new();
    s.set_current_time(GameTime(10));
    assert_eq!(s.get_current_time(), GameTime(10));
    s.set_current_time(GameTime(4));
    assert_eq!(s.get_current_time(), GameTime(10));
    s.set_current_time(GameTime(10));
    assert_eq!(s.get_current_time(), GameTime(10));
    s.set_current_time(GameTime(11));
    assert_eq!(s.get_current_time(), GameTime(11));
}

#[test]
fn timer_is_armed_again_under_the_same_name() {
    let mut s = State::new();
    let a = s.create_object(thing());
    s.set_timer(a, "t".to_string(), timer(5, "first")).unwrap();
    s.set_timer(a, "t".to_string(), timer(9, "second")).unwrap();
    assert_eq!(s.get_timer(a, "t"), Ok(Some(timer(9, "second"))));
    assert_eq!(s.extract_ready_timers(GameTime(20)), vec![(a, timer(9, "second"))]);
}

#[test]
fn cleared_timer_never_fires() {
    let mut s = State::new();
    let a = s.create_object(thing());
    s.set_timer(a, "t".to_string(), timer(5, "m")).unwrap();
    s.set_timer(a, "u".to_string(), timer(6, "n")).unwrap();
    assert_eq!(s.clear_timer(a, "t"), Ok(()));
    assert_eq!(s.clear_timer(a, "absent"), Ok(()));
    assert_eq!(s.get_timer(a, "t"), Ok(None));
    assert_eq!(s.extract_ready_timers(GameTime(20)), vec![(a, timer(6, "n"))]);
}

#[test]
fn timers_due_by_the_new_time_are_handed_out_once() {
    let mut s = State::new();
    let a = s.create_object(thing());
    let b = s.create_object(thing());
    s.set_timer(b, "t3".to_string(), timer(30, "third")).unwrap();
    s.set_timer(b, "t1".to_string(), timer(10, "first")).unwrap();
    s.set_timer(a, "t2".to_string(), timer(20, "second")).unwrap();
    let ready = s.extract_ready_timers(GameTime(20));
    assert_eq!(ready, vec![(a, timer(20, "second")), (b, timer(10, "first"))]);
    assert_eq!(s.get_current_time(), GameTime(0));
    assert_eq!(s.extract_ready_timers(GameTime(20)), vec![]);
    assert_eq!(s.get_timer(b, "t3"), Ok(Some(timer(30, "third"))));
    assert_eq!(s.get_timer(b, "t1"), Ok(None));
    assert_eq!(s.get_timer(a, "t2"), Ok(None));
    s.set_current_time(GameTime(20));
    assert_eq!(s.extract_ready_timers(GameTime(29)), vec![]);
    assert_eq!(s.extract_ready_timers(GameTime(30)), vec![(b, timer(30, "third"))]);
    assert_eq!(s.extract_ready_timers(GameTime(1000)), vec![]);
}

#[test]
fn timers_at_or_before_the_clock_are_not_handed_out() {
    let mut s = State::new();
    let a = s.create_object(thing());
    s.set_current_time(GameTime(10));
    s.set_timer(a, "past".to_string(), timer(5, "past")).unwrap();
    s.set_timer(a, "now".to_string(), timer(10, "now")).unwrap();
    s.set_timer(a, "next".to_string(), timer(11, "next")).unwrap();
    assert_eq!(s.extract_ready_timers(GameTime(10)), vec![]);
    assert_eq!(s.extract_ready_timers(GameTime(9)), vec![]);
    assert_eq!(s.extract_ready_timers(GameTime(11)), vec![(a, timer(11, "next"))]);
    assert_eq!(s.get_timer(a, "past"), Ok(Some(timer(5, "past"))));
    assert_eq!(s.get_timer(a, "now"), Ok(Some(timer(10, "now"))));
}

#[test]
fn timers_of_one_object_keep_their_order() {
    let mut s = State::new();
    let a = s.create_object(thing());
    for (name, at) in [("e", 5u64), ("d", 50), ("c", 3), ("b", 40), ("a", 1)] {
        s.set_timer(a, name.to_string(), timer(at, name)).unwrap();
    }
    assert_eq!(
        s.extract_ready_timers(GameTime(10)),
        vec![(a, timer(5, "e")), (a, timer(3, "c")), (a, timer(1, "a"))]
    );
    assert_eq!(s.extract_ready_timers(GameTime(100)), vec![(a, timer(50, "d")), (a, timer(40, "b"))]);
}
