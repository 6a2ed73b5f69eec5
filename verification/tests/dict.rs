use orisa::dict::Dict;

#[test]
fn empty_dictionary() {
    let d: Dict<u8> = Dict::new();
    assert_eq!(d.len(), 0);
    assert_eq!(d.get("a"), None);
    assert_eq!(d.find("a"), None);
}

#[test]
fn insert_replaces_in_place_and_appends_new_keys() {
    let mut d: Dict<u8> = Dict::new();
    assert_eq!(d.insert("b".to_string(), 1), None);
    assert_eq!(d.insert("a".to_string(), 2), None);
    assert_eq!(d.insert("b".to_string(), 3), Some(1));
    assert_eq!(d.len(), 2);
    assert_eq!(d.key_at(0), "b");
    assert_eq!(d.value_at(0), &3);
    assert_eq!(d.key_at(1), "a");
    assert_eq!(d.value_at(1), &2);
    assert_eq!(d.get("a"), Some(&2));
    assert_eq!(d.get("b"), Some(&3));
    assert_eq!(d.get("c"), None);
    assert_eq!(d.find("a"), Some(1));
}

#[test]
fn remove_keeps_the_order_of_the_rest() {
    let mut d: Dict<u8> = Dict::new();
    for (i, k) in ["x", "y", "z", "w"].iter().enumerate() {
        d.insert(k.to_string(), i as u8);
    }
    assert_eq!(d.remove("y"), Some(1));
    assert_eq!(d.remove("y"), None);
    assert_eq!(d.remove("nope"), None);
    assert_eq!(d.len(), 3);
    assert_eq!((d.key_at(0), d.key_at(1), d.key_at(2)), ("x", "z", "w"));
    assert_eq!(d.remove_at(0), ("x".to_string(), 0));
    assert_eq!((d.key_at(0), d.key_at(1)), ("z", "w"));
    assert_eq!(d.get("w"), Some(&3));
    assert_eq!(d.insert("y".to_string(), 9), None);
    assert_eq!(d.key_at(2), "y");
}
