use mc_sync::state::State;

#[test]
fn new_registry_is_empty() {
    let s = State::default();
    assert!(s.online().is_empty());
    assert_eq!(s.listing(), "Nobody is online.");
}

#[test]
fn inserting_twice_keeps_one_name() {
    let mut s = State::new();
    s.insert_player("Alice");
    s.insert_player("Alice");
    assert_eq!(s.online().len(), 1);
    assert_eq!(s.online()[0], "Alice");
}

#[test]
fn removing_an_absent_name_changes_nothing() {
    let mut s = State::new();
    s.insert_player("Alice");
    s.remove_player("Zed");
    assert_eq!(s.online().clone(), vec!["Alice".to_string()]);
    s.remove_player("Alice");
    assert!(s.online().is_empty());
}

#[test]
fn listing_counts_and_names_each_player_once() {
    let mut s = State::new();
    s.insert_player("Alice");
    s.insert_player("Bob");
    let text = s.listing();
    assert!(text.starts_with("2 online: "));
    assert_eq!(text.matches("Alice").count(), 1);
    assert_eq!(text.matches("Bob").count(), 1);
    assert_eq!(text, "2 online: Alice, Bob");
}

#[test]
fn listing_count_has_several_digits() {
    let mut s = State::new();
    for k in 0..12 {
        s.insert_player(&format!("p{}", k));
    }
    assert!(s.listing().starts_with("12 online: p0, p1, "));
}
