use visit_counter::store::PersistentCounterMap;

#[test]
fn unseen_name_reads_zero() {
    let store = PersistentCounterMap::empty();
    assert_eq!(store.get("never-seen"), 0);
    assert!(store.get_badge("never-seen").is_none());
}

#[test]
fn increments_count_up_by_one() {
    let mut store = PersistentCounterMap::empty();
    let mut expected: u64 = 0;
    for _ in 0..7 {
        expected += 1;
        let got = store.increment("hits");
        assert_eq!(got, expected);
    }
    assert_eq!(store.get("hits"), 7);
}

#[test]
fn set_overwrites_even_downward() {
    let mut store = PersistentCounterMap::empty();
    store.set("n", 10);
    assert_eq!(store.get("n"), 10);
    store.set("n", 3);
    assert_eq!(store.get("n"), 3);
}

#[test]
fn badge_mirrors_counter_after_increment() {
    let mut store = PersistentCounterMap::empty();
    store.increment("page");
    store.increment("page");
    let badge = store.get_badge("page").expect("badge exists after increment");
    assert_eq!(badge.count, store.get("page"));
    assert_eq!(badge.name, "page");
}

#[test]
fn badge_timestamps_move_forward() {
    let mut store = PersistentCounterMap::empty();
    store.increment_at("page", 100);
    let first = store.get_badge("page").unwrap();
    assert_eq!(first.created_at, 100);
    assert_eq!(first.last_accessed, 100);
    store.set_at("page", 41, 250);
    let second = store.get_badge("page").unwrap();
    assert_eq!(second.created_at, 100);
    assert_eq!(second.last_accessed, 250);
    assert!(second.last_accessed >= first.last_accessed);
    assert_eq!(second.count, 41);
    assert_eq!(store.get("page"), 41);
}

#[test]
fn create_badge_without_count_starts_at_zero() {
    let mut store = PersistentCounterMap::empty();
    let badge = store.create_badge("x", None);
    assert_eq!(badge.count, 0);
    assert_eq!(store.get("x"), 0);
    assert_eq!(store.get_badge("x").unwrap().count, 0);
}

#[test]
fn create_badge_with_count_starts_there() {
    let mut store = PersistentCounterMap::empty();
    let badge = store.create_badge("y", Some(5));
    assert_eq!(badge.count, 5);
    assert_eq!(store.get("y"), 5);
    assert_eq!(store.get_badge("y").unwrap().count, 5);
}

#[test]
fn delete_badge_removes_counter_and_badge() {
    let mut store = PersistentCounterMap::empty();
    store.increment("gone");
    assert!(store.delete_badge("gone"));
    assert_eq!(store.get("gone"), 0);
    assert!(store.get_badge("gone").is_none());
    assert!(!store.delete_badge("gone"));
}

#[test]
fn get_all_badges_lists_every_badge() {
    let mut store = PersistentCounterMap::empty();
    store.increment("a");
    store.increment("b");
    store.increment("b");
    let badges = store.get_all_badges();
    assert_eq!(badges.len(), 2);
    let names: Vec<&str> = badges.iter().map(|b| b.name.as_str()).collect();
    assert!(names.contains(&"a"));
    assert!(names.contains(&"b"));
}

#[test]
fn snapshot_round_trip_reproduces_the_store() {
    let mut store = PersistentCounterMap::empty();
    store.increment_at("alpha", 10);
    store.set_at("beta", 999, 20);
    store.create_badge_at("gamma", Some(7), 30);
    let counters_text = store.counters_snapshot();
    let badges_text = store.badges_snapshot();
    let reloaded = PersistentCounterMap::new(Some(&counters_text), Some(&badges_text));
    assert_eq!(reloaded.get("alpha"), 1);
    assert_eq!(reloaded.get("beta"), 999);
    assert_eq!(reloaded.get("gamma"), 7);
    let b = reloaded.get_badge("beta").unwrap();
    assert_eq!(b.count, 999);
    assert_eq!(b.last_accessed, 20);
    assert_eq!(reloaded.get_all_badges().len(), 3);
    assert_eq!(reloaded.counters_snapshot(), counters_text);
    assert_eq!(reloaded.badges_snapshot(), badges_text);
}

#[test]
fn snapshot_round_trip_of_empty_store() {
    let store = PersistentCounterMap::empty();
    assert_eq!(store.counters_snapshot(), "{}");
    assert_eq!(store.badges_snapshot(), "{}");
    let reloaded = PersistentCounterMap::new(Some("{}"), Some("{}"));
    assert_eq!(reloaded.get_all_badges().len(), 0);
}

#[test]
fn snapshot_round_trip_with_awkward_names() {
    let mut store = PersistentCounterMap::empty();
    store.increment_at("with \"quotes\"", 1);
    store.increment_at("back\\slash", 2);
    store.increment_at("line\nbreak", 3);
    let counters_text = store.counters_snapshot();
    let badges_text = store.badges_snapshot();
    let reloaded = PersistentCounterMap::new(Some(&counters_text), Some(&badges_text));
    assert_eq!(reloaded.get("with \"quotes\""), 1);
    assert_eq!(reloaded.get("back\\slash"), 1);
    assert_eq!(reloaded.get("line\nbreak"), 1);
    assert_eq!(reloaded.get_all_badges().len(), 3);
}

#[test]
fn counters_snapshot_text_is_the_documented_layout() {
    let mut store = PersistentCounterMap::empty();
    store.set_at("one", 1, 5);
    store.set_at("two", 22, 6);
    assert_eq!(store.counters_snapshot(), "{\n  \"one\": 1,\n  \"two\": 22\n}");
}

#[test]
fn badges_snapshot_text_is_the_documented_layout() {
    let mut store = PersistentCounterMap::empty();
    store.set_at("one", 1, 5);
    let expected = "{\n  \"one\": {\n    \"name\": \"one\",\n    \"count\": 1,\n    \"created_at\": 5,\n    \"last_accessed\": 5\n  }\n}";
    assert_eq!(store.badges_snapshot(), expected);
}

#[test]
fn unreadable_snapshot_loads_as_empty() {
    let reloaded = PersistentCounterMap::new(Some("not a snapshot"), Some("{\"broken\""));
    assert_eq!(reloaded.get_all_badges().len(), 0);
    assert_eq!(reloaded.get("anything"), 0);
    let missing = PersistentCounterMap::new(None, None);
    assert_eq!(missing.get_all_badges().len(), 0);
}

#[test]
fn counter_snapshot_rejects_a_non_canonical_number() {
    let reloaded = PersistentCounterMap::new(Some("{\n  \"n\": 007\n}"), None);
    assert_eq!(reloaded.get("n"), 0);
    let overflowing = PersistentCounterMap::new(Some("{\n  \"n\": 99999999999999999999\n}"), None);
    assert_eq!(overflowing.get("n"), 0);
}

#[test]
fn badges_path_is_derived_from_the_counter_path() {
    assert_eq!(
        visit_counter::snapshot::badges_path_for("/data/counters.json"),
        "/data/counters_badges.json"
    );
    assert_eq!(visit_counter::snapshot::badges_path_for("plain"), "plain");
    assert_eq!(
        visit_counter::snapshot::badges_path_for("a.json/b.json"),
        "a_badges.json/b_badges.json"
    );
}
