use emailsched::events::{EventKey, EventManager, JSEventManager};
use emailsched::extraction::{DateTime, Event};
use emailsched::string_map::StringMap;

fn event_on(year: i32, month: u32, day: u32, fields: &[(&str, &str)]) -> Event {
    let mut text: StringMap<String> = StringMap::new();
    let mut keys = Vec::new();
    for (name, value) in fields {
        text.insert(name.to_string(), value.to_string());
        keys.push(name.to_string());
    }
    Event { date_time: DateTime { day, month, year, hour: 9, minute: 30, second: 0 }, text, keys }
}

fn store_with(events: Vec<Event>) -> JSEventManager {
    let mut store = JSEventManager::new(String::from("events.json"));
    for event in events {
        store.new_event(event);
    }
    store
}

#[test]
fn a_new_store_is_empty() {
    let store = JSEventManager::new(String::from("/tmp/events.json"));
    assert_eq!(store.data_file, "/tmp/events.json");
    assert_eq!(store.title_field, "Title");
    assert_eq!(store.cached_events.len(), 0);
    assert!(store.save_events().is_empty());
}

#[test]
fn the_title_field_can_be_named() {
    let store = JSEventManager::with_title_field(String::from("f"), String::from("Course"));
    assert_eq!(store.title_field, "Course");
    assert_eq!(store.data_file, "f");
    assert_eq!(store.cached_events.len(), 0);
}

#[test]
fn a_key_is_written_as_year_month_day_title() {
    let key = EventKey { year: 2024, month: 1, day: 15, title: String::from("Algebra II") };
    assert_eq!(key.to_string(), "2024-1-15-Algebra II");
    let early = EventKey { year: -44, month: 3, day: 15, title: String::from("Ides - of March") };
    assert_eq!(early.to_string(), "-44-3-15-Ides - of March");
    let empty = EventKey { year: 0, month: 0, day: 0, title: String::new() };
    assert_eq!(empty.to_string(), "0-0-0-");
    let large = EventKey { year: i32::MIN, month: u32::MAX, day: 10, title: String::from("x") };
    assert_eq!(large.to_string(), "-2147483648-4294967295-10-x");
}

#[test]
fn the_key_of_an_event_takes_its_title_field() {
    let event = event_on(2024, 1, 15, &[("Title", "Algebra II"), ("Room", "B12")]);
    let key = EventKey::of(&event, "Title");
    assert_eq!(key, EventKey { year: 2024, month: 1, day: 15, title: String::from("Algebra II") });
    assert_eq!(EventKey::of(&event, "Room").to_string(), "2024-1-15-B12");
}

#[test]
fn an_event_without_title_has_an_empty_title_in_its_key() {
    let event = event_on(2024, 1, 15, &[("Room", "B12")]);
    assert_eq!(EventKey::of(&event, "Title").to_string(), "2024-1-15-");
}

#[test]
fn an_event_is_stored_under_its_key() {
    let event = event_on(2024, 1, 15, &[("Title", "Algebra II")]);
    let store = store_with(vec![event.clone()]);
    assert_eq!(store.cached_events.len(), 1);
    assert_eq!(store.cached_events.get("2024-1-15-Algebra II"), Some(&event));
}

#[test]
fn the_second_of_two_events_with_one_key_stays() {
    let first = event_on(2024, 1, 15, &[("Title", "Algebra II"), ("Room", "B12")]);
    let mut second = event_on(2024, 1, 15, &[("Title", "Algebra II"), ("Note", "moved")]);
    second.date_time.hour = 14;
    let store = store_with(vec![first, second.clone()]);
    assert_eq!(store.cached_events.len(), 1);
    assert_eq!(store.cached_events.get("2024-1-15-Algebra II"), Some(&second));
    assert_eq!(store.save_events(), vec![second]);
}

#[test]
fn putting_the_same_event_twice_changes_nothing() {
    let event = event_on(2024, 1, 15, &[("Title", "Algebra II")]);
    let once = store_with(vec![event.clone()]);
    let twice = store_with(vec![event.clone(), event]);
    assert_eq!(once.cached_events, twice.cached_events);
}

#[test]
fn events_with_different_keys_stay_side_by_side() {
    let a = event_on(2024, 1, 15, &[("Title", "Algebra II")]);
    let b = event_on(2024, 1, 16, &[("Title", "Algebra II")]);
    let c = event_on(2024, 1, 15, &[("Title", "Geometry")]);
    let d = event_on(2023, 1, 15, &[("Title", "Algebra II")]);
    let store = store_with(vec![a.clone(), b.clone(), c.clone(), d.clone()]);
    assert_eq!(store.cached_events.len(), 4);
    assert_eq!(store.cached_events.get("2024-1-16-Algebra II"), Some(&b));
    assert_eq!(store.cached_events.get("2024-1-15-Geometry"), Some(&c));
    assert_eq!(store.cached_events.get("2023-1-15-Algebra II"), Some(&d));
    assert_eq!(store.cached_events.get("2024-1-15-Algebra II"), Some(&a));
}

#[test]
fn the_store_uses_its_own_title_field() {
    let mut store = JSEventManager::with_title_field(String::from("f"), String::from("Course"));
    let a = event_on(2024, 1, 15, &[("Course", "Algebra"), ("Title", "one")]);
    let b = event_on(2024, 1, 15, &[("Course", "Algebra"), ("Title", "two")]);
    store.new_event(a);
    store.new_event(b.clone());
    assert_eq!(store.cached_events.len(), 1);
    assert_eq!(store.cached_events.get("2024-1-15-Algebra"), Some(&b));
}

#[test]
fn saved_events_come_in_the_order_of_their_keys() {
    let a = event_on(2024, 1, 15, &[("Title", "b")]);
    let b = event_on(2024, 1, 15, &[("Title", "a")]);
    let c = event_on(2023, 12, 1, &[("Title", "z")]);
    let store = store_with(vec![a.clone(), b.clone(), c.clone()]);
    assert_eq!(store.save_events(), vec![c, b, a]);
}

#[test]
fn loading_puts_each_event_under_its_key() {
    let a = event_on(2024, 1, 15, &[("Title", "Algebra II")]);
    let b = event_on(2024, 2, 1, &[("Room", "B12")]);
    let mut store = JSEventManager::new(String::from("f"));
    store.load_events(Some(vec![a.clone(), b.clone()]));
    assert_eq!(store.cached_events.len(), 2);
    assert_eq!(store.cached_events.get("2024-1-15-Algebra II"), Some(&a));
    assert_eq!(store.cached_events.get("2024-2-1-"), Some(&b));
    assert_eq!(store.data_file, "f");
}

#[test]
fn loading_keeps_the_last_of_two_events_with_one_key() {
    let first = event_on(2024, 1, 15, &[("Title", "Algebra II"), ("Room", "B12")]);
    let second = event_on(2024, 1, 15, &[("Title", "Algebra II"), ("Room", "C3")]);
    let mut store = JSEventManager::new(String::from("f"));
    store.load_events(Some(vec![first, second.clone()]));
    assert_eq!(store.save_events(), vec![second]);
}

#[test]
fn loading_replaces_what_the_store_held() {
    let old = event_on(2020, 1, 1, &[("Title", "old")]);
    let new = event_on(2024, 1, 15, &[("Title", "new")]);
    let mut store = store_with(vec![old]);
    store.load_events(Some(vec![new.clone()]));
    assert_eq!(store.save_events(), vec![new]);
    store.load_events(Some(vec![]));
    assert!(store.save_events().is_empty());
}

#[test]
fn loading_without_a_file_leaves_the_store() {
    let mut fresh = JSEventManager::new(String::from("f"));
    fresh.load_events(None);
    assert_eq!(fresh.cached_events.len(), 0);
    let event = event_on(2024, 1, 15, &[("Title", "kept")]);
    let mut store = store_with(vec![event.clone()]);
    store.load_events(None);
    assert_eq!(store.save_events(), vec![event]);
}

#[test]
fn saving_and_loading_gives_the_same_store() {
    let store = store_with(vec![
        event_on(2024, 1, 15, &[("Title", "Algebra II"), ("Room", "B12")]),
        event_on(2024, 1, 15, &[("Title", "Geometry")]),
        event_on(-5, 7, 30, &[("Note", "no title")]),
        event_on(2024, 1, 15, &[("Title", "Algebra II"), ("Room", "C3")]),
    ]);
    let saved = store.save_events();
    assert_eq!(saved.len(), 3);
    let mut again = JSEventManager::new(String::from("other"));
    again.load_events(Some(saved.clone()));
    assert_eq!(again.cached_events, store.cached_events);
    assert_eq!(again.save_events(), saved);
}
