use emailsched::commands::{list, refresh, refresh_checked};
use emailsched::config::{Config, DateTimeField, EmailTemplate, TextField};
use emailsched::email::Email;
use emailsched::events::{EventManager, JSEventManager};
use emailsched::extraction::{DateTime, Event};
use emailsched::string_map::StringMap;

fn titled(year: i32, month: u32, day: u32, hour: u32, title: &str) -> Event {
    let mut text: StringMap<String> = StringMap::new();
    text.insert(String::from("Title"), title.to_string());
    Event {
        date_time: DateTime { day, month, year, hour, minute: 0, second: 0 },
        text,
        keys: vec![String::from("Title")],
    }
}

fn exam_config() -> Config {
    Config {
        username: String::from("user"),
        password: String::from("SECRET-REDACTED"),
        imap_server: String::from("imap.example.org"),
        imap_port: 993,
        data_store: String::from("events.json"),
        email_templates: vec![EmailTemplate {
            subject: Some(String::from("Exam")),
            body: None,
            date_time_field_formats: vec![DateTimeField {
                regex: String::from(r"(\d+) (\w+) (\d+) at (\d+):(\d+)"),
                year_group: 3,
                month_group: 2,
                day_group: 1,
                hour_group: 4,
                minute_group: 5,
                second_group: None,
            }],
            text_field_formats: Some(vec![
                TextField { name: String::from("Title"), regex: String::from(r"Course: (.*)") },
                TextField { name: String::from("Room"), regex: String::from(r"Room: (\w+)") },
            ]),
        }],
    }
}

fn mail(subject: &str, body: &str) -> Option<Email> {
    Some(Email { subject: subject.to_string(), body: body.to_string() })
}

fn titles(events: &[Event]) -> Vec<String> {
    events.iter().map(|e| e.text.get("Title").unwrap().clone()).collect()
}

#[test]
fn events_are_listed_by_year_month_and_day() {
    let mut store = JSEventManager::new(String::from("f"));
    store.new_event(titled(2024, 3, 1, 9, "c"));
    store.new_event(titled(2023, 12, 31, 9, "a"));
    store.new_event(titled(2024, 3, 2, 9, "d"));
    store.new_event(titled(2024, 1, 20, 9, "b"));
    store.new_event(titled(2025, 1, 1, 9, "e"));
    let listed = list(&store);
    assert_eq!(titles(&listed), vec!["a", "b", "c", "d", "e"]);
}

#[test]
fn the_time_of_day_does_not_order_events() {
    let mut store = JSEventManager::new(String::from("f"));
    store.new_event(titled(2024, 3, 1, 18, "a-late"));
    store.new_event(titled(2024, 3, 1, 8, "b-early"));
    store.new_event(titled(2024, 2, 1, 23, "z-before"));
    let listed = list(&store);
    assert_eq!(titles(&listed), vec!["z-before", "a-late", "b-early"]);
}

#[test]
fn a_negative_year_comes_first() {
    let mut store = JSEventManager::new(String::from("f"));
    store.new_event(titled(1, 1, 1, 0, "after"));
    store.new_event(titled(-1, 12, 31, 0, "before"));
    assert_eq!(titles(&list(&store)), vec!["before", "after"]);
}

#[test]
fn listing_keeps_every_event_and_the_store() {
    let mut store = JSEventManager::new(String::from("f"));
    for day in [5u32, 3, 9, 1, 7] {
        store.new_event(titled(2024, 6, day, 9, &format!("day {}", day)));
    }
    let listed = list(&store);
    assert_eq!(listed.len(), 5);
    assert_eq!(store.cached_events.len(), 5);
    let days: Vec<u32> = listed.iter().map(|e| e.date_time.day).collect();
    assert_eq!(days, vec![1, 3, 5, 7, 9]);
    assert!(list(&JSEventManager::new(String::from("g"))).is_empty());
}

#[test]
fn refreshing_puts_the_events_of_the_messages_into_the_store() {
    let mut store = JSEventManager::new(String::from("f"));
    let messages = vec![
        mail("Exam", "Course: Algebra II\nRoom: B12\n15 Jan 2024 at 10:00"),
        None,
        mail("Party", "Course: None\n16 Jan 2024 at 20:00"),
        mail("Exam", "Course: Geometry\n17 Jan 2024 at 11:30"),
        mail("Exam", "Course: Undated"),
    ];
    refresh(&mut store, &messages, &exam_config());
    assert_eq!(store.cached_events.len(), 2);
    let algebra = store.cached_events.get("2024-1-15-Algebra II").unwrap();
    assert_eq!(algebra.date_time, DateTime { day: 15, month: 1, year: 2024, hour: 10, minute: 0, second: 0 });
    assert_eq!(algebra.keys, vec![String::from("Title"), String::from("Room")]);
    assert_eq!(algebra.text.get("Room"), Some(&String::from("B12")));
    let geometry = store.cached_events.get("2024-1-17-Geometry").unwrap();
    assert_eq!(geometry.keys, vec![String::from("Title")]);
    assert_eq!(store.data_file, "f");
}

#[test]
fn a_second_refresh_overwrites_the_event_of_the_first() {
    let mut store = JSEventManager::new(String::from("f"));
    let first = vec![mail("Exam", "Course: Algebra II\nRoom: B12\n15 Jan 2024 at 10:00")];
    refresh(&mut store, &first, &exam_config());
    let saved = store.save_events();
    let mut store = JSEventManager::new(String::from("f"));
    store.load_events(Some(saved));
    let second = vec![mail("Exam", "Course: Algebra II\n15 Jan 2024 at 14:00\nsee you there")];
    refresh(&mut store, &second, &exam_config());
    assert_eq!(store.cached_events.len(), 1);
    let event = store.cached_events.get("2024-1-15-Algebra II").unwrap();
    assert_eq!(event.keys, vec![String::from("Title")]);
    assert_eq!(event.text.len(), 1);
    assert_eq!(event.text.get("Room"), None);
    assert_eq!(event.date_time.hour, 14);
}

#[test]
fn refreshing_without_messages_changes_nothing() {
    let mut store = JSEventManager::new(String::from("f"));
    store.new_event(titled(2024, 3, 1, 9, "kept"));
    let before = store.cached_events.clone();
    refresh(&mut store, &vec![], &exam_config());
    assert_eq!(store.cached_events, before);
    refresh(&mut store, &vec![None, None], &exam_config());
    assert_eq!(store.cached_events, before);
}

#[test]
fn a_checked_refresh_does_what_a_refresh_does() {
    let messages = vec![mail("Exam", "Course: Algebra II\n15 Jan 2024 at 10:00")];
    let mut plain = JSEventManager::new(String::from("f"));
    refresh(&mut plain, &messages, &exam_config());
    let mut checked = JSEventManager::new(String::from("f"));
    assert!(refresh_checked(&mut checked, &messages, &exam_config()));
    assert_eq!(checked.cached_events, plain.cached_events);
    assert_eq!(checked.cached_events.len(), 1);
}

#[test]
fn a_checked_refresh_refuses_a_pattern_that_is_no_regular_expression() {
    let mut config = exam_config();
    config.email_templates[0].text_field_formats =
        Some(vec![TextField { name: String::from("Title"), regex: String::from("Course: (.*") }]);
    let mut store = JSEventManager::new(String::from("f"));
    store.new_event(titled(2024, 3, 1, 9, "kept"));
    let before = store.cached_events.clone();
    let messages = vec![mail("Exam", "Course: Algebra II\n15 Jan 2024 at 10:00")];
    assert!(!refresh_checked(&mut store, &messages, &config));
    assert_eq!(store.cached_events, before);
}
