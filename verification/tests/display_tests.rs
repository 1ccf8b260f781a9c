use emailsched::display::{clock_face, display_rows};
use emailsched::extraction::{DateTime, Event};
use emailsched::string_map::StringMap;

fn event_at(hour: u32, minute: u32) -> Event {
    Event {
        date_time: DateTime { day: 1, month: 1, year: 2024, hour, minute, second: 0 },
        text: StringMap::new(),
        keys: Vec::new(),
    }
}

#[test]
fn full_hours_have_their_faces() {
    assert_eq!(clock_face(&event_at(1, 0)), '\u{1F550}');
    assert_eq!(clock_face(&event_at(3, 0)), '\u{1F552}');
    assert_eq!(clock_face(&event_at(12, 0)), '\u{1F55B}');
    assert_eq!(clock_face(&event_at(10, 14)), '\u{1F559}');
}

#[test]
fn half_hours_have_their_faces() {
    assert_eq!(clock_face(&event_at(1, 30)), '\u{1F55C}');
    assert_eq!(clock_face(&event_at(12, 30)), '\u{1F567}');
    assert_eq!(clock_face(&event_at(10, 15)), '\u{1F565}');
    assert_eq!(clock_face(&event_at(10, 45)), '\u{1F565}');
}

#[test]
fn late_minutes_show_the_next_hour() {
    assert_eq!(clock_face(&event_at(10, 46)), '\u{1F55A}');
    assert_eq!(clock_face(&event_at(10, 59)), '\u{1F55A}');
    assert_eq!(clock_face(&event_at(12, 50)), '\u{1F550}');
    assert_eq!(clock_face(&event_at(23, 50)), '\u{1F55B}');
}

#[test]
fn afternoon_hours_show_on_the_twelve_hour_face() {
    assert_eq!(clock_face(&event_at(13, 0)), '\u{1F550}');
    assert_eq!(clock_face(&event_at(18, 30)), '\u{1F561}');
    assert_eq!(clock_face(&event_at(24, 0)), '\u{1F55B}');
}

#[test]
fn hours_off_the_clock_take_the_characters_that_follow() {
    assert_eq!(clock_face(&event_at(0, 0)), '\u{1F54F}');
    assert_eq!(clock_face(&event_at(0, 30)), '\u{1F55B}');
    assert_eq!(clock_face(&event_at(25, 0)), '\u{1F55C}');
    assert_eq!(clock_face(&event_at(10, 99)), '\u{1F55A}');
}

#[test]
fn rows_follow_the_order_of_the_names() {
    let mut text: StringMap<String> = StringMap::new();
    text.insert(String::from("Title"), String::from("Algebra\n  II"));
    text.insert(String::from("Room"), String::from("B12"));
    text.insert(String::from("Note"), String::from(" bring\ta pen "));
    let event = Event {
        date_time: DateTime { day: 1, month: 1, year: 2024, hour: 9, minute: 0, second: 0 },
        text,
        keys: vec![String::from("Title"), String::from("Room"), String::from("Note")],
    };
    assert_eq!(
        display_rows(&event),
        vec![
            (String::from("Title"), String::from("Algebra II")),
            (String::from("Room"), String::from("B12")),
            (String::from("Note"), String::from(" bring a pen ")),
        ]
    );
    assert!(display_rows(&event_at(1, 0)).is_empty());
}
