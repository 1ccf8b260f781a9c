use emailsched::extraction::{DateTime, Event};
use emailsched::string_map::StringMap;

fn event_with(fields: &[(&str, &str)]) -> Event {
    let mut text: StringMap<String> = StringMap::new();
    let mut keys = Vec::new();
    for (name, value) in fields {
        text.insert(name.to_string(), value.to_string());
        keys.push(name.to_string());
    }
    Event {
        date_time: DateTime { day: 15, month: 1, year: 2024, hour: 10, minute: 5, second: 7 },
        text,
        keys,
    }
}

fn sanitized_value(value: &str) -> String {
    event_with(&[("v", value)]).sanitize().text.get("v").unwrap().clone()
}

#[test]
fn line_breaks_become_spaces() {
    assert_eq!(sanitized_value("a\nb"), "a b");
    assert_eq!(sanitized_value("a\rb"), "a b");
    assert_eq!(sanitized_value("a\r\nb"), "a b");
}

#[test]
fn runs_of_white_space_become_one_space() {
    assert_eq!(sanitized_value("a   b"), "a b");
    assert_eq!(sanitized_value("a \t \n  b\t\tc"), "a b c");
    assert_eq!(sanitized_value("a\u{a0}\u{2003}b"), "a b");
    assert_eq!(sanitized_value("a\tb"), "a b");
}

#[test]
fn white_space_at_the_ends_is_collapsed_and_kept() {
    assert_eq!(sanitized_value("  a  "), " a ");
    assert_eq!(sanitized_value("\n"), " ");
    assert_eq!(sanitized_value(" \r\n\t "), " ");
}

#[test]
fn text_without_white_space_runs_stays() {
    assert_eq!(sanitized_value(""), "");
    assert_eq!(sanitized_value("abc"), "abc");
    assert_eq!(sanitized_value("a b c"), "a b c");
    assert_eq!(sanitized_value("héllo wörld"), "héllo wörld");
    assert_eq!(sanitized_value("$1 \\s+"), "$1 \\s+");
}

#[test]
fn names_and_date_pass_through() {
    let event = event_with(&[("Title", "Algebra\n II"), ("Room  name", "B\t12"), ("A", "x")]);
    let clean = event.sanitize();
    assert_eq!(clean.date_time, event.date_time);
    assert_eq!(clean.keys, event.keys);
    assert_eq!(clean.text.len(), 3);
    assert_eq!(clean.text.get("Title"), Some(&String::from("Algebra II")));
    assert_eq!(clean.text.get("Room  name"), Some(&String::from("B 12")));
    assert_eq!(clean.text.get("A"), Some(&String::from("x")));
}

#[test]
fn the_event_itself_is_not_changed() {
    let event = event_with(&[("Title", "Algebra\n II")]);
    let before = event.clone();
    let _ = event.sanitize();
    assert_eq!(event, before);
}

#[test]
fn sanitizing_twice_is_sanitizing_once() {
    let samples = [
        "", " ", "a", "  a  b  ", "\n\n", "a\r\nb\tc  d", "\u{3000}x\u{3000}\u{3000}y ", "tab\there",
    ];
    for sample in samples {
        let once = event_with(&[("v", sample), ("w", "  other  ")]).sanitize();
        let twice = once.sanitize();
        assert_eq!(twice, once);
    }
}

#[test]
fn an_event_without_text_stays() {
    let event = event_with(&[]);
    assert_eq!(event.sanitize(), event);
}
