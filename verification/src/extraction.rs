//! From a message to an event: which template applies, and what its
//! patterns read from the body.

use crate::config::{
    date_time_fields_well_formed, text_fields_well_formed, Config, DateTimeField, EmailTemplate,
    TextField,
};
use crate::email::Email;
use crate::number::{parse_i32, parse_u32, str_to_i32, str_to_u32};
use crate::pattern::{
    captured, captures, collapse_white_space, found, is_match, replace_all, white_space_run,
};
use crate::string_map::{pairs_map, StringMap};
use crate::text::{is_white_space, replace_char, to_chars};
use vstd::prelude::*;

verus! {

/// A date and a time of day, as the message wrote them: no time zone, and no
/// test that the day exists in the calendar.
#[derive(Debug, Clone, Copy, PartialEq, Eq)]
pub struct DateTime {
    pub day: u32,
    pub month: u32,
    pub year: i32,
    pub hour: u32,
    pub minute: u32,
    pub second: u32,
}

/// A text field that was read from a message.
#[derive(Debug, Clone, PartialEq, Eq)]
pub struct ExtractedText {
    pub text: String,
    pub name: String,
}

/// An event: when it takes place, the text fields read from the message, and
/// the names of those fields in the order in which the template lists them.
#[derive(Debug, PartialEq, Eq)]
pub struct Event {
    pub date_time: DateTime,
    pub text: StringMap<String>,
    pub keys: Vec<String>,
}

/// An event as a mathematical value.
pub struct EventView {
    pub date_time: DateTime,
    pub text: Map<Seq<char>, Seq<char>>,
    pub keys: Seq<Seq<char>>,
}

/// A map of strings with each value taken as its sequence of characters.
pub open spec fn text_of(m: Map<Seq<char>, String>) -> Map<Seq<char>, Seq<char>> {
    Map::new(|key: Seq<char>| m.contains_key(key), |key: Seq<char>| m[key]@)
}

impl View for Event {
    type V = EventView;

    open spec fn view(&self) -> EventView {
        EventView {
            date_time: self.date_time,
            text: text_of(self.text@),
            keys: self.keys.deep_view(),
        }
    }
}

impl Clone for Event {
    fn clone(&self) -> (copy: Self)
        ensures
            copy@ == self@,
    {
        let copy = Event {
            date_time: self.date_time,
            text: self.text.clone(),
            keys: self.keys.clone(),
        };
        proof {
            use_type_invariant(&self.text);
            use_type_invariant(&copy.text);
            assert(copy.text.pairs() =~= self.text.pairs());
            assert(copy.keys.deep_view() =~= self.keys.deep_view());
            assert(copy@.text =~= self@.text);
        }
        copy
    }
}

/// An event that may be missing, as a mathematical value.
pub open spec fn optional_view(event: Option<Event>) -> Option<EventView> {
    match event {
        Some(event) => Some(event@),
        None => None,
    }
}

/// The month that a three-letter English abbreviation names.
pub open spec fn month_by_name(name: Seq<char>) -> Option<u32> {
    if name == seq!['J', 'a', 'n'] {
        Some(1u32)
    } else if name == seq!['F', 'e', 'b'] {
        Some(2u32)
    } else if name == seq!['M', 'a', 'r'] {
        Some(3u32)
    } else if name == seq!['A', 'p', 'r'] {
        Some(4u32)
    } else if name == seq!['M', 'a', 'y'] {
        Some(5u32)
    } else if name == seq!['J', 'u', 'n'] {
        Some(6u32)
    } else if name == seq!['J', 'u', 'l'] {
        Some(7u32)
    } else if name == seq!['A', 'u', 'g'] {
        Some(8u32)
    } else if name == seq!['S', 'e', 'p'] {
        Some(9u32)
    } else if name == seq!['O', 'c', 't'] {
        Some(10u32)
    } else if name == seq!['N', 'o', 'v'] {
        Some(11u32)
    } else if name == seq!['D', 'e', 'c'] {
        Some(12u32)
    } else {
        None
    }
}

/// The month that `text` stands for: the number it writes, whatever its
/// size, or else the month that its first three characters name.
pub open spec fn month_number(text: Seq<char>) -> Option<u32> {
    match parse_u32(text) {
        Some(number) => Some(number),
        None => if text.len() >= 3 {
            month_by_name(text.take(3))
        } else {
            None
        },
    }
}

/// Reads a month: a number, or a name that begins with one of `Jan` to `Dec`.
pub fn string_to_month_number(month: &str) -> (r: Option<u32>)
    ensures
        r == month_number(month@),
{
    match str_to_u32(month) {
        Some(number) => Some(number),
        None => {
            let chars = to_chars(month);
            if chars.len() < 3 {
                return None;
            }
            let a = chars[0];
            let b = chars[1];
            let c = chars[2];
            assert(month@.take(3) =~= seq![a, b, c]);
            let ghost name = seq![a, b, c];
            assert(name[0] == a && name[1] == b && name[2] == c);
            if a == 'J' && b == 'a' && c == 'n' {
                Some(1)
            } else if a == 'F' && b == 'e' && c == 'b' {
                Some(2)
            } else if a == 'M' && b == 'a' && c == 'r' {
                Some(3)
            } else if a == 'A' && b == 'p' && c == 'r' {
                Some(4)
            } else if a == 'M' && b == 'a' && c == 'y' {
                Some(5)
            } else if a == 'J' && b == 'u' && c == 'n' {
                Some(6)
            } else if a == 'J' && b == 'u' && c == 'l' {
                Some(7)
            } else if a == 'A' && b == 'u' && c == 'g' {
                Some(8)
            } else if a == 'S' && b == 'e' && c == 'p' {
                Some(9)
            } else if a == 'O' && b == 'c' && c == 't' {
                Some(10)
            } else if a == 'N' && b == 'o' && c == 'v' {
                Some(11)
            } else if a == 'D' && b == 'e' && c == 'c' {
                Some(12)
            } else {
                None
            }
        },
    }
}

/// What the capture group with the given index matched: nothing where the
/// pattern has no such group, or the group took no part in the match.
pub open spec fn group(groups: Seq<Option<Seq<char>>>, index: usize) -> Option<Seq<char>> {
    if index < groups.len() {
        groups[index as int]
    } else {
        None
    }
}

/// The date and time that the groups of one match hold. The year, the month,
/// the day, the hour and the minute must each be there and be a number (the
/// month may be a name). The group of the second must be there; where its
/// text is no number, the second is 0.
pub open spec fn date_time_of(groups: Seq<Option<Seq<char>>>, format: DateTimeField) -> Option<
    DateTime,
> {
    match (
        group(groups, format.year_group),
        group(groups, format.month_group),
        group(groups, format.day_group),
        group(groups, format.hour_group),
        group(groups, format.minute_group),
        group(groups, format.second_index()),
    ) {
        (Some(year), Some(month), Some(day), Some(hour), Some(minute), Some(second)) => match (
            parse_i32(year),
            month_number(month),
            parse_u32(day),
            parse_u32(hour),
            parse_u32(minute),
        ) {
            (Some(year), Some(month), Some(day), Some(hour), Some(minute)) => Some(
                DateTime {
                    day,
                    month,
                    year,
                    hour,
                    minute,
                    second: match parse_u32(second) {
                        Some(second) => second,
                        None => 0,
                    },
                },
            ),
            _ => None,
        },
        _ => None,
    }
}

/// Where the groups of the year, the month, the day, the hour, the minute and
/// the second are there and each holds a number, the date and time hold
/// those numbers, as they are.
pub proof fn lemma_date_time_of_numbers(groups: Seq<Option<Seq<char>>>, format: DateTimeField)
    requires
        group(groups, format.year_group) matches Some(text) && parse_i32(text) is Some,
        group(groups, format.month_group) matches Some(text) && parse_u32(text) is Some,
        group(groups, format.day_group) matches Some(text) && parse_u32(text) is Some,
        group(groups, format.hour_group) matches Some(text) && parse_u32(text) is Some,
        group(groups, format.minute_group) matches Some(text) && parse_u32(text) is Some,
        group(groups, format.second_index()) matches Some(text) && parse_u32(text) is Some,
    ensures
        date_time_of(groups, format) == Some(
            DateTime {
                year: parse_i32(group(groups, format.year_group)->0)->0,
                month: parse_u32(group(groups, format.month_group)->0)->0,
                day: parse_u32(group(groups, format.day_group)->0)->0,
                hour: parse_u32(group(groups, format.hour_group)->0)->0,
                minute: parse_u32(group(groups, format.minute_group)->0)->0,
                second: parse_u32(group(groups, format.second_index())->0)->0,
            },
        ),
{
}

/// The date and time that `format` reads from `body`.
pub open spec fn date_time_in(body: Seq<char>, format: DateTimeField) -> Option<DateTime> {
    match captured(format.regex@, body) {
        Some(groups) => date_time_of(groups, format),
        None => None,
    }
}

/// The date and time that the first of `formats` to read one reads from
/// `body`.
pub open spec fn first_date_time(body: Seq<char>, formats: Seq<DateTimeField>) -> Option<DateTime>
    decreases formats.len(),
{
    if formats.len() == 0 {
        None
    } else {
        match date_time_in(body, formats[0]) {
            Some(date_time) => Some(date_time),
            None => first_date_time(body, formats.drop_first()),
        }
    }
}

/// The value that `field` reads from `body`: what group 1 of the leftmost
/// match holds.
pub open spec fn text_in(body: Seq<char>, field: TextField) -> Option<Seq<char>> {
    match captured(field.regex@, body) {
        Some(groups) => group(groups, 1),
        None => None,
    }
}

/// The text fields that `fields` read from `body`, as a map from each name
/// to its value and as the list of the names in the order of `fields`. A
/// field that reads nothing is left out.
pub open spec fn texts_in(body: Seq<char>, fields: Seq<TextField>) -> (
    Map<Seq<char>, Seq<char>>,
    Seq<Seq<char>>,
)
    decreases fields.len(),
{
    if fields.len() == 0 {
        (Map::empty(), Seq::empty())
    } else {
        let before = texts_in(body, fields.drop_last());
        match text_in(body, fields.last()) {
            Some(value) => (
                before.0.insert(fields.last().name@, value),
                before.1.push(fields.last().name@),
            ),
            None => before,
        }
    }
}

/// Each name in the list `keys` has a value in `text`.
pub open spec fn names_have_values(text: Map<Seq<char>, Seq<char>>, keys: Seq<Seq<char>>) -> bool {
    forall|i: int| 0 <= i < keys.len() ==> text.contains_key(#[trigger] keys[i])
}

/// Each name that has a value in `text` is in the list `keys`.
pub open spec fn values_have_names(text: Map<Seq<char>, Seq<char>>, keys: Seq<Seq<char>>) -> bool {
    forall|name: Seq<char>| #[trigger] text.contains_key(name) ==> keys.contains(name)
}

impl EventView {
    /// The names in the list of names are the names that have a value.
    pub open spec fn consistent(self) -> bool {
        names_have_values(self.text, self.keys) && values_have_names(self.text, self.keys)
    }
}

/// The names that `texts_in` lists are those to which it gives a value.
pub proof fn lemma_texts_in_names(body: Seq<char>, fields: Seq<TextField>)
    ensures
        names_have_values(texts_in(body, fields).0, texts_in(body, fields).1),
        values_have_names(texts_in(body, fields).0, texts_in(body, fields).1),
    decreases fields.len(),
{
    if fields.len() > 0 {
        lemma_texts_in_names(body, fields.drop_last());
        let before = texts_in(body, fields.drop_last());
        let read = texts_in(body, fields);
        if text_in(body, fields.last()) is Some {
            let name = fields.last().name@;
            assert forall|key: Seq<char>| #[trigger]
                read.0.contains_key(key) implies read.1.contains(key) by {
                if key == name {
                    assert(read.1[read.1.len() - 1] == key);
                } else {
                    assert(before.0.contains_key(key));
                    let i = choose|i: int| 0 <= i < before.1.len() && before.1[i] == key;
                    assert(read.1[i] == key);
                }
            }
            assert forall|i: int| 0 <= i < read.1.len() implies read.0.contains_key(
                #[trigger] read.1[i],
            ) by {
                if i < before.1.len() {
                    assert(before.0.contains_key(before.1[i]));
                }
            }
        }
    }
}

/// The event that `formats` and `fields` read from `body`: there is one
/// where a date and time can be read.
pub open spec fn event_in(
    body: Seq<char>,
    formats: Seq<DateTimeField>,
    fields: Seq<TextField>,
) -> Option<EventView> {
    match first_date_time(body, formats) {
        Some(date_time) => Some(
            EventView {
                date_time,
                text: texts_in(body, fields).0,
                keys: texts_in(body, fields).1,
            },
        ),
        None => None,
    }
}

/// Whether `template` applies to `email`: its subject pattern matches
/// somewhere in the subject, or its body pattern somewhere in the body.
pub open spec fn template_matches(email: Email, template: EmailTemplate) -> bool {
    ||| template.subject matches Some(pattern) && found(pattern@, email.subject@)
    ||| template.body matches Some(pattern) && found(pattern@, email.body@)
}

/// The event that `template` reads from `email`, where it applies.
pub open spec fn template_event(email: Email, template: EmailTemplate) -> Option<EventView> {
    if template_matches(email, template) {
        event_in(email.body@, template.date_time_field_formats@, template.text_fields())
    } else {
        None
    }
}

/// The event of the first of `templates` that reads one from `email`.
pub open spec fn selected_event(email: Email, templates: Seq<EmailTemplate>) -> Option<EventView>
    decreases templates.len(),
{
    if templates.len() == 0 {
        None
    } else {
        match template_event(email, templates[0]) {
            Some(event) => Some(event),
            None => selected_event(email, templates.drop_first()),
        }
    }
}

/// The text of one capture group.
fn group_at(groups: &Vec<Option<String>>, index: usize) -> (r: Option<&String>)
    ensures
        r.deep_view() == group(groups.deep_view(), index),
{
    if index < groups.len() {
        groups[index].as_ref()
    } else {
        None
    }
}

/// Reads the date and time from the capture groups of one match of the
/// pattern of `format`.
pub fn date_time_from_groups(groups: &Vec<Option<String>>, format: &DateTimeField) -> (r: Option<
    DateTime,
>)
    ensures
        r == date_time_of(groups.deep_view(), *format),
{
    let second_index: usize = match format.second_group {
        Some(index) => index,
        None => 0,
    };
    let year = group_at(groups, format.year_group)?;
    let month = group_at(groups, format.month_group)?;
    let day = group_at(groups, format.day_group)?;
    let hour = group_at(groups, format.hour_group)?;
    let minute = group_at(groups, format.minute_group)?;
    let second = group_at(groups, second_index)?;
    let year = str_to_i32(year.as_str())?;
    let month = string_to_month_number(month.as_str())?;
    let day = str_to_u32(day.as_str())?;
    let hour = str_to_u32(hour.as_str())?;
    let minute = str_to_u32(minute.as_str())?;
    let second = match str_to_u32(second.as_str()) {
        Some(second) => second,
        None => 0,
    };
    Some(DateTime { day, month, year, hour, minute, second })
}

/// Reads a date and time from the body of `email` with the leftmost match of
/// the pattern of `format`.
pub fn extract_date_time(email: &Email, format: &DateTimeField) -> (r: Option<DateTime>)
    requires
        format.well_formed(),
    ensures
        r == date_time_in(email.body@, *format),
{
    match captures(format.regex.as_str(), email.body.as_str()) {
        Some(groups) => date_time_from_groups(&groups, format),
        None => None,
    }
}

/// The value of `field` that the capture groups of one match hold: the text
/// of group 1.
pub fn text_from_groups(groups: &Vec<Option<String>>, field: &TextField) -> (r: Option<
    ExtractedText,
>)
    ensures
        match group(groups.deep_view(), 1) {
            Some(value) => r is Some && r->0.text@ == value && r->0.name@ == field.name@,
            None => r is None,
        },
{
    match group_at(groups, 1) {
        Some(value) => Some(ExtractedText { text: value.clone(), name: field.name.clone() }),
        None => None,
    }
}

/// Reads the value of `field` from the body of `email`.
pub fn extract_text_field(email: &Email, field: &TextField) -> (r: Option<ExtractedText>)
    requires
        field.well_formed(),
    ensures
        match text_in(email.body@, *field) {
            Some(value) => r is Some && r->0.text@ == value && r->0.name@ == field.name@,
            None => r is None,
        },
{
    match captures(field.regex.as_str(), email.body.as_str()) {
        Some(groups) => text_from_groups(&groups, field),
        None => None,
    }
}

/// Reads each of `text_fields` from the body of `email`. Gives the values by
/// name, and the names of the fields that were read, in the order of
/// `text_fields`.
pub fn extract_all_text_fields(email: &Email, text_fields: &[TextField]) -> (r: (
    StringMap<String>,
    Vec<String>,
))
    requires
        text_fields_well_formed(text_fields@),
    ensures
        (text_of(r.0@), r.1.deep_view()) == texts_in(email.body@, text_fields@),
{
    let mut map: StringMap<String> = StringMap::new();
    let mut keys: Vec<String> = Vec::new();
    let mut i: usize = 0;
    assert(text_of(map@) =~= Map::<Seq<char>, Seq<char>>::empty());
    assert(keys.deep_view() =~= Seq::<Seq<char>>::empty());
    assert(text_fields@.take(0) =~= Seq::<TextField>::empty());
    while i < text_fields.len()
        invariant
            i <= text_fields.len(),
            text_fields_well_formed(text_fields@),
            (text_of(map@), keys.deep_view()) == texts_in(email.body@, text_fields@.take(i as int)),
        decreases text_fields.len() - i,
    {
        let ghost before = text_fields@.take(i as int);
        let ghost now = text_fields@.take(i + 1);
        assert(now.drop_last() =~= before);
        assert(now.last() == text_fields@[i as int]);
        assert(text_fields@[i as int].well_formed());
        let ghost old_text = text_of(map@);
        let ghost old_keys = keys.deep_view();
        match extract_text_field(email, &text_fields[i]) {
            Some(read) => {
                let name = read.name.clone();
                map.insert(read.name, read.text);
                keys.push(name);
                assert(text_of(map@) =~= old_text.insert(name@, read.text@));
                assert(keys.deep_view() =~= old_keys.push(name@));
            },
            None => {},
        }
        i += 1;
    }
    assert(text_fields@.take(i as int) =~= text_fields@);
    (map, keys)
}

/// Reads an event from `email`: its date and time with the first of
/// `date_time_field_formats` that reads one, and its text with `text_fields`.
/// There is no event where no date and time can be read.
pub fn extract_event(
    email: &Email,
    date_time_field_formats: &[DateTimeField],
    text_fields: &[TextField],
) -> (r: Option<Event>)
    requires
        date_time_fields_well_formed(date_time_field_formats@),
        text_fields_well_formed(text_fields@),
    ensures
        optional_view(r) == event_in(email.body@, date_time_field_formats@, text_fields@),
        r matches Some(event) ==> event@.consistent(),
{
    proof {
        lemma_texts_in_names(email.body@, text_fields@);
    }
    let mut date_time: Option<DateTime> = None;
    let mut i: usize = 0;
    assert(date_time_field_formats@.skip(0) =~= date_time_field_formats@);
    while i < date_time_field_formats.len() && date_time.is_none()
        invariant
            i <= date_time_field_formats.len(),
            date_time_fields_well_formed(date_time_field_formats@),
            match date_time {
                Some(_) => date_time == first_date_time(email.body@, date_time_field_formats@),
                None => first_date_time(email.body@, date_time_field_formats@) == first_date_time(
                    email.body@,
                    date_time_field_formats@.skip(i as int),
                ),
            },
        decreases date_time_field_formats.len() - i,
    {
        let ghost rest = date_time_field_formats@.skip(i as int);
        assert(rest[0] == date_time_field_formats@[i as int]);
        assert(rest.drop_first() =~= date_time_field_formats@.skip(i + 1));
        assert(date_time_field_formats@[i as int].well_formed());
        date_time = extract_date_time(email, &date_time_field_formats[i]);
        i += 1;
    }
    let (text, keys) = extract_all_text_fields(email, text_fields);
    match date_time {
        Some(date_time) => Some(Event { date_time, text, keys }),
        None => None,
    }
}

/// Whether `template` applies to `email`.
pub fn match_email_template(email: &Email, template: &EmailTemplate) -> (matches: bool)
    requires
        template.well_formed(),
    ensures
        matches == template_matches(*email, *template),
{
    let mut matches = false;
    if let Some(subject) = &template.subject {
        matches = matches || is_match(subject.as_str(), email.subject.as_str());
    }
    if let Some(body) = &template.body {
        matches = matches || is_match(body.as_str(), email.body.as_str());
    }
    matches
}

/// The event that the templates of `config` read from `email`: that of the
/// first template which applies and reads a date and time. A template that
/// applies and reads none is passed over.
pub fn match_all_templates(email: &Email, config: &Config) -> (r: Option<Event>)
    requires
        config.well_formed(),
    ensures
        optional_view(r) == selected_event(*email, config.email_templates@),
        r matches Some(event) ==> event@.consistent(),
        (forall|i: int|
            0 <= i < config.email_templates.len() ==> !template_matches(
                *email,
                #[trigger] config.email_templates[i],
            )) ==> r is None,
{
    let none: Vec<TextField> = Vec::new();
    let mut i: usize = 0;
    assert(config.email_templates@.skip(0) =~= config.email_templates@);
    while i < config.email_templates.len()
        invariant
            i <= config.email_templates.len(),
            config.well_formed(),
            none@.len() == 0,
            selected_event(*email, config.email_templates@) == selected_event(
                *email,
                config.email_templates@.skip(i as int),
            ),
        decreases config.email_templates.len() - i,
    {
        let template = &config.email_templates[i];
        let ghost rest = config.email_templates@.skip(i as int);
        assert(rest[0] == *template);
        assert(rest.drop_first() =~= config.email_templates@.skip(i + 1));
        assert(config.email_templates[i as int].well_formed());
        if match_email_template(email, template) {
            let text_fields: &Vec<TextField> = match &template.text_field_formats {
                Some(fields) => fields,
                None => &none,
            };
            assert(text_fields@ =~= template.text_fields());
            let event = extract_event(
                email,
                template.date_time_field_formats.as_slice(),
                text_fields.as_slice(),
            );
            if event.is_some() {
                proof {
                    lemma_selected_applies(*email, config.email_templates@);
                }
                return event;
            }
        }
        i += 1;
    }
    proof {
        lemma_selected_applies(*email, config.email_templates@);
    }
    None
}

/// An event is selected only from a template that applies: where none of
/// `templates` applies to `email`, no event is selected.
pub proof fn lemma_selected_applies(email: Email, templates: Seq<EmailTemplate>)
    ensures
        selected_event(email, templates) is Some ==> exists|i: int|
            0 <= i < templates.len() && template_matches(email, #[trigger] templates[i]),
    decreases templates.len(),
{
    if templates.len() > 0 {
        if template_event(email, templates[0]) is Some {
            assert(template_matches(email, templates[0]));
        } else {
            let rest = templates.drop_first();
            lemma_selected_applies(email, rest);
            if selected_event(email, rest) is Some {
                let i = choose|i: int|
                    0 <= i < rest.len() && template_matches(email, #[trigger] rest[i]);
                assert(templates[i + 1] == rest[i]);
            }
        }
    }
}

/// `event` with each run of white space in a text value replaced by one
/// space. The names and the date and time stay.
pub open spec fn sanitized(event: EventView) -> EventView {
    EventView {
        date_time: event.date_time,
        text: collapsed(event.text),
        keys: event.keys,
    }
}

/// Replacing white-space characters by other white-space characters does not
/// change what `collapse_white_space` gives.
pub proof fn lemma_collapse_ignores_kind(a: Seq<char>, b: Seq<char>)
    requires
        a.len() == b.len(),
        forall|i: int|
            0 <= i < a.len() ==> a[i] == b[i] || (is_white_space(#[trigger] a[i])
                && is_white_space(b[i])),
    ensures
        collapse_white_space(a) == collapse_white_space(b),
    decreases a.len(),
{
    if a.len() > 0 {
        assert(is_white_space(a[0]) == is_white_space(b[0]));
        if a.len() > 1 {
            assert(is_white_space(a[1]) == is_white_space(b[1]));
        }
        let ra = a.drop_first();
        let rb = b.drop_first();
        assert forall|i: int| 0 <= i < ra.len() implies ra[i] == rb[i] || (is_white_space(
            #[trigger] ra[i],
        ) && is_white_space(rb[i])) by {
            assert(ra[i] == a[i + 1] && rb[i] == b[i + 1]);
        }
        lemma_collapse_ignores_kind(ra, rb);
    }
}

/// Collapsing white space twice gives what collapsing it once gives.
pub proof fn lemma_collapse_idempotent(text: Seq<char>)
    ensures
        collapse_white_space(collapse_white_space(text)) == collapse_white_space(text),
    decreases text.len(),
{
    if text.len() > 0 {
        let rest = text.drop_first();
        let tail = collapse_white_space(rest);
        lemma_collapse_idempotent(rest);
        if !is_white_space(text[0]) {
            let once = seq![text[0]] + tail;
            assert(once.drop_first() =~= tail);
        } else if text.len() > 1 && is_white_space(text[1]) {
        } else {
            let once = seq![' '] + tail;
            assert(once.drop_first() =~= tail);
            if rest.len() > 0 {
                assert(!is_white_space(rest[0]));
                assert(tail == seq![rest[0]] + collapse_white_space(rest.drop_first()));
                assert(once[1] == rest[0]);
            } else {
                assert(once.len() == 1);
            }
        }
    }
}

/// Sanitizing an event twice gives what sanitizing it once gives.
pub proof fn lemma_sanitize_idempotent(event: EventView)
    ensures
        sanitized(sanitized(event)) == sanitized(event),
{
    assert forall|key: Seq<char>| event.text.contains_key(key) implies collapse_white_space(
        collapse_white_space(#[trigger] event.text[key]),
    ) == collapse_white_space(event.text[key]) by {
        lemma_collapse_idempotent(event.text[key]);
    }
    assert(sanitized(sanitized(event)).text =~= sanitized(event).text);
}

/// `value` with its line breaks turned into spaces and each run of white
/// space replaced by one space.
fn sanitize_text(value: &str) -> (clean: String)
    ensures
        clean@ == collapse_white_space(value@),
{
    let line = replace_char(value, '\n', ' ');
    let line = replace_char(line.as_str(), '\r', ' ');
    proof {
        reveal_strlit("\\s+");
        reveal_strlit(" ");
        assert("\\s+"@ =~= white_space_run());
        assert(" "@ =~= seq![' ']);
        lemma_collapse_ignores_kind(value@, line@);
    }
    replace_all("\\s+", line.as_str(), " ")
}

impl Event {
    /// Tests whether each name in the list of names has a value.
    pub fn has_values_for_names(&self) -> (ok: bool)
        ensures
            ok == names_have_values(self@.text, self@.keys),
    {
        let mut i: usize = 0;
        while i < self.keys.len()
            invariant
                i <= self.keys.len(),
                forall|j: int| 0 <= j < i ==> self@.text.contains_key(#[trigger] self@.keys[j]),
            decreases self.keys.len() - i,
        {
            assert(self@.keys[i as int] == self.keys[i as int]@);
            if self.text.get(self.keys[i].as_str()).is_none() {
                return false;
            }
            i += 1;
        }
        true
    }

    /// The event made ready for display: in each text value, line breaks
    /// become spaces and each run of white space becomes one space. The
    /// names and the date and time stay as they are.
    pub fn sanitize(&self) -> (clean: Event)
        ensures
            clean@ == sanitized(self@),
            self@.consistent() ==> clean@.consistent(),
    {
        proof {
            use_type_invariant(&self.text);
        }
        let mut text: StringMap<String> = StringMap::new();
        let ghost pairs = self.text.pairs();
        let mut i: usize = 0;
        assert(pairs.take(0) =~= Seq::<(Seq<char>, String)>::empty());
        assert(text_of(text@) =~= collapsed(text_of(pairs_map(pairs.take(0)))));
        while i < self.text.len()
            invariant
                i <= pairs.len(),
                pairs == self.text.pairs(),
                text_of(text@) == collapsed(text_of(pairs_map(pairs.take(i as int)))),
            decreases pairs.len() - i,
        {
            let ghost before = pairs_map(pairs.take(i as int));
            let ghost done = text_of(text@);
            assert(pairs.take(i + 1).drop_last() =~= pairs.take(i as int));
            assert(pairs.take(i + 1).last() == pairs[i as int]);
            let key = self.text.key_at(i).clone();
            let value = sanitize_text(self.text.value_at(i).as_str());
            text.insert(key, value);
            assert(text_of(text@) =~= done.insert(key@, value@));
            assert(text_of(before.insert(key@, pairs[i as int].1)) =~= text_of(before).insert(
                key@,
                pairs[i as int].1@,
            ));
            assert(collapsed(text_of(before).insert(key@, pairs[i as int].1@)) =~= collapsed(
                text_of(before),
            ).insert(key@, value@));
            i += 1;
        }
        assert(pairs.take(i as int) =~= pairs);
        let clean = Event { date_time: self.date_time, text, keys: self.keys.clone() };
        assert(clean.keys.deep_view() =~= self.keys.deep_view());
        assert(clean@.text =~= sanitized(self@).text);
        clean
    }
}

/// `text` with the white space of each value collapsed.
pub open spec fn collapsed(text: Map<Seq<char>, Seq<char>>) -> Map<Seq<char>, Seq<char>> {
    Map::new(
        |key: Seq<char>| text.contains_key(key),
        |key: Seq<char>| collapse_white_space(text[key]),
    )
}

} // verus!
