//! What the presentation of an event needs beyond its fields: the clock face
//! that stands for its time, and its text in the order of its names.

use crate::extraction::{names_have_values, sanitized, DateTime, Event};
use crate::pattern::collapse_white_space;
use vstd::prelude::*;

verus! {

/// The numbers that are Unicode scalar values.
pub open spec fn is_scalar_value(code: int) -> bool {
    0 <= code <= 0xD7FF || 0xE000 <= code <= 0x10FFFF
}

/// `char::from_u32` gives the character with the code `i`, where `i` is a
/// Unicode scalar value, and nothing where it is not.
pub assume_specification[ char::from_u32 ](i: u32) -> (r: Option<char>)
    ensures
        r == if is_scalar_value(i as int) {
            Some(i as char)
        } else {
            None
        },
;

/// The hour that the clock face shows: the next hour from a quarter to the
/// hour on, and 12 less where that is more than 12.
pub open spec fn face_hour(time: DateTime) -> int {
    let hour = if time.minute > 45 {
        time.hour + 1
    } else {
        time.hour as int
    };
    if hour > 12 {
        hour - 12
    } else {
        hour
    }
}

/// The code of the clock face for `time`. The faces of the full hours stand
/// after U+1F54F, those of the half hours after U+1F55B; the half hour is
/// shown from a quarter past to a quarter to the hour.
pub open spec fn face_code(time: DateTime) -> int {
    if time.minute > 45 || time.minute < 15 {
        0x1F54F + face_hour(time)
    } else {
        0x1F55B + face_hour(time)
    }
}

/// Whether there is a character with the code of the clock face for the time
/// of `event`. There is one for every hour of the day.
pub fn has_clock_face(event: &Event) -> (ok: bool)
    ensures
        ok == is_scalar_value(face_code(event.date_time)),
        event.date_time.hour <= 24 ==> ok,
{
    let hour: u64 = if event.date_time.minute > 45 {
        event.date_time.hour as u64 + 1
    } else {
        event.date_time.hour as u64
    };
    let hour: u64 = if hour > 12 {
        hour - 12
    } else {
        hour
    };
    if event.date_time.minute > 45 || event.date_time.minute < 15 {
        0x1F54F + hour <= 0x10FFFF
    } else {
        0x1F55B + hour <= 0x10FFFF
    }
}

/// The clock face that stands for the time of `event`.
pub fn clock_face(event: &Event) -> (face: char)
    requires
        is_scalar_value(face_code(event.date_time)),
    ensures
        face as int == face_code(event.date_time),
{
    let hour = event.date_time.hour;
    let minute = event.date_time.minute;
    let rounded_hour: u32 = if minute > 45 {
        hour + 1
    } else {
        hour
    };
    let rounded_hour: u32 = if rounded_hour > 12 {
        rounded_hour - 12
    } else {
        rounded_hour
    };
    let rounded_minute: u32 = if minute > 45 || minute < 15 {
        0
    } else {
        30
    };
    if rounded_minute == 0 {
        char::from_u32(0x1F54F + rounded_hour).unwrap()
    } else {
        char::from_u32(0x1F55B + rounded_hour).unwrap()
    }
}

/// The text of `event` for display: each name of its list, in order, with
/// its value, in which white space is collapsed.
pub fn display_rows(event: &Event) -> (rows: Vec<(String, String)>)
    requires
        names_have_values(event@.text, event@.keys),
    ensures
        rows.len() == event.keys.len(),
        forall|i: int|
            0 <= i < rows.len() ==> (#[trigger] rows[i]).0@ == event@.keys[i] && rows[i].1@
                == collapse_white_space(event@.text[event@.keys[i]]),
{
    let clean = event.sanitize();
    let mut rows: Vec<(String, String)> = Vec::new();
    let mut i: usize = 0;
    while i < event.keys.len()
        invariant
            i <= event.keys.len(),
            rows.len() == i,
            names_have_values(event@.text, event@.keys),
            clean@ == sanitized(event@),
            forall|j: int|
                0 <= j < i ==> (#[trigger] rows[j]).0@ == event@.keys[j] && rows[j].1@
                    == collapse_white_space(event@.text[event@.keys[j]]),
        decreases event.keys.len() - i,
    {
        let key = &event.keys[i];
        assert(event@.keys[i as int] == key@);
        assert(event@.text.contains_key(key@));
        assert(clean@.text.contains_key(key@));
        let value = clean.text.get(key.as_str()).unwrap();
        assert(value@ == clean@.text[key@]);
        assert(value@ == collapse_white_space(event@.text[key@]));
        let row = (key.clone(), value.clone());
        rows.push(row);
        assert(rows[i as int] == row);
        i += 1;
    }
    rows
}

} // verus!
