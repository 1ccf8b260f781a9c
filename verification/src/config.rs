//! The configuration: the mail account, the place of the store, and the
//! templates that say how a message becomes an event.

use crate::pattern::{compiles, valid_pattern};
use vstd::prelude::*;

verus! {

/// How a date and time are read from a message body: one pattern, and the
/// index of the capture group that holds each part.
#[derive(Debug, Clone)]
pub struct DateTimeField {
    pub regex: String,
    pub year_group: usize,
    pub month_group: usize,
    pub day_group: usize,
    pub hour_group: usize,
    pub minute_group: usize,
    pub second_group: Option<usize>,
}

/// A named text field: its value is what capture group 1 of the pattern
/// matched.
#[derive(Debug, Clone)]
pub struct TextField {
    pub name: String,
    pub regex: String,
}

/// A template: the patterns that decide whether it applies to a message, and
/// the fields to read from the message where it does.
#[derive(Debug)]
pub struct EmailTemplate {
    pub subject: Option<String>,
    pub body: Option<String>,
    pub date_time_field_formats: Vec<DateTimeField>,
    pub text_field_formats: Option<Vec<TextField>>,
}

/// The whole configuration.
#[derive(Debug)]
pub struct Config {
    pub username: String,
    pub password: String,
    pub imap_server: String,
    pub imap_port: u16,
    pub data_store: String,
    pub email_templates: Vec<EmailTemplate>,
}

/// Every pattern of `formats` is a regular expression.
pub open spec fn date_time_fields_well_formed(formats: Seq<DateTimeField>) -> bool {
    forall|i: int| 0 <= i < formats.len() ==> (#[trigger] formats[i]).well_formed()
}

/// Every pattern of `fields` is a regular expression.
pub open spec fn text_fields_well_formed(fields: Seq<TextField>) -> bool {
    forall|i: int| 0 <= i < fields.len() ==> (#[trigger] fields[i]).well_formed()
}

impl DateTimeField {
    /// The pattern is a regular expression.
    pub open spec fn well_formed(&self) -> bool {
        compiles(self.regex@)
    }

    /// The index of the group that holds the second: group 0, the whole
    /// match, where none is configured.
    pub open spec fn second_index(&self) -> usize {
        match self.second_group {
            Some(index) => index,
            None => 0,
        }
    }

    /// Tests `well_formed`.
    pub fn check(&self) -> (ok: bool)
        ensures
            ok == self.well_formed(),
    {
        valid_pattern(self.regex.as_str())
    }
}

impl TextField {
    /// The pattern is a regular expression.
    pub open spec fn well_formed(&self) -> bool {
        compiles(self.regex@)
    }

    /// Tests `well_formed`.
    pub fn check(&self) -> (ok: bool)
        ensures
            ok == self.well_formed(),
    {
        valid_pattern(self.regex.as_str())
    }
}

impl EmailTemplate {
    /// The text fields of the template: none where it names none.
    pub open spec fn text_fields(&self) -> Seq<TextField> {
        match self.text_field_formats {
            Some(fields) => fields@,
            None => Seq::empty(),
        }
    }

    /// Every pattern of the template is a regular expression.
    pub open spec fn well_formed(&self) -> bool {
        &&& self.subject matches Some(pattern) ==> compiles(pattern@)
        &&& self.body matches Some(pattern) ==> compiles(pattern@)
        &&& date_time_fields_well_formed(self.date_time_field_formats@)
        &&& text_fields_well_formed(self.text_fields())
    }

    /// Tests `well_formed`.
    pub fn check(&self) -> (ok: bool)
        ensures
            ok == self.well_formed(),
    {
        if let Some(pattern) = &self.subject {
            if !valid_pattern(pattern.as_str()) {
                return false;
            }
        }
        if let Some(pattern) = &self.body {
            if !valid_pattern(pattern.as_str()) {
                return false;
            }
        }
        let mut i: usize = 0;
        while i < self.date_time_field_formats.len()
            invariant
                i <= self.date_time_field_formats.len(),
                forall|j: int|
                    0 <= j < i ==> (#[trigger] self.date_time_field_formats@[j]).well_formed(),
            decreases self.date_time_field_formats.len() - i,
        {
            if !self.date_time_field_formats[i].check() {
                return false;
            }
            i += 1;
        }
        if let Some(fields) = &self.text_field_formats {
            let mut k: usize = 0;
            while k < fields.len()
                invariant
                    k <= fields.len(),
                    self.text_fields() == fields@,
                    forall|j: int| 0 <= j < k ==> (#[trigger] fields@[j]).well_formed(),
                decreases fields.len() - k,
            {
                if !fields[k].check() {
                    assert(!self.text_fields()[k as int].well_formed());
                    return false;
                }
                k += 1;
            }
        }
        true
    }
}

impl Config {
    /// Every pattern of every template is a regular expression.
    pub open spec fn well_formed(&self) -> bool {
        forall|i: int|
            0 <= i < self.email_templates.len() ==> (#[trigger] self.email_templates[i]).well_formed()
    }

    /// Tests `well_formed`.
    pub fn check(&self) -> (ok: bool)
        ensures
            ok == self.well_formed(),
    {
        let mut i: usize = 0;
        while i < self.email_templates.len()
            invariant
                i <= self.email_templates.len(),
                forall|j: int| 0 <= j < i ==> (#[trigger] self.email_templates[j]).well_formed(),
            decreases self.email_templates.len() - i,
        {
            if !self.email_templates[i].check() {
                return false;
            }
            i += 1;
        }
        true
    }
}

} // verus!
