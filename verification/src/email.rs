//! Messages, and how one is put together from the header and the text that
//! the mail server hands out.

use crate::text::{
    contains_text, find, find_char, has_prefix, has_text, push_chars, starts_with,
    to_chars, trim_bounds, trimmed,
};
use base64::engine::general_purpose;
use base64::{DecodeError, Engine};
use std::string::FromUtf8Error;
use vstd::prelude::*;
use vstd::utf8::{decode_utf8, encode_utf8, valid_utf8};

verus! {

/// The error of `base64::Engine::decode`.
#[verifier::external_type_specification]
#[verifier::external_body]
pub struct ExDecodeError(DecodeError);

/// The error of `String::from_utf8`.
#[verifier::external_type_specification]
#[verifier::external_body]
pub struct ExFromUtf8Error(FromUtf8Error);

/// `String::from_utf8` gives the string that the bytes encode, where they
/// are valid UTF-8, and an error where they are not.
pub assume_specification[ String::from_utf8 ](vec: Vec<u8>) -> (r: Result<String, FromUtf8Error>)
    ensures
        r is Ok <==> valid_utf8(vec@),
        r matches Ok(s) ==> s@ == decode_utf8(vec@),
;

/// What `base64::Engine::decode` gives for `input` with the engine
/// `general_purpose::STANDARD`: the decoded bytes, or nothing where the
/// engine rejects the input.
pub uninterp spec fn standard_decoded(input: Seq<u8>) -> Option<Seq<u8>>;

/// `base64::Engine::decode` with the engine `general_purpose::STANDARD`.
#[verifier::external_body]
fn standard_decode(input: &[u8]) -> (r: Result<Vec<u8>, DecodeError>)
    ensures
        match r {
            Ok(bytes) => standard_decoded(input@) == Some(bytes@),
            Err(_) => standard_decoded(input@) is None,
        },
{
    general_purpose::STANDARD.decode(input)
}

/// How the text of a message is encoded for transfer.
#[derive(Eq, PartialEq, Debug)]
pub enum TransferEncoding {
    Base64,
    Plain,
}

/// A message: its subject line and its body.
#[derive(Eq, PartialEq, Debug, Clone)]
pub struct Email {
    pub subject: String,
    pub body: String,
}

/// The value of a header line: what stands between its first colon and the
/// next one, or the end of the line, without the white space around it.
/// A line without a colon has none.
pub open spec fn field_value(line: Seq<char>) -> Option<Seq<char>> {
    let colon = find(line, ':');
    if 0 <= colon < line.len() {
        let rest = line.skip(colon + 1);
        Some(trimmed(rest.take(find(rest, ':'))))
    } else {
        None
    }
}

/// The subject read so far, and whether the line before was part of it,
/// after one more line of the header. A line that begins with `Subject`
/// gives its value; a line after it that begins with a space continues it.
pub open spec fn subject_step(state: (Seq<char>, bool), line: Seq<char>) -> (Seq<char>, bool) {
    if starts_with(line, "Subject"@) {
        match field_value(line) {
            Some(value) => (state.0 + value, true),
            None => state,
        }
    } else if state.1 && starts_with(line, " "@) {
        (state.0 + trimmed(line), true)
    } else {
        (state.0, false)
    }
}

/// The subject after the lines of `header`, which a line feed parts, have
/// been read one after the other from `state`.
pub open spec fn subject_from(header: Seq<char>, state: (Seq<char>, bool)) -> Seq<char>
    decreases header.len(),
{
    let end = find(header, '\n');
    let next = subject_step(state, header.take(end));
    if 0 <= end < header.len() {
        subject_from(header.skip(end + 1), next)
    } else {
        next.0
    }
}

/// The subject that `header` gives.
pub open spec fn subject_of(header: Seq<char>) -> Seq<char> {
    subject_from(header, (Seq::empty(), false))
}

/// The transfer encoding named so far, after one more line of the header: a
/// line that begins with `Content-Transfer-Encoding` and has a value names
/// it.
pub open spec fn encoding_step(named: Seq<char>, line: Seq<char>) -> Seq<char> {
    if starts_with(line, "Content-Transfer-Encoding"@) {
        match field_value(line) {
            Some(value) => value,
            None => named,
        }
    } else {
        named
    }
}

/// The transfer encoding named after the lines of `header` have been read
/// one after the other from `named`.
pub open spec fn encoding_from(header: Seq<char>, named: Seq<char>) -> Seq<char>
    decreases header.len(),
{
    let end = find(header, '\n');
    let next = encoding_step(named, header.take(end));
    if 0 <= end < header.len() {
        encoding_from(header.skip(end + 1), next)
    } else {
        next
    }
}

/// The transfer encoding that `header` asks for: base64 where the last
/// encoding that it names holds the word, plain otherwise.
pub open spec fn transfer_encoding_of(header: Seq<char>) -> TransferEncoding {
    if contains_text(encoding_from(header, "plain"@), "base64"@) {
        TransferEncoding::Base64
    } else {
        TransferEncoding::Plain
    }
}

/// The bounds of the value of the header line `chars[from..to]`.
fn field_bounds(chars: &Vec<char>, from: usize, to: usize) -> (r: Option<(usize, usize)>)
    requires
        from <= to <= chars.len(),
    ensures
        match field_value(chars@.subrange(from as int, to as int)) {
            Some(value) => r matches Some(bounds) && from <= bounds.0 <= bounds.1 <= to
                && chars@.subrange(bounds.0 as int, bounds.1 as int) == value,
            None => r is None,
        },
{
    let ghost line = chars@.subrange(from as int, to as int);
    let colon = find_char(chars, from, to, ':');
    if colon == to {
        return None;
    }
    let next = find_char(chars, colon + 1, to, ':');
    proof {
        let rest = line.skip(colon - from + 1);
        assert(rest =~= chars@.subrange(colon + 1, to as int));
        assert(rest.take(next - (colon + 1)) =~= chars@.subrange(colon + 1, next as int));
    }
    Some(trim_bounds(chars, colon + 1, next))
}

/// The subject line of a message, from its header.
pub fn get_subject_from_header(header: &str) -> (subject: String)
    ensures
        subject@ == subject_of(header@),
{
    let chars = to_chars(header);
    let name = to_chars("Subject");
    let space = to_chars(" ");
    let mut subject = String::new();
    let mut in_subject = false;
    let mut start: usize = 0;
    assert(chars@.skip(0) =~= chars@);
    loop
        invariant
            start <= chars.len(),
            chars@ == header@,
            name@ == "Subject"@,
            space@ == " "@,
            subject_of(header@) == subject_from(chars@.skip(start as int), (subject@, in_subject)),
        decreases chars.len() - start,
    {
        let ghost rest = chars@.skip(start as int);
        let end = find_char(&chars, start, chars.len(), '\n');
        proof {
            assert(rest =~= chars@.subrange(start as int, chars.len() as int));
            assert(rest.take(end - start) =~= chars@.subrange(start as int, end as int));
            if end < chars.len() {
                assert(rest.skip(end - start + 1) =~= chars@.skip(end + 1));
            }
        }
        if has_prefix(&chars, start, end, &name) {
            if let Some((from, to)) = field_bounds(&chars, start, end) {
                push_chars(&mut subject, &chars, from, to);
                in_subject = true;
            }
        } else if in_subject && has_prefix(&chars, start, end, &space) {
            let (from, to) = trim_bounds(&chars, start, end);
            push_chars(&mut subject, &chars, from, to);
        } else {
            in_subject = false;
        }
        if end == chars.len() {
            return subject;
        }
        start = end + 1;
    }
}

/// The transfer encoding that the header of a message asks for.
pub fn get_content_transfer_encoding_from_header(header: &str) -> (encoding: TransferEncoding)
    ensures
        encoding == transfer_encoding_of(header@),
{
    let chars = to_chars(header);
    let name = to_chars("Content-Transfer-Encoding");
    let plain = to_chars("plain");
    let word = to_chars("base64");
    // where the encoding named last stands: in `chars`, or else it is `plain`
    let mut named: Option<(usize, usize)> = None;
    let mut start: usize = 0;
    assert(chars@.skip(0) =~= chars@);
    loop
        invariant
            start <= chars.len(),
            chars@ == header@,
            name@ == "Content-Transfer-Encoding"@,
            plain@ == "plain"@,
            word@ == "base64"@,
            named matches Some(bounds) ==> bounds.0 <= bounds.1 <= chars.len(),
            encoding_from(header@, "plain"@) == encoding_from(
                chars@.skip(start as int),
                match named {
                    Some(bounds) => chars@.subrange(bounds.0 as int, bounds.1 as int),
                    None => "plain"@,
                },
            ),
        decreases chars.len() - start,
    {
        let ghost rest = chars@.skip(start as int);
        let end = find_char(&chars, start, chars.len(), '\n');
        proof {
            assert(rest =~= chars@.subrange(start as int, chars.len() as int));
            assert(rest.take(end - start) =~= chars@.subrange(start as int, end as int));
            if end < chars.len() {
                assert(rest.skip(end - start + 1) =~= chars@.skip(end + 1));
            }
        }
        if has_prefix(&chars, start, end, &name) {
            if let Some(bounds) = field_bounds(&chars, start, end) {
                named = Some(bounds);
            }
        }
        if end == chars.len() {
            let base64 = match named {
                Some(bounds) => has_text(&chars, bounds.0, bounds.1, &word),
                None => {
                    assert(plain@.subrange(0, plain@.len() as int) =~= plain@);
                    has_text(&plain, 0, plain.len(), &word)
                },
            };
            return if base64 {
                TransferEncoding::Base64
            } else {
                TransferEncoding::Plain
            };
        }
        start = end + 1;
    }
}

/// `input` without its line feeds, carriage returns and spaces.
pub open spec fn unwrapped(input: Seq<char>) -> Seq<char>
    decreases input.len(),
{
    if input.len() == 0 {
        input
    } else if input.last() == '\n' || input.last() == '\r' || input.last() == ' ' {
        unwrapped(input.drop_last())
    } else {
        unwrapped(input.drop_last()).push(input.last())
    }
}

/// The text that `input` holds in base64: what its characters other than
/// line feeds, carriage returns and spaces decode to, read as UTF-8. There
/// is none where they are no base64, or the bytes are no UTF-8.
pub open spec fn decoded_text(input: Seq<char>) -> Option<Seq<char>> {
    match standard_decoded(encode_utf8(unwrapped(input))) {
        Some(bytes) => if valid_utf8(bytes) {
            Some(decode_utf8(bytes))
        } else {
            None
        },
        None => None,
    }
}

/// The message that a header and a text give. Its subject is that of the
/// header. Its body is the text, decoded where the header asks for base64.
/// There is no message where the text cannot be decoded.
pub open spec fn message_of(header: Seq<char>, text: Seq<char>) -> Option<(Seq<char>, Seq<char>)> {
    match transfer_encoding_of(header) {
        TransferEncoding::Base64 => match decoded_text(text) {
            Some(body) => Some((subject_of(header), body)),
            None => None,
        },
        TransferEncoding::Plain => Some((subject_of(header), text)),
    }
}

/// Decodes a text that is written in base64 and broken into lines.
pub fn decode_base64(input: &str) -> (text: Option<String>)
    ensures
        text.deep_view() == decoded_text(input@),
{
    let mut packed = String::new();
    for c in it: input.chars()
        invariant
            it.seq() == input@,
            packed@ == unwrapped(input@.take(it.index() as int)),
    {
        assert(input@.take(it.index() + 1).drop_last() =~= input@.take(it.index() as int));
        if c != '\n' && c != '\r' && c != ' ' {
            packed.push(c);
        }
    }
    assert(input@.take(input@.len() as int) =~= input@);
    match standard_decode(packed.as_str().as_bytes()) {
        Ok(bytes) => match String::from_utf8(bytes) {
            Ok(text) => Some(text),
            Err(_) => None,
        },
        Err(_) => None,
    }
}

impl Email {
    /// The message that the header and the text of a fetched message give,
    /// if the text can be decoded.
    pub fn from_parts(header: &str, text: &str) -> (message: Option<Email>)
        ensures
            match message_of(header@, text@) {
                Some(parts) => message matches Some(email) && email.subject@ == parts.0
                    && email.body@ == parts.1,
                None => message is None,
            },
    {
        let body = match get_content_transfer_encoding_from_header(header) {
            TransferEncoding::Base64 => decode_base64(text)?,
            TransferEncoding::Plain => text.to_owned(),
        };
        let subject = get_subject_from_header(header);
        Some(Email { subject, body })
    }
}

} // verus!
