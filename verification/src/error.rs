//! Errors reported by the JSON reader and the response decoders.
use vstd::prelude::*;

use crate::text::push_char;

verus! {

/// Which part of a response a decoding error refers to.
#[derive(Debug, Clone, Copy, PartialEq, Eq, Structural)]
pub enum Section {
    Stations,
    Genre,
    Tags,
    History,
}

/// Which response a missing `result` object was expected in.
#[derive(Debug, Clone, Copy, PartialEq, Eq, Structural)]
pub enum Response {
    Stations,
    History,
}

/// An error of the JSON reader or of the decoders.
#[derive(Debug)]
pub enum Error {
    /// The input ended where a value was expected.
    UnexpectedEnd,
    /// A value started with a character that starts no JSON value.
    UnexpectedToken(char),
    /// Something other than whitespace follows the document.
    TrailingInput,
    /// A required character was missing (`None`: the input ended).
    Expected(char, Option<char>),
    UnterminatedString,
    UnterminatedEscape,
    InvalidEscape(char),
    UnterminatedUnicodeEscape,
    InvalidUnicodeEscape,
    MissingLowSurrogate,
    InvalidSurrogatePair,
    /// The text of a number that is not a decimal literal.
    InvalidNumber(String),
    /// The response has no `result` object.
    MissingResult(Response),
    /// The `result` object lacks the named list.
    MissingList(Section),
    /// The named list is not a JSON array.
    NotAList(Section),
    /// A record lacks the named string field.
    MissingString(String),
    /// A record lacks the named integer field.
    MissingInteger(String),
}

/// The abstract form of an [`Error`]: texts as character sequences.
pub enum Fault {
    UnexpectedEnd,
    UnexpectedToken(char),
    TrailingInput,
    Expected(char, Option<char>),
    UnterminatedString,
    UnterminatedEscape,
    InvalidEscape(char),
    UnterminatedUnicodeEscape,
    InvalidUnicodeEscape,
    MissingLowSurrogate,
    InvalidSurrogatePair,
    InvalidNumber(Seq<char>),
    MissingResult(Response),
    MissingList(Section),
    NotAList(Section),
    MissingString(Seq<char>),
    MissingInteger(Seq<char>),
}

impl View for Error {
    type V = Fault;

    open spec fn view(&self) -> Fault {
        match self {
            Error::UnexpectedEnd => Fault::UnexpectedEnd,
            Error::UnexpectedToken(c) => Fault::UnexpectedToken(*c),
            Error::TrailingInput => Fault::TrailingInput,
            Error::Expected(c, f) => Fault::Expected(*c, *f),
            Error::UnterminatedString => Fault::UnterminatedString,
            Error::UnterminatedEscape => Fault::UnterminatedEscape,
            Error::InvalidEscape(c) => Fault::InvalidEscape(*c),
            Error::UnterminatedUnicodeEscape => Fault::UnterminatedUnicodeEscape,
            Error::InvalidUnicodeEscape => Fault::InvalidUnicodeEscape,
            Error::MissingLowSurrogate => Fault::MissingLowSurrogate,
            Error::InvalidSurrogatePair => Fault::InvalidSurrogatePair,
            Error::InvalidNumber(t) => Fault::InvalidNumber(t@),
            Error::MissingResult(r) => Fault::MissingResult(*r),
            Error::MissingList(s) => Fault::MissingList(*s),
            Error::NotAList(s) => Fault::NotAList(*s),
            Error::MissingString(k) => Fault::MissingString(k@),
            Error::MissingInteger(k) => Fault::MissingInteger(k@),
        }
    }
}

/// The message that tells a user what went wrong.
pub open spec fn fault_message(f: Fault) -> Seq<char> {
    match f {
        Fault::UnexpectedEnd => "unexpected end of JSON input"@,
        Fault::UnexpectedToken(c) => "unexpected JSON token: "@.push(c),
        Fault::TrailingInput => "unexpected trailing JSON input"@,
        Fault::Expected(c, found) => match found {
            Some(g) => ("expected '"@.push(c) + "', got '"@).push(g).push('\''),
            None => "expected '"@.push(c) + "', got EOF"@,
        },
        Fault::UnterminatedString => "unterminated JSON string"@,
        Fault::UnterminatedEscape => "unterminated JSON escape"@,
        Fault::InvalidEscape(c) => "invalid JSON escape: "@.push(c),
        Fault::UnterminatedUnicodeEscape => "unterminated Unicode escape"@,
        Fault::InvalidUnicodeEscape => "invalid Unicode escape"@,
        Fault::MissingLowSurrogate => "high Unicode surrogate is missing a low surrogate"@,
        Fault::InvalidSurrogatePair => "invalid Unicode surrogate pair"@,
        Fault::InvalidNumber(t) => "invalid JSON number: "@ + t,
        Fault::MissingResult(Response::Stations) => "missing result object in stations response"@,
        Fault::MissingResult(Response::History) => "missing result object in history response"@,
        Fault::MissingList(Section::Stations) => "missing stations array"@,
        Fault::MissingList(Section::Genre) => "missing genre array"@,
        Fault::MissingList(Section::Tags) => "missing tags array"@,
        Fault::MissingList(Section::History) => "missing history array"@,
        Fault::NotAList(Section::Stations) => "expected stations to be an array"@,
        Fault::NotAList(Section::History) => "expected history to be an array"@,
        Fault::NotAList(_) => "expected genre list to be an array"@,
        Fault::MissingString(k) => "missing string field: "@ + k,
        Fault::MissingInteger(k) => "missing integer field: "@ + k,
    }
}

impl Error {
    /// The message of this error, as it is shown to the user.
    pub fn message(&self) -> (r: String)
        ensures
            r@ == fault_message(self@),
    {
        match self {
            Error::UnexpectedEnd => "unexpected end of JSON input".to_owned(),
            Error::UnexpectedToken(c) => {
                let mut s = "unexpected JSON token: ".to_owned();
                push_char(&mut s, *c);
                s
            },
            Error::TrailingInput => "unexpected trailing JSON input".to_owned(),
            Error::Expected(c, found) => {
                let mut s = "expected '".to_owned();
                push_char(&mut s, *c);
                match found {
                    Some(g) => {
                        s.append("', got '");
                        push_char(&mut s, *g);
                        push_char(&mut s, '\'');
                    },
                    None => s.append("', got EOF"),
                }
                s
            },
            Error::UnterminatedString => "unterminated JSON string".to_owned(),
            Error::UnterminatedEscape => "unterminated JSON escape".to_owned(),
            Error::InvalidEscape(c) => {
                let mut s = "invalid JSON escape: ".to_owned();
                push_char(&mut s, *c);
                s
            },
            Error::UnterminatedUnicodeEscape => "unterminated Unicode escape".to_owned(),
            Error::InvalidUnicodeEscape => "invalid Unicode escape".to_owned(),
            Error::MissingLowSurrogate => "high Unicode surrogate is missing a low surrogate".to_owned(),
            Error::InvalidSurrogatePair => "invalid Unicode surrogate pair".to_owned(),
            Error::InvalidNumber(t) => "invalid JSON number: ".to_owned().concat(t.as_str()),
            Error::MissingResult(Response::Stations) => "missing result object in stations response".to_owned(),
            Error::MissingResult(Response::History) => "missing result object in history response".to_owned(),
            Error::MissingList(Section::Stations) => "missing stations array".to_owned(),
            Error::MissingList(Section::Genre) => "missing genre array".to_owned(),
            Error::MissingList(Section::Tags) => "missing tags array".to_owned(),
            Error::MissingList(Section::History) => "missing history array".to_owned(),
            Error::NotAList(Section::Stations) => "expected stations to be an array".to_owned(),
            Error::NotAList(Section::History) => "expected history to be an array".to_owned(),
            Error::NotAList(_) => "expected genre list to be an array".to_owned(),
            Error::MissingString(k) => "missing string field: ".to_owned().concat(k.as_str()),
            Error::MissingInteger(k) => "missing integer field: ".to_owned().concat(k.as_str()),
        }
    }
}

} // verus!
