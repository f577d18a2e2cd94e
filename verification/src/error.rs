//! Error types shared by every record builder: protocol errors (a mandatory
//! field is absent), parse errors (a field's text does not convert), and
//! transport errors handed through from the line source.

use vstd::prelude::*;

verus! {

/// A required field was absent from the input; carries the field's name.
#[derive(Debug, Clone, PartialEq)]
pub enum ProtoError {
    NoField(String),
}

/// A present field's text failed to convert; carries the field's name and the
/// raw text. A timestamp that fails its fixed pattern is reported apart from
/// a generic numeric failure.
#[derive(Debug, Clone, PartialEq)]
pub enum ParseError {
    BadInteger { field: String, text: String },
    BadTime { field: String, text: String },
}

/// The single failure channel every builder reports through. Transport errors
/// originate in the line source and are propagated verbatim, never retried.
#[derive(Debug, Clone, PartialEq)]
pub enum Error {
    Proto(ProtoError),
    Parse(ParseError),
    Transport(String),
}

/// Mathematical image of an [`Error`]: the same cases over `Seq<char>`.
pub enum ErrS {
    NoField(Seq<char>),
    BadInteger(Seq<char>, Seq<char>),
    BadTime(Seq<char>, Seq<char>),
    Transport(Seq<char>),
}

impl View for ParseError {
    type V = ErrS;

    open spec fn view(&self) -> ErrS {
        match self {
            ParseError::BadInteger { field, text } => ErrS::BadInteger(field@, text@),
            ParseError::BadTime { field, text } => ErrS::BadTime(field@, text@),
        }
    }
}

impl View for Error {
    type V = ErrS;

    open spec fn view(&self) -> ErrS {
        match self {
            Error::Proto(ProtoError::NoField(f)) => ErrS::NoField(f@),
            Error::Parse(ParseError::BadInteger { field, text }) => ErrS::BadInteger(
                field@,
                text@,
            ),
            Error::Parse(ParseError::BadTime { field, text }) => ErrS::BadTime(field@, text@),
            Error::Transport(t) => ErrS::Transport(t@),
        }
    }
}

pub(crate) fn bad_int(field: &str, text: String) -> (e: Error)
    ensures
        e@ == ErrS::BadInteger(field@, text@),
{
    Error::Parse(ParseError::BadInteger { field: field.to_owned(), text })
}

pub(crate) fn bad_time(field: &str, text: String) -> (e: Error)
    ensures
        e@ == ErrS::BadTime(field@, text@),
{
    Error::Parse(ParseError::BadTime { field: field.to_owned(), text })
}

pub(crate) fn no_field(field: &str) -> (e: Error)
    ensures
        e@ == ErrS::NoField(field@),
{
    Error::Proto(ProtoError::NoField(field.to_owned()))
}

} // verus!
