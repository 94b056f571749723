//! The error type of the database around the parser.

use vstd::prelude::*;
use crate::text::{message, chars_of};

verus! {

#[verifier::external_type_specification]
#[verifier::external_body]
pub struct ExIoError(std::io::Error);

/// The text that `{:?}` writes for a string: quoted, with escapes.
pub uninterp spec fn debug_of(s: Seq<char>) -> Seq<char>;

/// Relies on `<str as Debug>::fmt`: the text depends on the string alone.
#[verifier::external_body]
fn debug_text(s: &String) -> (r: String)
    ensures
        r@ == debug_of(s@),
{
    format!("{:?}", s)
}

/// Relies on `<std::io::Error as Debug>::fmt`, of which nothing is stated:
/// the text may hold a message of the operating system.
#[verifier::external_body]
fn io_debug_text(e: &std::io::Error) -> String {
    format!("{:?}", e)
}

/// Errors of the database: failed I/O, a query that does not parse, and an
/// entity created twice.
#[derive(Debug)]
pub enum Error {
    Io(std::io::Error),
    QueryFormat(String),
    EntityAlreadyCreated(String),
}

impl Error {
    /// The text shown to a user.
    pub fn to_text(&self) -> (r: String)
        ensures
            self matches Error::QueryFormat(s) ==> r@ == debug_of(s@),
            self matches Error::EntityAlreadyCreated(e) ==> r@ == "Entity `"@ + e@
                + "` already created"@,
    {
        match self {
            Error::QueryFormat(s) => debug_text(s),
            Error::Io(e) => io_debug_text(e),
            Error::EntityAlreadyCreated(e) => message("Entity `", &chars_of(e.as_str()), "` already created"),
        }
    }
}

impl From<std::io::Error> for Error {
    fn from(error: std::io::Error) -> (r: Error)
        ensures
            r == Error::Io(error),
    {
        Error::Io(error)
    }
}

impl vstd::std_specs::convert::FromSpecImpl<std::io::Error> for Error {
    open spec fn obeys_from_spec() -> bool {
        true
    }

    open spec fn from_spec(v: std::io::Error) -> Error {
        Error::Io(v)
    }
}

} // verus!
