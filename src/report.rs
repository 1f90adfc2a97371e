//! Outcomes turned into either their value or the message that reports
//! their failure.
use vstd::prelude::*;
use vstd::string::*;
use crate::record::ParseError;
use crate::table::TableError;

verus! {

pub open spec fn with_reason(msg: Seq<char>, reason: Seq<char>) -> Seq<char> {
    msg + ": "@ + reason
}

impl ParseError {
    /// What the error says: the line or word that could not be read.
    pub fn describe(&self) -> (s: String)
        ensures
            s@ == "invalid record: "@ + self.text@,
    {
        let mut s = "invalid record: ".to_owned();
        s.append(self.text.as_str());
        s
    }
}

impl TableError {
    pub open spec fn description(&self) -> Seq<char> {
        match self {
            TableError::UnknownColumn(c) => "no column named "@ + c@,
            TableError::DuplicateColumn(c) => "a column is already named "@ + c@,
            TableError::RecordNotFound(t) => "no record titled or with id "@ + t@,
        }
    }

    /// What the error says, with the name or text at fault.
    pub fn describe(&self) -> (s: String)
        ensures
            s@ == self.description(),
    {
        let (mut s, what) = match self {
            TableError::UnknownColumn(c) => ("no column named ".to_owned(), c),
            TableError::DuplicateColumn(c) => ("a column is already named ".to_owned(), c),
            TableError::RecordNotFound(t) => ("no record titled or with id ".to_owned(), t),
        };
        s.append(what.as_str());
        s
    }
}

fn join_reason(msg: &str, reason: &str) -> (s: String)
    ensures
        s@ == with_reason(msg@, reason@),
{
    let mut s = msg.to_owned();
    s.append(": ");
    s.append(reason);
    s
}

/// Hands back the value of an outcome, or the message that reports why
/// there is none: `msg`, followed by the error's own words where it has any.
pub trait CleanFail<T>: Sized {
    fn fail(self, msg: &str) -> Result<T, String>;
}

impl<T> CleanFail<T> for Option<T> {
    fn fail(self, msg: &str) -> (r: Result<T, String>)
        ensures
            match self {
                Some(t) => r == Ok::<T, String>(t),
                None => r is Err && r->Err_0@ == msg@,
            },
    {
        match self {
            Some(t) => Ok(t),
            None => Err(msg.to_owned()),
        }
    }
}

impl<T> CleanFail<T> for Result<T, ParseError> {
    fn fail(self, msg: &str) -> (r: Result<T, String>)
        ensures
            match self {
                Ok(t) => r == Ok::<T, String>(t),
                Err(e) => r is Err && r->Err_0@ == with_reason(msg@, "invalid record: "@ + e.text@),
            },
    {
        match self {
            Ok(t) => Ok(t),
            Err(e) => Err(join_reason(msg, e.describe().as_str())),
        }
    }
}

impl<T> CleanFail<T> for Result<T, TableError> {
    fn fail(self, msg: &str) -> (r: Result<T, String>)
        ensures
            match self {
                Ok(t) => r == Ok::<T, String>(t),
                Err(e) => r is Err && r->Err_0@ == with_reason(msg@, e.description()),
            },
    {
        match self {
            Ok(t) => Ok(t),
            Err(e) => Err(join_reason(msg, e.describe().as_str())),
        }
    }
}

} // verus!
