//! The error taxonomy: load errors for malformed or inconsistent content,
//! reported before play ever starts, and internal errors for broken
//! invariants. Several independent failures can be aggregated into one
//! composite report.

use vstd::prelude::*;

use crate::story::PageID;
use crate::variable::{ValueV, VarType, Variable};

verus! {

/// The kind of file an error originated in.
#[derive(Debug, Clone, Copy, PartialEq, Eq, Structural)]
pub enum Doctype {
    /// The settings file.
    Settings,
    /// A story file.
    Story,
}

/// A programmer error: a broken internal invariant, not a content error.
#[derive(Debug)]
pub enum InternalError {
    /// A described invariant violation.
    Msg(String),
    /// A path missing a required attribute, named by the attribute.
    PathAttr(String),
}

/// The crate's error type.
#[derive(Debug)]
pub enum Error {
    /// A plain message.
    Message(String),
    /// Something expected was missing.
    Expected(String),
    /// Something unexpected appeared.
    Unexpected(String),
    /// A page ID was used that the settings do not declare.
    UndeclaredPageID(PageID),
    /// A variable was referenced that the settings do not declare.
    UndeclaredVariable(String),
    /// An item was referenced that the settings do not declare.
    UndeclaredItem(String),
    /// A literal value's tag does not match the expected tag.
    BadValueType { value: Variable, expected: VarType },
    /// A variable of one tag was used where another tag is required.
    BadVariableType { var_name: String, var_type: VarType, expected: VarType },
    /// A file could not be read.
    ReadError { doctype: Doctype, path: String },
    /// A file could not be parsed.
    ParseError { doctype: Doctype, path: String, message: String },
    /// A programmer error.
    Internal(InternalError),
    /// An input/output failure, described in text.
    IO(String),
    /// Several independent errors aggregated into one report; never empty.
    Errors(Vec<Error>),
}

/// The mathematical form of an [`Error`]: variant and payload, with text as
/// character sequences.
pub enum ErrorV {
    Message(Seq<char>),
    Expected(Seq<char>),
    Unexpected(Seq<char>),
    UndeclaredPageID(Seq<char>),
    UndeclaredVariable(Seq<char>),
    UndeclaredItem(Seq<char>),
    BadValueType { value: ValueV, expected: VarType },
    BadVariableType { var_name: Seq<char>, var_type: VarType, expected: VarType },
    ReadError { doctype: Doctype, path: Seq<char> },
    ParseError { doctype: Doctype, path: Seq<char>, message: Seq<char> },
    InternalMsg(Seq<char>),
    InternalPathAttr(Seq<char>),
    IO(Seq<char>),
    Errors(Seq<ErrorV>),
}

/// The mathematical form of a list of errors.
pub open spec fn errors_view(s: Seq<Error>) -> Seq<ErrorV>
    decreases s,
{
    if s.len() == 0 {
        Seq::empty()
    } else {
        seq![error_view(s[0])] + errors_view(s.drop_first())
    }
}

/// The mathematical form of an error.
pub open spec fn error_view(e: Error) -> ErrorV
    decreases e,
{
    match e {
        Error::Message(s) => ErrorV::Message(s@),
        Error::Expected(s) => ErrorV::Expected(s@),
        Error::Unexpected(s) => ErrorV::Unexpected(s@),
        Error::UndeclaredPageID(id) => ErrorV::UndeclaredPageID(id@),
        Error::UndeclaredVariable(s) => ErrorV::UndeclaredVariable(s@),
        Error::UndeclaredItem(s) => ErrorV::UndeclaredItem(s@),
        Error::BadValueType { value, expected } => ErrorV::BadValueType {
            value: value@,
            expected,
        },
        Error::BadVariableType { var_name, var_type, expected } => ErrorV::BadVariableType {
            var_name: var_name@,
            var_type,
            expected,
        },
        Error::ReadError { doctype, path } => ErrorV::ReadError { doctype, path: path@ },
        Error::ParseError { doctype, path, message } => ErrorV::ParseError {
            doctype,
            path: path@,
            message: message@,
        },
        Error::Internal(InternalError::Msg(s)) => ErrorV::InternalMsg(s@),
        Error::Internal(InternalError::PathAttr(s)) => ErrorV::InternalPathAttr(s@),
        Error::IO(s) => ErrorV::IO(s@),
        Error::Errors(es) => ErrorV::Errors(errors_view(es@)),
    }
}

impl View for Error {
    type V = ErrorV;

    open spec fn view(&self) -> ErrorV {
        error_view(*self)
    }
}

impl Error {
    /// Builds a plain message error.
    pub fn message(s: &str) -> (e: Error)
        ensures
            e@ == ErrorV::Message(s@),
    {
        Error::Message(s.to_string())
    }

    /// Builds an error for something expected but missing.
    pub fn expected(s: &str) -> (e: Error)
        ensures
            e@ == ErrorV::Expected(s@),
    {
        Error::Expected(s.to_string())
    }

    /// Builds an error for something unexpected.
    pub fn unexpected(s: &str) -> (e: Error)
        ensures
            e@ == ErrorV::Unexpected(s@),
    {
        Error::Unexpected(s.to_string())
    }

    /// Builds an undeclared-page error.
    pub fn undeclared_page_id(s: &String) -> (e: Error)
        ensures
            e@ == ErrorV::UndeclaredPageID(s@),
    {
        Error::UndeclaredPageID(s.clone())
    }

    /// Builds an undeclared-variable error.
    pub fn undeclared_variable(s: &String) -> (e: Error)
        ensures
            e@ == ErrorV::UndeclaredVariable(s@),
    {
        Error::UndeclaredVariable(s.clone())
    }

    /// Builds an undeclared-item error.
    pub fn undeclared_item(s: &String) -> (e: Error)
        ensures
            e@ == ErrorV::UndeclaredItem(s@),
    {
        Error::UndeclaredItem(s.clone())
    }

    /// Builds an error for a literal of the wrong tag.
    pub fn bad_value_type(value: &Variable, expected: VarType) -> (e: Error)
        ensures
            e@ == (ErrorV::BadValueType { value: value@, expected }),
    {
        Error::BadValueType { value: crate::variable::clone_variable(value), expected }
    }

    /// Builds an error for a variable of the wrong tag.
    pub fn bad_variable_type(var_name: &String, var_type: VarType, expected: VarType) -> (e: Error)
        ensures
            e@ == (ErrorV::BadVariableType { var_name: var_name@, var_type, expected }),
    {
        Error::BadVariableType { var_name: var_name.clone(), var_type, expected }
    }

    /// Builds a read-failure error.
    pub fn read_error(doctype: Doctype, path: &str) -> (e: Error)
        ensures
            e@ == (ErrorV::ReadError { doctype, path: path@ }),
    {
        Error::ReadError { doctype, path: path.to_string() }
    }

    /// Builds a parse-failure error.
    pub fn parse_error(doctype: Doctype, path: &str, message: &str) -> (e: Error)
        ensures
            e@ == (ErrorV::ParseError { doctype, path: path@, message: message@ }),
    {
        Error::ParseError { doctype, path: path.to_string(), message: message.to_string() }
    }

    /// Builds an input/output error.
    pub fn io(s: &str) -> (e: Error)
        ensures
            e@ == ErrorV::IO(s@),
    {
        Error::IO(s.to_string())
    }

    /// Builds an internal error from a description.
    pub fn internal(s: &str) -> (e: Error)
        ensures
            e@ == ErrorV::InternalMsg(s@),
    {
        Error::Internal(InternalError::Msg(s.to_string()))
    }

    /// Aggregates errors into one composite report; `None` if there are
    /// none to report.
    pub fn errors(errors: Vec<Error>) -> (r: Option<Error>)
        ensures
            match r {
                Some(e) => errors@.len() > 0 && e@ == ErrorV::Errors(errors_view(errors@)),
                None => errors@.len() == 0,
            },
    {
        if errors.len() == 0 {
            None
        } else {
            Some(Error::Errors(errors))
        }
    }

    /// Joins this error and another into one composite report.
    pub fn join(self, other: Error) -> (r: Error)
        ensures
            r@ == ErrorV::Errors(seq![self@, other@]),
    {
        let ghost sv = self@;
        let ghost ov = other@;
        let mut es: Vec<Error> = Vec::new();
        es.push(self);
        es.push(other);
        proof {
            lemma_errors_view(es@);
            assert(errors_view(es@)[0] == error_view(es@[0]));
            assert(errors_view(es@)[1] == error_view(es@[1]));
            assert(errors_view(es@) =~= seq![sv, ov]);
        }
        Error::Errors(es)
    }
}

/// Each element of the mathematical form of a list is the mathematical form
/// of the corresponding element.
pub proof fn lemma_errors_view(s: Seq<Error>)
    ensures
        errors_view(s).len() == s.len(),
        forall|i: int| 0 <= i < s.len() ==> errors_view(s)[i] == error_view(#[trigger] s[i]),
    decreases s,
{
    if s.len() > 0 {
        lemma_errors_view(s.drop_first());
        assert forall|i: int| 0 <= i < s.len() implies errors_view(s)[i] == error_view(
            #[trigger] s[i],
        ) by {
            if i > 0 {
                assert(errors_view(s)[i] == errors_view(s.drop_first())[i - 1]);
                assert(s.drop_first()[i - 1] == s[i]);
            }
        }
    }
}

} // verus!
