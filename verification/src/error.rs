//! Error types and helpers for macro diagnostics.
//!
//! A diagnostic is anchored to a piece of source: the text of the item that it is
//! about, or the macro call as a whole.
use crate::ast::{Expr, Path, Type};
use crate::print::{expr_text, path_text, print_expr, print_path, print_type, type_text};
use crate::text::{cat2, Text};
use vstd::prelude::*;

verus! {

/// A message and the source text that it points at; the text is empty where the
/// message is about the macro call as a whole.
#[derive(Debug)]
pub struct Diagnostic {
    pub at: String,
    pub message: String,
}

/// Unified error type for macro diagnostics.
#[derive(Debug)]
pub enum Error {
    /// An error in the source.
    Syn(Diagnostic),
}

pub struct ErrorS {
    pub at: Text,
    pub message: Text,
}

impl View for Error {
    type V = ErrorS;

    open spec fn view(&self) -> ErrorS {
        match *self {
            Error::Syn(d) => ErrorS { at: d.at@, message: d.message@ },
        }
    }
}

/// An error that points at `at`.
pub open spec fn error_at(at: Text, message: Text) -> ErrorS {
    ErrorS { at, message }
}

/// A result has the model `s`.
pub open spec fn agrees<T: View>(r: Result<T, Error>, s: Result<T::V, ErrorS>) -> bool {
    match r {
        Ok(x) => s == Ok::<T::V, ErrorS>(x@),
        Err(e) => s == Err::<T::V, ErrorS>(e@),
    }
}

impl Error {
    /// How the error reads to a user.
    pub fn to_string(&self) -> (r: String)
        ensures
            r@ == "Syntax error: "@ + self@.message,
    {
        match self {
            Error::Syn(d) => cat2("Syntax error: ", d.message.as_str()),
        }
    }
}

/// Extension trait for producing errors anchored to an item.
pub trait SpannedError {
    /// The source text that an error about this item points at.
    spec fn anchor(&self) -> Text;

    /// Return `Error` anchored to this item.
    fn error(&self, message: &str) -> (r: Error)
        ensures
            r@ == (ErrorS { at: self.anchor(), message: message@ }),
    ;

    /// Return `Err(Error)` anchored to this item, with an arbitrary `Ok` type.
    fn err<T>(&self, message: &str) -> (r: Result<T, Error>)
        ensures
            r matches Err(e) && e@ == (ErrorS { at: self.anchor(), message: message@ }),
    ;
}

/// The macro call as a whole.
pub struct CallSite;

impl SpannedError for CallSite {
    open spec fn anchor(&self) -> Text {
        ""@
    }

    fn error(&self, message: &str) -> (r: Error) {
        Error::Syn(Diagnostic { at: "".to_owned(), message: message.to_owned() })
    }

    fn err<T>(&self, message: &str) -> (r: Result<T, Error>) {
        Err(self.error(message))
    }
}

/// A name, or any other source text.
impl SpannedError for String {
    open spec fn anchor(&self) -> Text {
        self@
    }

    fn error(&self, message: &str) -> (r: Error) {
        Error::Syn(Diagnostic { at: self.clone(), message: message.to_owned() })
    }

    fn err<T>(&self, message: &str) -> (r: Result<T, Error>) {
        Err(self.error(message))
    }
}

impl SpannedError for Path {
    open spec fn anchor(&self) -> Text {
        path_text(self@, false)
    }

    fn error(&self, message: &str) -> (r: Error) {
        Error::Syn(Diagnostic { at: print_path(self, false), message: message.to_owned() })
    }

    fn err<T>(&self, message: &str) -> (r: Result<T, Error>) {
        Err(self.error(message))
    }
}

impl SpannedError for Type {
    open spec fn anchor(&self) -> Text {
        type_text(self@)
    }

    fn error(&self, message: &str) -> (r: Error) {
        Error::Syn(Diagnostic { at: print_type(self), message: message.to_owned() })
    }

    fn err<T>(&self, message: &str) -> (r: Result<T, Error>) {
        Err(self.error(message))
    }
}

impl SpannedError for Expr {
    open spec fn anchor(&self) -> Text {
        expr_text(self@)
    }

    fn error(&self, message: &str) -> (r: Error) {
        Error::Syn(Diagnostic { at: print_expr(self), message: message.to_owned() })
    }

    fn err<T>(&self, message: &str) -> (r: Result<T, Error>) {
        Err(self.error(message))
    }
}

} // verus!
