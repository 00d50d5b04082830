//! The typed errors of this library: every failure names what failed and why.

use vstd::prelude::*;

verus! {

/// A failure. Nothing in this library falls back to a default: it answers with one of these.
#[derive(PartialEq, Eq, Debug)]
pub enum Error {
    /// What was asked for does not exist.
    NotFound { what: String, detail: String },
    /// What was handed in is malformed.
    Invalid { what: String, detail: String },
}

/// The mathematical value of an [`Error`].
#[verifier::ext_equal]
pub enum ErrorModel {
    NotFound { what: Seq<char>, detail: Seq<char> },
    Invalid { what: Seq<char>, detail: Seq<char> },
}

impl View for Error {
    type V = ErrorModel;

    open spec fn view(&self) -> ErrorModel {
        match *self {
            Error::NotFound { what, detail } => ErrorModel::NotFound { what: what@, detail: detail@ },
            Error::Invalid { what, detail } => ErrorModel::Invalid { what: what@, detail: detail@ },
        }
    }
}

impl Clone for Error {
    fn clone(&self) -> (r: Self)
        ensures
            r == *self,
    {
        match self {
            Error::NotFound { what, detail } => Error::NotFound {
                what: what.clone(),
                detail: detail.clone(),
            },
            Error::Invalid { what, detail } => Error::Invalid {
                what: what.clone(),
                detail: detail.clone(),
            },
        }
    }
}

impl Error {
    /// A [`Error::NotFound`] with the given parts.
    pub fn not_found(what: &str, detail: String) -> (r: Error)
        ensures
            r@ == (ErrorModel::NotFound { what: what@, detail: detail@ }),
    {
        Error::NotFound { what: what.to_owned(), detail }
    }

    /// An [`Error::Invalid`] with the given parts.
    pub fn invalid(what: &str, detail: &str) -> (r: Error)
        ensures
            r@ == (ErrorModel::Invalid { what: what@, detail: detail@ }),
    {
        Error::Invalid { what: what.to_owned(), detail: detail.to_owned() }
    }
}

} // verus!
