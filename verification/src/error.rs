//! The errors of the catalog's operations and the messages they carry.

use crate::text::{decimal, to_decimal};
use vstd::prelude::*;
use vstd::string::*;

verus! {

/// Why an operation of the catalog did not return a value.
#[derive(Debug, PartialEq, Eq)]
pub enum Error {
    /// No record has the requested identifier, or no record matches the keyword.
    NotFound { msg: String },
    /// A text that must not be empty is empty.
    InvalidInput { msg: String },
    /// The identifier counter could not be advanced.
    Internal { msg: String },
}

/// The mathematical value of an [`Error`].
pub ghost enum ErrorView {
    NotFound { msg: Seq<char> },
    InvalidInput { msg: Seq<char> },
    Internal { msg: Seq<char> },
}

impl ErrorView {
    /// The message of the error.
    pub open spec fn message(self) -> Seq<char> {
        match self {
            ErrorView::NotFound { msg } => msg,
            ErrorView::InvalidInput { msg } => msg,
            ErrorView::Internal { msg } => msg,
        }
    }
}

impl View for Error {
    type V = ErrorView;

    open spec fn view(&self) -> ErrorView {
        match self {
            Error::NotFound { msg } => ErrorView::NotFound { msg: msg@ },
            Error::InvalidInput { msg } => ErrorView::InvalidInput { msg: msg@ },
            Error::Internal { msg } => ErrorView::Internal { msg: msg@ },
        }
    }
}

/// The error of a lookup that found no record under `id`.
pub open spec fn not_found(id: u64) -> ErrorView {
    ErrorView::NotFound {
        msg: "a fragrance with id="@ + decimal(id as nat) + " not found"@,
    }
}

/// The error of an update that found no record under `id`.
pub open spec fn update_not_found(id: u64) -> ErrorView {
    ErrorView::NotFound {
        msg: "couldn't update a fragrance with id="@ + decimal(id as nat)
            + ". fragrance not found"@,
    }
}

/// The error of a removal that found no record under `id`.
pub open spec fn delete_not_found(id: u64) -> ErrorView {
    ErrorView::NotFound {
        msg: "couldn't delete a fragrance with id="@ + decimal(id as nat)
            + ". fragrance not found."@,
    }
}

/// The error of a search by `keyword` that no record matches.
pub open spec fn no_match(keyword: Seq<char>) -> ErrorView {
    ErrorView::NotFound { msg: "No fragrances found with the keyword '"@ + keyword + "'"@ }
}

/// The error of a filter by the mood `keyword` that no record matches.
pub open spec fn no_mood_match(keyword: Seq<char>) -> ErrorView {
    ErrorView::NotFound {
        msg: "No fragrances found with mood-enhancing properties related to '"@ + keyword
            + "'"@,
    }
}

/// The error of a payload without a name or without a description.
pub open spec fn empty_fields() -> ErrorView {
    ErrorView::InvalidInput { msg: "Empty fields are not allowed."@ }
}

/// The error of a search without a keyword.
pub open spec fn empty_keyword() -> ErrorView {
    ErrorView::InvalidInput { msg: "Keyword cannot be empty"@ }
}

/// The error of a recommendation without a mood keyword.
pub open spec fn empty_mood_keyword() -> ErrorView {
    ErrorView::InvalidInput { msg: "Mood Keyword cannot be empty"@ }
}

/// The error of a counter that could not be advanced.
pub open spec fn counter_stuck() -> ErrorView {
    ErrorView::Internal { msg: "Cannot increment id counter"@ }
}

/// The three texts, one after the other.
fn joined(before: &str, middle: &str, after: &str) -> (text: String)
    ensures
        text@ == before@ + middle@ + after@,
{
    let mut text = String::from_str(before);
    text.append(middle);
    text.append(after);
    text
}

impl Error {
    /// The message of the error.
    pub fn message(&self) -> (msg: &String)
        ensures
            msg@ == self@.message(),
    {
        match self {
            Error::NotFound { msg } => msg,
            Error::InvalidInput { msg } => msg,
            Error::Internal { msg } => msg,
        }
    }

    /// The error of a lookup that found no record under `id`.
    pub(crate) fn not_found(id: u64) -> (error: Error)
        ensures
            error@ == not_found(id),
    {
        let number = to_decimal(id);
        Error::NotFound { msg: joined("a fragrance with id=", number.as_str(), " not found") }
    }

    /// The error of an update that found no record under `id`.
    pub(crate) fn update_not_found(id: u64) -> (error: Error)
        ensures
            error@ == update_not_found(id),
    {
        let number = to_decimal(id);
        Error::NotFound {
            msg: joined(
                "couldn't update a fragrance with id=",
                number.as_str(),
                ". fragrance not found",
            ),
        }
    }

    /// The error of a removal that found no record under `id`.
    pub(crate) fn delete_not_found(id: u64) -> (error: Error)
        ensures
            error@ == delete_not_found(id),
    {
        let number = to_decimal(id);
        Error::NotFound {
            msg: joined(
                "couldn't delete a fragrance with id=",
                number.as_str(),
                ". fragrance not found.",
            ),
        }
    }

    /// The error of a search by `keyword` that no record matches.
    pub(crate) fn no_match(keyword: &str) -> (error: Error)
        ensures
            error@ == no_match(keyword@),
    {
        Error::NotFound { msg: joined("No fragrances found with the keyword '", keyword, "'") }
    }

    /// The error of a filter by the mood `keyword` that no record matches.
    pub(crate) fn no_mood_match(keyword: &str) -> (error: Error)
        ensures
            error@ == no_mood_match(keyword@),
    {
        Error::NotFound {
            msg: joined(
                "No fragrances found with mood-enhancing properties related to '",
                keyword,
                "'",
            ),
        }
    }

    /// The error of a payload without a name or without a description.
    pub(crate) fn empty_fields() -> (error: Error)
        ensures
            error@ == empty_fields(),
    {
        Error::InvalidInput { msg: String::from_str("Empty fields are not allowed.") }
    }

    /// The error of a search without a keyword.
    pub(crate) fn empty_keyword() -> (error: Error)
        ensures
            error@ == empty_keyword(),
    {
        Error::InvalidInput { msg: String::from_str("Keyword cannot be empty") }
    }

    /// The error of a recommendation without a mood keyword.
    pub(crate) fn empty_mood_keyword() -> (error: Error)
        ensures
            error@ == empty_mood_keyword(),
    {
        Error::InvalidInput { msg: String::from_str("Mood Keyword cannot be empty") }
    }

    /// The error of a counter that could not be advanced.
    pub(crate) fn counter_stuck() -> (error: Error)
        ensures
            error@ == counter_stuck(),
    {
        Error::Internal { msg: String::from_str("Cannot increment id counter") }
    }
}

} // verus!
