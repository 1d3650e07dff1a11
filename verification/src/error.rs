//! Errors reported by discovery, validation and locking.

use vstd::prelude::*;
use crate::text::{join, joined, texts};

verus! {

/// What went wrong. Where the file system is the cause, its own message is
/// carried along.
#[derive(Debug, PartialEq, Eq)]
pub enum Error {
    /// No declaration file in the starting directory or any directory above it.
    NotFoundInTree(String),
    /// No declaration file in the starting directory, and walking up was ruled out.
    NotFoundAtPath(String),
    /// The text of a declaration file is not a valid declaration.
    InvalidYaml { error: String, yaml_content: String },
    /// A declaration file could not be read.
    ReadFailed { path: String, error: String },
    /// A file named by an `includes` entry does not exist or cannot be reached.
    IncludeNotFound { path: String, error: String },
    /// A file was named by `includes` entries twice in one discovery run.
    CircularInclude(String),
    /// A precondition of an operation does not hold.
    ValidationFailed(String),
    /// A layer reference is neither a digest nor a known tag.
    UnknownLayer { reference: String, similar: Vec<String> },
}

/// The mathematical value of an [`Error`].
pub enum ErrorView {
    NotFoundInTree(Seq<char>),
    NotFoundAtPath(Seq<char>),
    InvalidYaml { error: Seq<char>, yaml_content: Seq<char> },
    ReadFailed { path: Seq<char>, error: Seq<char> },
    IncludeNotFound { path: Seq<char>, error: Seq<char> },
    CircularInclude(Seq<char>),
    ValidationFailed(Seq<char>),
    UnknownLayer { reference: Seq<char>, similar: Seq<Seq<char>> },
}

impl View for Error {
    type V = ErrorView;

    open spec fn view(&self) -> ErrorView {
        match *self {
            Error::NotFoundInTree(p) => ErrorView::NotFoundInTree(p@),
            Error::NotFoundAtPath(p) => ErrorView::NotFoundAtPath(p@),
            Error::InvalidYaml { error, yaml_content } => ErrorView::InvalidYaml {
                error: error@,
                yaml_content: yaml_content@,
            },
            Error::ReadFailed { path, error } => ErrorView::ReadFailed {
                path: path@,
                error: error@,
            },
            Error::IncludeNotFound { path, error } => ErrorView::IncludeNotFound {
                path: path@,
                error: error@,
            },
            Error::CircularInclude(p) => ErrorView::CircularInclude(p@),
            Error::ValidationFailed(m) => ErrorView::ValidationFailed(m@),
            Error::UnknownLayer { reference, similar } => ErrorView::UnknownLayer {
                reference: reference@,
                similar: texts(similar@),
            },
        }
    }
}

/// The hint that goes with an unknown layer reference.
pub open spec fn suggestion_text(similar: Seq<Seq<char>>) -> Seq<char> {
    if similar.len() == 0 {
        "Check that the layer reference is correct"@
    } else {
        "Did you mean one of: "@ + joined(similar, ", "@) + "?"@
    }
}

/// The hint shown with [`Error::UnknownLayer`]: the similar names, where
/// there are any, and general advice where there are none.
pub fn suggestion_message(similar: &[String]) -> (message: String)
    ensures
        message@ == suggestion_text(texts(similar@)),
{
    if similar.len() == 0 {
        "Check that the layer reference is correct".to_owned()
    } else {
        let mut message = "Did you mean one of: ".to_owned();
        let names = join(similar, ", ");
        message.append(names.as_str());
        message.append("?");
        message
    }
}

} // verus!
