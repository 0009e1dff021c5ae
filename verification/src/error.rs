//! The terminal failure values of a copy scan.

use crate::key_path::{event_label, OwnedJsonEvent};
use vstd::prelude::*;

verus! {

/// Why a scan over one document failed.
#[derive(Debug)]
pub enum CopyError {
    /// The token source found malformed or truncated JSON; its own text, verbatim.
    Parse(String),
    /// The position expected to hold the target array held this non-array token.
    Shape(OwnedJsonEvent),
    /// End of stream was reached before the target array was fully opened and closed:
    /// a key of the path never arrived, the path descended into a non-container, or
    /// the document root was not an array when no path was given.
    Completion,
    /// The token sink refused or failed to write a forwarded token.
    Sink(String),
}

impl CopyError {
    /// The text of this error, as the command-line tool prints it.
    pub open spec fn message_spec(&self) -> Seq<char> {
        match self {
            CopyError::Parse(s) => s@,
            CopyError::Shape(found) => "Expecting Json array, found "@ + event_label(found@),
            CopyError::Completion => "Did not complete JSON copy"@,
            CopyError::Sink(s) => s@,
        }
    }

    /// Renders the error as one line of text.
    pub fn message(&self) -> (r: String)
        ensures
            r@ == self.message_spec(),
    {
        match self {
            CopyError::Parse(s) => s.clone(),
            CopyError::Shape(found) => {
                let mut r = "Expecting Json array, found ".to_owned();
                let label = found.label();
                r.append(label.as_str());
                r
            },
            CopyError::Completion => "Did not complete JSON copy".to_owned(),
            CopyError::Sink(s) => s.clone(),
        }
    }
}

} // verus!
