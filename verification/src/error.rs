//! The library's error type: a carried message, nothing more.

use vstd::prelude::*;

verus! {

/// An error surfaced by the indexing core. It carries only the rendered
/// message of whatever went wrong.
#[derive(Debug)]
pub struct PhotoInsightError {
    pub message: String,
}

impl PhotoInsightError {
    /// Wraps the rendered text of an underlying failure.
    pub fn new(message: String) -> (r: PhotoInsightError)
        ensures
            r.message@ == message@,
    {
        PhotoInsightError { message }
    }

    /// Builds an error from a plain message.
    pub fn from_message(msg: String) -> (r: PhotoInsightError)
        ensures
            r.message@ == msg@,
    {
        PhotoInsightError { message: msg }
    }
}

} // verus!
