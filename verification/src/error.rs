//! The failure values a parse can yield: a single dialect's complaint and
//! the aggregate of every dialect's complaint.

use vstd::prelude::*;

verus! {

/// One dialect's failure, with its human-readable cause.
#[derive(Debug)]
pub struct InvalidRssError {
    pub message: String,
}

/// The aggregated failure of a whole parse: one message per failed
/// attempt, in the order the attempts were made.
#[derive(Debug)]
pub struct Error {
    pub messages: Vec<String>,
}

impl View for InvalidRssError {
    type V = Seq<char>;

    open spec fn view(&self) -> Seq<char> {
        self.message@
    }
}

impl View for Error {
    type V = Seq<Seq<char>>;

    open spec fn view(&self) -> Seq<Seq<char>> {
        self.messages.deep_view()
    }
}

} // verus!
