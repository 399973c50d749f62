use vstd::prelude::*;

verus! {

/// Everything that can go wrong while reading, staging or writing a deck.
#[derive(Debug, Clone, PartialEq, Eq)]
pub enum DeckError {
    /// The text is not of the form `front - back`; holds the text.
    InvalidRecord(String),
    /// A byte between array elements that is neither white space, `,`, `{` nor `]`.
    UnexpectedChar(u8),
    /// The input ended inside the top-level array.
    UnexpectedEndOfArray,
    /// The input ended inside an object.
    UnexpectedEndOfObject,
    /// An element is not a JSON object whose members are all strings; holds the decoder's message.
    InvalidJson(String),
    /// An element lacks a member; holds its key.
    MissingField(String),
    /// A markup line holds something other than one plain list item.
    UnsupportedMarkdown,
    /// Ordered and unordered list items are mixed, or lists are nested.
    MixedList,
    /// The destination of an export is already there; holds its path.
    DestinationExists(String),
    /// The deck service answered with an error; holds its message.
    Service(String),
    /// The deck service answered with neither a result nor an error.
    EmptyResponse,
    /// The deck service's result is not of the kind that was asked for.
    NoResult,
    /// No deck name can be taken from the path; holds the path.
    InvalidFileName(String),
}

} // verus!
