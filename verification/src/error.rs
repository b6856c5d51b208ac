//! The ways in which a document or a request can be refused.

use vstd::prelude::*;

verus! {

/// Why a document was refused.
#[derive(Debug, Clone, Copy, PartialEq, Eq, Structural)]
pub enum ParseError {
    /// The text is no JSON.
    Syntax,
    /// The text is JSON of another shape than the document should have.
    Shape,
}

/// Why a document could not be brought up to date.
#[derive(Debug, Clone, Copy, PartialEq, Eq, Structural)]
pub enum LoadError {
    /// The document could not be read from where it is kept.
    Io,
    /// The document was read and then refused.
    Parse(ParseError),
}

/// Why a request body was refused.
#[derive(Debug, Clone, Copy, PartialEq, Eq, Structural)]
pub enum DecodeError {
    /// The body is no JSON.
    Syntax,
    /// The body is JSON, but no list of objects that each hold one label with
    /// its list of identifiers.
    Shape,
    /// Two entries of the body share a label.
    DuplicateLabel,
}

} // verus!
