//! Error values of the library.
//!
//! Every failure is a local, recoverable value: parsing and geometry never
//! abort the process, and a caller decides whether to retry or give up.
use vstd::prelude::*;

verus! {

/// Which required piece of a block was absent or malformed.
#[derive(Debug, Clone, Copy, PartialEq, Eq, Structural)]
pub enum SemanticKind {
    /// The quoted species pair (atomic number and symbol) of an atom.
    Species,
    /// The cartesian coordinate triple of an atom.
    Coordinate,
    /// The identifier line of an atom.
    Identifier,
    /// A lattice basis vector attribute.
    LatticeVector,
    /// The periodicity attribute.
    PeriodicType,
    /// The space group attribute.
    SpaceGroup,
    /// The symmetry tolerance attribute.
    Tolerance,
    /// A numeric literal that cannot be read exactly.
    Literal,
    /// An attribute content without a recognisable key.
    AttributeKey,
}

/// Failure of a whole parse.
#[derive(Debug)]
pub enum ParseError {
    /// Field extraction or scope termination failed; carries the unconsumed
    /// remainder for positional diagnosis.
    Structure {
        /// The text from the failure position to the end of the document.
        remainder: Vec<u8>,
    },
    /// A required sub-field was absent or malformed inside a structurally
    /// valid block.
    Semantic {
        /// The sub-field that failed.
        kind: SemanticKind,
    },
}

impl ParseError {
    /// A short fixed description of the failure class.
    pub fn describe(&self) -> (r: &'static str)
        ensures
            self is Structure ==> r@ == "structural parse error"@,
            self is Semantic ==> r@ == "semantic extraction error"@,
    {
        match self {
            ParseError::Structure { .. } => "structural parse error",
            ParseError::Semantic { .. } => "semantic extraction error",
        }
    }
}

/// A field failed to classify as what the caller expected.
#[derive(Debug)]
pub enum StateError {
    /// The text does not indicate an attribute tag.
    NotAttribute(String),
    /// The text does not indicate an object.
    NotObject(String),
}

/// An attribute key differed from the expected one.
#[derive(Debug)]
pub struct AttributeMatchError {
    /// The key that stood in the text.
    pub current: String,
    /// The key that was expected.
    pub expect: String,
}

/// A row index or atom id outside the bounds of the atom table.
#[derive(Debug, Clone, Copy, PartialEq, Eq, Structural)]
pub struct InvalidIndex;

/// A degenerate lattice basis: the vectors do not span a cell, so the
/// fractional-coordinate transform does not exist.
#[derive(Debug, Clone, Copy, PartialEq, Eq, Structural)]
pub struct CollinearPoints;

/// A coordinate that is not a finite number.
#[derive(Debug, Clone, Copy, PartialEq, Eq, Structural)]
pub struct InvalidCoord();

} // verus!
