//! The failures that the library reports to its caller.
use vstd::prelude::*;

verus! {

/// Which rule on the inputs of a call was broken.
#[derive(Debug, Clone, Copy, PartialEq, Eq, Structural)]
pub enum InputConflict {
    /// Token ids and precomputed embeddings were both supplied.
    BothInputs,
    /// Neither token ids nor precomputed embeddings were supplied.
    NoInput,
    /// Training mode was asked for without the keep decisions of dropout.
    NoKeepMask,
    /// The full normalization variant was asked for without a shift vector.
    NoShift,
    /// A probability above one.
    Probability,
}

/// A failure, with the offending sizes or indices.
#[derive(Debug, Clone, Copy, PartialEq, Eq, Structural)]
pub enum EmbeddingError {
    /// An array has the wrong extent: `found` where `expected` was called for.
    ShapeError { expected: usize, found: usize },
    /// `index` was used where only indices below `bound` exist.
    IndexError { index: usize, bound: usize },
    /// Inputs that exclude each other, or a missing one.
    ValueError(InputConflict),
}

pub open spec fn shape_error(expected: usize, found: usize) -> EmbeddingError {
    EmbeddingError::ShapeError { expected, found }
}

pub open spec fn index_error(index: usize, bound: usize) -> EmbeddingError {
    EmbeddingError::IndexError { index, bound }
}

pub open spec fn value_error(conflict: InputConflict) -> EmbeddingError {
    EmbeddingError::ValueError(conflict)
}

pub open spec fn conflict_text(conflict: InputConflict) -> Seq<char> {
    match conflict {
        InputConflict::BothInputs => "Only one of input ids or input embeddings may be set"@,
        InputConflict::NoInput => "At least one of input ids or input embeddings must be set"@,
        InputConflict::NoKeepMask => "Training mode needs the keep decisions of dropout"@,
        InputConflict::NoShift => "The full normalization variant needs a shift vector"@,
        InputConflict::Probability => "A probability may not exceed one"@,
    }
}

impl InputConflict {
    /// The sentence that describes the broken rule.
    pub fn message(&self) -> (text: String)
        ensures
            text@ == conflict_text(*self),
    {
        match self {
            InputConflict::BothInputs => "Only one of input ids or input embeddings may be set".to_string(),
            InputConflict::NoInput => "At least one of input ids or input embeddings must be set".to_string(),
            InputConflict::NoKeepMask => "Training mode needs the keep decisions of dropout".to_string(),
            InputConflict::NoShift => "The full normalization variant needs a shift vector".to_string(),
            InputConflict::Probability => "A probability may not exceed one".to_string(),
        }
    }
}

impl EmbeddingError {
    /// Whether this is a shape failure.
    pub fn is_shape_error(&self) -> (b: bool)
        ensures
            b == (*self is ShapeError),
    {
        match self {
            EmbeddingError::ShapeError { .. } => true,
            _ => false,
        }
    }

    /// Whether this is an index failure.
    pub fn is_index_error(&self) -> (b: bool)
        ensures
            b == (*self is IndexError),
    {
        match self {
            EmbeddingError::IndexError { .. } => true,
            _ => false,
        }
    }

    /// Whether this is a failure of mutually exclusive or missing inputs.
    pub fn is_value_error(&self) -> (b: bool)
        ensures
            b == (*self is ValueError),
    {
        match self {
            EmbeddingError::ValueError(_) => true,
            _ => false,
        }
    }
}

} // verus!
