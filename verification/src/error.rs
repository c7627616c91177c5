use vstd::prelude::*;

verus! {

/// Why a board could not be built.
#[derive(Debug, Clone, Copy, PartialEq, Eq, Structural)]
pub enum BoardError {
    /// The width or the height is zero.
    InvalidDimensions,
    /// The cells handed in do not number width times height.
    SizeMismatch,
    /// The pattern holds a character that is neither whitespace nor a glyph.
    InvalidCharacter,
    /// The rows of the pattern differ in length.
    RaggedRows,
    /// The board to insert does not fit inside the margin of the target.
    OutOfBounds,
}

impl BoardError {
    /// A sentence that names the rule that was broken.
    pub fn message(&self) -> (text: &'static str)
        ensures
            text@ == self.message_text(),
    {
        match self {
            BoardError::InvalidDimensions => "Board dimensions must be greater than 0",
            BoardError::SizeMismatch => "Cells array must match dimensions",
            BoardError::InvalidCharacter => "The board string must contain only whitespace, ALIVE_CHAR, or DEAD_CHAR",
            BoardError::RaggedRows => "Board rows must all have the same number of columns",
            BoardError::OutOfBounds => "Board must be added inside boundaries",
        }
    }

    /// The characters of [`BoardError::message`].
    pub open spec fn message_text(&self) -> Seq<char> {
        match self {
            BoardError::InvalidDimensions => "Board dimensions must be greater than 0"@,
            BoardError::SizeMismatch => "Cells array must match dimensions"@,
            BoardError::InvalidCharacter => "The board string must contain only whitespace, ALIVE_CHAR, or DEAD_CHAR"@,
            BoardError::RaggedRows => "Board rows must all have the same number of columns"@,
            BoardError::OutOfBounds => "Board must be added inside boundaries"@,
        }
    }
}

} // verus!
