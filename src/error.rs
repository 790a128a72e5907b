use vstd::prelude::*;

verus! {

/// The ways in which lexing, parsing or evaluating one statement can fail.
#[derive(Clone, Copy, Debug, PartialEq, Eq, Structural)]
pub enum AplError {
    /// A numeric literal breaks the number syntax.
    InvalidNumber,
    /// A string literal is not closed before the end of the input.
    UnterminatedString,
    /// No token starts with this character.
    UnknownCharacter(char),
    /// The line holds no statement: it is blank or only a comment.
    EndOfInput,
    /// An operand is missing at the end of the statement.
    UnexpectedEndOfSource,
    /// A glyph in dyadic position that names no dyadic function.
    UnknownOperator,
    /// A primitive that cannot begin an operand.
    UnexpectedPrimitive,
    /// A token that cannot begin an operand.
    UnexpectedToken,
    /// A construct that this interpreter does not implement yet.
    NotImplemented,
    /// Division or reciprocal of zero.
    DivisionByZero,
    /// Zero raised to a negative power.
    ZeroToNegativePower,
    /// Elementwise operation on arrays of different depth.
    Rank,
    /// Elementwise operation on arrays of equal depth but different shape.
    Length,
    /// A function that is not defined on complex numbers.
    ComplexUnsupported,
}

} // verus!
