use vstd::prelude::*;

verus! {

/// The ways in which turning text into a tree can fail.
#[derive(Clone, Copy, Debug, PartialEq, Eq, Structural)]
pub enum ParseError {
    /// A comment opener without its closer, or a closer without an opener.
    MalformedComment,
    /// A string-literal delimiter without its partner.
    UnterminatedString,
    /// A token that the requested grammar (type or value) does not admit.
    GrammarMembership,
    /// Two tokens that the precedence relation cannot compare.
    Precedence,
    /// A token that can never become a tree node reached the assembler.
    UnexpectedToken,
    /// Operands missing or left over once the input is exhausted.
    Arity,
}

} // verus!
