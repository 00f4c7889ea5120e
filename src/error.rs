//! Errors of a compilation: the first one found ends it.
use vstd::prelude::*;

use crate::keyword::Keyword;

verus! {

/// The ways in which a token sequence can break the grammar.
#[derive(Clone, Copy, Debug, PartialEq, Eq, Structural)]
pub enum SyntaxError {
    /// The document does not begin with the open marker.
    MissingOpen,
    /// The document does not end with the close marker.
    MissingClose,
    /// The given directive was required here.
    Expected(Keyword),
    /// A directive that no alternative accepts here.
    UnexpectedToken(Keyword),
    /// The text that must follow the given directive is empty or is a directive.
    EmptyContent(Keyword),
    /// A list holds no item.
    EmptyList,
    /// A token follows the close marker.
    TrailingInput,
}

/// A lexical, syntax or semantic error.
#[derive(Debug)]
pub enum CompileError {
    /// A directive-shaped word outside the vocabulary, as written.
    Lexical(String),
    Syntax(SyntaxError),
    /// A variable used where no active scope defines it.
    UndefinedVariable(String),
}

/// The mathematical form of a `CompileError`.
pub enum Fault {
    Lexical(Seq<char>),
    Syntax(SyntaxError),
    UndefinedVariable(Seq<char>),
}

impl View for CompileError {
    type V = Fault;

    open spec fn view(&self) -> Fault {
        match self {
            CompileError::Lexical(w) => Fault::Lexical(w@),
            CompileError::Syntax(k) => Fault::Syntax(*k),
            CompileError::UndefinedVariable(n) => Fault::UndefinedVariable(n@),
        }
    }
}

} // verus!
