//! What stops a translation.
use crate::lex::{LexError, TokenKind};
use vstd::prelude::*;
use vstd::string::*;

verus! {

/// The first fault found in a program. Every fault is fatal.
#[derive(Debug, PartialEq, Eq)]
pub enum ParseError {
    /// The lexer could not form the next token.
    Lex(LexError),
    /// The grammar asks for a token of kind `expected` where one of kind
    /// `found` stands.
    Expected { expected: TokenKind, found: TokenKind },
    /// A statement begins with a token that starts none.
    InvalidStatement { text: String, kind: TokenKind },
    /// A comparison has no comparison operator after its first expression.
    ExpectedComparison { text: String },
    /// An operand that is neither a number nor an identifier.
    UnexpectedToken { text: String },
    /// A variable read before any `LET` or `INPUT` introduced it.
    UndeclaredVariable { name: String },
    /// A label declared a second time.
    DuplicateLabel { name: String },
    /// A label that a `GOTO` names and no `LABEL` in the program declares.
    UndeclaredLabel { name: String },
}

/// The mathematical content of a [`ParseError`].
pub enum ParseErrorView {
    Lex(LexError),
    Expected { expected: TokenKind, found: TokenKind },
    InvalidStatement { text: Seq<char>, kind: TokenKind },
    ExpectedComparison { text: Seq<char> },
    UnexpectedToken { text: Seq<char> },
    UndeclaredVariable { name: Seq<char> },
    DuplicateLabel { name: Seq<char> },
    UndeclaredLabel { name: Seq<char> },
}

impl View for ParseError {
    type V = ParseErrorView;

    open spec fn view(&self) -> ParseErrorView {
        match self {
            ParseError::Lex(e) => ParseErrorView::Lex(*e),
            ParseError::Expected { expected, found } => ParseErrorView::Expected {
                expected: *expected,
                found: *found,
            },
            ParseError::InvalidStatement { text, kind } => ParseErrorView::InvalidStatement {
                text: text@,
                kind: *kind,
            },
            ParseError::ExpectedComparison { text } => ParseErrorView::ExpectedComparison {
                text: text@,
            },
            ParseError::UnexpectedToken { text } => ParseErrorView::UnexpectedToken { text: text@ },
            ParseError::UndeclaredVariable { name } => ParseErrorView::UndeclaredVariable {
                name: name@,
            },
            ParseError::DuplicateLabel { name } => ParseErrorView::DuplicateLabel { name: name@ },
            ParseError::UndeclaredLabel { name } => ParseErrorView::UndeclaredLabel { name: name@ },
        }
    }
}

impl ParseErrorView {
    /// The diagnostic for this error as a sequence of characters.
    pub open spec fn message(self) -> Seq<char> {
        match self {
            ParseErrorView::Lex(e) => e.message_spec(),
            ParseErrorView::Expected { expected, found } => "Expected "@ + expected.name_spec()
                + ", got "@ + found.name_spec(),
            ParseErrorView::InvalidStatement { text, kind } => "Invalid statement at "@ + text
                + " ("@ + kind.name_spec() + ")"@,
            ParseErrorView::ExpectedComparison { text } => "Expected comparison operator at: "@
                + text,
            ParseErrorView::UnexpectedToken { text } => "Unexpected token at "@ + text,
            ParseErrorView::UndeclaredVariable { name } =>
                "Referencing variable before assignment: "@ + name,
            ParseErrorView::DuplicateLabel { name } => "Label already exists: "@ + name,
            ParseErrorView::UndeclaredLabel { name } => "Attempting to GOTO to undeclared label: "@
                + name,
        }
    }
}

impl ParseError {
    /// The one-line diagnostic for this error.
    pub fn message(&self) -> (msg: String)
        ensures
            msg@ == self@.message(),
    {
        match self {
            ParseError::Lex(e) => e.message(),
            ParseError::Expected { expected, found } => {
                let mut msg = String::from_str("Expected ");
                msg.append(expected.name());
                msg.append(", got ");
                msg.append(found.name());
                msg
            },
            ParseError::InvalidStatement { text, kind } => {
                let mut msg = String::from_str("Invalid statement at ");
                msg.append(text.as_str());
                msg.append(" (");
                msg.append(kind.name());
                msg.append(")");
                msg
            },
            ParseError::ExpectedComparison { text } => {
                let mut msg = String::from_str("Expected comparison operator at: ");
                msg.append(text.as_str());
                msg
            },
            ParseError::UnexpectedToken { text } => {
                let mut msg = String::from_str("Unexpected token at ");
                msg.append(text.as_str());
                msg
            },
            ParseError::UndeclaredVariable { name } => {
                let mut msg = String::from_str("Referencing variable before assignment: ");
                msg.append(name.as_str());
                msg
            },
            ParseError::DuplicateLabel { name } => {
                let mut msg = String::from_str("Label already exists: ");
                msg.append(name.as_str());
                msg
            },
            ParseError::UndeclaredLabel { name } => {
                let mut msg = String::from_str("Attempting to GOTO to undeclared label: ");
                msg.append(name.as_str());
                msg
            },
        }
    }
}

} // verus!
