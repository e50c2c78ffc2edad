use crate::token::{kind_name, TokenType};
use vstd::prelude::*;
use vstd::string::*;

verus! {

/// What can go wrong while parsing. None of these stops the parser.
#[derive(Debug)]
pub enum ParseError {
    /// A specific token was required next, and another one was found.
    UnexpectedToken { expected: TokenType, actual: TokenType },
    /// An expression cannot start with a token of this category.
    MissingPrefixParser { kind: TokenType },
    /// An integer literal that does not fit in 64 bits.
    MalformedLiteral { literal: String },
    /// A closing delimiter was required, and the input ended instead.
    UnterminatedConstruct { expected: TokenType },
}

/// What a parse error is, mathematically.
pub enum ParseErrorView {
    UnexpectedToken { expected: TokenType, actual: TokenType },
    MissingPrefixParser { kind: TokenType },
    MalformedLiteral { literal: Seq<char> },
    UnterminatedConstruct { expected: TokenType },
}

impl View for ParseError {
    type V = ParseErrorView;

    open spec fn view(&self) -> ParseErrorView {
        match self {
            ParseError::UnexpectedToken { expected, actual } => ParseErrorView::UnexpectedToken {
                expected: *expected,
                actual: *actual,
            },
            ParseError::MissingPrefixParser { kind } => ParseErrorView::MissingPrefixParser {
                kind: *kind,
            },
            ParseError::MalformedLiteral { literal } => ParseErrorView::MalformedLiteral {
                literal: literal@,
            },
            ParseError::UnterminatedConstruct { expected } => ParseErrorView::UnterminatedConstruct {
                expected: *expected,
            },
        }
    }
}

/// The delimiters that close a construct.
pub open spec fn spec_is_closing(kind: TokenType) -> bool {
    kind == TokenType::RPAREN || kind == TokenType::RBRACKET || kind == TokenType::RBRACE
}

#[verifier::when_used_as_spec(spec_is_closing)]
pub fn is_closing(kind: TokenType) -> (b: bool)
    ensures
        b == spec_is_closing(kind),
{
    kind == TokenType::RPAREN || kind == TokenType::RBRACKET || kind == TokenType::RBRACE
}

/// The error for a token of category `actual` where one of category
/// `expected` was required: an unterminated construct where a closing
/// delimiter was required and the input ended, an unexpected token
/// otherwise.
pub open spec fn mismatch(expected: TokenType, actual: TokenType) -> ParseErrorView {
    if is_closing(expected) && actual == TokenType::EOF {
        ParseErrorView::UnterminatedConstruct { expected }
    } else {
        ParseErrorView::UnexpectedToken { expected, actual }
    }
}

/// The message of a parse error.
pub open spec fn message_text(error: ParseErrorView) -> Seq<char> {
    match error {
        ParseErrorView::UnexpectedToken { expected, actual } => "expected next token to be "@
            + kind_name(expected) + ", got "@ + kind_name(actual) + " instead"@,
        ParseErrorView::MissingPrefixParser { kind } => "no prefix parse function for "@
            + kind_name(kind),
        ParseErrorView::MalformedLiteral { literal } => "could not parse "@ + literal
            + " as integer"@,
        ParseErrorView::UnterminatedConstruct { expected } => "unterminated construct: expected "@
            + kind_name(expected) + " before end of input"@,
    }
}

impl ParseError {
    /// The error for a token of category `actual` where one of category
    /// `expected` was required.
    pub fn mismatch(expected: TokenType, actual: TokenType) -> (error: ParseError)
        ensures
            error@ == mismatch(expected, actual),
    {
        if is_closing(expected) && actual == TokenType::EOF {
            ParseError::UnterminatedConstruct { expected }
        } else {
            ParseError::UnexpectedToken { expected, actual }
        }
    }

    /// The message of this error.
    pub fn message(&self) -> (text: String)
        ensures
            text@ == message_text(self@),
    {
        match self {
            ParseError::UnexpectedToken { expected, actual } => {
                let mut text = String::from_str("expected next token to be ");
                text.append(expected.name());
                text.append(", got ");
                text.append(actual.name());
                text.append(" instead");
                text
            },
            ParseError::MissingPrefixParser { kind } => {
                let mut text = String::from_str("no prefix parse function for ");
                text.append(kind.name());
                text
            },
            ParseError::MalformedLiteral { literal } => {
                let mut text = String::from_str("could not parse ");
                text.append(literal.as_str());
                text.append(" as integer");
                text
            },
            ParseError::UnterminatedConstruct { expected } => {
                let mut text = String::from_str("unterminated construct: expected ");
                text.append(expected.name());
                text.append(" before end of input");
                text
            },
        }
    }
}

} // verus!
