use crate::text::{char_to_string, same_text};
use vstd::prelude::*;

verus! {

/// The closed set of lexical categories.
#[allow(non_camel_case_types)]
#[derive(Debug, Copy, Clone, PartialEq, Eq, Hash, Structural)]
pub enum TokenType {
    ILLEGAL,
    EOF,
    IDENT,
    INT,
    STRING,
    ASSIGN,
    PLUS,
    MINUS,
    BANG,
    ASTERISK,
    SLASH,
    EQ,
    NOT_EQ,
    COMMA,
    SEMICOLON,
    LBRACKET,
    RBRACKET,
    LPAREN,
    RPAREN,
    LBRACE,
    RBRACE,
    LT,
    GT,
    FUNCTION,
    LET,
    TRUE,
    FALSE,
    IF,
    ELSE,
    RETURN,
}

/// The keyword table: the category of an identifier-shaped word.
/// A word that is none of the seven keywords is an identifier.
pub open spec fn keyword_kind(word: Seq<char>) -> TokenType {
    if word == "fn"@ {
        TokenType::FUNCTION
    } else if word == "let"@ {
        TokenType::LET
    } else if word == "true"@ {
        TokenType::TRUE
    } else if word == "false"@ {
        TokenType::FALSE
    } else if word == "if"@ {
        TokenType::IF
    } else if word == "else"@ {
        TokenType::ELSE
    } else if word == "return"@ {
        TokenType::RETURN
    } else {
        TokenType::IDENT
    }
}

/// The name under which a category appears in diagnostics.
pub open spec fn kind_name(kind: TokenType) -> Seq<char> {
    match kind {
        TokenType::ILLEGAL => "ILLEGAL"@,
        TokenType::EOF => "EOF"@,
        TokenType::IDENT => "IDENT"@,
        TokenType::INT => "INT"@,
        TokenType::STRING => "STRING"@,
        TokenType::ASSIGN => "ASSIGN"@,
        TokenType::PLUS => "PLUS"@,
        TokenType::MINUS => "MINUS"@,
        TokenType::BANG => "BANG"@,
        TokenType::ASTERISK => "ASTERISK"@,
        TokenType::SLASH => "SLASH"@,
        TokenType::EQ => "EQ"@,
        TokenType::NOT_EQ => "NOT_EQ"@,
        TokenType::COMMA => "COMMA"@,
        TokenType::SEMICOLON => "SEMICOLON"@,
        TokenType::LBRACKET => "LBRACKET"@,
        TokenType::RBRACKET => "RBRACKET"@,
        TokenType::LPAREN => "LPAREN"@,
        TokenType::RPAREN => "RPAREN"@,
        TokenType::LBRACE => "LBRACE"@,
        TokenType::RBRACE => "RBRACE"@,
        TokenType::LT => "LT"@,
        TokenType::GT => "GT"@,
        TokenType::FUNCTION => "FUNCTION"@,
        TokenType::LET => "LET"@,
        TokenType::TRUE => "TRUE"@,
        TokenType::FALSE => "FALSE"@,
        TokenType::IF => "IF"@,
        TokenType::ELSE => "ELSE"@,
        TokenType::RETURN => "RETURN"@,
    }
}

impl TokenType {
    /// The name of this category, as diagnostics print it.
    pub fn name(&self) -> (name: &'static str)
        ensures
            name@ == kind_name(*self),
    {
        match self {
            TokenType::ILLEGAL => "ILLEGAL",
            TokenType::EOF => "EOF",
            TokenType::IDENT => "IDENT",
            TokenType::INT => "INT",
            TokenType::STRING => "STRING",
            TokenType::ASSIGN => "ASSIGN",
            TokenType::PLUS => "PLUS",
            TokenType::MINUS => "MINUS",
            TokenType::BANG => "BANG",
            TokenType::ASTERISK => "ASTERISK",
            TokenType::SLASH => "SLASH",
            TokenType::EQ => "EQ",
            TokenType::NOT_EQ => "NOT_EQ",
            TokenType::COMMA => "COMMA",
            TokenType::SEMICOLON => "SEMICOLON",
            TokenType::LBRACKET => "LBRACKET",
            TokenType::RBRACKET => "RBRACKET",
            TokenType::LPAREN => "LPAREN",
            TokenType::RPAREN => "RPAREN",
            TokenType::LBRACE => "LBRACE",
            TokenType::RBRACE => "RBRACE",
            TokenType::LT => "LT",
            TokenType::GT => "GT",
            TokenType::FUNCTION => "FUNCTION",
            TokenType::LET => "LET",
            TokenType::TRUE => "TRUE",
            TokenType::FALSE => "FALSE",
            TokenType::IF => "IF",
            TokenType::ELSE => "ELSE",
            TokenType::RETURN => "RETURN",
        }
    }
}

/// A lexical unit: its category and the text it was scanned from.
#[derive(Debug)]
pub struct Token {
    pub token: TokenType,
    pub literal: String,
}

/// What a token is, mathematically: a category and a sequence of characters.
pub struct TokenView {
    pub kind: TokenType,
    pub literal: Seq<char>,
}

impl View for Token {
    type V = TokenView;

    open spec fn view(&self) -> TokenView {
        TokenView { kind: self.token, literal: self.literal@ }
    }
}

/// The token that marks the end of the input: category `EOF`, empty text.
pub open spec fn end_of_input() -> TokenView {
    TokenView { kind: TokenType::EOF, literal: Seq::empty() }
}

/// The token at position `i` of a token stream. A stream is followed by
/// end-of-input tokens without end.
pub open spec fn token_at(tokens: Seq<TokenView>, i: nat) -> TokenView {
    if i < tokens.len() {
        tokens[i as int]
    } else {
        end_of_input()
    }
}

/// The category of the token at position `i` of a token stream.
pub open spec fn kind_at(tokens: Seq<TokenView>, i: nat) -> TokenType {
    token_at(tokens, i).kind
}

impl Clone for Token {
    fn clone(&self) -> (copy: Token)
        ensures
            copy == *self,
    {
        Token { token: self.token, literal: self.literal.clone() }
    }
}

impl PartialEq for Token {
    fn eq(&self, other: &Token) -> (same: bool) {
        self.token == other.token && self.literal == other.literal
    }
}

impl vstd::std_specs::cmp::PartialEqSpecImpl for Token {
    open spec fn obeys_eq_spec() -> bool {
        true
    }

    open spec fn eq_spec(&self, other: &Token) -> bool {
        self.token == other.token && self.literal@ == other.literal@
    }
}

impl Token {
    /// A token of category `token_type` whose text is the single character `literal`.
    pub fn new(token_type: TokenType, literal: char) -> (token: Token)
        ensures
            token@ == (TokenView { kind: token_type, literal: seq![literal] }),
    {
        Token { token: token_type, literal: char_to_string(literal) }
    }

    /// Classifies an identifier-shaped word by the keyword table.
    pub fn lookup_ident(ident: &str) -> (kind: TokenType)
        ensures
            kind == keyword_kind(ident@),
    {
        if same_text(ident, "fn") {
            TokenType::FUNCTION
        } else if same_text(ident, "let") {
            TokenType::LET
        } else if same_text(ident, "true") {
            TokenType::TRUE
        } else if same_text(ident, "false") {
            TokenType::FALSE
        } else if same_text(ident, "if") {
            TokenType::IF
        } else if same_text(ident, "else") {
            TokenType::ELSE
        } else if same_text(ident, "return") {
            TokenType::RETURN
        } else {
            TokenType::IDENT
        }
    }

    /// The end-of-input token.
    pub fn end() -> (token: Token)
        ensures
            token@ == end_of_input(),
    {
        Token { token: TokenType::EOF, literal: String::new() }
    }
}

} // verus!
