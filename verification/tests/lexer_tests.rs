use inter::lexer::Lexer;
use inter::token::{Token, TokenType};

fn lex_all(source: &str) -> Vec<(TokenType, String)> {
    let mut lexer = Lexer::new(source.to_string());
    let mut out = Vec::new();
    loop {
        let token = lexer.next_token();
        let kind = token.token;
        out.push((kind, token.literal));
        if kind == TokenType::EOF {
            break;
        }
    }
    out
}

fn tok(kind: TokenType, text: &str) -> (TokenType, String) {
    (kind, text.to_string())
}

#[test]
fn lexes_a_let_statement() {
    let tokens = lex_all("let a = 5 + 3;");
    assert_eq!(
        tokens,
        vec![
            tok(TokenType::LET, "let"),
            tok(TokenType::IDENT, "a"),
            tok(TokenType::ASSIGN, "="),
            tok(TokenType::INT, "5"),
            tok(TokenType::PLUS, "+"),
            tok(TokenType::INT, "3"),
            tok(TokenType::SEMICOLON, ";"),
            tok(TokenType::EOF, ""),
        ]
    );
}

#[test]
fn token_new_holds_one_character() {
    let token = Token::new(TokenType::PLUS, '+');
    assert_eq!(token.token, TokenType::PLUS);
    assert_eq!(token.literal, "+");
    assert!(token == Token { token: TokenType::PLUS, literal: "+".to_string() });
    assert!(token.clone() == token);
    assert!(token != Token::new(TokenType::PLUS, '-'));
    assert!(token != Token::new(TokenType::MINUS, '+'));
}

#[test]
fn lookup_ident_knows_the_keywords() {
    assert_eq!(Token::lookup_ident("fn"), TokenType::FUNCTION);
    assert_eq!(Token::lookup_ident("let"), TokenType::LET);
    assert_eq!(Token::lookup_ident("true"), TokenType::TRUE);
    assert_eq!(Token::lookup_ident("false"), TokenType::FALSE);
    assert_eq!(Token::lookup_ident("if"), TokenType::IF);
    assert_eq!(Token::lookup_ident("else"), TokenType::ELSE);
    assert_eq!(Token::lookup_ident("return"), TokenType::RETURN);
    assert_eq!(Token::lookup_ident("foo"), TokenType::IDENT);
    assert_eq!(Token::lookup_ident("lets"), TokenType::IDENT);
    assert_eq!(Token::lookup_ident("Let"), TokenType::IDENT);
    assert_eq!(Token::lookup_ident(""), TokenType::IDENT);
}

#[test]
fn kind_names() {
    assert_eq!(TokenType::NOT_EQ.name(), "NOT_EQ");
    assert_eq!(TokenType::FUNCTION.name(), "FUNCTION");
    assert_eq!(TokenType::EOF.name(), "EOF");
}

#[test]
fn operators_and_delimiters() {
    let tokens = lex_all("=+-!*/<>,;[](){}");
    let kinds: Vec<TokenType> = tokens.iter().map(|t| t.0).collect();
    assert_eq!(
        kinds,
        vec![
            TokenType::ASSIGN,
            TokenType::PLUS,
            TokenType::MINUS,
            TokenType::BANG,
            TokenType::ASTERISK,
            TokenType::SLASH,
            TokenType::LT,
            TokenType::GT,
            TokenType::COMMA,
            TokenType::SEMICOLON,
            TokenType::LBRACKET,
            TokenType::RBRACKET,
            TokenType::LPAREN,
            TokenType::RPAREN,
            TokenType::LBRACE,
            TokenType::RBRACE,
            TokenType::EOF,
        ]
    );
}

#[test]
fn two_character_operators() {
    assert_eq!(
        lex_all("== != = ! === !=="),
        vec![
            tok(TokenType::EQ, "=="),
            tok(TokenType::NOT_EQ, "!="),
            tok(TokenType::ASSIGN, "="),
            tok(TokenType::BANG, "!"),
            tok(TokenType::EQ, "=="),
            tok(TokenType::ASSIGN, "="),
            tok(TokenType::NOT_EQ, "!="),
            tok(TokenType::ASSIGN, "="),
            tok(TokenType::EOF, ""),
        ]
    );
}

#[test]
fn keywords_and_identifiers() {
    assert_eq!(
        lex_all("fn let true false if else return foo_bar _x iffy"),
        vec![
            tok(TokenType::FUNCTION, "fn"),
            tok(TokenType::LET, "let"),
            tok(TokenType::TRUE, "true"),
            tok(TokenType::FALSE, "false"),
            tok(TokenType::IF, "if"),
            tok(TokenType::ELSE, "else"),
            tok(TokenType::RETURN, "return"),
            tok(TokenType::IDENT, "foo_bar"),
            tok(TokenType::IDENT, "_x"),
            tok(TokenType::IDENT, "iffy"),
            tok(TokenType::EOF, ""),
        ]
    );
}

#[test]
fn digits_end_an_identifier_and_letters_end_a_number() {
    assert_eq!(
        lex_all("abc123def 42x"),
        vec![
            tok(TokenType::IDENT, "abc"),
            tok(TokenType::INT, "123"),
            tok(TokenType::IDENT, "def"),
            tok(TokenType::INT, "42"),
            tok(TokenType::IDENT, "x"),
            tok(TokenType::EOF, ""),
        ]
    );
}

#[test]
fn string_literals() {
    assert_eq!(
        lex_all("\"foo bar\" \"\" \"a\\n\""),
        vec![
            tok(TokenType::STRING, "foo bar"),
            tok(TokenType::STRING, ""),
            tok(TokenType::STRING, "a\\n"),
            tok(TokenType::EOF, ""),
        ]
    );
}

#[test]
fn unterminated_string_runs_to_the_end() {
    assert_eq!(
        lex_all("x \"abc def"),
        vec![tok(TokenType::IDENT, "x"), tok(TokenType::STRING, "abc def"), tok(TokenType::EOF, "")]
    );
}

#[test]
fn illegal_characters_are_tokens() {
    assert_eq!(
        lex_all("a @ \u{e9}#"),
        vec![
            tok(TokenType::IDENT, "a"),
            tok(TokenType::ILLEGAL, "@"),
            tok(TokenType::ILLEGAL, "\u{e9}"),
            tok(TokenType::ILLEGAL, "#"),
            tok(TokenType::EOF, ""),
        ]
    );
}

#[test]
fn whitespace_is_skipped() {
    assert_eq!(lex_all(" \t\r\n"), vec![tok(TokenType::EOF, "")]);
    assert_eq!(lex_all(""), vec![tok(TokenType::EOF, "")]);
    assert_eq!(
        lex_all("\n\tlet\r\n x "),
        vec![tok(TokenType::LET, "let"), tok(TokenType::IDENT, "x"), tok(TokenType::EOF, "")]
    );
}

#[test]
fn end_of_input_is_returned_forever() {
    let mut lexer = Lexer::new("x ".to_string());
    assert_eq!(lexer.next_token().token, TokenType::IDENT);
    for _ in 0..5 {
        let token = lexer.next_token();
        assert_eq!(token.token, TokenType::EOF);
        assert_eq!(token.literal, "");
    }
}
