use inter::ast::{join_strings, Node, Statement};
use inter::error::{is_closing, ParseError};
use inter::grammar::{precedence_of, PrecedenceType};
use inter::lexer::{in_class, is_digit, is_letter, is_whitespace, symbol_kind, CharClass, Lexer};
use inter::number::{digit_of, parse_integer};
use inter::parser::Parser;
use inter::text::{char_to_string, chars_of, same_text};
use inter::token::TokenType;

#[test]
fn parse_integer_reads_decimal_digits() {
    assert_eq!(parse_integer("0"), Some(0));
    assert_eq!(parse_integer("42"), Some(42));
    assert_eq!(parse_integer("000123"), Some(123));
    assert_eq!(parse_integer("9223372036854775807"), Some(i64::MAX));
    assert_eq!(parse_integer("9223372036854775808"), None);
    assert_eq!(parse_integer("99999999999999999999999999"), None);
    assert_eq!(parse_integer(""), None);
    assert_eq!(parse_integer("12a"), None);
    assert_eq!(parse_integer("-1"), None);
    assert_eq!(parse_integer("+1"), None);
    assert_eq!(parse_integer(" 1"), None);
}

#[test]
fn digit_of_counts_from_zero() {
    assert_eq!(digit_of('0'), 0);
    assert_eq!(digit_of('7'), 7);
    assert_eq!(digit_of('9'), 9);
}

#[test]
fn character_classes() {
    for c in [' ', '\t', '\n', '\r'] {
        assert!(is_whitespace(c));
        assert!(in_class(c, CharClass::Whitespace));
    }
    assert!(!is_whitespace('a'));
    assert!(is_letter('a') && is_letter('z') && is_letter('A') && is_letter('Z') && is_letter('_'));
    assert!(!is_letter('0') && !is_letter('-') && !is_letter('\u{e9}') && !is_letter('{'));
    assert!(is_digit('0') && is_digit('9'));
    assert!(!is_digit('a') && !is_digit('/') && !is_digit(':'));
    assert!(in_class('x', CharClass::StringBody));
    assert!(!in_class('"', CharClass::StringBody));
    assert!(in_class('5', CharClass::Digit) && !in_class('5', CharClass::Letter));
}

#[test]
fn symbols() {
    assert_eq!(symbol_kind('='), TokenType::ASSIGN);
    assert_eq!(symbol_kind(';'), TokenType::SEMICOLON);
    assert_eq!(symbol_kind('}'), TokenType::RBRACE);
    assert_eq!(symbol_kind('['), TokenType::LBRACKET);
    assert_eq!(symbol_kind('@'), TokenType::ILLEGAL);
    assert_eq!(symbol_kind('a'), TokenType::ILLEGAL);
}

#[test]
fn text_helpers() {
    assert_eq!(chars_of("a\u{e9}b"), vec!['a', '\u{e9}', 'b']);
    assert_eq!(chars_of(""), Vec::<char>::new());
    assert!(same_text("let", "let"));
    assert!(!same_text("let", "lets"));
    assert!(!same_text("let", "lot"));
    assert!(same_text("", ""));
    assert_eq!(char_to_string('x'), "x");
}

#[test]
fn join_puts_the_separator_between() {
    let parts = vec!["a".to_string(), "b".to_string(), "c".to_string()];
    assert_eq!(join_strings(&parts, ", "), "a, b, c");
    assert_eq!(join_strings(&parts, ""), "abc");
    assert_eq!(join_strings(&vec!["a".to_string()], ", "), "a");
    assert_eq!(join_strings(&Vec::new(), ", "), "");
}

#[test]
fn precedence_order() {
    let order = [
        PrecedenceType::LOWEST,
        PrecedenceType::EQUALS,
        PrecedenceType::LESSGREATER,
        PrecedenceType::SUM,
        PrecedenceType::PRODUCT,
        PrecedenceType::PREFIX,
        PrecedenceType::CALL,
    ];
    for (i, p) in order.iter().enumerate() {
        assert_eq!(p.rank() as usize, i);
    }
    assert_eq!(precedence_of(TokenType::EQ), PrecedenceType::EQUALS);
    assert_eq!(precedence_of(TokenType::NOT_EQ), PrecedenceType::EQUALS);
    assert_eq!(precedence_of(TokenType::LT), PrecedenceType::LESSGREATER);
    assert_eq!(precedence_of(TokenType::GT), PrecedenceType::LESSGREATER);
    assert_eq!(precedence_of(TokenType::PLUS), PrecedenceType::SUM);
    assert_eq!(precedence_of(TokenType::MINUS), PrecedenceType::SUM);
    assert_eq!(precedence_of(TokenType::SLASH), PrecedenceType::PRODUCT);
    assert_eq!(precedence_of(TokenType::ASTERISK), PrecedenceType::PRODUCT);
    assert_eq!(precedence_of(TokenType::LPAREN), PrecedenceType::CALL);
    assert_eq!(precedence_of(TokenType::SEMICOLON), PrecedenceType::LOWEST);
    assert_eq!(precedence_of(TokenType::BANG), PrecedenceType::LOWEST);
    assert_eq!(precedence_of(TokenType::EOF), PrecedenceType::LOWEST);
}

#[test]
fn error_messages() {
    assert_eq!(
        ParseError::UnexpectedToken { expected: TokenType::ASSIGN, actual: TokenType::INT }
            .message(),
        "expected next token to be ASSIGN, got INT instead"
    );
    assert_eq!(
        ParseError::MissingPrefixParser { kind: TokenType::SEMICOLON }.message(),
        "no prefix parse function for SEMICOLON"
    );
    assert_eq!(
        ParseError::MalformedLiteral { literal: "123".to_string() }.message(),
        "could not parse 123 as integer"
    );
    assert_eq!(
        ParseError::UnterminatedConstruct { expected: TokenType::RBRACE }.message(),
        "unterminated construct: expected RBRACE before end of input"
    );
}

#[test]
fn mismatch_tells_unterminated_from_unexpected() {
    assert!(is_closing(TokenType::RPAREN));
    assert!(is_closing(TokenType::RBRACKET));
    assert!(is_closing(TokenType::RBRACE));
    assert!(!is_closing(TokenType::LPAREN));
    assert!(!is_closing(TokenType::SEMICOLON));
    assert!(matches!(
        ParseError::mismatch(TokenType::RPAREN, TokenType::EOF),
        ParseError::UnterminatedConstruct { expected: TokenType::RPAREN }
    ));
    assert!(matches!(
        ParseError::mismatch(TokenType::RPAREN, TokenType::INT),
        ParseError::UnexpectedToken { expected: TokenType::RPAREN, actual: TokenType::INT }
    ));
    assert!(matches!(
        ParseError::mismatch(TokenType::IDENT, TokenType::EOF),
        ParseError::UnexpectedToken { expected: TokenType::IDENT, actual: TokenType::EOF }
    ));
}

fn primed(source: &str) -> Parser {
    let mut parser = Parser::new(Lexer::new(source.to_string()));
    parser.next_token();
    parser.next_token();
    parser
}

#[test]
fn new_parser_has_read_nothing() {
    let parser = Parser::new(Lexer::new("let a = 5 + 3;".to_string()));
    assert_eq!(parser.cur_kind(), TokenType::EOF);
    assert_eq!(parser.peek_kind(), TokenType::EOF);
    assert_eq!(parser.cur_token().token, TokenType::EOF);
    assert_eq!(parser.cur_token().literal, "");
    assert_eq!(parser.peek_token().token, TokenType::EOF);
    assert_eq!(parser.peek_token().literal, "");
    assert_eq!(parser.current().literal, "");
    assert!(parser.errors().is_empty());
    assert!(parser.diagnostics().is_empty());
}

#[test]
fn parser_walks_the_token_stream() {
    let mut parser = Parser::new(Lexer::new("let a = 5 + 3;".to_string()));
    parser.next_token();
    assert_eq!(parser.cur_kind(), TokenType::EOF);
    assert_eq!(parser.peek_kind(), TokenType::LET);
    assert_eq!(parser.peek_token().literal, "let");
    parser.next_token();
    assert_eq!(parser.cur_kind(), TokenType::LET);
    assert_eq!(parser.peek_kind(), TokenType::IDENT);
    parser.next_token();
    assert_eq!(parser.cur_kind(), TokenType::IDENT);
    assert_eq!(parser.cur_token().literal, "a");
    assert_eq!(parser.peek_kind(), TokenType::ASSIGN);
    parser.next_token();
    parser.next_token();
    assert_eq!(parser.cur_kind(), TokenType::INT);
    assert_eq!(parser.current().literal, "5");
    assert_eq!(parser.peek_kind(), TokenType::PLUS);
    assert_eq!(parser.cur_precedence(), PrecedenceType::LOWEST);
    assert_eq!(parser.peek_precedence(), PrecedenceType::SUM);
    for _ in 0..10 {
        parser.next_token();
    }
    assert_eq!(parser.cur_kind(), TokenType::EOF);
    assert_eq!(parser.peek_kind(), TokenType::EOF);
    assert!(parser.errors().is_empty());
}

#[test]
fn parse_program_brings_the_first_tokens_in_itself() {
    let source = "let a = 5 + 3; a";
    let mut fresh = Parser::new(Lexer::new(source.to_string()));
    assert_eq!(fresh.parse_program().string(), "let a = (5 + 3);a");
    assert!(fresh.errors().is_empty());
    let mut once = Parser::new(Lexer::new(source.to_string()));
    once.next_token();
    assert_eq!(once.parse_program().string(), "let a = (5 + 3);a");
    let mut twice = primed(source);
    assert_eq!(twice.parse_program().string(), "let a = (5 + 3);a");
    let mut later = primed(source);
    for _ in 0..5 {
        later.next_token();
    }
    assert_eq!(later.cur_kind(), TokenType::INT);
    assert_eq!(later.parse_program().string(), "3a");
}

#[test]
fn parse_program_stops_on_the_end_of_input() {
    for source in ["", "a", "fn() { -", "let", "(((", "if (x) { fn(y) { [1, "] {
        let mut parser = Parser::new(Lexer::new(source.to_string()));
        let _ = parser.parse_program();
        assert_eq!(parser.cur_kind(), TokenType::EOF, "source {:?}", source);
        assert_eq!(parser.peek_kind(), TokenType::EOF, "source {:?}", source);
        let again = parser.parse_program();
        assert_eq!(again.statements.len(), 0);
    }
}

#[test]
fn parse_expression_stops_before_a_looser_operator() {
    let mut parser = primed("a * b + c");
    let product = parser.parse_expression(PrecedenceType::SUM).expect("an expression");
    assert_eq!(product.string(), "(a * b)");
    assert_eq!(parser.peek_kind(), TokenType::PLUS);
}

#[test]
fn parse_statement_stops_on_the_last_token_of_the_statement() {
    let mut parser = primed("let a = 1; b");
    let statement = parser.parse_statement().expect("a statement");
    assert_eq!(statement.string(), "let a = 1;");
    assert_eq!(statement.token().token, TokenType::LET);
    assert_eq!(parser.cur_kind(), TokenType::SEMICOLON);
    assert!(matches!(statement, Statement::Let(_)));
}

#[test]
fn parse_block_statement_needs_an_opening_brace() {
    let mut parser = primed("{ a; b; } c");
    let block = parser.parse_block_statement().expect("a block");
    assert_eq!(block.statements.len(), 2);
    assert_eq!(block.string(), "ab");
    assert_eq!(parser.cur_kind(), TokenType::RBRACE);
    let mut parser = primed("a }");
    assert!(parser.parse_block_statement().is_none());
    assert_eq!(
        parser.errors().to_vec(),
        vec!["expected next token to be LBRACE, got IDENT instead".to_string()]
    );
}

#[test]
fn semicolon_may_be_missing_before_a_closing_brace() {
    let mut parser = Parser::new(Lexer::new("fn() { let x = 1 } fn() { return x }".to_string()));
    let program = parser.parse_program();
    assert!(parser.errors().is_empty());
    assert_eq!(program.string(), "fn() let x = 1;fn() return x;");
}
