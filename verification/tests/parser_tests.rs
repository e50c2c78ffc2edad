use inter::ast::{Expression, Node, Program, Statement};
use inter::error::ParseError;
use inter::lexer::Lexer;
use inter::parser::Parser;
use inter::token::TokenType;

fn parse(source: &str) -> (Program, Vec<String>) {
    let mut parser = Parser::new(Lexer::new(source.to_string()));
    let program = parser.parse_program();
    let errors = parser.errors().to_vec();
    (program, errors)
}

fn render(source: &str) -> String {
    let (program, errors) = parse(source);
    assert_eq!(errors, Vec::<String>::new(), "errors while parsing {:?}", source);
    program.string()
}

fn first_expression(program: &Program) -> &Expression {
    match &program.statements[0] {
        Statement::Expression(statement) => &statement.expr,
        _ => panic!("the first statement is no expression statement"),
    }
}

#[test]
fn product_binds_tighter_than_sum() {
    assert_eq!(render("1 + 2 * 3"), "(1 + (2 * 3))");
}

#[test]
fn prefix_binds_tighter_than_product() {
    assert_eq!(render("-1 * 2"), "((-1) * 2)");
}

#[test]
fn sum_associates_to_the_left() {
    assert_eq!(render("1 + 2 + 3"), "((1 + 2) + 3)");
}

#[test]
fn parentheses_group() {
    assert_eq!(render("(1 + 2) * 3"), "((1 + 2) * 3)");
}

#[test]
fn operator_precedence_table() {
    let cases = [
        ("-a * b", "((-a) * b)"),
        ("!-a", "(!(-a))"),
        ("a + b - c", "((a + b) - c)"),
        ("a * b / c", "((a * b) / c)"),
        ("a + b * c + d / e - f", "(((a + (b * c)) + (d / e)) - f)"),
        ("5 > 4 == 3 < 4", "((5 > 4) == (3 < 4))"),
        ("5 < 4 != 3 > 4", "((5 < 4) != (3 > 4))"),
        ("3 + 4 * 5 == 3 * 1 + 4 * 5", "((3 + (4 * 5)) == ((3 * 1) + (4 * 5)))"),
        ("true == !false", "(true == (!false))"),
        ("2 / (5 + 5)", "(2 / (5 + 5))"),
        ("-(5 + 5)", "(-(5 + 5))"),
        ("a + add(b * c) + d", "((a + add((b * c))) + d)"),
        ("add(a, b, 1, 2 * 3, 4 + 5, add(6, 7 * 8))", "add(a, b, 1, (2 * 3), (4 + 5), add(6, (7 * 8)))"),
        ("add(a + b + c * d / f + g)", "add((((a + b) + ((c * d) / f)) + g))"),
        ("[1, 2 * 2, 3 + 3]", "[1, (2 * 2), (3 + 3)]"),
        ("[]", "[]"),
        ("f()", "f()"),
    ];
    for (source, expected) in cases {
        assert_eq!(render(source), expected, "source {:?}", source);
    }
}

#[test]
fn two_statements_render_one_after_the_other() {
    assert_eq!(render("3 + 4; -5 * 5"), "(3 + 4)((-5) * 5)");
}

#[test]
fn let_statement_renders() {
    let (program, errors) = parse("let x = 5 + y;");
    assert!(errors.is_empty());
    assert_eq!(program.statements.len(), 1);
    assert_eq!(program.string(), "let x = (5 + y);");
    assert_eq!(program.token_literal(), "let");
    match &program.statements[0] {
        Statement::Let(statement) => {
            assert_eq!(statement.name.name, "x");
            assert_eq!(statement.name.token.token, TokenType::IDENT);
            assert_eq!(statement.token.token, TokenType::LET);
            assert_eq!(statement.token_literal(), "let");
            assert_eq!(statement.value.string(), "(5 + y)");
        }
        _ => panic!("not a let statement"),
    }
}

#[test]
fn let_statement_without_semicolon_at_end_of_input() {
    assert_eq!(render("let x = 5"), "let x = 5;");
}

#[test]
fn let_statement_followed_by_another_token_is_an_error() {
    let mut parser = Parser::new(Lexer::new("let x = 5 let y = 6;".to_string()));
    let program = parser.parse_program();
    assert_eq!(program.statements.len(), 0);
    assert_eq!(
        parser.errors().to_vec(),
        vec!["expected next token to be SEMICOLON, got LET instead".to_string()]
    );
}

#[test]
fn return_statement_with_and_without_value() {
    assert_eq!(render("return 5;"), "return 5;");
    assert_eq!(render("return;"), "return ;");
    assert_eq!(render("return"), "return ;");
    assert_eq!(render("return a + b"), "return (a + b);");
    let (program, _) = parse("return;");
    match &program.statements[0] {
        Statement::Return(statement) => assert!(statement.value.is_none()),
        _ => panic!("not a return statement"),
    }
}

#[test]
fn missing_identifier_is_an_unexpected_token() {
    let mut parser = Parser::new(Lexer::new("let = 5;".to_string()));
    let program = parser.parse_program();
    assert_eq!(program.statements.len(), 0);
    let found = parser.diagnostics().iter().any(|error| {
        matches!(
            error,
            ParseError::UnexpectedToken { expected: TokenType::IDENT, actual: TokenType::ASSIGN }
        )
    });
    assert!(found);
    assert_eq!(
        parser.errors().to_vec(),
        vec!["expected next token to be IDENT, got ASSIGN instead".to_string()]
    );
}

#[test]
fn parsing_goes_on_after_an_error() {
    let (program, errors) = parse("let = 5; let y = 6; let 7; z");
    assert_eq!(errors.len(), 2);
    assert_eq!(program.string(), "let y = 6;z");
}

#[test]
fn function_literal_then_call() {
    let (program, errors) = parse("fn(x, y) { x + y; }\nadd(1, 2)");
    assert!(errors.is_empty());
    assert_eq!(program.statements.len(), 2);
    match first_expression(&program) {
        Expression::Function(function) => {
            assert_eq!(function.parameters.len(), 2);
            assert_eq!(function.parameters[0].name, "x");
            assert_eq!(function.parameters[1].name, "y");
            assert_eq!(function.body.statements.len(), 1);
            assert_eq!(function.body.string(), "(x + y)");
            assert_eq!(function.string(), "fn(x, y) (x + y)");
        }
        _ => panic!("not a function literal"),
    }
    match &program.statements[1] {
        Statement::Expression(statement) => match &statement.expr {
            Expression::Call(call) => {
                assert_eq!(call.arguments.len(), 2);
                assert_eq!(call.callee.string(), "add");
                assert_eq!(call.arguments[0].string(), "1");
                assert_eq!(call.arguments[1].string(), "2");
                assert_eq!(call.string(), "add(1, 2)");
            }
            _ => panic!("not a call"),
        },
        _ => panic!("not an expression statement"),
    }
}

#[test]
fn function_parameter_lists() {
    assert_eq!(render("fn() {}"), "fn() ");
    assert_eq!(render("fn(x) { x }"), "fn(x) x");
    assert_eq!(render("fn(x, y, z) { return x; }"), "fn(x, y, z) return x;");
}

#[test]
fn function_parameter_must_be_an_identifier() {
    let (program, errors) = parse("fn(1); 2");
    assert_eq!(program.string(), "2");
    assert_eq!(errors, vec!["expected next token to be IDENT, got INT instead".to_string()]);
    let (_, errors) = parse("fn(x, 1) { x }; 2");
    assert_eq!(errors[0], "expected next token to be IDENT, got INT instead");
}

#[test]
fn if_expression_with_and_without_else() {
    assert_eq!(render("if (x < y) { x }"), "if(x < y) x");
    assert_eq!(render("if (x < y) { x } else { y }"), "if(x < y) xelse y");
    let (program, _) = parse("if (x) { a; b }");
    match first_expression(&program) {
        Expression::If(node) => {
            assert_eq!(node.consequence.statements.len(), 2);
            assert!(node.alternative.is_none());
            assert_eq!(node.token_literal(), "if");
            assert_eq!(node.consequence.token_literal(), "{");
        }
        _ => panic!("not an if expression"),
    }
}

#[test]
fn integer_literal_has_its_decimal_value() {
    for (source, value) in [("5", 5i64), ("007", 7), ("0", 0), ("9223372036854775807", i64::MAX)] {
        let (program, errors) = parse(source);
        assert!(errors.is_empty());
        assert_eq!(program.statements.len(), 1);
        let text = match first_expression(&program) {
            Expression::IntegerLiteral(literal) => {
                assert_eq!(literal.value, value);
                assert_eq!(literal.token.token, TokenType::INT);
                literal.string()
            }
            _ => panic!("not an integer literal"),
        };
        assert_eq!(text, source);
        let (again, errors) = parse(&text);
        assert!(errors.is_empty());
        match first_expression(&again) {
            Expression::IntegerLiteral(literal) => assert_eq!(literal.value, value),
            _ => panic!("not an integer literal"),
        }
    }
}

#[test]
fn integer_literal_out_of_range_is_malformed() {
    let mut parser = Parser::new(Lexer::new("9223372036854775808;".to_string()));
    let program = parser.parse_program();
    assert_eq!(program.statements.len(), 0);
    assert_eq!(parser.diagnostics().len(), 1);
    match &parser.diagnostics()[0] {
        ParseError::MalformedLiteral { literal } => assert_eq!(literal, "9223372036854775808"),
        other => panic!("unexpected error {:?}", other),
    }
    assert_eq!(
        parser.errors().to_vec(),
        vec!["could not parse 9223372036854775808 as integer".to_string()]
    );
}

#[test]
fn token_without_prefix_rule_is_reported() {
    let mut parser = Parser::new(Lexer::new("@".to_string()));
    let program = parser.parse_program();
    assert_eq!(program.statements.len(), 0);
    assert!(matches!(
        parser.diagnostics()[0],
        ParseError::MissingPrefixParser { kind: TokenType::ILLEGAL }
    ));
    assert_eq!(
        parser.errors().to_vec(),
        vec!["no prefix parse function for ILLEGAL".to_string()]
    );
}

#[test]
fn unterminated_constructs_are_reported() {
    for (source, expected) in [
        ("(1 + 2", TokenType::RPAREN),
        ("[1, 2", TokenType::RBRACKET),
        ("add(1, 2", TokenType::RPAREN),
        ("if (x) { a", TokenType::RBRACE),
        ("fn(x", TokenType::RPAREN),
        ("fn(x) { x;", TokenType::RBRACE),
    ] {
        let mut parser = Parser::new(Lexer::new(source.to_string()));
        let program = parser.parse_program();
        assert_eq!(program.statements.len(), 0, "source {:?}", source);
        assert_eq!(parser.diagnostics().len(), 1, "source {:?}", source);
        match &parser.diagnostics()[0] {
            ParseError::UnterminatedConstruct { expected: found } => {
                assert_eq!(*found, expected, "source {:?}", source)
            }
            other => panic!("unexpected error {:?} for {:?}", other, source),
        }
    }
    let (_, errors) = parse("(1 + 2");
    assert_eq!(
        errors,
        vec!["unterminated construct: expected RPAREN before end of input".to_string()]
    );
}

#[test]
fn misplaced_closing_delimiter_is_an_unexpected_token() {
    let (program, errors) = parse("(1 2); 3");
    assert_eq!(errors, vec!["expected next token to be RPAREN, got INT instead".to_string()]);
    assert_eq!(program.string(), "3");
}

#[test]
fn failed_statement_inside_a_block_does_not_swallow_the_brace() {
    let (program, errors) = parse("fn() { let x = } 7");
    assert_eq!(errors, vec!["no prefix parse function for RBRACE".to_string()]);
    assert_eq!(program.string(), "fn() 7");
}

#[test]
fn string_and_boolean_literals() {
    assert_eq!(render("\"hello world\""), "hello world");
    assert_eq!(render("true; false"), "truefalse");
    let (program, _) = parse("\"a b\"");
    match first_expression(&program) {
        Expression::StringLiteral(literal) => {
            assert_eq!(literal.value, "a b");
            assert_eq!(literal.token.token, TokenType::STRING);
        }
        _ => panic!("not a string literal"),
    }
}

#[test]
fn empty_program() {
    let (program, errors) = parse("");
    assert!(errors.is_empty());
    assert_eq!(program.statements.len(), 0);
    assert_eq!(program.string(), "");
    assert_eq!(program.token_literal(), "");
}

#[test]
fn token_soup_terminates() {
    let soups = [
        "+ - * / == != < > ! = , ; ( ) { } [ ]",
        "((((((((",
        "))))))))",
        "{{{{ }}}} }}}}",
        "let let let = = = ;;; return return",
        "if if ( ( else else fn fn ( , , ) { { [ [ , ,",
        "1 + + + 2 * * ( ) [ , ] fn ( x , , y ) { } if ( ) { } else",
        "@ # $ % ^ & ~ ` ? : . '",
        "a(b(c(d(e(f(g,",
        "-!-!-!-!",
        "fn(x) { if (x) { return fn(y) { [x, y } } } else { let z = ; } }",
    ];
    for soup in soups {
        let mut parser = Parser::new(Lexer::new(soup.to_string()));
        let program = parser.parse_program();
        let rendered = program.string();
        assert!(rendered.len() <= 4 * soup.len() + 16);
        assert!(!parser.errors().is_empty(), "soup {:?}", soup);
        assert_eq!(parser.errors().len(), parser.diagnostics().len());
        assert_eq!(parser.cur_kind(), TokenType::EOF);
    }
}

#[test]
fn long_token_soup_terminates() {
    let mut soup = String::new();
    let pieces = ["let", "x", "=", "(", "1", "+", ")", ";", "{", "}", "fn", ",", "if", "else", "!", "[", "]", "return", "\"s\"", "=="];
    let mut state: u32 = 12345;
    for _ in 0..5000 {
        state = state.wrapping_mul(1664525).wrapping_add(1013904223);
        soup.push_str(pieces[(state >> 16) as usize % pieces.len()]);
        soup.push(' ');
    }
    let mut parser = Parser::new(Lexer::new(soup));
    let _ = parser.parse_program();
    assert_eq!(parser.cur_kind(), TokenType::EOF);
    assert_eq!(parser.peek_kind(), TokenType::EOF);
}
