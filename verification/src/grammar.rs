use crate::error::{mismatch, ParseErrorView};
use crate::lexer::tokenize;
use crate::number::integer_literal_value;
use crate::syntax::{BlockView, ExpressionView, IdentifierView, ProgramView, StatementView};
use crate::token::{kind_at, token_at, TokenType, TokenView};
use vstd::prelude::*;

verus! {

/// How tightly an operator binds, from loosest to tightest.
#[allow(non_camel_case_types)]
#[derive(Debug, Copy, Clone, PartialEq, Eq, Structural)]
pub enum PrecedenceType {
    LOWEST,
    EQUALS,
    LESSGREATER,
    SUM,
    PRODUCT,
    PREFIX,
    CALL,
}

impl PrecedenceType {
    /// The place of a precedence in the order: 0 for `LOWEST`, 6 for `CALL`.
    pub open spec fn spec_rank(self) -> u8 {
        match self {
            PrecedenceType::LOWEST => 0,
            PrecedenceType::EQUALS => 1,
            PrecedenceType::LESSGREATER => 2,
            PrecedenceType::SUM => 3,
            PrecedenceType::PRODUCT => 4,
            PrecedenceType::PREFIX => 5,
            PrecedenceType::CALL => 6,
        }
    }

    #[verifier::when_used_as_spec(spec_rank)]
    pub fn rank(self) -> (r: u8)
        ensures
            r == self.spec_rank(),
    {
        match self {
            PrecedenceType::LOWEST => 0,
            PrecedenceType::EQUALS => 1,
            PrecedenceType::LESSGREATER => 2,
            PrecedenceType::SUM => 3,
            PrecedenceType::PRODUCT => 4,
            PrecedenceType::PREFIX => 5,
            PrecedenceType::CALL => 6,
        }
    }
}

/// The precedence of a token in infix position. Only the binary operators
/// and the opening parenthesis of a call bind at all.
pub open spec fn spec_precedence_of(kind: TokenType) -> PrecedenceType {
    match kind {
        TokenType::EQ => PrecedenceType::EQUALS,
        TokenType::NOT_EQ => PrecedenceType::EQUALS,
        TokenType::LT => PrecedenceType::LESSGREATER,
        TokenType::GT => PrecedenceType::LESSGREATER,
        TokenType::PLUS => PrecedenceType::SUM,
        TokenType::MINUS => PrecedenceType::SUM,
        TokenType::SLASH => PrecedenceType::PRODUCT,
        TokenType::ASTERISK => PrecedenceType::PRODUCT,
        TokenType::LPAREN => PrecedenceType::CALL,
        _ => PrecedenceType::LOWEST,
    }
}

#[verifier::when_used_as_spec(spec_precedence_of)]
pub fn precedence_of(kind: TokenType) -> (p: PrecedenceType)
    ensures
        p == spec_precedence_of(kind),
{
    match kind {
        TokenType::EQ => PrecedenceType::EQUALS,
        TokenType::NOT_EQ => PrecedenceType::EQUALS,
        TokenType::LT => PrecedenceType::LESSGREATER,
        TokenType::GT => PrecedenceType::LESSGREATER,
        TokenType::PLUS => PrecedenceType::SUM,
        TokenType::MINUS => PrecedenceType::SUM,
        TokenType::SLASH => PrecedenceType::PRODUCT,
        TokenType::ASTERISK => PrecedenceType::PRODUCT,
        TokenType::LPAREN => PrecedenceType::CALL,
        _ => PrecedenceType::LOWEST,
    }
}

/// The outcome of parsing one construct, with the current token at some
/// position `i` of the token stream when parsing starts.
pub struct Parsed<T> {
    /// What was built.
    pub value: T,
    /// How many tokens the parser moved forward: afterwards its current
    /// token is at position `i + advance`.
    pub advance: nat,
    /// The errors that were met, in order.
    pub errors: Seq<ParseErrorView>,
}

/// The outcome `rest`, reached after the parser had already moved `advance`
/// tokens and met `errors`.
pub open spec fn after<T>(advance: nat, errors: Seq<ParseErrorView>, rest: Parsed<T>) -> Parsed<
    T,
> {
    Parsed { value: rest.value, advance: advance + rest.advance, errors: errors + rest.errors }
}

/// How many tokens of the stream lie at or after position `i`.
pub open spec fn remaining(tokens: Seq<TokenView>, i: nat) -> nat {
    if i < tokens.len() {
        (tokens.len() - i) as nat
    } else {
        0
    }
}

/// The identifier that an `IDENT` token stands for.
pub open spec fn identifier_of(token: TokenView) -> IdentifierView {
    IdentifierView { token, name: token.literal }
}

/// Requires the next token to be of category `expected`: moves onto it
/// where it is, and reports a mismatch and stays where it is not.
pub open spec fn expect(tokens: Seq<TokenView>, i: nat, expected: TokenType) -> Parsed<bool> {
    if kind_at(tokens, i + 1) == expected {
        Parsed { value: true, advance: 1, errors: Seq::empty() }
    } else {
        Parsed {
            value: false,
            advance: 0,
            errors: seq![mismatch(expected, kind_at(tokens, i + 1))],
        }
    }
}

/// The end of a `let` or `return` statement whose last token is at `i`: a
/// semicolon is consumed; before a closing brace or the end of the input the
/// semicolon may be missing; anything else is a mismatch.
pub open spec fn terminator(tokens: Seq<TokenView>, i: nat) -> Parsed<bool> {
    let next = kind_at(tokens, i + 1);
    if next == TokenType::RBRACE || next == TokenType::EOF {
        Parsed { value: true, advance: 0, errors: Seq::empty() }
    } else {
        expect(tokens, i, TokenType::SEMICOLON)
    }
}

/// How far the parser skips after a statement has failed with the current
/// token at `i`: up to a semicolon, a closing brace or the end of the input,
/// or up to the token before a closing brace or the end of the input.
pub open spec fn recovery(tokens: Seq<TokenView>, i: nat) -> nat
    decreases remaining(tokens, i),
{
    let here = kind_at(tokens, i);
    let next = kind_at(tokens, i + 1);
    if here == TokenType::SEMICOLON || here == TokenType::RBRACE || here == TokenType::EOF || next
        == TokenType::RBRACE || next == TokenType::EOF {
        0
    } else {
        1 + recovery(tokens, i + 1)
    }
}

/// The rest of a parameter list, with the current token on a parameter and
/// `seen` the parameters so far: a comma and another identifier, any number
/// of times, then the closing parenthesis.
pub open spec fn parameter_tail(tokens: Seq<TokenView>, i: nat, seen: Seq<IdentifierView>) -> Parsed<
    Option<Seq<IdentifierView>>,
>
    decreases remaining(tokens, i),
{
    if kind_at(tokens, i + 1) == TokenType::COMMA {
        if kind_at(tokens, i + 2) == TokenType::IDENT {
            after(
                2,
                Seq::empty(),
                parameter_tail(tokens, i + 2, seen.push(identifier_of(token_at(tokens, i + 2)))),
            )
        } else {
            Parsed {
                value: None,
                advance: 1,
                errors: seq![mismatch(TokenType::IDENT, kind_at(tokens, i + 2))],
            }
        }
    } else if kind_at(tokens, i + 1) == TokenType::RPAREN {
        Parsed { value: Some(seen), advance: 1, errors: Seq::empty() }
    } else {
        Parsed {
            value: None,
            advance: 0,
            errors: seq![mismatch(TokenType::RPAREN, kind_at(tokens, i + 1))],
        }
    }
}

/// The parameter list of a function literal, with the current token on its
/// opening parenthesis: identifiers separated by commas, up to the closing
/// parenthesis, on which the parser stops.
pub open spec fn parameters(tokens: Seq<TokenView>, i: nat) -> Parsed<Option<Seq<IdentifierView>>> {
    if kind_at(tokens, i + 1) == TokenType::RPAREN {
        Parsed { value: Some(Seq::empty()), advance: 1, errors: Seq::empty() }
    } else if kind_at(tokens, i + 1) == TokenType::IDENT {
        after(
            1,
            Seq::empty(),
            parameter_tail(tokens, i + 1, seq![identifier_of(token_at(tokens, i + 1))]),
        )
    } else {
        Parsed {
            value: None,
            advance: 0,
            errors: seq![mismatch(TokenType::IDENT, kind_at(tokens, i + 1))],
        }
    }
}

/// An expression that starts at the current token and binds tighter than
/// `precedence`: what stands in prefix position, extended to the right by
/// every operator that binds tighter than `precedence`. Afterwards the
/// current token is the last token of the expression.
pub open spec fn expression(tokens: Seq<TokenView>, i: nat, precedence: PrecedenceType) -> Parsed<
    Option<ExpressionView>,
>
    decreases remaining(tokens, i), 5int,
{
    let left = prefix(tokens, i);
    match left.value {
        None => left,
        Some(e) => after(
            left.advance,
            left.errors,
            infix_loop(tokens, i + left.advance, precedence, e),
        ),
    }
}

/// What stands in prefix position: an identifier, a literal, a prefix
/// operator with its operand, a parenthesised expression, an `if`, a function
/// literal or an array literal. A token of any other category is a missing
/// prefix parser.
pub open spec fn prefix(tokens: Seq<TokenView>, i: nat) -> Parsed<Option<ExpressionView>>
    decreases remaining(tokens, i), 4int,
{
    let token = token_at(tokens, i);
    match token.kind {
        TokenType::IDENT => Parsed {
            value: Some(ExpressionView::Identifier(identifier_of(token))),
            advance: 0,
            errors: Seq::empty(),
        },
        TokenType::INT => match integer_literal_value(token.literal) {
            Some(value) => Parsed {
                value: Some(ExpressionView::Integer { token, value }),
                advance: 0,
                errors: Seq::empty(),
            },
            None => Parsed {
                value: None,
                advance: 0,
                errors: seq![ParseErrorView::MalformedLiteral { literal: token.literal }],
            },
        },
        TokenType::STRING => Parsed {
            value: Some(ExpressionView::Text { token, value: token.literal }),
            advance: 0,
            errors: Seq::empty(),
        },
        TokenType::TRUE => Parsed {
            value: Some(ExpressionView::Boolean { token, value: true }),
            advance: 0,
            errors: Seq::empty(),
        },
        TokenType::FALSE => Parsed {
            value: Some(ExpressionView::Boolean { token, value: false }),
            advance: 0,
            errors: Seq::empty(),
        },
        TokenType::BANG | TokenType::MINUS => {
            let operand = expression(tokens, i + 1, PrecedenceType::PREFIX);
            Parsed {
                value: match operand.value {
                    Some(e) => Some(
                        ExpressionView::Prefix {
                            token,
                            operator: token.literal,
                            operand: Box::new(e),
                        },
                    ),
                    None => None,
                },
                advance: 1 + operand.advance,
                errors: operand.errors,
            }
        },
        TokenType::LPAREN => {
            let inner = expression(tokens, i + 1, PrecedenceType::LOWEST);
            match inner.value {
                None => after(1, Seq::empty(), inner),
                Some(e) => {
                    let close = expect(tokens, i + 1 + inner.advance, TokenType::RPAREN);
                    Parsed {
                        value: if close.value {
                            Some(e)
                        } else {
                            None
                        },
                        advance: 1 + inner.advance + close.advance,
                        errors: inner.errors + close.errors,
                    }
                },
            }
        },
        TokenType::IF => conditional(tokens, i),
        TokenType::FUNCTION => function_literal(tokens, i),
        TokenType::LBRACKET => {
            let list = expression_list(tokens, i + 1, TokenType::RBRACKET);
            Parsed {
                value: match list.value {
                    Some(elements) => Some(ExpressionView::Array { token, elements }),
                    None => None,
                },
                advance: 1 + list.advance,
                errors: list.errors,
            }
        },
        _ => Parsed {
            value: None,
            advance: 0,
            errors: seq![ParseErrorView::MissingPrefixParser { kind: token.kind }],
        },
    }
}

/// Extends `left`, whose last token is the current one, to the right: as
/// long as the next token binds tighter than `precedence`, it is taken as an
/// infix operator with `left` as its left operand.
pub open spec fn infix_loop(
    tokens: Seq<TokenView>,
    i: nat,
    precedence: PrecedenceType,
    left: ExpressionView,
) -> Parsed<Option<ExpressionView>>
    decreases remaining(tokens, i), 4int,
{
    let next = kind_at(tokens, i + 1);
    if next != TokenType::SEMICOLON && precedence.rank() < precedence_of(next).rank() {
        let step = infix(tokens, i + 1, left);
        match step.value {
            None => after(1, Seq::empty(), step),
            Some(e) => after(
                1 + step.advance,
                step.errors,
                infix_loop(tokens, i + 1 + step.advance, precedence, e),
            ),
        }
    } else {
        Parsed { value: Some(left), advance: 0, errors: Seq::empty() }
    }
}

/// An infix operator at the current token, with `left` as its left operand.
/// An opening parenthesis makes a call of `left`, with the arguments up to
/// the closing parenthesis. Any other operator takes as its right operand the
/// expression that binds tighter than the operator itself, which makes the
/// binary operators associate to the left. A token that does not bind is no
/// operator, and gives nothing.
pub open spec fn infix(tokens: Seq<TokenView>, i: nat, left: ExpressionView) -> Parsed<
    Option<ExpressionView>,
>
    decreases remaining(tokens, i), 4int,
{
    let token = token_at(tokens, i);
    if token.kind == TokenType::LPAREN {
        let list = expression_list(tokens, i + 1, TokenType::RPAREN);
        Parsed {
            value: match list.value {
                Some(arguments) => Some(
                    ExpressionView::Call { token, callee: Box::new(left), arguments },
                ),
                None => None,
            },
            advance: 1 + list.advance,
            errors: list.errors,
        }
    } else if precedence_of(token.kind) == PrecedenceType::LOWEST {
        Parsed { value: None, advance: 0, errors: Seq::empty() }
    } else {
        let right = expression(tokens, i + 1, precedence_of(token.kind));
        Parsed {
            value: match right.value {
                Some(e) => Some(
                    ExpressionView::Infix {
                        token,
                        operator: token.literal,
                        left: Box::new(left),
                        right: Box::new(e),
                    },
                ),
                None => None,
            },
            advance: 1 + right.advance,
            errors: right.errors,
        }
    }
}

/// A list of expressions separated by commas, with the current token the
/// first token after the opening delimiter, up to the closing delimiter
/// `end`, on which the parser stops.
pub open spec fn expression_list(tokens: Seq<TokenView>, i: nat, end: TokenType) -> Parsed<
    Option<Seq<ExpressionView>>,
>
    decreases remaining(tokens, i), 6int,
{
    if kind_at(tokens, i) == end {
        Parsed { value: Some(Seq::empty()), advance: 0, errors: Seq::empty() }
    } else {
        let first = expression(tokens, i, PrecedenceType::LOWEST);
        match first.value {
            None => Parsed { value: None, advance: first.advance, errors: first.errors },
            Some(e) => after(
                first.advance,
                first.errors,
                list_tail(tokens, i + first.advance, end, seq![e]),
            ),
        }
    }
}

/// The rest of a list of expressions, with the current token the last token
/// of an element and `seen` the elements so far: a comma and another
/// expression, any number of times, then the closing delimiter `end`.
pub open spec fn list_tail(
    tokens: Seq<TokenView>,
    i: nat,
    end: TokenType,
    seen: Seq<ExpressionView>,
) -> Parsed<Option<Seq<ExpressionView>>>
    decreases remaining(tokens, i), 4int,
{
    if kind_at(tokens, i + 1) == TokenType::COMMA {
        let next = expression(tokens, i + 2, PrecedenceType::LOWEST);
        match next.value {
            None => Parsed { value: None, advance: 2 + next.advance, errors: next.errors },
            Some(e) => after(
                2 + next.advance,
                next.errors,
                list_tail(tokens, i + 2 + next.advance, end, seen.push(e)),
            ),
        }
    } else {
        let close = expect(tokens, i, end);
        Parsed {
            value: if close.value {
                Some(seen)
            } else {
                None
            },
            advance: close.advance,
            errors: close.errors,
        }
    }
}

/// An `if` expression, with the current token on `if`: a condition in
/// parentheses, a block, and optionally `else` and another block.
pub open spec fn conditional(tokens: Seq<TokenView>, i: nat) -> Parsed<Option<ExpressionView>>
    decreases remaining(tokens, i), 3int,
{
    let open = expect(tokens, i, TokenType::LPAREN);
    if !open.value {
        Parsed { value: None, advance: 0, errors: open.errors }
    } else {
        let condition = expression(tokens, i + 2, PrecedenceType::LOWEST);
        match condition.value {
            None => Parsed { value: None, advance: 2 + condition.advance, errors: condition.errors },
            Some(c) => after(
                2 + condition.advance,
                condition.errors,
                branches(tokens, token_at(tokens, i), i + 2 + condition.advance, c),
            ),
        }
    }
}

/// The branches of the `if` expression whose keyword is `token`, with the
/// current token the last token of its condition `condition`.
pub open spec fn branches(
    tokens: Seq<TokenView>,
    token: TokenView,
    i: nat,
    condition: ExpressionView,
) -> Parsed<Option<ExpressionView>>
    decreases remaining(tokens, i), 3int,
{
    let close = expect(tokens, i, TokenType::RPAREN);
    let open = expect(tokens, i + 1, TokenType::LBRACE);
    if !close.value {
        Parsed { value: None, advance: 0, errors: close.errors }
    } else if !open.value {
        Parsed { value: None, advance: 1, errors: open.errors }
    } else {
        let consequence = block(tokens, i + 2);
        match consequence.value {
            None => Parsed {
                value: None,
                advance: 2 + consequence.advance,
                errors: consequence.errors,
            },
            Some(first) => {
                let at = i + 2 + consequence.advance;
                let otherwise = alternative(tokens, at);
                Parsed {
                    value: match otherwise.value {
                        Some(second) => Some(
                            ExpressionView::If {
                                token,
                                condition: Box::new(condition),
                                consequence: first,
                                alternative: second,
                            },
                        ),
                        None => None,
                    },
                    advance: 2 + consequence.advance + otherwise.advance,
                    errors: consequence.errors + otherwise.errors,
                }
            },
        }
    }
}

/// What follows the consequence of an `if`, whose closing brace is the
/// current token: nothing, or `else` and a block.
pub open spec fn alternative(tokens: Seq<TokenView>, i: nat) -> Parsed<Option<Option<BlockView>>>
    decreases remaining(tokens, i), 3int,
{
    if kind_at(tokens, i + 1) != TokenType::ELSE {
        Parsed { value: Some(None), advance: 0, errors: Seq::empty() }
    } else {
        let open = expect(tokens, i + 1, TokenType::LBRACE);
        if !open.value {
            Parsed { value: None, advance: 1, errors: open.errors }
        } else {
            let second = block(tokens, i + 2);
            Parsed {
                value: match second.value {
                    Some(b) => Some(Some(b)),
                    None => None,
                },
                advance: 2 + second.advance,
                errors: second.errors,
            }
        }
    }
}

/// A function literal, with the current token on `fn`: a parameter list in
/// parentheses and a block.
pub open spec fn function_literal(tokens: Seq<TokenView>, i: nat) -> Parsed<Option<ExpressionView>>
    decreases remaining(tokens, i), 3int,
{
    let open = expect(tokens, i, TokenType::LPAREN);
    if !open.value {
        Parsed { value: None, advance: 0, errors: open.errors }
    } else {
        let list = parameters(tokens, i + 1);
        match list.value {
            None => Parsed { value: None, advance: 1 + list.advance, errors: list.errors },
            Some(names) => {
                let at = i + 1 + list.advance;
                let brace = expect(tokens, at, TokenType::LBRACE);
                if !brace.value {
                    Parsed {
                        value: None,
                        advance: 1 + list.advance,
                        errors: list.errors + brace.errors,
                    }
                } else {
                    let body = block(tokens, at + 1);
                    Parsed {
                        value: match body.value {
                            Some(b) => Some(
                                ExpressionView::Function {
                                    token: token_at(tokens, i),
                                    parameters: names,
                                    body: b,
                                },
                            ),
                            None => None,
                        },
                        advance: 2 + list.advance + body.advance,
                        errors: list.errors + body.errors,
                    }
                }
            },
        }
    }
}

/// A block, with the current token on its opening brace: statements up to
/// the closing brace, on which the parser stops. A block that the end of the
/// input cuts short is an unterminated construct.
pub open spec fn block(tokens: Seq<TokenView>, i: nat) -> Parsed<Option<BlockView>>
    decreases remaining(tokens, i), 9int,
{
    if kind_at(tokens, i) != TokenType::LBRACE {
        Parsed {
            value: None,
            advance: 0,
            errors: seq![mismatch(TokenType::LBRACE, kind_at(tokens, i))],
        }
    } else {
        let body = statements(tokens, i + 1, true, Seq::empty());
        if kind_at(tokens, i + 1 + body.advance) == TokenType::RBRACE {
            Parsed {
                value: Some(BlockView { token: token_at(tokens, i), statements: body.value }),
                advance: 1 + body.advance,
                errors: body.errors,
            }
        } else {
            Parsed {
                value: None,
                advance: 1 + body.advance,
                errors: body.errors + seq![
                    ParseErrorView::UnterminatedConstruct { expected: TokenType::RBRACE },
                ],
            }
        }
    }
}

/// A run of statements, with the current token the first token of a
/// statement and `seen` the statements so far. The run ends at the end of
/// the input and, inside a block (`nested`), at a closing brace; the parser
/// stops on that token, and never moves past the end of the input. A
/// statement that fails leaves an error and no node; where it leaves the
/// parser on the closing brace of the block, the run ends there.
pub open spec fn statements(
    tokens: Seq<TokenView>,
    i: nat,
    nested: bool,
    seen: Seq<StatementView>,
) -> Parsed<Seq<StatementView>>
    decreases remaining(tokens, i), 8int,
{
    if kind_at(tokens, i) == TokenType::EOF || (nested && kind_at(tokens, i) == TokenType::RBRACE) {
        Parsed { value: seen, advance: 0, errors: Seq::empty() }
    } else {
        let first = statement(tokens, i);
        let at = i + first.advance;
        match first.value {
            Some(s) => if kind_at(tokens, at) == TokenType::EOF {
                Parsed { value: seen.push(s), advance: first.advance, errors: first.errors }
            } else {
                after(
                    first.advance + 1,
                    first.errors,
                    statements(tokens, at + 1, nested, seen.push(s)),
                )
            },
            None => if kind_at(tokens, at) == TokenType::EOF || (nested && kind_at(tokens, at)
                == TokenType::RBRACE) {
                Parsed { value: seen, advance: first.advance, errors: first.errors }
            } else {
                after(first.advance + 1, first.errors, statements(tokens, at + 1, nested, seen))
            },
        }
    }
}

/// One statement, with the current token its first token: a `let`, a
/// `return`, or an expression. Afterwards the current token is the last
/// token of the statement. Where the statement fails the parser skips to the
/// next statement boundary.
pub open spec fn statement(tokens: Seq<TokenView>, i: nat) -> Parsed<Option<StatementView>>
    decreases remaining(tokens, i), 7int,
{
    let first = match kind_at(tokens, i) {
        TokenType::LET => let_statement(tokens, i),
        TokenType::RETURN => return_statement(tokens, i),
        _ => expression_statement(tokens, i),
    };
    if first.value is Some {
        first
    } else {
        Parsed {
            value: None,
            advance: first.advance + recovery(tokens, i + first.advance),
            errors: first.errors,
        }
    }
}

/// `let <identifier> = <expression>`, then the end of the statement.
pub open spec fn let_statement(tokens: Seq<TokenView>, i: nat) -> Parsed<Option<StatementView>>
    decreases remaining(tokens, i), 6int,
{
    let name = expect(tokens, i, TokenType::IDENT);
    let assign = expect(tokens, i + 1, TokenType::ASSIGN);
    if !name.value {
        Parsed { value: None, advance: 0, errors: name.errors }
    } else if !assign.value {
        Parsed { value: None, advance: 1, errors: assign.errors }
    } else {
        let value = expression(tokens, i + 3, PrecedenceType::LOWEST);
        match value.value {
            None => Parsed { value: None, advance: 3 + value.advance, errors: value.errors },
            Some(e) => {
                let end = terminator(tokens, i + 3 + value.advance);
                Parsed {
                    value: if end.value {
                        Some(
                            StatementView::Let {
                                token: token_at(tokens, i),
                                name: identifier_of(token_at(tokens, i + 1)),
                                value: e,
                            },
                        )
                    } else {
                        None
                    },
                    advance: 3 + value.advance + end.advance,
                    errors: value.errors + end.errors,
                }
            },
        }
    }
}

/// `return`, optionally an expression, then the end of the statement.
pub open spec fn return_statement(tokens: Seq<TokenView>, i: nat) -> Parsed<Option<StatementView>>
    decreases remaining(tokens, i), 6int,
{
    let next = kind_at(tokens, i + 1);
    if next == TokenType::SEMICOLON || next == TokenType::RBRACE || next == TokenType::EOF {
        let end = terminator(tokens, i);
        Parsed {
            value: Some(StatementView::Return { token: token_at(tokens, i), value: None }),
            advance: end.advance,
            errors: Seq::empty(),
        }
    } else {
        let value = expression(tokens, i + 1, PrecedenceType::LOWEST);
        match value.value {
            None => Parsed { value: None, advance: 1 + value.advance, errors: value.errors },
            Some(e) => {
                let end = terminator(tokens, i + 1 + value.advance);
                Parsed {
                    value: if end.value {
                        Some(
                            StatementView::Return { token: token_at(tokens, i), value: Some(e) },
                        )
                    } else {
                        None
                    },
                    advance: 1 + value.advance + end.advance,
                    errors: value.errors + end.errors,
                }
            },
        }
    }
}

/// An expression used as a statement. A semicolon after it is consumed; none
/// is required.
pub open spec fn expression_statement(tokens: Seq<TokenView>, i: nat) -> Parsed<
    Option<StatementView>,
>
    decreases remaining(tokens, i), 6int,
{
    let value = expression(tokens, i, PrecedenceType::LOWEST);
    match value.value {
        None => Parsed { value: None, advance: value.advance, errors: value.errors },
        Some(e) => Parsed {
            value: Some(StatementView::Expression { token: token_at(tokens, i), expr: e }),
            advance: if kind_at(tokens, i + value.advance + 1) == TokenType::SEMICOLON {
                value.advance + 1
            } else {
                value.advance
            },
            errors: value.errors,
        },
    }
}

/// A program: the statements from the current token to the end of the
/// input.
pub open spec fn program(tokens: Seq<TokenView>, i: nat) -> Parsed<ProgramView> {
    let body = statements(tokens, i, false, Seq::empty());
    Parsed {
        value: ProgramView { statements: body.value },
        advance: body.advance,
        errors: body.errors,
    }
}

/// The program that a source text stands for, and the errors in it.
pub open spec fn parse(source: Seq<char>) -> Parsed<ProgramView> {
    program(tokenize(source), 0)
}

} // verus!
