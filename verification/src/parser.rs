use crate::ast::{
    expression_view, expressions_view, identifiers_view, optional_block_view,
    optional_expression_view, optional_expressions_view, optional_statement_view,
    statement_view, statements_view, ArrayLiteral, BlockStatement, Boolean, CallExpression, Expression,
    ExpressionStatement, FunctionLiteral, Identifier, IfExpression, InfixExpression,
    IntegerLiteral, LetStatement, PrefixExpression, Program, ReturnStatement, Statement,
    StringLiteral,
};
use crate::error::{message_text, mismatch, ParseError, ParseErrorView};
use crate::grammar::{
    alternative, block, branches, conditional, expect, expression, expression_list,
    expression_statement, function_literal, identifier_of, infix, infix_loop, let_statement,
    list_tail, parameter_tail, parameters, precedence_of, prefix, program, recovery, remaining,
    return_statement, spec_precedence_of, statement, statements, terminator, Parsed,
    PrecedenceType,
};
use crate::laws::lemma_program_stays_within;
use crate::lexer::{
    lemma_offset_after_step, lemma_stream_ends_at_end_of_input, lemma_token_stream, offset_after,
    tokens_from, Lexer,
};
use crate::number::parse_integer;
use crate::syntax::{ExpressionView, StatementView};
use crate::token::{end_of_input, kind_at, token_at, Token, TokenType, TokenView};
use vstd::prelude::*;

verus! {

/// The parser: a scanner, the current token and the one after it, and the
/// errors met so far. A new parser has read nothing: its first two moves
/// bring in the first two tokens.
pub struct Parser {
    lexer: Lexer,
    cur_token: Token,
    peek_token: Token,
    errors: Vec<String>,
    diagnostics: Vec<ParseError>,
    unread: u8,
    origin: Ghost<nat>,
    index: Ghost<nat>,
}

/// The messages of a list of errors, one for one.
spec fn message_texts(errors: Seq<ParseErrorView>) -> Seq<Seq<char>> {
    Seq::new(errors.len(), |i: int| message_text(errors[i]))
}

/// The parser has gone from `before` to `after` as `outcome` says: over the
/// same token stream, it has moved forward by `outcome.advance` tokens and
/// added `outcome.errors` to the errors it had met.
pub open spec fn follows<T>(before: Parser, after: Parser, outcome: Parsed<T>) -> bool {
    &&& after.ready()
    &&& after.tokens() == before.tokens()
    &&& after.position() == before.position() + outcome.advance
    &&& after.reported() =~= before.reported() + outcome.errors
}

/// A run of statements, as the parser's loop over them speaks of it.
#[verifier::opaque]
spec fn run(tokens: Seq<TokenView>, i: nat, nested: bool, seen: Seq<StatementView>) -> Parsed<
    Seq<StatementView>,
> {
    statements(tokens, i, nested, seen)
}

/// Whether a run of statements ends at position `i`.
spec fn at_end(tokens: Seq<TokenView>, i: nat, nested: bool) -> bool {
    kind_at(tokens, i) == TokenType::EOF || (nested && kind_at(tokens, i) == TokenType::RBRACE)
}

/// The errors that one step of a run of statements adds.
#[verifier::opaque]
spec fn step_errors(tokens: Seq<TokenView>, i: nat, nested: bool) -> Seq<ParseErrorView> {
    if at_end(tokens, i, nested) {
        Seq::empty()
    } else {
        statement(tokens, i).errors
    }
}

/// The outcome `whole` is reached by moving `advance` tokens, meeting
/// `errors`, and going on as `rest` says.
spec fn stage<T>(
    whole: Parsed<T>,
    advance: nat,
    errors: Seq<ParseErrorView>,
    rest: Parsed<T>,
) -> bool {
    &&& whole.value == rest.value
    &&& whole.advance == advance + rest.advance
    &&& whole.errors =~= errors + rest.errors
}

/// The two blocks of an `if` expression, as `branches` goes on once the
/// parser stands on the opening brace of the first.
spec fn bodies(
    tokens: Seq<TokenView>,
    token: TokenView,
    i: nat,
    condition: ExpressionView,
) -> Parsed<Option<ExpressionView>> {
    let consequence = block(tokens, i);
    match consequence.value {
        None => Parsed { value: None, advance: consequence.advance, errors: consequence.errors },
        Some(first) => {
            let otherwise = alternative(tokens, i + consequence.advance);
            Parsed {
                value: match otherwise.value {
                    Some(second) => Some(
                        ExpressionView::If {
                            token,
                            condition: Box::new(condition),
                            consequence: first,
                            alternative: second,
                        },
                    ),
                    None => None,
                },
                advance: consequence.advance + otherwise.advance,
                errors: consequence.errors + otherwise.errors,
            }
        },
    }
}

impl Parser {
    /// The token stream that the parser reads: what its scanner had still to
    /// deliver when the parser was made.
    #[verifier::opaque]
    pub closed spec fn tokens(&self) -> Seq<TokenView> {
        tokens_from(self.lexer.source(), self.origin@)
    }

    /// The position of the current token in the token stream; 0 as long as
    /// the first token has not become the current one.
    pub closed spec fn position(&self) -> nat {
        self.index@
    }

    /// How many moves are still needed to make the first token of the
    /// stream the current one: 2 for a new parser, 0 once it is.
    pub closed spec fn pending(&self) -> nat {
        self.unread as nat
    }

    /// The current token: that of the stream at the parser's position or,
    /// as long as the first token has not come in, the end of input.
    pub open spec fn cur(&self) -> TokenView {
        if self.pending() == 0 {
            token_at(self.tokens(), self.position())
        } else {
            end_of_input()
        }
    }

    /// The token after the current one: the next of the stream or, in a
    /// parser that has read nothing, the end of input.
    pub open spec fn peek(&self) -> TokenView {
        if self.pending() == 0 {
            token_at(self.tokens(), self.position() + 1)
        } else if self.pending() == 1 {
            token_at(self.tokens(), 0)
        } else {
            end_of_input()
        }
    }

    /// The parser is well-formed and stands on a token of the stream: the
    /// state in which a construct can be parsed.
    pub open spec fn ready(&self) -> bool {
        self.wf() && self.pending() == 0
    }

    /// The errors met so far, in order.
    #[verifier::opaque]
    pub closed spec fn reported(&self) -> Seq<ParseErrorView> {
        Seq::new(self.diagnostics@.len(), |i: int| self.diagnostics@[i]@)
    }

    /// The error messages held, in order.
    #[verifier::opaque]
    pub closed spec fn messages(&self) -> Seq<Seq<char>> {
        Seq::new(self.errors@.len(), |i: int| self.errors@[i]@)
    }

    /// The current token and the one after it are what `cur` and `peek` say,
    /// the scanner stands right after the tokens read, and each error has
    /// its message.
    #[verifier::opaque]
    pub closed spec fn wf(&self) -> bool {
        &&& self.lexer.wf()
        &&& self.unread <= 2
        &&& (self.unread > 0 ==> self.index@ == 0)
        &&& self.lexer.offset() == offset_after(
            self.lexer.source(),
            self.origin@,
            (self.index@ + 2 - self.unread) as nat,
        )
        &&& self.cur_token@ == self.cur()
        &&& self.peek_token@ == self.peek()
        &&& self.messages() == message_texts(self.reported())
    }

    /// A token stream is not empty, ends with the end of input, and holds
    /// no other end of input: past its last token only `token_at`'s padding
    /// follows.
    pub proof fn lemma_tokens_end(&self)
        ensures
            self.tokens().len() > 0,
            self.tokens().last() == end_of_input(),
            forall|k: int|
                0 <= k < self.tokens().len() - 1 ==> (#[trigger] self.tokens()[k]).kind
                    != TokenType::EOF,
    {
        reveal(Parser::tokens);
        lemma_stream_ends_at_end_of_input(self.lexer.source(), self.origin@);
    }

    /// In a well-formed parser at most two moves are pending, and as long
    /// as one is, the position is 0.
    pub proof fn lemma_pending(&self)
        requires
            self.wf(),
        ensures
            self.pending() <= 2,
            self.pending() > 0 ==> self.position() == 0,
    {
        reveal(Parser::wf);
    }

    /// A parser over the tokens that `lexer` has still to deliver, with no
    /// error met. Nothing is read: the current token and the one after it
    /// are the end of input until `next_token` brings the first tokens in.
    pub fn new(lexer: Lexer) -> (parser: Parser)
        requires
            lexer.wf(),
        ensures
            parser.wf(),
            parser.tokens() == lexer.remaining(),
            parser.position() == 0,
            parser.pending() == 2,
            parser.cur() == end_of_input(),
            parser.peek() == end_of_input(),
            parser.reported() == Seq::<ParseErrorView>::empty(),
    {
        proof {
            reveal(Parser::tokens);
            reveal(Parser::reported);
            reveal(Parser::messages);
            reveal(Parser::wf);
        }
        let ghost origin = lexer.offset();
        let parser = Parser {
            lexer,
            cur_token: Token::end(),
            peek_token: Token::end(),
            errors: Vec::new(),
            diagnostics: Vec::new(),
            unread: 2,
            origin: Ghost(origin),
            index: Ghost(0),
        };
        assert(offset_after(parser.lexer.source(), origin, 0) == origin);
        assert(parser.reported() =~= Seq::<ParseErrorView>::empty());
        assert(parser.messages() =~= message_texts(parser.reported()));
        parser
    }

    /// Moves one token forward: the token after the current one becomes the
    /// current one, and the next token of the stream is read.
    pub fn next_token(&mut self)
        requires
            old(self).wf(),
        ensures
            final(self).wf(),
            final(self).tokens() == old(self).tokens(),
            final(self).reported() == old(self).reported(),
            final(self).pending() == (if old(self).pending() > 0 {
                old(self).pending() - 1
            } else {
                0
            }),
            final(self).position() == (if old(self).pending() > 0 {
                0
            } else {
                old(self).position() + 1
            }),
            final(self).cur() == old(self).peek(),
    {
        proof {
            reveal(Parser::tokens);
            reveal(Parser::reported);
            reveal(Parser::messages);
            reveal(Parser::wf);
            let read = (self.index@ + 2 - self.unread) as nat;
            lemma_offset_after_step(self.lexer.source(), self.origin@, read);
            lemma_token_stream(self.lexer.source(), self.origin@, read);
        }
        let next = self.lexer.next_token();
        core::mem::swap(&mut self.cur_token, &mut self.peek_token);
        self.peek_token = next;
        if self.unread > 0 {
            self.unread = self.unread - 1;
        } else {
            self.index = Ghost(self.index@ + 1);
        }
    }

    /// The category of the current token.
    pub fn cur_kind(&self) -> (kind: TokenType)
        requires
            self.wf(),
        ensures
            kind == self.cur().kind,
    {
        proof {
            reveal(Parser::wf);
        }
        self.cur_token.token
    }

    /// The category of the token after the current one.
    pub fn peek_kind(&self) -> (kind: TokenType)
        requires
            self.wf(),
        ensures
            kind == self.peek().kind,
    {
        proof {
            reveal(Parser::wf);
        }
        self.peek_token.token
    }

    /// The precedence of the current token.
    pub fn cur_precedence(&self) -> (p: PrecedenceType)
        requires
            self.wf(),
        ensures
            p == spec_precedence_of(self.cur().kind),
    {
        proof {
            reveal(Parser::wf);
        }
        precedence_of(self.cur_token.token)
    }

    /// The precedence of the token after the current one.
    pub fn peek_precedence(&self) -> (p: PrecedenceType)
        requires
            self.wf(),
        ensures
            p == spec_precedence_of(self.peek().kind),
    {
        proof {
            reveal(Parser::wf);
        }
        precedence_of(self.peek_token.token)
    }

    /// A copy of the current token.
    pub fn current(&self) -> (token: Token)
        requires
            self.wf(),
        ensures
            token@ == self.cur(),
    {
        proof {
            reveal(Parser::wf);
        }
        self.cur_token.clone()
    }

    /// The current token.
    pub fn cur_token(&self) -> (token: &Token)
        requires
            self.wf(),
        ensures
            token@ == self.cur(),
    {
        proof {
            reveal(Parser::wf);
        }
        &self.cur_token
    }

    /// The token after the current one.
    pub fn peek_token(&self) -> (token: &Token)
        requires
            self.wf(),
        ensures
            token@ == self.peek(),
    {
        proof {
            reveal(Parser::wf);
        }
        &self.peek_token
    }

    /// The error messages met so far, in order: one for each error.
    pub fn errors(&self) -> (messages: &[String])
        requires
            self.wf(),
        ensures
            messages@.len() == self.reported().len(),
            forall|i: int|
                0 <= i < messages@.len() ==> (#[trigger] messages@[i])@ == message_text(
                    self.reported()[i],
                ),
    {
        proof {
            reveal(Parser::wf);
            reveal(Parser::messages);
            reveal(Parser::reported);
        }
        assert(self.messages().len() == message_texts(self.reported()).len());
        assert forall|i: int| 0 <= i < self.errors@.len() implies (#[trigger] self.errors@[i])@
            == message_text(self.reported()[i]) by {
            assert(self.messages()[i] == self.errors@[i]@);
            assert(message_texts(self.reported())[i] == message_text(self.reported()[i]));
        }
        self.errors.as_slice()
    }

    /// The errors met so far, in order.
    pub fn diagnostics(&self) -> (errors: &[ParseError])
        ensures
            errors@.len() == self.reported().len(),
            forall|i: int| 0 <= i < errors@.len() ==> (#[trigger] errors@[i])@ == self.reported()[i],
    {
        proof {
            reveal(Parser::reported);
        }
        self.diagnostics.as_slice()
    }

    /// Adds an error to those met.
    fn record(&mut self, error: ParseError)
        requires
            old(self).wf(),
        ensures
            final(self).wf(),
            final(self).tokens() == old(self).tokens(),
            final(self).position() == old(self).position(),
            final(self).pending() == old(self).pending(),
            final(self).reported() == old(self).reported() + seq![error@],
    {
        proof {
            reveal(Parser::tokens);
            reveal(Parser::reported);
            reveal(Parser::messages);
            reveal(Parser::wf);
        }
        let message = error.message();
        self.errors.push(message);
        self.diagnostics.push(error);
        assert(self.reported() =~= old(self).reported() + seq![error@]);
        assert(self.messages() =~= message_texts(self.reported())) by {
            let n = old(self).messages().len();
            assert(n == message_texts(old(self).reported()).len());
            assert(n == old(self).reported().len());
            assert(self.messages().len() == n + 1);
            assert(self.reported().len() == n + 1);
            assert forall|i: int| 0 <= i < n + 1 implies self.messages()[i] == message_texts(
                self.reported(),
            )[i] by {
                if i < n {
                    assert(self.messages()[i] == old(self).messages()[i]);
                    assert(old(self).messages()[i] == message_texts(old(self).reported())[i]);
                    assert(self.reported()[i] == old(self).reported()[i]);
                } else {
                    assert(self.messages()[i] == message@);
                    assert(self.reported()[i] == error@);
                }
            }
        }
    }

    /// Requires the next token to be of category `expected`: moves onto it
    /// where it is; records a mismatch and stays where it is not.
    fn expect_peek(&mut self, expected: TokenType) -> (found: bool)
        requires
            old(self).ready(),
        ensures
            follows(
                *old(self),
                *final(self),
                expect(old(self).tokens(), old(self).position(), expected),
            ),
            found == expect(old(self).tokens(), old(self).position(), expected).value,
    {
        let actual = self.peek_kind();
        if actual == expected {
            self.next_token();
            true
        } else {
            self.record(ParseError::mismatch(expected, actual));
            false
        }
    }

    /// Ends a `let` or `return` statement: consumes a semicolon; accepts its
    /// absence before a closing brace or the end of the input.
    fn parse_terminator(&mut self) -> (found: bool)
        requires
            old(self).ready(),
        ensures
            follows(*old(self), *final(self), terminator(old(self).tokens(), old(self).position())),
            found == terminator(old(self).tokens(), old(self).position()).value,
    {
        let next = self.peek_kind();
        if next == TokenType::RBRACE || next == TokenType::EOF {
            true
        } else {
            self.expect_peek(TokenType::SEMICOLON)
        }
    }

    /// Skips to the next statement boundary.
    fn recover(&mut self)
        requires
            old(self).ready(),
        ensures
            final(self).ready(),
            final(self).tokens() == old(self).tokens(),
            final(self).position() == old(self).position() + recovery(
                old(self).tokens(),
                old(self).position(),
            ),
            final(self).reported() == old(self).reported(),
    {
        let ghost tokens = self.tokens();
        let ghost start = self.position();
        loop
            invariant
                self.ready(),
                self.tokens() == tokens,
                self.position() >= start,
                self.reported() == old(self).reported(),
                start + recovery(tokens, start) == self.position() + recovery(
                    tokens,
                    self.position(),
                ),
            ensures
                self.ready(),
                self.tokens() == tokens,
                self.reported() == old(self).reported(),
                self.position() == start + recovery(tokens, start),
            decreases remaining(tokens, self.position()),
        {
            let here = self.cur_kind();
            let next = self.peek_kind();
            if here == TokenType::SEMICOLON || here == TokenType::RBRACE || here == TokenType::EOF
                || next == TokenType::RBRACE || next == TokenType::EOF {
                break;
            }
            self.next_token();
        }
    }

    /// The parameter list of a function literal, with the current token on
    /// its opening parenthesis.
    #[verifier::loop_isolation(false)]
    fn parse_function_parameters(&mut self) -> (list: Option<Vec<Identifier>>)
        requires
            old(self).ready(),
        ensures
            follows(*old(self), *final(self), parameters(old(self).tokens(), old(self).position())),
            match list {
                Some(names) => parameters(old(self).tokens(), old(self).position()).value == Some(
                    identifiers_view(names@),
                ),
                None => parameters(old(self).tokens(), old(self).position()).value is None,
            },
    {
        let ghost tokens = self.tokens();
        let ghost start = self.position();
        let ghost before = self.reported();
        let mut names: Vec<Identifier> = Vec::new();
        let first = self.peek_kind();
        if first == TokenType::RPAREN {
            self.next_token();
            assert(identifiers_view(names@) =~= Seq::empty());
            return Some(names);
        }
        if !self.expect_peek(TokenType::IDENT) {
            return None;
        }
        let token = self.current();
        let name = token.literal.clone();
        names.push(Identifier { token, name });
        assert(identifiers_view(names@) =~= seq![identifier_of(token_at(tokens, start + 1))]);
        let ghost target = parameter_tail(tokens, start + 1, identifiers_view(names@));
        loop
            invariant
                self.ready(),
                self.tokens() == tokens,
                self.position() > start,
                self.reported() == before,
                tokens == old(self).tokens(),
                target.value == parameter_tail(
                    tokens,
                    self.position(),
                    identifiers_view(names@),
                ).value,
                target.advance == (self.position() - start - 1) + parameter_tail(
                    tokens,
                    self.position(),
                    identifiers_view(names@),
                ).advance,
                target.errors =~= parameter_tail(
                    tokens,
                    self.position(),
                    identifiers_view(names@),
                ).errors,
            decreases remaining(tokens, self.position()),
        {
            let next = self.peek_kind();
            if next == TokenType::COMMA {
                self.next_token();
                if !self.expect_peek(TokenType::IDENT) {
                    return None;
                }
                let token = self.current();
                let name = token.literal.clone();
                let ghost seen = identifiers_view(names@);
                names.push(Identifier { token, name });
                assert(identifiers_view(names@) =~= seen.push(
                    identifier_of(token_at(tokens, self.position())),
                ));
            } else {
                if self.expect_peek(TokenType::RPAREN) {
                    return Some(names);
                } else {
                    return None;
                }
            }
        }
    }

    /// An expression that binds tighter than `precedence`, with the current
    /// token its first token.
    pub fn parse_expression(&mut self, precedence: PrecedenceType) -> (result: Option<Expression>)
        requires
            old(self).ready(),
        ensures
            follows(
                *old(self),
                *final(self),
                expression(old(self).tokens(), old(self).position(), precedence),
            ),
            optional_expression_view(result) == expression(
                old(self).tokens(),
                old(self).position(),
                precedence,
            ).value,
        decreases remaining(old(self).tokens(), old(self).position()), 5int,
    {
        match self.parse_prefix() {
            None => None,
            Some(left) => self.parse_infix_loop(precedence, left),
        }
    }

    /// What stands in prefix position at the current token.
    #[verifier::rlimit(50)]
    fn parse_prefix(&mut self) -> (result: Option<Expression>)
        requires
            old(self).ready(),
        ensures
            follows(*old(self), *final(self), prefix(old(self).tokens(), old(self).position())),
            optional_expression_view(result) == prefix(
                old(self).tokens(),
                old(self).position(),
            ).value,
        decreases remaining(old(self).tokens(), old(self).position()), 4int,
    {
        let token = self.current();
        match token.token {
            TokenType::IDENT => {
                let name = token.literal.clone();
                Some(Expression::Identifier(Identifier { token, name }))
            },
            TokenType::INT => match parse_integer(token.literal.as_str()) {
                Some(value) => Some(Expression::IntegerLiteral(IntegerLiteral { token, value })),
                None => {
                    self.record(ParseError::MalformedLiteral { literal: token.literal });
                    None
                },
            },
            TokenType::STRING => {
                let value = token.literal.clone();
                Some(Expression::StringLiteral(StringLiteral { token, value }))
            },
            TokenType::TRUE => Some(Expression::Boolean(Boolean { token, value: true })),
            TokenType::FALSE => Some(Expression::Boolean(Boolean { token, value: false })),
            TokenType::BANG | TokenType::MINUS => {
                self.next_token();
                match self.parse_expression(PrecedenceType::PREFIX) {
                    Some(operand) => {
                        let operator = token.literal.clone();
                        Some(
                            Expression::Prefix(
                                PrefixExpression { token, operator, operand: Box::new(operand) },
                            ),
                        )
                    },
                    None => None,
                }
            },
            TokenType::LPAREN => {
                self.next_token();
                match self.parse_expression(PrecedenceType::LOWEST) {
                    Some(inner) => {
                        if self.expect_peek(TokenType::RPAREN) {
                            Some(inner)
                        } else {
                            None
                        }
                    },
                    None => None,
                }
            },
            TokenType::IF => self.parse_if_expression(),
            TokenType::FUNCTION => self.parse_function_literal(),
            TokenType::LBRACKET => {
                self.next_token();
                match self.parse_expression_list(TokenType::RBRACKET) {
                    Some(elements) => Some(
                        Expression::ArrayLiteral(ArrayLiteral { token, elements }),
                    ),
                    None => None,
                }
            },
            _ => {
                self.record(ParseError::MissingPrefixParser { kind: token.token });
                None
            },
        }
    }

    /// Extends `left` to the right by every operator that binds tighter than
    /// `precedence`.
    #[verifier::loop_isolation(false)]
    fn parse_infix_loop(&mut self, precedence: PrecedenceType, left: Expression) -> (result:
        Option<Expression>)
        requires
            old(self).ready(),
        ensures
            follows(
                *old(self),
                *final(self),
                infix_loop(old(self).tokens(), old(self).position(), precedence, left@),
            ),
            optional_expression_view(result) == infix_loop(
                old(self).tokens(),
                old(self).position(),
                precedence,
                left@,
            ).value,
        decreases remaining(old(self).tokens(), old(self).position()), 4int,
    {
        let ghost tokens = self.tokens();
        let ghost start = self.position();
        let ghost before = self.reported();
        let ghost target = infix_loop(tokens, start, precedence, left@);
        let ghost mut done: Seq<ParseErrorView> = Seq::empty();
        let mut left = left;
        loop
            invariant
                self.ready(),
                self.tokens() == tokens,
                self.position() >= start,
                target.value == infix_loop(tokens, self.position(), precedence, left@).value,
                target.advance == (self.position() - start) + infix_loop(
                    tokens,
                    self.position(),
                    precedence,
                    left@,
                ).advance,
                target.errors =~= done + infix_loop(
                    tokens,
                    self.position(),
                    precedence,
                    left@,
                ).errors,
                self.reported() =~= before + done,
            decreases remaining(tokens, self.position()),
        {
            let next = self.peek_kind();
            if next == TokenType::SEMICOLON || precedence.rank() >= precedence_of(next).rank() {
                return Some(left);
            }
            self.next_token();
            let ghost step = infix(tokens, self.position(), left@);
            match self.parse_infix(left) {
                Some(extended) => {
                    proof {
                        done = done + step.errors;
                    }
                    left = extended;
                },
                None => {
                    return None;
                },
            }
        }
    }

    /// An infix operator at the current token, with `left` as its left
    /// operand.
    #[verifier::rlimit(50)]
    fn parse_infix(&mut self, left: Expression) -> (result: Option<Expression>)
        requires
            old(self).ready(),
        ensures
            follows(
                *old(self),
                *final(self),
                infix(old(self).tokens(), old(self).position(), left@),
            ),
            optional_expression_view(result) == infix(
                old(self).tokens(),
                old(self).position(),
                left@,
            ).value,
        decreases remaining(old(self).tokens(), old(self).position()), 4int,
    {
        let token = self.current();
        if token.token == TokenType::LPAREN {
            self.next_token();
            match self.parse_expression_list(TokenType::RPAREN) {
                Some(arguments) => Some(
                    Expression::Call(CallExpression { token, callee: Box::new(left), arguments }),
                ),
                None => None,
            }
        } else if precedence_of(token.token) == PrecedenceType::LOWEST {
            None
        } else {
            let precedence = precedence_of(token.token);
            self.next_token();
            match self.parse_expression(precedence) {
                Some(right) => {
                    let operator = token.literal.clone();
                    Some(
                        Expression::Infix(
                            InfixExpression {
                                token,
                                operator,
                                left: Box::new(left),
                                right: Box::new(right),
                            },
                        ),
                    )
                },
                None => None,
            }
        }
    }

    /// A list of expressions separated by commas, with the current token
    /// the first token after the opening delimiter, up to `end`.
    #[verifier::loop_isolation(false)]
    fn parse_expression_list(&mut self, end: TokenType) -> (list: Option<Vec<Expression>>)
        requires
            old(self).ready(),
        ensures
            follows(
                *old(self),
                *final(self),
                expression_list(old(self).tokens(), old(self).position(), end),
            ),
            optional_expressions_view(list) == expression_list(
                old(self).tokens(),
                old(self).position(),
                end,
            ).value,
        decreases remaining(old(self).tokens(), old(self).position()), 6int,
    {
        let ghost tokens = self.tokens();
        let ghost start = self.position();
        let mut items: Vec<Expression> = Vec::new();
        if self.cur_kind() == end {
            assert(expressions_view(items@) =~= Seq::empty());
            return Some(items);
        }
        match self.parse_expression(PrecedenceType::LOWEST) {
            None => {
                return None;
            },
            Some(first) => {
                items.push(first);
                assert(expressions_view(items@) =~= seq![expression_view(first)]);
            },
        }
        let ghost middle = self.position();
        let ghost before = self.reported();
        let ghost target = list_tail(tokens, middle, end, expressions_view(items@));
        let ghost mut done: Seq<ParseErrorView> = Seq::empty();
        loop
            invariant
                self.ready(),
                self.tokens() == tokens,
                self.position() >= middle,
                target.value == list_tail(
                    tokens,
                    self.position(),
                    end,
                    expressions_view(items@),
                ).value,
                target.advance == (self.position() - middle) + list_tail(
                    tokens,
                    self.position(),
                    end,
                    expressions_view(items@),
                ).advance,
                target.errors =~= done + list_tail(
                    tokens,
                    self.position(),
                    end,
                    expressions_view(items@),
                ).errors,
                self.reported() =~= before + done,
            decreases remaining(tokens, self.position()),
        {
            if self.peek_kind() == TokenType::COMMA {
                self.next_token();
                self.next_token();
                let ghost next = expression(tokens, self.position(), PrecedenceType::LOWEST);
                match self.parse_expression(PrecedenceType::LOWEST) {
                    None => {
                        return None;
                    },
                    Some(item) => {
                        let ghost seen = expressions_view(items@);
                        items.push(item);
                        proof {
                            assert(expressions_view(items@) =~= seen.push(expression_view(item)));
                            done = done + next.errors;
                        }
                    },
                }
            } else {
                if self.expect_peek(end) {
                    return Some(items);
                } else {
                    return None;
                }
            }
        }
    }

    /// An `if` expression, with the current token on `if`.
    #[verifier::rlimit(50)]
    fn parse_if_expression(&mut self) -> (result: Option<Expression>)
        requires
            old(self).ready(),
        ensures
            follows(
                *old(self),
                *final(self),
                conditional(old(self).tokens(), old(self).position()),
            ),
            optional_expression_view(result) == conditional(
                old(self).tokens(),
                old(self).position(),
            ).value,
        decreases remaining(old(self).tokens(), old(self).position()), 3int,
    {
        let token = self.current();
        if !self.expect_peek(TokenType::LPAREN) {
            return None;
        }
        self.next_token();
        match self.parse_expression(PrecedenceType::LOWEST) {
            None => None,
            Some(condition) => self.parse_branches(token, condition),
        }
    }

    /// The branches of the `if` expression whose keyword is `token`, with
    /// the current token the last token of its condition.
    #[verifier::rlimit(50)]
    fn parse_branches(&mut self, token: Token, condition: Expression) -> (result: Option<
        Expression,
    >)
        requires
            old(self).ready(),
        ensures
            follows(
                *old(self),
                *final(self),
                branches(old(self).tokens(), token@, old(self).position(), condition@),
            ),
            optional_expression_view(result) == branches(
                old(self).tokens(),
                token@,
                old(self).position(),
                condition@,
            ).value,
        decreases remaining(old(self).tokens(), old(self).position()), 3int,
    {
        if !self.expect_peek(TokenType::RPAREN) {
            return None;
        }
        if !self.expect_peek(TokenType::LBRACE) {
            return None;
        }
        self.parse_bodies(token, condition)
    }

    /// The two blocks of the `if` expression whose keyword is `token` and
    /// whose condition is `condition`, with the current token on the opening
    /// brace of the first.
    #[verifier::rlimit(50)]
    fn parse_bodies(&mut self, token: Token, condition: Expression) -> (result: Option<Expression>)
        requires
            old(self).ready(),
        ensures
            follows(
                *old(self),
                *final(self),
                bodies(old(self).tokens(), token@, old(self).position(), condition@),
            ),
            optional_expression_view(result) == bodies(
                old(self).tokens(),
                token@,
                old(self).position(),
                condition@,
            ).value,
        decreases remaining(old(self).tokens(), old(self).position()), 11int,
    {
        match self.parse_block_statement() {
            None => None,
            Some(consequence) => match self.parse_alternative() {
                None => None,
                Some(alternative) => Some(
                    Expression::If(
                        IfExpression {
                            token,
                            condition: Box::new(condition),
                            consequence,
                            alternative,
                        },
                    ),
                ),
            },
        }
    }

    /// What follows the consequence of an `if`: nothing, or `else` and a
    /// block.
    #[verifier::rlimit(50)]
    fn parse_alternative(&mut self) -> (result: Option<Option<BlockStatement>>)
        requires
            old(self).ready(),
        ensures
            follows(
                *old(self),
                *final(self),
                alternative(old(self).tokens(), old(self).position()),
            ),
            match result {
                Some(found) => alternative(old(self).tokens(), old(self).position()).value
                    == Some(optional_block_view(found)),
                None => alternative(old(self).tokens(), old(self).position()).value is None,
            },
        decreases remaining(old(self).tokens(), old(self).position()), 3int,
    {
        if self.peek_kind() != TokenType::ELSE {
            return Some(None);
        }
        self.next_token();
        if !self.expect_peek(TokenType::LBRACE) {
            return None;
        }
        match self.parse_block_statement() {
            Some(second) => Some(Some(second)),
            None => None,
        }
    }

    /// A function literal, with the current token on `fn`.
    #[verifier::rlimit(50)]
    fn parse_function_literal(&mut self) -> (result: Option<Expression>)
        requires
            old(self).ready(),
        ensures
            follows(
                *old(self),
                *final(self),
                function_literal(old(self).tokens(), old(self).position()),
            ),
            optional_expression_view(result) == function_literal(
                old(self).tokens(),
                old(self).position(),
            ).value,
        decreases remaining(old(self).tokens(), old(self).position()), 3int,
    {
        let token = self.current();
        if !self.expect_peek(TokenType::LPAREN) {
            return None;
        }
        let parameters = match self.parse_function_parameters() {
            Some(parameters) => parameters,
            None => {
                return None;
            },
        };
        if !self.expect_peek(TokenType::LBRACE) {
            return None;
        }
        match self.parse_block_statement() {
            Some(body) => Some(Expression::Function(FunctionLiteral { token, parameters, body })),
            None => None,
        }
    }

    /// A block, with the current token on its opening brace.
    #[verifier::rlimit(50)]
    pub fn parse_block_statement(&mut self) -> (result: Option<BlockStatement>)
        requires
            old(self).ready(),
        ensures
            follows(*old(self), *final(self), block(old(self).tokens(), old(self).position())),
            optional_block_view(result) == block(old(self).tokens(), old(self).position()).value,
        decreases remaining(old(self).tokens(), old(self).position()), 10int,
    {
        let token = self.current();
        if token.token != TokenType::LBRACE {
            self.record(ParseError::mismatch(TokenType::LBRACE, token.token));
            return None;
        }
        self.next_token();
        let statements = self.parse_statements(true);
        if self.cur_kind() == TokenType::RBRACE {
            Some(BlockStatement { token, statements })
        } else {
            self.record(ParseError::UnterminatedConstruct { expected: TokenType::RBRACE });
            None
        }
    }

    /// A run of statements, up to the end of the input or, inside a block
    /// (`nested`), up to a closing brace.
    fn parse_statements(&mut self, nested: bool) -> (list: Vec<Statement>)
        requires
            old(self).ready(),
        ensures
            follows(
                *old(self),
                *final(self),
                statements(old(self).tokens(), old(self).position(), nested, Seq::empty()),
            ),
            statements_view(list@) == statements(
                old(self).tokens(),
                old(self).position(),
                nested,
                Seq::empty(),
            ).value,
            kind_at(final(self).tokens(), final(self).position()) == TokenType::EOF || (nested
                && kind_at(final(self).tokens(), final(self).position()) == TokenType::RBRACE),
        decreases remaining(old(self).tokens(), old(self).position()), 9int,
    {
        let ghost tokens = self.tokens();
        let ghost start = self.position();
        let ghost before = self.reported();
        let ghost target = run(tokens, start, nested, Seq::empty());
        let ghost mut done: Seq<ParseErrorView> = Seq::empty();
        let mut list: Vec<Statement> = Vec::new();
        assert(statements_view(list@) =~= Seq::empty());
        let mut more = true;
        while more
            invariant
                self.ready(),
                self.tokens() == tokens,
                tokens == old(self).tokens(),
                start == old(self).position(),
                self.position() >= start,
                self.reported() =~= before + done,
                more ==> stage(
                    target,
                    (self.position() - start) as nat,
                    done,
                    run(tokens, self.position(), nested, statements_view(list@)),
                ),
                !more ==> stage(
                    target,
                    (self.position() - start) as nat,
                    done,
                    Parsed { value: statements_view(list@), advance: 0, errors: Seq::empty() },
                ),
                !more ==> at_end(tokens, self.position(), nested),
            decreases remaining(tokens, self.position()),
                (if more {
                    1int
                } else {
                    0int
                }),
        {
            let ghost errors = step_errors(tokens, self.position(), nested);
            more = self.parse_statements_step(nested, &mut list);
            proof {
                done = done + errors;
            }
        }
        assert(target == statements(tokens, start, nested, Seq::empty())) by {
            reveal(run);
        }
        list
    }

    /// One step of a run of statements: at the end of the run nothing, else
    /// one statement, added to `list` where it succeeds, and a move to the
    /// first token after it. Tells whether the run goes on.
    #[verifier::rlimit(50)]
    fn parse_statements_step(&mut self, nested: bool, list: &mut Vec<Statement>) -> (more: bool)
        requires
            old(self).ready(),
        ensures
            final(self).ready(),
            final(self).tokens() == old(self).tokens(),
            final(self).position() >= old(self).position(),
            final(self).reported() =~= old(self).reported() + step_errors(
                old(self).tokens(),
                old(self).position(),
                nested,
            ),
            more ==> remaining(final(self).tokens(), final(self).position()) < remaining(
                old(self).tokens(),
                old(self).position(),
            ),
            more ==> stage(
                run(old(self).tokens(), old(self).position(), nested, statements_view(old(list)@)),
                (final(self).position() - old(self).position()) as nat,
                step_errors(old(self).tokens(), old(self).position(), nested),
                run(
                    old(self).tokens(),
                    final(self).position(),
                    nested,
                    statements_view(final(list)@),
                ),
            ),
            !more ==> stage(
                run(old(self).tokens(), old(self).position(), nested, statements_view(old(list)@)),
                (final(self).position() - old(self).position()) as nat,
                step_errors(old(self).tokens(), old(self).position(), nested),
                Parsed { value: statements_view(final(list)@), advance: 0, errors: Seq::empty() },
            ),
            !more ==> at_end(final(self).tokens(), final(self).position(), nested),
        decreases remaining(old(self).tokens(), old(self).position()), 8int,
    {
        proof {
            reveal(run);
            reveal(step_errors);
        }
        let kind = self.cur_kind();
        if kind == TokenType::EOF || (nested && kind == TokenType::RBRACE) {
            return false;
        }
        match self.parse_statement() {
            Some(parsed) => {
                let ghost seen = statements_view(list@);
                list.push(parsed);
                assert(statements_view(list@) =~= seen.push(statement_view(parsed)));
            },
            None => {
                if nested && self.cur_kind() == TokenType::RBRACE {
                    return false;
                }
            },
        }
        if self.cur_kind() == TokenType::EOF {
            return false;
        }
        self.next_token();
        true
    }

    /// One statement, with the current token its first token.
    #[verifier::rlimit(50)]
    pub fn parse_statement(&mut self) -> (result: Option<Statement>)
        requires
            old(self).ready(),
        ensures
            follows(*old(self), *final(self), statement(old(self).tokens(), old(self).position())),
            optional_statement_view(result) == statement(
                old(self).tokens(),
                old(self).position(),
            ).value,
        decreases remaining(old(self).tokens(), old(self).position()), 7int,
    {
        let result = match self.cur_kind() {
            TokenType::LET => self.parse_let_statement(),
            TokenType::RETURN => self.parse_return_statement(),
            _ => self.parse_expression_statement(),
        };
        match result {
            Some(found) => Some(found),
            None => {
                self.recover();
                None
            },
        }
    }

    /// A `let` statement, with the current token on `let`.
    #[verifier::rlimit(50)]
    fn parse_let_statement(&mut self) -> (result: Option<Statement>)
        requires
            old(self).ready(),
        ensures
            follows(
                *old(self),
                *final(self),
                let_statement(old(self).tokens(), old(self).position()),
            ),
            optional_statement_view(result) == let_statement(
                old(self).tokens(),
                old(self).position(),
            ).value,
        decreases remaining(old(self).tokens(), old(self).position()), 6int,
    {
        let token = self.current();
        if !self.expect_peek(TokenType::IDENT) {
            return None;
        }
        let name_token = self.current();
        let name = Identifier { name: name_token.literal.clone(), token: name_token };
        if !self.expect_peek(TokenType::ASSIGN) {
            return None;
        }
        self.next_token();
        match self.parse_expression(PrecedenceType::LOWEST) {
            None => None,
            Some(value) => {
                if self.parse_terminator() {
                    Some(Statement::Let(LetStatement { token, name, value }))
                } else {
                    None
                }
            },
        }
    }

    /// A `return` statement, with the current token on `return`.
    #[verifier::rlimit(50)]
    fn parse_return_statement(&mut self) -> (result: Option<Statement>)
        requires
            old(self).ready(),
        ensures
            follows(
                *old(self),
                *final(self),
                return_statement(old(self).tokens(), old(self).position()),
            ),
            optional_statement_view(result) == return_statement(
                old(self).tokens(),
                old(self).position(),
            ).value,
        decreases remaining(old(self).tokens(), old(self).position()), 6int,
    {
        let token = self.current();
        let next = self.peek_kind();
        if next == TokenType::SEMICOLON || next == TokenType::RBRACE || next == TokenType::EOF {
            self.parse_terminator();
            return Some(Statement::Return(ReturnStatement { token, value: None }));
        }
        self.next_token();
        match self.parse_expression(PrecedenceType::LOWEST) {
            None => None,
            Some(value) => {
                if self.parse_terminator() {
                    Some(Statement::Return(ReturnStatement { token, value: Some(value) }))
                } else {
                    None
                }
            },
        }
    }

    /// An expression used as a statement, with the current token its first
    /// token.
    #[verifier::rlimit(50)]
    fn parse_expression_statement(&mut self) -> (result: Option<Statement>)
        requires
            old(self).ready(),
        ensures
            follows(
                *old(self),
                *final(self),
                expression_statement(old(self).tokens(), old(self).position()),
            ),
            optional_statement_view(result) == expression_statement(
                old(self).tokens(),
                old(self).position(),
            ).value,
        decreases remaining(old(self).tokens(), old(self).position()), 6int,
    {
        let token = self.current();
        match self.parse_expression(PrecedenceType::LOWEST) {
            None => None,
            Some(expr) => {
                if self.peek_kind() == TokenType::SEMICOLON {
                    self.next_token();
                }
                Some(Statement::Expression(ExpressionStatement { token, expr }))
            },
        }
    }

    /// Parses the statements from the current token to the end of the
    /// input. A parser that has not yet made the first token of the stream
    /// its current one does so first, and parses from there. The parser
    /// never moves past the end of the input: it reads at most one token
    /// more than the stream holds. A statement that fails leaves an error and no node; the parser
    /// goes on after it. Afterwards the current token is the end of the
    /// input.
    pub fn parse_program(&mut self) -> (result: Program)
        requires
            old(self).wf(),
        ensures
            follows(*old(self), *final(self), program(old(self).tokens(), old(self).position())),
            result@ == program(old(self).tokens(), old(self).position()).value,
            kind_at(final(self).tokens(), final(self).position()) == TokenType::EOF,
            old(self).position() < old(self).tokens().len() ==> final(self).position() < old(self).tokens().len(),
    {
        proof {
            old(self).lemma_pending();
            old(self).lemma_tokens_end();
            lemma_program_stays_within(old(self).tokens(), old(self).position());
        }
        while self.unread > 0
            invariant
                self.wf(),
                self.tokens() == old(self).tokens(),
                self.reported() == old(self).reported(),
                self.position() == old(self).position(),
                self.pending() > 0 ==> self.position() == 0,
            decreases self.pending(),
        {
            self.next_token();
        }
        let statements = self.parse_statements(false);
        Program { statements }
    }
}

} // verus!
