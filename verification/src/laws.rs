use crate::error::ParseErrorView;
use crate::grammar::{
    after, alternative, block, branches, conditional, expression, expression_list,
    expression_statement, function_literal, identifier_of, infix, infix_loop, let_statement,
    list_tail, parameter_tail, parameters, parse, prefix, program, recovery, remaining,
    return_statement, spec_precedence_of, statement, statements, Parsed, PrecedenceType,
};
use crate::lexer::{
    lemma_run_end_unique, run_end, scan, tokenize, tokens_from, CharClass,
};
use crate::number::{decimal_value, integer_literal_value, is_decimal};
use crate::syntax::{
    join, program_text, statement_text, statement_texts, ExpressionView, IdentifierView,
    StatementView,
};
use crate::token::{end_of_input, kind_at, token_at, TokenType, TokenView};
use vstd::prelude::*;

verus! {

/// The token that an integer literal with the text `digits` is scanned to.
pub open spec fn integer_token(digits: Seq<char>) -> TokenView {
    TokenView { kind: TokenType::INT, literal: digits }
}

/// The statement that an integer literal with the text `digits` is parsed
/// to, where it stands alone.
pub open spec fn integer_statement(digits: Seq<char>) -> StatementView {
    StatementView::Expression {
        token: integer_token(digits),
        expr: ExpressionView::Integer {
            token: integer_token(digits),
            value: decimal_value(digits) as int,
        },
    }
}

/// A non-empty string of decimal digits is scanned to one integer token
/// with that text, followed by the end of the input.
pub proof fn lemma_tokens_of_decimal(digits: Seq<char>)
    requires
        is_decimal(digits),
    ensures
        tokenize(digits) == seq![integer_token(digits), end_of_input()],
{
    let n = digits.len();
    lemma_run_end_unique(digits, 0, CharClass::Whitespace, 0);
    lemma_run_end_unique(digits, 0, CharClass::Digit, n);
    assert(digits.subrange(0, n as int) =~= digits);
    assert(scan(digits, 0).token == integer_token(digits));
    assert(scan(digits, 0).next == n);
    assert(run_end(digits, n, CharClass::Whitespace) == n);
    assert(scan(digits, n).token == end_of_input());
    assert(tokens_from(digits, n) =~= seq![end_of_input()]);
    assert(tokens_from(digits, 0) =~= seq![integer_token(digits)] + tokens_from(digits, n));
    assert(tokenize(digits) =~= seq![integer_token(digits), end_of_input()]);
}

/// An integer literal keeps its value through parsing, and through being
/// written back and parsed again.
///
/// A source text that is a non-empty string of decimal digits whose number
/// fits in 64 bits parses, without error, to a program of one expression
/// statement: an integer literal whose value is that number. Written back as
/// source text the program is the string of digits itself, so that parsing
/// it again gives the same program.
pub proof fn lemma_integer_literal_round_trip(digits: Seq<char>)
    requires
        is_decimal(digits),
        decimal_value(digits) <= i64::MAX,
    ensures
        parse(digits).errors == Seq::<ParseErrorView>::empty(),
        parse(digits).value.statements == seq![integer_statement(digits)],
        program_text(parse(digits).value) == digits,
        parse(program_text(parse(digits).value)) == parse(digits),
{
    lemma_tokens_of_decimal(digits);
    let tokens = tokenize(digits);
    let token = integer_token(digits);
    let literal = ExpressionView::Integer { token, value: decimal_value(digits) as int };
    assert(tokens[0] == token);
    assert(tokens[1] == end_of_input());
    assert(prefix(tokens, 0).value == Some(literal));
    assert(prefix(tokens, 0).errors =~= Seq::empty());
    assert(prefix(tokens, 0).advance == 0);
    assert(infix_loop(tokens, 0, PrecedenceType::LOWEST, literal).value == Some(literal));
    assert(infix_loop(tokens, 0, PrecedenceType::LOWEST, literal).advance == 0);
    assert(infix_loop(tokens, 0, PrecedenceType::LOWEST, literal).errors =~= Seq::empty());
    let whole = expression(tokens, 0, PrecedenceType::LOWEST);
    assert(whole.value == Some(literal));
    assert(whole.advance == 0);
    assert(whole.errors =~= Seq::empty());
    let only = expression_statement(tokens, 0);
    assert(only.value == Some(integer_statement(digits)));
    assert(only.advance == 0);
    assert(only.errors =~= Seq::empty());
    assert(statement(tokens, 0) == only);
    let seen = Seq::<StatementView>::empty().push(integer_statement(digits));
    assert(seen =~= seq![integer_statement(digits)]);
    let rest = statements(tokens, 1, false, seen);
    assert(rest.value == seen);
    assert(rest.advance == 0);
    assert(rest.errors =~= Seq::empty());
    let all = statements(tokens, 0, false, Seq::empty());
    assert(all.value == seen);
    assert(all.errors =~= Seq::empty());
    assert(parse(digits).value.statements == seen);
    let texts = statement_texts(seen);
    assert(statement_text(integer_statement(digits)) == digits);
    assert(texts =~= seq![digits]);
    assert(join(texts, Seq::empty()) == digits);
}

/// A parameter list that yields nothing leaves an error.
proof fn lemma_parameter_tail_fails_loudly(
    tokens: Seq<TokenView>,
    i: nat,
    seen: Seq<IdentifierView>,
)
    ensures
        parameter_tail(tokens, i, seen).value is None ==> parameter_tail(
            tokens,
            i,
            seen,
        ).errors.len() > 0,
    decreases remaining(tokens, i),
{
    if kind_at(tokens, i + 1) == TokenType::COMMA && kind_at(tokens, i + 2) == TokenType::IDENT {
        lemma_parameter_tail_fails_loudly(
            tokens,
            i + 2,
            seen.push(identifier_of(token_at(tokens, i + 2))),
        );
    }
}

/// A block that yields nothing leaves an error.
proof fn lemma_block_fails_loudly(tokens: Seq<TokenView>, i: nat)
    ensures
        block(tokens, i).value is None ==> block(tokens, i).errors.len() > 0,
{
}

/// What follows an `if`'s consequence leaves an error where it yields
/// nothing.
proof fn lemma_alternative_fails_loudly(tokens: Seq<TokenView>, i: nat)
    ensures
        alternative(tokens, i).value is None ==> alternative(tokens, i).errors.len() > 0,
{
    lemma_block_fails_loudly(tokens, i + 2);
}

/// The branches of an `if` leave an error where they yield nothing.
proof fn lemma_branches_fail_loudly(
    tokens: Seq<TokenView>,
    token: TokenView,
    i: nat,
    condition: ExpressionView,
)
    ensures
        branches(tokens, token, i, condition).value is None ==> branches(
            tokens,
            token,
            i,
            condition,
        ).errors.len() > 0,
{
    lemma_block_fails_loudly(tokens, i + 2);
    let consequence = block(tokens, i + 2);
    lemma_alternative_fails_loudly(tokens, i + 2 + consequence.advance);
}

/// A function literal that yields nothing leaves an error.
proof fn lemma_function_literal_fails_loudly(tokens: Seq<TokenView>, i: nat)
    ensures
        function_literal(tokens, i).value is None ==> function_literal(tokens, i).errors.len()
            > 0,
{
    let list = parameters(tokens, i + 1);
    if kind_at(tokens, i + 2) == TokenType::IDENT {
        lemma_parameter_tail_fails_loudly(
            tokens,
            i + 2,
            seq![identifier_of(token_at(tokens, i + 2))],
        );
    }
    lemma_block_fails_loudly(tokens, i + 1 + list.advance + 1);
}

/// An expression that yields no node leaves at least one error.
pub proof fn lemma_expression_fails_loudly(
    tokens: Seq<TokenView>,
    i: nat,
    precedence: PrecedenceType,
)
    ensures
        expression(tokens, i, precedence).value is None ==> expression(
            tokens,
            i,
            precedence,
        ).errors.len() > 0,
    decreases remaining(tokens, i), 5int,
{
    let left = prefix(tokens, i);
    lemma_prefix_fails_loudly(tokens, i);
    match left.value {
        Some(e) => {
            lemma_infix_loop_fails_loudly(tokens, i + left.advance, precedence, e);
        },
        None => {},
    }
}

/// What stands in prefix position leaves an error where it yields no node.
proof fn lemma_prefix_fails_loudly(tokens: Seq<TokenView>, i: nat)
    ensures
        prefix(tokens, i).value is None ==> prefix(tokens, i).errors.len() > 0,
    decreases remaining(tokens, i), 4int,
{
    let token = token_at(tokens, i);
    match token.kind {
        TokenType::BANG | TokenType::MINUS => {
            lemma_expression_fails_loudly(tokens, i + 1, PrecedenceType::PREFIX);
        },
        TokenType::LPAREN => {
            lemma_expression_fails_loudly(tokens, i + 1, PrecedenceType::LOWEST);
        },
        TokenType::IF => {
            lemma_conditional_fails_loudly(tokens, i);
        },
        TokenType::FUNCTION => {
            lemma_function_literal_fails_loudly(tokens, i);
        },
        TokenType::LBRACKET => {
            lemma_expression_list_fails_loudly(tokens, i + 1, TokenType::RBRACKET);
        },
        _ => {},
    }
}

/// The extension of an expression to the right leaves an error where it
/// yields no node.
proof fn lemma_infix_loop_fails_loudly(
    tokens: Seq<TokenView>,
    i: nat,
    precedence: PrecedenceType,
    left: ExpressionView,
)
    ensures
        infix_loop(tokens, i, precedence, left).value is None ==> infix_loop(
            tokens,
            i,
            precedence,
            left,
        ).errors.len() > 0,
    decreases remaining(tokens, i), 4int,
{
    let next = kind_at(tokens, i + 1);
    if next != TokenType::SEMICOLON && precedence.rank() < spec_precedence_of(next).rank() {
        let step = infix(tokens, i + 1, left);
        lemma_infix_fails_loudly(tokens, i + 1, left);
        match step.value {
            Some(e) => {
                lemma_infix_loop_fails_loudly(tokens, i + 1 + step.advance, precedence, e);
            },
            None => {},
        }
    }
}

/// An operator that binds leaves an error where it yields no node.
proof fn lemma_infix_fails_loudly(tokens: Seq<TokenView>, i: nat, left: ExpressionView)
    requires
        spec_precedence_of(kind_at(tokens, i)) != PrecedenceType::LOWEST,
    ensures
        infix(tokens, i, left).value is None ==> infix(tokens, i, left).errors.len() > 0,
    decreases remaining(tokens, i), 4int,
{
    let token = token_at(tokens, i);
    if token.kind == TokenType::LPAREN {
        lemma_expression_list_fails_loudly(tokens, i + 1, TokenType::RPAREN);
    } else {
        lemma_expression_fails_loudly(tokens, i + 1, spec_precedence_of(token.kind));
    }
}

/// A list of expressions leaves an error where it yields nothing.
proof fn lemma_expression_list_fails_loudly(tokens: Seq<TokenView>, i: nat, end: TokenType)
    ensures
        expression_list(tokens, i, end).value is None ==> expression_list(
            tokens,
            i,
            end,
        ).errors.len() > 0,
    decreases remaining(tokens, i), 6int,
{
    if kind_at(tokens, i) != end {
        let first = expression(tokens, i, PrecedenceType::LOWEST);
        lemma_expression_fails_loudly(tokens, i, PrecedenceType::LOWEST);
        match first.value {
            Some(e) => {
                lemma_list_tail_fails_loudly(tokens, i + first.advance, end, seq![e]);
            },
            None => {},
        }
    }
}

/// The rest of a list of expressions leaves an error where it yields
/// nothing.
proof fn lemma_list_tail_fails_loudly(
    tokens: Seq<TokenView>,
    i: nat,
    end: TokenType,
    seen: Seq<ExpressionView>,
)
    ensures
        list_tail(tokens, i, end, seen).value is None ==> list_tail(
            tokens,
            i,
            end,
            seen,
        ).errors.len() > 0,
    decreases remaining(tokens, i), 4int,
{
    if kind_at(tokens, i + 1) == TokenType::COMMA {
        let next = expression(tokens, i + 2, PrecedenceType::LOWEST);
        lemma_expression_fails_loudly(tokens, i + 2, PrecedenceType::LOWEST);
        match next.value {
            Some(e) => {
                lemma_list_tail_fails_loudly(tokens, i + 2 + next.advance, end, seen.push(e));
            },
            None => {},
        }
    }
}

/// An `if` expression leaves an error where it yields no node.
proof fn lemma_conditional_fails_loudly(tokens: Seq<TokenView>, i: nat)
    ensures
        conditional(tokens, i).value is None ==> conditional(tokens, i).errors.len() > 0,
    decreases remaining(tokens, i), 3int,
{
    if kind_at(tokens, i + 1) == TokenType::LPAREN {
        let condition = expression(tokens, i + 2, PrecedenceType::LOWEST);
        lemma_expression_fails_loudly(tokens, i + 2, PrecedenceType::LOWEST);
        match condition.value {
            Some(c) => {
                lemma_branches_fail_loudly(
                    tokens,
                    token_at(tokens, i),
                    i + 2 + condition.advance,
                    c,
                );
            },
            None => {},
        }
    }
}

/// Failure is never silent: a statement that yields no node leaves at least
/// one error. So a program that was parsed without error holds a node for
/// every statement of its source.
pub proof fn lemma_statement_fails_loudly(tokens: Seq<TokenView>, i: nat)
    ensures
        statement(tokens, i).value is None ==> statement(tokens, i).errors.len() > 0,
{
    match kind_at(tokens, i) {
        TokenType::LET => {
            let value = expression(tokens, i + 3, PrecedenceType::LOWEST);
            lemma_expression_fails_loudly(tokens, i + 3, PrecedenceType::LOWEST);
            assert(let_statement(tokens, i).value is None ==> let_statement(
                tokens,
                i,
            ).errors.len() > 0);
        },
        TokenType::RETURN => {
            lemma_expression_fails_loudly(tokens, i + 1, PrecedenceType::LOWEST);
            assert(return_statement(tokens, i).value is None ==> return_statement(
                tokens,
                i,
            ).errors.len() > 0);
        },
        _ => {
            lemma_expression_fails_loudly(tokens, i, PrecedenceType::LOWEST);
            assert(expression_statement(tokens, i).value is None ==> expression_statement(
                tokens,
                i,
            ).errors.len() > 0);
        },
    }
}

/// A `let` that is not followed by an identifier yields no node and leaves
/// exactly one error: an unexpected token, which names the identifier that
/// was required and the category that was found. The parser then skips to
/// the next statement boundary.
pub proof fn lemma_let_needs_a_name(tokens: Seq<TokenView>, i: nat)
    requires
        kind_at(tokens, i) == TokenType::LET,
        kind_at(tokens, i + 1) != TokenType::IDENT,
    ensures
        statement(tokens, i).value is None,
        statement(tokens, i).errors == seq![
            ParseErrorView::UnexpectedToken {
                expected: TokenType::IDENT,
                actual: kind_at(tokens, i + 1),
            },
        ],
        statement(tokens, i).advance == recovery(tokens, i),
{
    assert(let_statement(tokens, i).value is None);
    assert(let_statement(tokens, i).advance == 0);
}

/// A run of statements, kept folded.
#[verifier::opaque]
spec fn run(tokens: Seq<TokenView>, i: nat, nested: bool, seen: Seq<StatementView>) -> Parsed<
    Seq<StatementView>,
> {
    statements(tokens, i, nested, seen)
}

/// One statement, kept folded.
#[verifier::opaque]
spec fn head(tokens: Seq<TokenView>, i: nat) -> Parsed<Option<StatementView>> {
    statement(tokens, i)
}

/// Whether a run of statements ends at position `i` before any statement.
spec fn at_end(tokens: Seq<TokenView>, i: nat, nested: bool) -> bool {
    kind_at(tokens, i) == TokenType::EOF || (nested && kind_at(tokens, i) == TokenType::RBRACE)
}

/// The statements seen after the statement `first` has been parsed.
spec fn with_statement(seen: Seq<StatementView>, first: Parsed<Option<StatementView>>) -> Seq<
    StatementView,
> {
    match first.value {
        Some(s) => seen.push(s),
        None => seen,
    }
}

/// Whether a run of statements ends right after the statement `first`,
/// which has left the parser at position `at`.
spec fn ends_after(
    tokens: Seq<TokenView>,
    at: nat,
    nested: bool,
    first: Parsed<Option<StatementView>>,
) -> bool {
    kind_at(tokens, at) == TokenType::EOF || (nested && first.value is None && kind_at(tokens, at)
        == TokenType::RBRACE)
}

/// A run of statements, one step at a time: nothing at its end, else one
/// statement, after which the run ends or goes on behind it.
proof fn lemma_run_unfold(tokens: Seq<TokenView>, i: nat, nested: bool, seen: Seq<StatementView>)
    ensures
        at_end(tokens, i, nested) ==> run(tokens, i, nested, seen) == (Parsed {
            value: seen,
            advance: 0,
            errors: Seq::empty(),
        }),
        !at_end(tokens, i, nested) && ends_after(
            tokens,
            i + head(tokens, i).advance,
            nested,
            head(tokens, i),
        ) ==> run(tokens, i, nested, seen) == (Parsed {
            value: with_statement(seen, head(tokens, i)),
            advance: head(tokens, i).advance,
            errors: head(tokens, i).errors,
        }),
        !at_end(tokens, i, nested) && !ends_after(
            tokens,
            i + head(tokens, i).advance,
            nested,
            head(tokens, i),
        ) ==> run(tokens, i, nested, seen) == after(
            head(tokens, i).advance + 1,
            head(tokens, i).errors,
            run(
                tokens,
                i + head(tokens, i).advance + 1,
                nested,
                with_statement(seen, head(tokens, i)),
            ),
        ),
{
    reveal(run);
    reveal(head);
}

/// A run of statements stops on the token that ends it.
proof fn lemma_run_reaches_end(
    tokens: Seq<TokenView>,
    i: nat,
    nested: bool,
    seen: Seq<StatementView>,
)
    ensures
        at_end(tokens, i + run(tokens, i, nested, seen).advance, nested),
    decreases remaining(tokens, i),
{
    lemma_run_unfold(tokens, i, nested, seen);
    if !at_end(tokens, i, nested) {
        let first = head(tokens, i);
        let at = i + first.advance;
        if !ends_after(tokens, at, nested, first) {
            lemma_run_reaches_end(tokens, at + 1, nested, with_statement(seen, first));
        }
    }
}

/// A run of statements stops on the token that ends it: the end of the
/// input or, inside a block, a closing brace.
pub proof fn lemma_statements_reach_end(
    tokens: Seq<TokenView>,
    i: nat,
    nested: bool,
    seen: Seq<StatementView>,
)
    ensures
        ({
            let end = kind_at(tokens, i + statements(tokens, i, nested, seen).advance);
            end == TokenType::EOF || (nested && end == TokenType::RBRACE)
        }),
{
    lemma_run_reaches_end(tokens, i, nested, seen);
    assert(run(tokens, i, nested, seen) == statements(tokens, i, nested, seen)) by {
        reveal(run);
    }
}

/// Parsing a program consumes the whole input: it stops on the end of the
/// input, whatever the tokens are.
pub proof fn lemma_program_reaches_end(tokens: Seq<TokenView>, i: nat)
    ensures
        kind_at(tokens, i + program(tokens, i).advance) == TokenType::EOF,
{
    lemma_statements_reach_end(tokens, i, false, Seq::empty());
}

/// A token that is an expression by itself: an identifier, a string, a
/// boolean, or an integer literal that fits in 64 bits.
pub open spec fn is_atom(token: TokenView) -> bool {
    token.kind == TokenType::IDENT || token.kind == TokenType::STRING || token.kind
        == TokenType::TRUE || token.kind == TokenType::FALSE || (token.kind == TokenType::INT
        && integer_literal_value(token.literal) is Some)
}

/// The expression that an atom is.
pub open spec fn atom(token: TokenView) -> ExpressionView {
    prefix(seq![token], 0).value->0
}

/// A binary operator: a token that binds in infix position and opens no
/// call.
pub open spec fn is_binary(token: TokenView) -> bool {
    spec_precedence_of(token.kind) != PrecedenceType::LOWEST && token.kind != TokenType::LPAREN
}

/// The application of a binary operator to two operands.
pub open spec fn binary(
    operator: TokenView,
    left: ExpressionView,
    right: ExpressionView,
) -> ExpressionView {
    ExpressionView::Infix {
        token: operator,
        operator: operator.literal,
        left: Box::new(left),
        right: Box::new(right),
    }
}

/// An atom in prefix position is parsed to itself, wherever it stands.
proof fn lemma_atom(tokens: Seq<TokenView>, i: nat)
    requires
        is_atom(token_at(tokens, i)),
    ensures
        prefix(tokens, i).value == Some(atom(token_at(tokens, i))),
        prefix(tokens, i).advance == 0,
        prefix(tokens, i).errors == Seq::<ParseErrorView>::empty(),
{
    let token = token_at(tokens, i);
    assert(token_at(seq![token], 0) == token);
}

/// Precedence and associativity of the binary operators.
///
/// Of three atoms `a`, `b`, `c` joined by two binary operators, followed by
/// a token that does not bind, the first two are grouped where the first
/// operator binds at least as tightly as the second (so operators of one
/// precedence associate to the left), and the last two where the second
/// operator binds tighter.
pub proof fn lemma_binary_grouping(
    a: TokenView,
    first: TokenView,
    b: TokenView,
    second: TokenView,
    c: TokenView,
    rest: Seq<TokenView>,
)
    requires
        is_atom(a),
        is_atom(b),
        is_atom(c),
        is_binary(first),
        is_binary(second),
        spec_precedence_of(kind_at(rest, 0)) == PrecedenceType::LOWEST,
    ensures
        ({
            let tokens = seq![a, first, b, second, c] + rest;
            let whole = expression(tokens, 0, PrecedenceType::LOWEST);
            &&& whole.errors == Seq::<ParseErrorView>::empty()
            &&& whole.advance == 4
            &&& whole.value == Some(
                if spec_precedence_of(first.kind).rank() >= spec_precedence_of(second.kind).rank() {
                    binary(second, binary(first, atom(a), atom(b)), atom(c))
                } else {
                    binary(first, atom(a), binary(second, atom(b), atom(c)))
                },
            )
        }),
{
    let tokens = seq![a, first, b, second, c] + rest;
    let lowest = PrecedenceType::LOWEST;
    let p1 = spec_precedence_of(first.kind);
    let p2 = spec_precedence_of(second.kind);
    assert(token_at(tokens, 0) == a);
    assert(token_at(tokens, 1) == first);
    assert(token_at(tokens, 2) == b);
    assert(token_at(tokens, 3) == second);
    assert(token_at(tokens, 4) == c);
    assert(token_at(tokens, 5) == token_at(rest, 0)) by {
        if rest.len() > 0 {
            assert(tokens[5] == rest[0]);
        }
    }
    lemma_atom(tokens, 0);
    lemma_atom(tokens, 2);
    lemma_atom(tokens, 4);
    let none = Seq::<ParseErrorView>::empty();
    // The last operand, under either operator's precedence.
    assert forall|p: PrecedenceType, e: ExpressionView|
        infix_loop(tokens, 4, p, e).value == Some(e) && #[trigger] infix_loop(
            tokens,
            4,
            p,
            e,
        ).advance == 0 && infix_loop(tokens, 4, p, e).errors =~= none by {}
    let last = expression(tokens, 4, p2);
    assert(last.value == Some(atom(c)) && last.advance == 0 && last.errors =~= none);
    if p1.rank() >= p2.rank() {
        let middle = infix_loop(tokens, 2, p1, atom(b));
        assert(middle.value == Some(atom(b)) && middle.advance == 0 && middle.errors =~= none);
        let right = expression(tokens, 2, p1);
        assert(right.value == Some(atom(b)) && right.advance == 0 && right.errors =~= none);
        let inner = binary(first, atom(a), atom(b));
        let step = infix(tokens, 1, atom(a));
        assert(step.value == Some(inner) && step.advance == 1 && step.errors =~= none);
        let outer = binary(second, inner, atom(c));
        let next = infix(tokens, 3, inner);
        assert(next.value == Some(outer) && next.advance == 1 && next.errors =~= none);
        let end = infix_loop(tokens, 4, lowest, outer);
        assert(end.value == Some(outer) && end.advance == 0 && end.errors =~= none);
        let tail = infix_loop(tokens, 2, lowest, inner);
        assert(tail.value == Some(outer) && tail.advance == 2 && tail.errors =~= none);
        let all = infix_loop(tokens, 0, lowest, atom(a));
        assert(all.value == Some(outer) && all.advance == 4 && all.errors =~= none);
    } else {
        let inner = binary(second, atom(b), atom(c));
        let next = infix(tokens, 3, atom(b));
        assert(next.value == Some(inner) && next.advance == 1 && next.errors =~= none);
        let end = infix_loop(tokens, 4, p1, inner);
        assert(end.value == Some(inner) && end.advance == 0 && end.errors =~= none);
        let middle = infix_loop(tokens, 2, p1, atom(b));
        assert(middle.value == Some(inner) && middle.advance == 2 && middle.errors =~= none);
        let right = expression(tokens, 2, p1);
        assert(right.value == Some(inner) && right.advance == 2 && right.errors =~= none);
        let outer = binary(first, atom(a), inner);
        let step = infix(tokens, 1, atom(a));
        assert(step.value == Some(outer) && step.advance == 3 && step.errors =~= none);
        let close = infix_loop(tokens, 4, lowest, outer);
        assert(close.value == Some(outer) && close.advance == 0 && close.errors =~= none);
        let all = infix_loop(tokens, 0, lowest, atom(a));
        assert(all.value == Some(outer) && all.advance == 4 && all.errors =~= none);
    }
    let whole = expression(tokens, 0, lowest);
    assert(whole.errors =~= none);
}

/// A token stream that ends with the end of input, as every stream that a
/// scanner delivers does.
pub open spec fn ends_with_end_of_input(tokens: Seq<TokenView>) -> bool {
    tokens.len() > 0 && tokens.last().kind == TokenType::EOF
}

/// Moving `advance` tokens on from position `i` of the stream does not lead
/// past its last token.
pub open spec fn stays(tokens: Seq<TokenView>, i: nat, advance: nat) -> bool {
    i < tokens.len() ==> i + advance < tokens.len()
}

/// Whether one statement at position `i` stays inside the stream.
#[verifier::opaque]
spec fn statement_stays(tokens: Seq<TokenView>, i: nat) -> bool {
    stays(tokens, i, head(tokens, i).advance)
}

/// Skipping to a statement boundary stays inside the stream.
proof fn lemma_recovery_stays(tokens: Seq<TokenView>, i: nat)
    requires
        ends_with_end_of_input(tokens),
    ensures
        stays(tokens, i, recovery(tokens, i)),
    decreases remaining(tokens, i),
{
    let here = kind_at(tokens, i);
    let next = kind_at(tokens, i + 1);
    if !(here == TokenType::SEMICOLON || here == TokenType::RBRACE || here == TokenType::EOF
        || next == TokenType::RBRACE || next == TokenType::EOF) {
        lemma_recovery_stays(tokens, i + 1);
    }
}

/// The rest of a parameter list stays inside the stream.
proof fn lemma_parameter_tail_stays(tokens: Seq<TokenView>, i: nat, seen: Seq<IdentifierView>)
    requires
        ends_with_end_of_input(tokens),
    ensures
        stays(tokens, i, parameter_tail(tokens, i, seen).advance),
    decreases remaining(tokens, i),
{
    if kind_at(tokens, i + 1) == TokenType::COMMA && kind_at(tokens, i + 2) == TokenType::IDENT {
        lemma_parameter_tail_stays(
            tokens,
            i + 2,
            seen.push(identifier_of(token_at(tokens, i + 2))),
        );
    }
}

/// A parameter list stays inside the stream.
proof fn lemma_parameters_stay(tokens: Seq<TokenView>, i: nat)
    requires
        ends_with_end_of_input(tokens),
    ensures
        stays(tokens, i, parameters(tokens, i).advance),
{
    if kind_at(tokens, i + 1) == TokenType::IDENT {
        lemma_parameter_tail_stays(
            tokens,
            i + 1,
            seq![identifier_of(token_at(tokens, i + 1))],
        );
    }
}

/// An expression stays inside the stream: parsing it never moves past the
/// end of the input.
pub proof fn lemma_expression_stays(tokens: Seq<TokenView>, i: nat, precedence: PrecedenceType)
    requires
        ends_with_end_of_input(tokens),
    ensures
        stays(tokens, i, expression(tokens, i, precedence).advance),
    decreases remaining(tokens, i), 5int,
{
    let left = prefix(tokens, i);
    lemma_prefix_stays(tokens, i);
    match left.value {
        Some(e) => {
            lemma_infix_loop_stays(tokens, i + left.advance, precedence, e);
        },
        None => {},
    }
}

proof fn lemma_prefix_stays(tokens: Seq<TokenView>, i: nat)
    requires
        ends_with_end_of_input(tokens),
    ensures
        stays(tokens, i, prefix(tokens, i).advance),
    decreases remaining(tokens, i), 4int,
{
    let token = token_at(tokens, i);
    match token.kind {
        TokenType::BANG | TokenType::MINUS => {
            lemma_expression_stays(tokens, i + 1, PrecedenceType::PREFIX);
        },
        TokenType::LPAREN => {
            lemma_expression_stays(tokens, i + 1, PrecedenceType::LOWEST);
        },
        TokenType::IF => {
            lemma_conditional_stays(tokens, i);
        },
        TokenType::FUNCTION => {
            lemma_function_literal_stays(tokens, i);
        },
        TokenType::LBRACKET => {
            lemma_expression_list_stays(tokens, i + 1, TokenType::RBRACKET);
        },
        _ => {},
    }
}

proof fn lemma_infix_loop_stays(
    tokens: Seq<TokenView>,
    i: nat,
    precedence: PrecedenceType,
    left: ExpressionView,
)
    requires
        ends_with_end_of_input(tokens),
    ensures
        stays(tokens, i, infix_loop(tokens, i, precedence, left).advance),
    decreases remaining(tokens, i), 4int,
{
    let next = kind_at(tokens, i + 1);
    if next != TokenType::SEMICOLON && precedence.rank() < spec_precedence_of(next).rank() {
        let step = infix(tokens, i + 1, left);
        lemma_infix_stays(tokens, i + 1, left);
        match step.value {
            Some(e) => {
                lemma_infix_loop_stays(tokens, i + 1 + step.advance, precedence, e);
            },
            None => {},
        }
    }
}

proof fn lemma_infix_stays(tokens: Seq<TokenView>, i: nat, left: ExpressionView)
    requires
        ends_with_end_of_input(tokens),
    ensures
        stays(tokens, i, infix(tokens, i, left).advance),
    decreases remaining(tokens, i), 4int,
{
    let token = token_at(tokens, i);
    if token.kind == TokenType::LPAREN {
        lemma_expression_list_stays(tokens, i + 1, TokenType::RPAREN);
    } else if spec_precedence_of(token.kind) != PrecedenceType::LOWEST {
        lemma_expression_stays(tokens, i + 1, spec_precedence_of(token.kind));
    }
}

proof fn lemma_expression_list_stays(tokens: Seq<TokenView>, i: nat, end: TokenType)
    requires
        ends_with_end_of_input(tokens),
        end != TokenType::EOF,
    ensures
        stays(tokens, i, expression_list(tokens, i, end).advance),
    decreases remaining(tokens, i), 6int,
{
    if kind_at(tokens, i) != end {
        let first = expression(tokens, i, PrecedenceType::LOWEST);
        lemma_expression_stays(tokens, i, PrecedenceType::LOWEST);
        match first.value {
            Some(e) => {
                lemma_list_tail_stays(tokens, i + first.advance, end, seq![e]);
            },
            None => {},
        }
    }
}

proof fn lemma_list_tail_stays(
    tokens: Seq<TokenView>,
    i: nat,
    end: TokenType,
    seen: Seq<ExpressionView>,
)
    requires
        ends_with_end_of_input(tokens),
        end != TokenType::EOF,
    ensures
        stays(tokens, i, list_tail(tokens, i, end, seen).advance),
    decreases remaining(tokens, i), 4int,
{
    if kind_at(tokens, i + 1) == TokenType::COMMA {
        let next = expression(tokens, i + 2, PrecedenceType::LOWEST);
        lemma_expression_stays(tokens, i + 2, PrecedenceType::LOWEST);
        match next.value {
            Some(e) => {
                lemma_list_tail_stays(tokens, i + 2 + next.advance, end, seen.push(e));
            },
            None => {},
        }
    }
}

proof fn lemma_conditional_stays(tokens: Seq<TokenView>, i: nat)
    requires
        ends_with_end_of_input(tokens),
    ensures
        stays(tokens, i, conditional(tokens, i).advance),
    decreases remaining(tokens, i), 3int,
{
    if kind_at(tokens, i + 1) == TokenType::LPAREN {
        let condition = expression(tokens, i + 2, PrecedenceType::LOWEST);
        lemma_expression_stays(tokens, i + 2, PrecedenceType::LOWEST);
        match condition.value {
            Some(c) => {
                lemma_branches_stay(tokens, token_at(tokens, i), i + 2 + condition.advance, c);
            },
            None => {},
        }
    }
}

proof fn lemma_branches_stay(
    tokens: Seq<TokenView>,
    token: TokenView,
    i: nat,
    condition: ExpressionView,
)
    requires
        ends_with_end_of_input(tokens),
    ensures
        stays(tokens, i, branches(tokens, token, i, condition).advance),
    decreases remaining(tokens, i), 3int,
{
    if kind_at(tokens, i + 1) == TokenType::RPAREN && kind_at(tokens, i + 2)
        == TokenType::LBRACE {
        let consequence = block(tokens, i + 2);
        lemma_block_stays(tokens, i + 2);
        if consequence.value is Some {
            lemma_alternative_stays(tokens, i + 2 + consequence.advance);
        }
    }
}

proof fn lemma_alternative_stays(tokens: Seq<TokenView>, i: nat)
    requires
        ends_with_end_of_input(tokens),
    ensures
        stays(tokens, i, alternative(tokens, i).advance),
    decreases remaining(tokens, i), 3int,
{
    if kind_at(tokens, i + 1) == TokenType::ELSE && kind_at(tokens, i + 2) == TokenType::LBRACE {
        lemma_block_stays(tokens, i + 2);
    }
}

proof fn lemma_function_literal_stays(tokens: Seq<TokenView>, i: nat)
    requires
        ends_with_end_of_input(tokens),
    ensures
        stays(tokens, i, function_literal(tokens, i).advance),
    decreases remaining(tokens, i), 3int,
{
    if kind_at(tokens, i + 1) == TokenType::LPAREN {
        let list = parameters(tokens, i + 1);
        lemma_parameters_stay(tokens, i + 1);
        let at = i + 1 + list.advance;
        if list.value is Some && kind_at(tokens, at + 1) == TokenType::LBRACE {
            lemma_block_stays(tokens, at + 1);
        }
    }
}

/// A block stays inside the stream: parsing it never moves past the end of
/// the input.
pub proof fn lemma_block_stays(tokens: Seq<TokenView>, i: nat)
    requires
        ends_with_end_of_input(tokens),
    ensures
        stays(tokens, i, block(tokens, i).advance),
    decreases remaining(tokens, i), 9int,
{
    if kind_at(tokens, i) == TokenType::LBRACE {
        lemma_run_stays(tokens, i + 1, true, Seq::empty());
        assert(run(tokens, i + 1, true, Seq::empty()) == statements(
            tokens,
            i + 1,
            true,
            Seq::empty(),
        )) by {
            reveal(run);
        }
    }
}

proof fn lemma_run_stays(tokens: Seq<TokenView>, i: nat, nested: bool, seen: Seq<StatementView>)
    requires
        ends_with_end_of_input(tokens),
    ensures
        stays(tokens, i, run(tokens, i, nested, seen).advance),
    decreases remaining(tokens, i), 8int,
{
    lemma_run_unfold(tokens, i, nested, seen);
    if !at_end(tokens, i, nested) {
        let first = head(tokens, i);
        let at = i + first.advance;
        lemma_statement_stays(tokens, i);
        assert(stays(tokens, i, first.advance)) by {
            reveal(statement_stays);
        }
        if !ends_after(tokens, at, nested, first) {
            lemma_run_stays(tokens, at + 1, nested, with_statement(seen, first));
        }
    }
}

proof fn lemma_statement_stays(tokens: Seq<TokenView>, i: nat)
    requires
        ends_with_end_of_input(tokens),
    ensures
        statement_stays(tokens, i),
    decreases remaining(tokens, i), 7int,
{
    let first = match kind_at(tokens, i) {
        TokenType::LET => {
            lemma_let_statement_stays(tokens, i);
            let_statement(tokens, i)
        },
        TokenType::RETURN => {
            lemma_return_statement_stays(tokens, i);
            return_statement(tokens, i)
        },
        _ => {
            lemma_expression_statement_stays(tokens, i);
            expression_statement(tokens, i)
        },
    };
    lemma_recovery_stays(tokens, i + first.advance);
    assert(stays(tokens, i, statement(tokens, i).advance));
    assert(statement_stays(tokens, i)) by {
        reveal(statement_stays);
        reveal(head);
    }
}

proof fn lemma_let_statement_stays(tokens: Seq<TokenView>, i: nat)
    requires
        ends_with_end_of_input(tokens),
    ensures
        stays(tokens, i, let_statement(tokens, i).advance),
    decreases remaining(tokens, i), 6int,
{
    if kind_at(tokens, i + 1) == TokenType::IDENT && kind_at(tokens, i + 2) == TokenType::ASSIGN {
        lemma_expression_stays(tokens, i + 3, PrecedenceType::LOWEST);
    }
}

proof fn lemma_return_statement_stays(tokens: Seq<TokenView>, i: nat)
    requires
        ends_with_end_of_input(tokens),
    ensures
        stays(tokens, i, return_statement(tokens, i).advance),
    decreases remaining(tokens, i), 6int,
{
    let next = kind_at(tokens, i + 1);
    if !(next == TokenType::SEMICOLON || next == TokenType::RBRACE || next == TokenType::EOF) {
        lemma_expression_stays(tokens, i + 1, PrecedenceType::LOWEST);
    }
}

proof fn lemma_expression_statement_stays(tokens: Seq<TokenView>, i: nat)
    requires
        ends_with_end_of_input(tokens),
    ensures
        stays(tokens, i, expression_statement(tokens, i).advance),
    decreases remaining(tokens, i), 6int,
{
    lemma_expression_stays(tokens, i, PrecedenceType::LOWEST);
}

/// One statement stays inside the stream: parsing it, and skipping to the
/// next statement boundary where it fails, never moves past the end of the
/// input.
pub proof fn lemma_statement_stays_within(tokens: Seq<TokenView>, i: nat)
    requires
        ends_with_end_of_input(tokens),
    ensures
        stays(tokens, i, statement(tokens, i).advance),
{
    lemma_statement_stays(tokens, i);
    reveal(statement_stays);
    reveal(head);
}

/// Parsing is bounded by the input: over a stream that ends with the end
/// of input, a parser that stands inside the stream never moves past its
/// last token, the end of input; and one that stands behind it does not
/// move at all. So the parser reads at most one token more than the stream
/// holds: the one after the end of input, which it looks ahead to.
pub proof fn lemma_program_stays_within(tokens: Seq<TokenView>, i: nat)
    requires
        ends_with_end_of_input(tokens),
    ensures
        i < tokens.len() ==> i + program(tokens, i).advance < tokens.len(),
        i >= tokens.len() ==> program(tokens, i).advance == 0,
{
    lemma_run_stays(tokens, i, false, Seq::empty());
    lemma_run_unfold(tokens, i, false, Seq::empty());
    assert(run(tokens, i, false, Seq::empty()) == statements(tokens, i, false, Seq::empty())) by {
        reveal(run);
    }
}

} // verus!
