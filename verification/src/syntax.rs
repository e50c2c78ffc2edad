use crate::token::TokenView;
use vstd::prelude::*;

verus! {

/// An identifier: its token and its name.
pub struct IdentifierView {
    pub token: TokenView,
    pub name: Seq<char>,
}

/// A brace-delimited sequence of statements.
pub struct BlockView {
    pub token: TokenView,
    pub statements: Seq<StatementView>,
}

/// What an expression is, mathematically.
#[allow(inconsistent_fields)]
pub enum ExpressionView {
    Identifier(IdentifierView),
    Integer { token: TokenView, value: int },
    Text { token: TokenView, value: Seq<char> },
    Boolean { token: TokenView, value: bool },
    Array { token: TokenView, elements: Seq<ExpressionView> },
    Prefix { token: TokenView, operator: Seq<char>, operand: Box<ExpressionView> },
    Infix {
        token: TokenView,
        operator: Seq<char>,
        left: Box<ExpressionView>,
        right: Box<ExpressionView>,
    },
    If {
        token: TokenView,
        condition: Box<ExpressionView>,
        consequence: BlockView,
        alternative: Option<BlockView>,
    },
    Function { token: TokenView, parameters: Seq<IdentifierView>, body: BlockView },
    Call { token: TokenView, callee: Box<ExpressionView>, arguments: Seq<ExpressionView> },
}

/// What a statement is, mathematically.
#[allow(inconsistent_fields)]
pub enum StatementView {
    Let { token: TokenView, name: IdentifierView, value: ExpressionView },
    Return { token: TokenView, value: Option<ExpressionView> },
    Expression { token: TokenView, expr: ExpressionView },
    Block(BlockView),
}

/// A program: its top-level statements, in order.
pub struct ProgramView {
    pub statements: Seq<StatementView>,
}

/// The parts, with `sep` between each two neighbours.
pub open spec fn join(parts: Seq<Seq<char>>, sep: Seq<char>) -> Seq<char>
    decreases parts.len(),
{
    if parts.len() == 0 {
        Seq::empty()
    } else if parts.len() == 1 {
        parts[0]
    } else {
        join(parts.drop_last(), sep) + sep + parts.last()
    }
}

/// The names of a parameter list.
pub open spec fn parameter_names(parameters: Seq<IdentifierView>) -> Seq<Seq<char>> {
    Seq::new(parameters.len(), |i: int| parameters[i].name)
}

/// The token that an expression is built around.
pub open spec fn expression_token(e: ExpressionView) -> TokenView {
    match e {
        ExpressionView::Identifier(id) => id.token,
        ExpressionView::Integer { token, .. } => token,
        ExpressionView::Text { token, .. } => token,
        ExpressionView::Boolean { token, .. } => token,
        ExpressionView::Array { token, .. } => token,
        ExpressionView::Prefix { token, .. } => token,
        ExpressionView::Infix { token, .. } => token,
        ExpressionView::If { token, .. } => token,
        ExpressionView::Function { token, .. } => token,
        ExpressionView::Call { token, .. } => token,
    }
}

/// The token that a statement is built around.
pub open spec fn statement_token(s: StatementView) -> TokenView {
    match s {
        StatementView::Let { token, .. } => token,
        StatementView::Return { token, .. } => token,
        StatementView::Expression { token, .. } => token,
        StatementView::Block(block) => block.token,
    }
}

/// The text of a program's defining token: that of its first statement, or
/// nothing for the empty program.
pub open spec fn program_token_literal(p: ProgramView) -> Seq<char> {
    if p.statements.len() > 0 {
        statement_token(p.statements[0]).literal
    } else {
        Seq::empty()
    }
}

/// An expression written back as source text.
///
/// Literals and identifiers stand as they were scanned. A prefix expression
/// is `(<op><operand>)`, an infix expression `(<left> <op> <right>)`, so that
/// the grouping the parser chose is visible. A call is the callee followed by
/// its arguments in parentheses, an array its elements in square brackets,
/// both separated by `, `. A function literal is its keyword, the parameter
/// names in parentheses, a space and the body. An `if` is the keyword, the
/// condition, a space, the consequence and, where there is one, `else ` and
/// the alternative.
pub open spec fn expression_text(e: ExpressionView) -> Seq<char>
    decreases e,
{
    match e {
        ExpressionView::Identifier(id) => id.name,
        ExpressionView::Integer { token, .. } => token.literal,
        ExpressionView::Text { token, .. } => token.literal,
        ExpressionView::Boolean { token, .. } => token.literal,
        ExpressionView::Array { elements, .. } => "["@ + join(expression_texts(elements), ", "@)
            + "]"@,
        ExpressionView::Prefix { operator, operand, .. } => "("@ + operator + expression_text(
            *operand,
        ) + ")"@,
        ExpressionView::Infix { operator, left, right, .. } => "("@ + expression_text(*left)
            + " "@ + operator + " "@ + expression_text(*right) + ")"@,
        ExpressionView::If { condition, consequence, alternative, .. } => "if"@
            + expression_text(*condition) + " "@ + block_text(consequence) + (match alternative {
            Some(block) => "else "@ + block_text(block),
            None => Seq::empty(),
        }),
        ExpressionView::Function { token, parameters, body } => token.literal + "("@ + join(
            parameter_names(parameters),
            ", "@,
        ) + ") "@ + block_text(body),
        ExpressionView::Call { callee, arguments, .. } => expression_text(*callee) + "("@ + join(
            expression_texts(arguments),
            ", "@,
        ) + ")"@,
    }
}

/// The texts of a list of expressions, one for one.
pub open spec fn expression_texts(es: Seq<ExpressionView>) -> Seq<Seq<char>>
    decreases es,
{
    Seq::new(
        es.len(),
        |i: int|
            if 0 <= i < es.len() {
                expression_text(es[i])
            } else {
                Seq::empty()
            },
    )
}

/// A statement written back as source text.
///
/// A `let` is `let <name> = <value>;`, a `return` is `return <value>;` (with
/// nothing between the space and the semicolon when it has no value), an
/// expression statement is its expression, and a block is its statements one
/// after the other.
pub open spec fn statement_text(s: StatementView) -> Seq<char>
    decreases s,
{
    match s {
        StatementView::Let { token, name, value } => token.literal + " "@ + name.name + " = "@
            + expression_text(value) + ";"@,
        StatementView::Return { token, value } => token.literal + " "@ + (match value {
            Some(e) => expression_text(e),
            None => Seq::empty(),
        }) + ";"@,
        StatementView::Expression { expr, .. } => expression_text(expr),
        StatementView::Block(block) => block_text(block),
    }
}

/// The texts of a list of statements, one for one.
pub open spec fn statement_texts(ss: Seq<StatementView>) -> Seq<Seq<char>>
    decreases ss,
{
    Seq::new(
        ss.len(),
        |i: int|
            if 0 <= i < ss.len() {
                statement_text(ss[i])
            } else {
                Seq::empty()
            },
    )
}

/// A block written back as source text: its statements, with nothing between.
pub open spec fn block_text(b: BlockView) -> Seq<char>
    decreases b,
{
    join(statement_texts(b.statements), Seq::empty())
}

/// A program written back as source text: its statements, with nothing
/// between.
pub open spec fn program_text(p: ProgramView) -> Seq<char> {
    join(statement_texts(p.statements), Seq::empty())
}

} // verus!
