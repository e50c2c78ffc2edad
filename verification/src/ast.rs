use crate::syntax::{
    block_text, expression_text, expression_texts, expression_token, join, parameter_names,
    program_text, program_token_literal, statement_text, statement_texts, statement_token,
    BlockView, ExpressionView, IdentifierView, ProgramView, StatementView,
};
use crate::token::Token;
use vstd::prelude::*;
use vstd::string::*;

verus! {

/// What every node of the tree offers: the text of the token it is built
/// around, and itself written back as source text.
pub trait Node {
    /// The text of the node's defining token.
    spec fn token_text(&self) -> Seq<char>;

    /// The node as source text.
    spec fn source_text(&self) -> Seq<char>;

    fn token_literal(&self) -> (text: String)
        ensures
            text@ == self.token_text(),
    ;

    fn string(&self) -> (text: String)
        ensures
            text@ == self.source_text(),
    ;
}

/// A name.
#[derive(Debug)]
pub struct Identifier {
    pub token: Token,
    pub name: String,
}

/// An integer literal and its value.
#[derive(Debug)]
pub struct IntegerLiteral {
    pub token: Token,
    pub value: i64,
}

/// A string literal; `value` is its text without the quotes.
#[derive(Debug)]
pub struct StringLiteral {
    pub token: Token,
    pub value: String,
}

/// `true` or `false`.
#[derive(Debug)]
pub struct Boolean {
    pub token: Token,
    pub value: bool,
}

/// An array literal: `[a, b, c]`.
#[derive(Debug)]
pub struct ArrayLiteral {
    pub token: Token,
    pub elements: Vec<Expression>,
}

/// A prefix operator and its operand: `-x`, `!x`.
#[derive(Debug)]
pub struct PrefixExpression {
    pub token: Token,
    pub operator: String,
    pub operand: Box<Expression>,
}

/// A binary operator and its two operands.
#[derive(Debug)]
pub struct InfixExpression {
    pub token: Token,
    pub operator: String,
    pub left: Box<Expression>,
    pub right: Box<Expression>,
}

/// `if (condition) { consequence } else { alternative }`; the `else` part
/// may be missing.
#[derive(Debug)]
pub struct IfExpression {
    pub token: Token,
    pub condition: Box<Expression>,
    pub consequence: BlockStatement,
    pub alternative: Option<BlockStatement>,
}

/// A function literal: `fn(parameters) { body }`.
#[derive(Debug)]
pub struct FunctionLiteral {
    pub token: Token,
    pub parameters: Vec<Identifier>,
    pub body: BlockStatement,
}

/// A call: the callee and its arguments. The token is the opening
/// parenthesis.
#[derive(Debug)]
pub struct CallExpression {
    pub token: Token,
    pub callee: Box<Expression>,
    pub arguments: Vec<Expression>,
}

/// An expression: one of the ten kinds of node that stand for a value.
#[derive(Debug)]
pub enum Expression {
    Identifier(Identifier),
    IntegerLiteral(IntegerLiteral),
    StringLiteral(StringLiteral),
    Boolean(Boolean),
    ArrayLiteral(ArrayLiteral),
    Prefix(PrefixExpression),
    Infix(InfixExpression),
    If(IfExpression),
    Function(FunctionLiteral),
    Call(CallExpression),
}

/// `let name = value;`
#[derive(Debug)]
pub struct LetStatement {
    pub token: Token,
    pub name: Identifier,
    pub value: Expression,
}

/// `return value;`, or `return;` without a value.
#[derive(Debug)]
pub struct ReturnStatement {
    pub token: Token,
    pub value: Option<Expression>,
}

/// An expression used as a statement. The token is the first token of the
/// expression.
#[derive(Debug)]
pub struct ExpressionStatement {
    pub token: Token,
    pub expr: Expression,
}

/// The statements between two braces. The token is the opening brace.
#[derive(Debug)]
pub struct BlockStatement {
    pub token: Token,
    pub statements: Vec<Statement>,
}

/// A statement: one of the four kinds of node that stand for an action.
#[derive(Debug)]
pub enum Statement {
    Let(LetStatement),
    Return(ReturnStatement),
    Expression(ExpressionStatement),
    Block(BlockStatement),
}

/// A program: its top-level statements, in order.
#[derive(Debug)]
pub struct Program {
    pub statements: Vec<Statement>,
}

/// The views of a list of identifiers, one for one.
pub open spec fn identifiers_view(ids: Seq<Identifier>) -> Seq<IdentifierView> {
    Seq::new(ids.len(), |i: int| ids[i]@)
}

/// The view of an expression: the same tree, over mathematical values.
pub open spec fn expression_view(e: Expression) -> ExpressionView
    decreases e,
{
    match e {
        Expression::Identifier(x) => ExpressionView::Identifier(x@),
        Expression::IntegerLiteral(x) => ExpressionView::Integer {
            token: x.token@,
            value: x.value as int,
        },
        Expression::StringLiteral(x) => ExpressionView::Text { token: x.token@, value: x.value@ },
        Expression::Boolean(x) => ExpressionView::Boolean { token: x.token@, value: x.value },
        Expression::ArrayLiteral(x) => ExpressionView::Array {
            token: x.token@,
            elements: expressions_view(x.elements@),
        },
        Expression::Prefix(x) => ExpressionView::Prefix {
            token: x.token@,
            operator: x.operator@,
            operand: Box::new(expression_view(*x.operand)),
        },
        Expression::Infix(x) => ExpressionView::Infix {
            token: x.token@,
            operator: x.operator@,
            left: Box::new(expression_view(*x.left)),
            right: Box::new(expression_view(*x.right)),
        },
        Expression::If(x) => ExpressionView::If {
            token: x.token@,
            condition: Box::new(expression_view(*x.condition)),
            consequence: block_view(x.consequence),
            alternative: match x.alternative {
                Some(block) => Some(block_view(block)),
                None => None,
            },
        },
        Expression::Function(x) => ExpressionView::Function {
            token: x.token@,
            parameters: identifiers_view(x.parameters@),
            body: block_view(x.body),
        },
        Expression::Call(x) => ExpressionView::Call {
            token: x.token@,
            callee: Box::new(expression_view(*x.callee)),
            arguments: expressions_view(x.arguments@),
        },
    }
}

/// The views of a list of expressions, one for one.
pub open spec fn expressions_view(es: Seq<Expression>) -> Seq<ExpressionView>
    decreases es,
{
    Seq::new(
        es.len(),
        |i: int|
            if 0 <= i < es.len() {
                expression_view(es[i])
            } else {
                arbitrary()
            },
    )
}

/// The view of a statement.
pub open spec fn statement_view(s: Statement) -> StatementView
    decreases s,
{
    match s {
        Statement::Let(x) => StatementView::Let {
            token: x.token@,
            name: x.name@,
            value: expression_view(x.value),
        },
        Statement::Return(x) => StatementView::Return {
            token: x.token@,
            value: match x.value {
                Some(e) => Some(expression_view(e)),
                None => None,
            },
        },
        Statement::Expression(x) => StatementView::Expression {
            token: x.token@,
            expr: expression_view(x.expr),
        },
        Statement::Block(x) => StatementView::Block(block_view(x)),
    }
}

/// The views of a list of statements, one for one.
pub open spec fn statements_view(ss: Seq<Statement>) -> Seq<StatementView>
    decreases ss,
{
    Seq::new(
        ss.len(),
        |i: int|
            if 0 <= i < ss.len() {
                statement_view(ss[i])
            } else {
                arbitrary()
            },
    )
}

/// The view of a block.
pub open spec fn block_view(b: BlockStatement) -> BlockView
    decreases b,
{
    BlockView { token: b.token@, statements: statements_view(b.statements@) }
}

/// The view of an optional expression.
pub open spec fn optional_expression_view(e: Option<Expression>) -> Option<ExpressionView> {
    match e {
        Some(e) => Some(expression_view(e)),
        None => None,
    }
}

/// The view of an optional statement.
pub open spec fn optional_statement_view(s: Option<Statement>) -> Option<StatementView> {
    match s {
        Some(s) => Some(statement_view(s)),
        None => None,
    }
}

/// The view of an optional block.
pub open spec fn optional_block_view(b: Option<BlockStatement>) -> Option<BlockView> {
    match b {
        Some(b) => Some(block_view(b)),
        None => None,
    }
}

/// The view of an optional list of expressions.
pub open spec fn optional_expressions_view(list: Option<Vec<Expression>>) -> Option<
    Seq<ExpressionView>,
> {
    match list {
        Some(list) => Some(expressions_view(list@)),
        None => None,
    }
}

impl View for Identifier {
    type V = IdentifierView;

    open spec fn view(&self) -> IdentifierView {
        IdentifierView { token: self.token@, name: self.name@ }
    }
}

impl View for IntegerLiteral {
    type V = ExpressionView;

    open spec fn view(&self) -> ExpressionView {
        expression_view(Expression::IntegerLiteral(*self))
    }
}

impl View for StringLiteral {
    type V = ExpressionView;

    open spec fn view(&self) -> ExpressionView {
        expression_view(Expression::StringLiteral(*self))
    }
}

impl View for Boolean {
    type V = ExpressionView;

    open spec fn view(&self) -> ExpressionView {
        expression_view(Expression::Boolean(*self))
    }
}

impl View for ArrayLiteral {
    type V = ExpressionView;

    open spec fn view(&self) -> ExpressionView {
        expression_view(Expression::ArrayLiteral(*self))
    }
}

impl View for PrefixExpression {
    type V = ExpressionView;

    open spec fn view(&self) -> ExpressionView {
        expression_view(Expression::Prefix(*self))
    }
}

impl View for InfixExpression {
    type V = ExpressionView;

    open spec fn view(&self) -> ExpressionView {
        expression_view(Expression::Infix(*self))
    }
}

impl View for IfExpression {
    type V = ExpressionView;

    open spec fn view(&self) -> ExpressionView {
        expression_view(Expression::If(*self))
    }
}

impl View for FunctionLiteral {
    type V = ExpressionView;

    open spec fn view(&self) -> ExpressionView {
        expression_view(Expression::Function(*self))
    }
}

impl View for CallExpression {
    type V = ExpressionView;

    open spec fn view(&self) -> ExpressionView {
        expression_view(Expression::Call(*self))
    }
}

impl View for Expression {
    type V = ExpressionView;

    open spec fn view(&self) -> ExpressionView {
        expression_view(*self)
    }
}

impl View for LetStatement {
    type V = StatementView;

    open spec fn view(&self) -> StatementView {
        statement_view(Statement::Let(*self))
    }
}

impl View for ReturnStatement {
    type V = StatementView;

    open spec fn view(&self) -> StatementView {
        statement_view(Statement::Return(*self))
    }
}

impl View for ExpressionStatement {
    type V = StatementView;

    open spec fn view(&self) -> StatementView {
        statement_view(Statement::Expression(*self))
    }
}

impl View for BlockStatement {
    type V = BlockView;

    open spec fn view(&self) -> BlockView {
        block_view(*self)
    }
}

impl View for Statement {
    type V = StatementView;

    open spec fn view(&self) -> StatementView {
        statement_view(*self)
    }
}

impl View for Program {
    type V = ProgramView;

    open spec fn view(&self) -> ProgramView {
        ProgramView { statements: statements_view(self.statements@) }
    }
}

/// The contents of a list of strings, one for one.
pub open spec fn texts_of(parts: Seq<String>) -> Seq<Seq<char>> {
    Seq::new(parts.len(), |i: int| parts[i]@)
}

/// The parts, with `sep` between each two neighbours.
pub fn join_strings(parts: &Vec<String>, sep: &str) -> (out: String)
    ensures
        out@ == join(texts_of(parts@), sep@),
{
    let ghost texts = texts_of(parts@);
    let mut out = String::new();
    let mut i: usize = 0;
    assert(texts.take(0) =~= Seq::<Seq<char>>::empty());
    while i < parts.len()
        invariant
            i <= parts.len(),
            texts == texts_of(parts@),
            out@ == join(texts.take(i as int), sep@),
        decreases parts.len() - i,
    {
        proof {
            let next = texts.take(i + 1);
            assert(next.drop_last() =~= texts.take(i as int));
            assert(next.last() == parts@[i as int]@);
            if i == 0 {
                assert(join(next, sep@) == next[0]);
            } else {
                assert(join(next, sep@) == join(next.drop_last(), sep@) + sep@ + next.last());
            }
        }
        if i > 0 {
            out.append(sep);
        }
        out.append(parts[i].as_str());
        assert(out@ =~= join(texts.take(i + 1), sep@));
        i += 1;
    }
    assert(texts.take(parts.len() as int) =~= texts);
    out
}

/// The source texts of a list of expressions, one for one.
fn render_expressions(items: &Vec<Expression>) -> (parts: Vec<String>)
    ensures
        texts_of(parts@) == expression_texts(expressions_view(items@)),
    decreases items,
{
    let mut parts: Vec<String> = Vec::new();
    let mut i: usize = 0;
    while i < items.len()
        invariant
            i <= items.len(),
            parts@.len() == i,
            forall|k: int|
                0 <= k < i ==> (#[trigger] parts@[k])@ == expression_text(
                    expression_view(items@[k]),
                ),
        decreases items.len() - i,
    {
        let text = items[i].to_source_text();
        parts.push(text);
        i += 1;
    }
    assert(texts_of(parts@) =~= expression_texts(expressions_view(items@)));
    parts
}

/// The source texts of a list of statements, one for one.
fn render_statements(items: &Vec<Statement>) -> (parts: Vec<String>)
    ensures
        texts_of(parts@) == statement_texts(statements_view(items@)),
    decreases items,
{
    let mut parts: Vec<String> = Vec::new();
    let mut i: usize = 0;
    while i < items.len()
        invariant
            i <= items.len(),
            parts@.len() == i,
            forall|k: int|
                0 <= k < i ==> (#[trigger] parts@[k])@ == statement_text(
                    statement_view(items@[k]),
                ),
        decreases items.len() - i,
    {
        let text = items[i].to_source_text();
        parts.push(text);
        i += 1;
    }
    assert(texts_of(parts@) =~= statement_texts(statements_view(items@)));
    parts
}

/// The names of a parameter list, one for one.
fn render_parameters(items: &Vec<Identifier>) -> (parts: Vec<String>)
    ensures
        texts_of(parts@) == parameter_names(identifiers_view(items@)),
{
    let mut parts: Vec<String> = Vec::new();
    let mut i: usize = 0;
    while i < items.len()
        invariant
            i <= items.len(),
            parts@.len() == i,
            forall|k: int| 0 <= k < i ==> (#[trigger] parts@[k])@ == items@[k].name@,
        decreases items.len() - i,
    {
        parts.push(items[i].name.clone());
        i += 1;
    }
    assert(texts_of(parts@) =~= parameter_names(identifiers_view(items@)));
    parts
}

impl Identifier {
    pub fn to_source_text(&self) -> (text: String)
        ensures
            text@ == self@.name,
    {
        self.name.clone()
    }
}

impl IntegerLiteral {
    pub fn to_source_text(&self) -> (text: String)
        ensures
            text@ == expression_text(self@),
    {
        self.token.literal.clone()
    }
}

impl StringLiteral {
    pub fn to_source_text(&self) -> (text: String)
        ensures
            text@ == expression_text(self@),
    {
        self.token.literal.clone()
    }
}

impl Boolean {
    pub fn to_source_text(&self) -> (text: String)
        ensures
            text@ == expression_text(self@),
    {
        self.token.literal.clone()
    }
}

impl ArrayLiteral {
    pub fn to_source_text(&self) -> (text: String)
        ensures
            text@ == expression_text(self@),
        decreases self,
    {
        let parts = render_expressions(&self.elements);
        let mut out = String::from_str("[");
        out.append(join_strings(&parts, ", ").as_str());
        out.append("]");
        out
    }
}

impl PrefixExpression {
    pub fn to_source_text(&self) -> (text: String)
        ensures
            text@ == expression_text(self@),
        decreases self,
    {
        let mut out = String::from_str("(");
        out.append(self.operator.as_str());
        out.append(self.operand.to_source_text().as_str());
        out.append(")");
        out
    }
}

impl InfixExpression {
    pub fn to_source_text(&self) -> (text: String)
        ensures
            text@ == expression_text(self@),
        decreases self,
    {
        let mut out = String::from_str("(");
        out.append(self.left.to_source_text().as_str());
        out.append(" ");
        out.append(self.operator.as_str());
        out.append(" ");
        out.append(self.right.to_source_text().as_str());
        out.append(")");
        out
    }
}

impl IfExpression {
    pub fn to_source_text(&self) -> (text: String)
        ensures
            text@ == expression_text(self@),
        decreases self,
    {
        let mut out = String::from_str("if");
        out.append(self.condition.to_source_text().as_str());
        out.append(" ");
        out.append(self.consequence.to_source_text().as_str());
        match &self.alternative {
            Some(block) => {
                out.append("else ");
                out.append(block.to_source_text().as_str());
            },
            None => {
                assert(out@ + Seq::<char>::empty() =~= out@);
            },
        }
        out
    }
}

impl FunctionLiteral {
    pub fn to_source_text(&self) -> (text: String)
        ensures
            text@ == expression_text(self@),
        decreases self,
    {
        let parts = render_parameters(&self.parameters);
        let mut out = self.token.literal.clone();
        out.append("(");
        out.append(join_strings(&parts, ", ").as_str());
        out.append(") ");
        out.append(self.body.to_source_text().as_str());
        out
    }
}

impl CallExpression {
    pub fn to_source_text(&self) -> (text: String)
        ensures
            text@ == expression_text(self@),
        decreases self,
    {
        let parts = render_expressions(&self.arguments);
        let mut out = self.callee.to_source_text();
        out.append("(");
        out.append(join_strings(&parts, ", ").as_str());
        out.append(")");
        out
    }
}

impl Expression {
    /// The token that the expression is built around.
    pub fn token(&self) -> (token: &Token)
        ensures
            token@ == expression_token(self@),
    {
        match self {
            Expression::Identifier(x) => &x.token,
            Expression::IntegerLiteral(x) => &x.token,
            Expression::StringLiteral(x) => &x.token,
            Expression::Boolean(x) => &x.token,
            Expression::ArrayLiteral(x) => &x.token,
            Expression::Prefix(x) => &x.token,
            Expression::Infix(x) => &x.token,
            Expression::If(x) => &x.token,
            Expression::Function(x) => &x.token,
            Expression::Call(x) => &x.token,
        }
    }

    pub fn to_source_text(&self) -> (text: String)
        ensures
            text@ == expression_text(self@),
        decreases self,
    {
        match self {
            Expression::Identifier(x) => x.to_source_text(),
            Expression::IntegerLiteral(x) => x.to_source_text(),
            Expression::StringLiteral(x) => x.to_source_text(),
            Expression::Boolean(x) => x.to_source_text(),
            Expression::ArrayLiteral(x) => x.to_source_text(),
            Expression::Prefix(x) => x.to_source_text(),
            Expression::Infix(x) => x.to_source_text(),
            Expression::If(x) => x.to_source_text(),
            Expression::Function(x) => x.to_source_text(),
            Expression::Call(x) => x.to_source_text(),
        }
    }
}

impl LetStatement {
    pub fn to_source_text(&self) -> (text: String)
        ensures
            text@ == statement_text(self@),
        decreases self,
    {
        let mut out = self.token.literal.clone();
        out.append(" ");
        out.append(self.name.name.as_str());
        out.append(" = ");
        out.append(self.value.to_source_text().as_str());
        out.append(";");
        out
    }
}

impl ReturnStatement {
    pub fn to_source_text(&self) -> (text: String)
        ensures
            text@ == statement_text(self@),
        decreases self,
    {
        let mut out = self.token.literal.clone();
        out.append(" ");
        match &self.value {
            Some(e) => {
                out.append(e.to_source_text().as_str());
            },
            None => {
                assert(out@ + Seq::<char>::empty() =~= out@);
            },
        }
        out.append(";");
        out
    }
}

impl ExpressionStatement {
    pub fn to_source_text(&self) -> (text: String)
        ensures
            text@ == statement_text(self@),
        decreases self,
    {
        self.expr.to_source_text()
    }
}

impl BlockStatement {
    pub fn to_source_text(&self) -> (text: String)
        ensures
            text@ == block_text(self@),
        decreases self,
    {
        let parts = render_statements(&self.statements);
        proof {
            reveal_strlit("");
            assert(""@ =~= Seq::<char>::empty());
        }
        join_strings(&parts, "")
    }
}

impl Statement {
    /// The token that the statement is built around.
    pub fn token(&self) -> (token: &Token)
        ensures
            token@ == statement_token(self@),
    {
        match self {
            Statement::Let(x) => &x.token,
            Statement::Return(x) => &x.token,
            Statement::Expression(x) => &x.token,
            Statement::Block(x) => &x.token,
        }
    }

    pub fn to_source_text(&self) -> (text: String)
        ensures
            text@ == statement_text(self@),
        decreases self,
    {
        match self {
            Statement::Let(x) => x.to_source_text(),
            Statement::Return(x) => x.to_source_text(),
            Statement::Expression(x) => x.to_source_text(),
            Statement::Block(x) => x.to_source_text(),
        }
    }
}

impl Program {
    pub fn to_source_text(&self) -> (text: String)
        ensures
            text@ == program_text(self@),
    {
        let parts = render_statements(&self.statements);
        proof {
            reveal_strlit("");
            assert(""@ =~= Seq::<char>::empty());
        }
        join_strings(&parts, "")
    }
}

impl Node for Identifier {
    open spec fn token_text(&self) -> Seq<char> {
        self@.token.literal
    }

    open spec fn source_text(&self) -> Seq<char> {
        self@.name
    }

    fn token_literal(&self) -> (text: String) {
        self.token.literal.clone()
    }

    fn string(&self) -> (text: String) {
        self.to_source_text()
    }
}

impl Node for IntegerLiteral {
    open spec fn token_text(&self) -> Seq<char> {
        expression_token(self@).literal
    }

    open spec fn source_text(&self) -> Seq<char> {
        expression_text(self@)
    }

    fn token_literal(&self) -> (text: String) {
        self.token.literal.clone()
    }

    fn string(&self) -> (text: String) {
        self.to_source_text()
    }
}

impl Node for StringLiteral {
    open spec fn token_text(&self) -> Seq<char> {
        expression_token(self@).literal
    }

    open spec fn source_text(&self) -> Seq<char> {
        expression_text(self@)
    }

    fn token_literal(&self) -> (text: String) {
        self.token.literal.clone()
    }

    fn string(&self) -> (text: String) {
        self.to_source_text()
    }
}

impl Node for Boolean {
    open spec fn token_text(&self) -> Seq<char> {
        expression_token(self@).literal
    }

    open spec fn source_text(&self) -> Seq<char> {
        expression_text(self@)
    }

    fn token_literal(&self) -> (text: String) {
        self.token.literal.clone()
    }

    fn string(&self) -> (text: String) {
        self.to_source_text()
    }
}

impl Node for ArrayLiteral {
    open spec fn token_text(&self) -> Seq<char> {
        expression_token(self@).literal
    }

    open spec fn source_text(&self) -> Seq<char> {
        expression_text(self@)
    }

    fn token_literal(&self) -> (text: String) {
        self.token.literal.clone()
    }

    fn string(&self) -> (text: String) {
        self.to_source_text()
    }
}

impl Node for PrefixExpression {
    open spec fn token_text(&self) -> Seq<char> {
        expression_token(self@).literal
    }

    open spec fn source_text(&self) -> Seq<char> {
        expression_text(self@)
    }

    fn token_literal(&self) -> (text: String) {
        self.token.literal.clone()
    }

    fn string(&self) -> (text: String) {
        self.to_source_text()
    }
}

impl Node for InfixExpression {
    open spec fn token_text(&self) -> Seq<char> {
        expression_token(self@).literal
    }

    open spec fn source_text(&self) -> Seq<char> {
        expression_text(self@)
    }

    fn token_literal(&self) -> (text: String) {
        self.token.literal.clone()
    }

    fn string(&self) -> (text: String) {
        self.to_source_text()
    }
}

impl Node for IfExpression {
    open spec fn token_text(&self) -> Seq<char> {
        expression_token(self@).literal
    }

    open spec fn source_text(&self) -> Seq<char> {
        expression_text(self@)
    }

    fn token_literal(&self) -> (text: String) {
        self.token.literal.clone()
    }

    fn string(&self) -> (text: String) {
        self.to_source_text()
    }
}

impl Node for FunctionLiteral {
    open spec fn token_text(&self) -> Seq<char> {
        expression_token(self@).literal
    }

    open spec fn source_text(&self) -> Seq<char> {
        expression_text(self@)
    }

    fn token_literal(&self) -> (text: String) {
        self.token.literal.clone()
    }

    fn string(&self) -> (text: String) {
        self.to_source_text()
    }
}

impl Node for CallExpression {
    open spec fn token_text(&self) -> Seq<char> {
        expression_token(self@).literal
    }

    open spec fn source_text(&self) -> Seq<char> {
        expression_text(self@)
    }

    fn token_literal(&self) -> (text: String) {
        self.token.literal.clone()
    }

    fn string(&self) -> (text: String) {
        self.to_source_text()
    }
}

impl Node for Expression {
    open spec fn token_text(&self) -> Seq<char> {
        expression_token(self@).literal
    }

    open spec fn source_text(&self) -> Seq<char> {
        expression_text(self@)
    }

    fn token_literal(&self) -> (text: String) {
        self.token().literal.clone()
    }

    fn string(&self) -> (text: String) {
        self.to_source_text()
    }
}

impl Node for LetStatement {
    open spec fn token_text(&self) -> Seq<char> {
        statement_token(self@).literal
    }

    open spec fn source_text(&self) -> Seq<char> {
        statement_text(self@)
    }

    fn token_literal(&self) -> (text: String) {
        self.token.literal.clone()
    }

    fn string(&self) -> (text: String) {
        self.to_source_text()
    }
}

impl Node for ReturnStatement {
    open spec fn token_text(&self) -> Seq<char> {
        statement_token(self@).literal
    }

    open spec fn source_text(&self) -> Seq<char> {
        statement_text(self@)
    }

    fn token_literal(&self) -> (text: String) {
        self.token.literal.clone()
    }

    fn string(&self) -> (text: String) {
        self.to_source_text()
    }
}

impl Node for ExpressionStatement {
    open spec fn token_text(&self) -> Seq<char> {
        statement_token(self@).literal
    }

    open spec fn source_text(&self) -> Seq<char> {
        statement_text(self@)
    }

    fn token_literal(&self) -> (text: String) {
        self.token.literal.clone()
    }

    fn string(&self) -> (text: String) {
        self.to_source_text()
    }
}

impl Node for BlockStatement {
    open spec fn token_text(&self) -> Seq<char> {
        self@.token.literal
    }

    open spec fn source_text(&self) -> Seq<char> {
        block_text(self@)
    }

    fn token_literal(&self) -> (text: String) {
        self.token.literal.clone()
    }

    fn string(&self) -> (text: String) {
        self.to_source_text()
    }
}

impl Node for Statement {
    open spec fn token_text(&self) -> Seq<char> {
        statement_token(self@).literal
    }

    open spec fn source_text(&self) -> Seq<char> {
        statement_text(self@)
    }

    fn token_literal(&self) -> (text: String) {
        self.token().literal.clone()
    }

    fn string(&self) -> (text: String) {
        self.to_source_text()
    }
}

impl Node for Program {
    open spec fn token_text(&self) -> Seq<char> {
        program_token_literal(self@)
    }

    open spec fn source_text(&self) -> Seq<char> {
        program_text(self@)
    }

    fn token_literal(&self) -> (text: String) {
        if self.statements.len() > 0 {
            self.statements[0].token().literal.clone()
        } else {
            String::new()
        }
    }

    fn string(&self) -> (text: String) {
        self.to_source_text()
    }
}

} // verus!
