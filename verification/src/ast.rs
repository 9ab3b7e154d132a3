//! The syntax tree: statements, expressions and blocks, each with the token it
//! came from, and the mathematical values that contracts speak of.

use crate::text::{debug_quote, debug_quoted};
use crate::token::{get_literal, literal_text, Token, TokenView};
use vstd::prelude::*;
use vstd::string::StringExecFns;

verus! {

/// A name with the token it was read from.
#[derive(Debug)]
pub struct Identifier {
    pub token: Token,
    pub value: String,
}

/// An integer literal.
#[derive(Debug)]
pub struct IntegerLiteral {
    pub token: Token,
    pub value: i32,
}

/// A string literal.
#[derive(Debug)]
pub struct StringLiteral {
    pub token: Token,
    pub value: String,
}

/// `true` or `false`.
#[derive(Debug)]
pub struct BooleanLiteral {
    pub token: Token,
    pub value: bool,
}

/// A unary operator applied to an operand.
#[derive(Debug)]
pub struct PrefixExpression {
    pub token: Token,
    pub operator: String,
    pub right: Box<Expression>,
}

/// A binary operator applied to two operands.
#[derive(Debug)]
pub struct InfixExpression {
    pub token: Token,
    pub left: Box<Expression>,
    pub right: Box<Expression>,
    pub operator: String,
}

/// A sequence of statements between braces.
#[derive(Debug)]
pub struct BlockStatement {
    pub token: Token,
    pub statements: Vec<Statement>,
}

/// A conditional with an optional alternative.
#[derive(Debug)]
pub struct IfExpression {
    pub token: Token,
    pub condition: Box<Expression>,
    pub consequence: BlockStatement,
    pub alternative: Option<BlockStatement>,
}

/// A function literal: parameters and a body.
#[derive(Debug)]
pub struct FunctionLiteral {
    pub token: Token,
    pub parameters: Vec<Identifier>,
    pub body: BlockStatement,
}

/// A call: the callee and the arguments in order.
#[derive(Debug)]
pub struct CallExpression {
    pub token: Token,
    pub function: Box<Expression>,
    pub arguments: Vec<Box<Expression>>,
}

/// A bracketed list of expressions.
#[derive(Debug)]
pub struct ArrayLiteral {
    pub token: Token,
    pub elements: Vec<Expression>,
}

/// An expression. `Empty` stands where a value is absent.
#[derive(Debug)]
pub enum Expression {
    Empty,
    Identifier(Identifier),
    IntegerLiteral(IntegerLiteral),
    StringLiteral(StringLiteral),
    PrefixExpression(PrefixExpression),
    InfixExpression(InfixExpression),
    Boolean(BooleanLiteral),
    IfExpression(IfExpression),
    FunctionLiteral(FunctionLiteral),
    CallExpression(CallExpression),
}

/// `let name = value`. The initializer is absent where none could be parsed.
#[derive(Debug)]
pub struct LetStatement {
    pub token: Token,
    pub name: Identifier,
    pub value: Option<Expression>,
}

/// `return value`.
#[derive(Debug)]
pub struct ReturnStatement {
    pub token: Token,
    pub return_val: Expression,
}

/// An expression that stands as a statement.
#[derive(Debug)]
pub struct ExpressionStatement {
    pub token: Token,
    pub expression: Expression,
}

/// `import "namespace"`.
#[derive(Debug)]
pub struct ImportStatement {
    pub token: Token,
    pub namespace: StringLiteral,
}

/// A statement.
#[derive(Debug)]
pub enum Statement {
    LetStatement(LetStatement),
    ReturnStatement(ReturnStatement),
    ExpressionStatement(ExpressionStatement),
    ImportStatement(ImportStatement),
}

/// A whole program: its statements in order.
#[derive(Debug)]
pub struct Program {
    pub statements: Vec<Statement>,
}

/// Anything the evaluator accepts.
pub enum Node {
    Program(Program),
    Expression(Expression),
    Statement(Statement),
    BlockStatement(BlockStatement),
}

/// The value of an [`Identifier`].
pub struct IdentifierView {
    pub token: TokenView,
    pub value: Seq<char>,
}

/// The value of a [`StringLiteral`].
pub struct StringLiteralView {
    pub token: TokenView,
    pub value: Seq<char>,
}

/// The value of a [`BlockStatement`].
pub struct BlockView {
    pub token: TokenView,
    pub statements: Seq<StatementView>,
}

/// The value of an [`Expression`], and of each of the structs that its
/// variants wrap.
#[allow(inconsistent_fields)]
pub enum ExpressionView {
    Empty,
    Identifier(IdentifierView),
    IntegerLiteral { token: TokenView, value: i32 },
    StringLiteral(StringLiteralView),
    Prefix { token: TokenView, operator: Seq<char>, right: Box<ExpressionView> },
    Infix {
        token: TokenView,
        left: Box<ExpressionView>,
        operator: Seq<char>,
        right: Box<ExpressionView>,
    },
    Boolean { token: TokenView, value: bool },
    If {
        token: TokenView,
        condition: Box<ExpressionView>,
        consequence: BlockView,
        alternative: Option<BlockView>,
    },
    Function { token: TokenView, parameters: Seq<IdentifierView>, body: BlockView },
    Call { token: TokenView, function: Box<ExpressionView>, arguments: Seq<ExpressionView> },
}

/// The value of a [`Statement`], and of each of the structs that its variants
/// wrap.
#[allow(inconsistent_fields)]
pub enum StatementView {
    Let { token: TokenView, name: IdentifierView, value: Option<ExpressionView> },
    Return { token: TokenView, return_val: ExpressionView },
    Expression { token: TokenView, expression: ExpressionView },
    Import { token: TokenView, namespace: StringLiteralView },
}

/// The value of a [`Program`].
pub struct ProgramView {
    pub statements: Seq<StatementView>,
}

/// The value of an [`ArrayLiteral`].
pub struct ArrayLiteralView {
    pub token: TokenView,
    pub elements: Seq<ExpressionView>,
}

/// The value of a [`Node`].
pub enum NodeView {
    Program(ProgramView),
    Expression(ExpressionView),
    Statement(StatementView),
    BlockStatement(BlockView),
}

impl View for Identifier {
    type V = IdentifierView;

    open spec fn view(&self) -> IdentifierView {
        IdentifierView { token: self.token@, value: self.value@ }
    }
}

impl View for StringLiteral {
    type V = StringLiteralView;

    open spec fn view(&self) -> StringLiteralView {
        StringLiteralView { token: self.token@, value: self.value@ }
    }
}

/// The values of a list of identifiers, in order.
pub open spec fn identifiers_view(ids: Seq<Identifier>) -> Seq<IdentifierView> {
    Seq::new(ids.len(), |i: int| ids[i]@)
}

/// The value of an expression.
pub open spec fn expression_view(e: &Expression) -> ExpressionView
    decreases e,
{
    match e {
        Expression::Empty => ExpressionView::Empty,
        Expression::Identifier(i) => ExpressionView::Identifier(i@),
        Expression::IntegerLiteral(il) => ExpressionView::IntegerLiteral {
            token: il.token@,
            value: il.value,
        },
        Expression::StringLiteral(sl) => ExpressionView::StringLiteral(sl@),
        Expression::PrefixExpression(pe) => ExpressionView::Prefix {
            token: pe.token@,
            operator: pe.operator@,
            right: Box::new(expression_view(&*pe.right)),
        },
        Expression::InfixExpression(ie) => ExpressionView::Infix {
            token: ie.token@,
            left: Box::new(expression_view(&*ie.left)),
            operator: ie.operator@,
            right: Box::new(expression_view(&*ie.right)),
        },
        Expression::Boolean(b) => ExpressionView::Boolean { token: b.token@, value: b.value },
        Expression::IfExpression(ie) => ExpressionView::If {
            token: ie.token@,
            condition: Box::new(expression_view(&*ie.condition)),
            consequence: block_view(&ie.consequence),
            alternative: match &ie.alternative {
                Some(alt) => Some(block_view(alt)),
                None => None,
            },
        },
        Expression::FunctionLiteral(fl) => ExpressionView::Function {
            token: fl.token@,
            parameters: identifiers_view(fl.parameters@),
            body: block_view(&fl.body),
        },
        Expression::CallExpression(ce) => ExpressionView::Call {
            token: ce.token@,
            function: Box::new(expression_view(&*ce.function)),
            arguments: Seq::new(
                ce.arguments@.len(),
                |i: int|
                    if 0 <= i < ce.arguments@.len() {
                        expression_view(&*ce.arguments@[i])
                    } else {
                        ExpressionView::Empty
                    },
            ),
        },
    }
}

/// The value of a block.
pub open spec fn block_view(b: &BlockStatement) -> BlockView
    decreases b,
{
    BlockView {
        token: b.token@,
        statements: Seq::new(
            b.statements@.len(),
            |i: int|
                if 0 <= i < b.statements@.len() {
                    statement_view(&b.statements@[i])
                } else {
                    StatementView::Expression {
                        token: TokenView::EOF,
                        expression: ExpressionView::Empty,
                    }
                },
        ),
    }
}

/// The value of a statement.
pub open spec fn statement_view(s: &Statement) -> StatementView
    decreases s,
{
    match s {
        Statement::LetStatement(ls) => StatementView::Let {
            token: ls.token@,
            name: ls.name@,
            value: match &ls.value {
                Some(e) => Some(expression_view(e)),
                None => None,
            },
        },
        Statement::ReturnStatement(rs) => StatementView::Return {
            token: rs.token@,
            return_val: expression_view(&rs.return_val),
        },
        Statement::ExpressionStatement(es) => StatementView::Expression {
            token: es.token@,
            expression: expression_view(&es.expression),
        },
        Statement::ImportStatement(is) => StatementView::Import {
            token: is.token@,
            namespace: is.namespace@,
        },
    }
}

/// The values of a list of statements, in order.
pub open spec fn statements_view(stmts: Seq<Statement>) -> Seq<StatementView> {
    Seq::new(stmts.len(), |i: int| statement_view(&stmts[i]))
}

/// The values of a list of boxed expressions, in order.
pub open spec fn arguments_view(args: Seq<Box<Expression>>) -> Seq<ExpressionView> {
    Seq::new(args.len(), |i: int| expression_view(&*args[i]))
}

/// The values of a list of expressions, in order.
pub open spec fn expressions_view(exps: Seq<Expression>) -> Seq<ExpressionView> {
    Seq::new(exps.len(), |i: int| expression_view(&exps[i]))
}

impl View for Expression {
    type V = ExpressionView;

    open spec fn view(&self) -> ExpressionView {
        expression_view(self)
    }
}

impl View for Statement {
    type V = StatementView;

    open spec fn view(&self) -> StatementView {
        statement_view(self)
    }
}

impl View for BlockStatement {
    type V = BlockView;

    open spec fn view(&self) -> BlockView {
        block_view(self)
    }
}

impl View for IntegerLiteral {
    type V = ExpressionView;

    open spec fn view(&self) -> ExpressionView {
        ExpressionView::IntegerLiteral { token: self.token@, value: self.value }
    }
}

impl View for BooleanLiteral {
    type V = ExpressionView;

    open spec fn view(&self) -> ExpressionView {
        ExpressionView::Boolean { token: self.token@, value: self.value }
    }
}

impl View for PrefixExpression {
    type V = ExpressionView;

    open spec fn view(&self) -> ExpressionView {
        ExpressionView::Prefix {
            token: self.token@,
            operator: self.operator@,
            right: Box::new(self.right@),
        }
    }
}

impl View for InfixExpression {
    type V = ExpressionView;

    open spec fn view(&self) -> ExpressionView {
        ExpressionView::Infix {
            token: self.token@,
            left: Box::new(self.left@),
            operator: self.operator@,
            right: Box::new(self.right@),
        }
    }
}

impl View for IfExpression {
    type V = ExpressionView;

    open spec fn view(&self) -> ExpressionView {
        ExpressionView::If {
            token: self.token@,
            condition: Box::new(self.condition@),
            consequence: self.consequence@,
            alternative: match &self.alternative {
                Some(alt) => Some(alt@),
                None => None,
            },
        }
    }
}

impl View for FunctionLiteral {
    type V = ExpressionView;

    open spec fn view(&self) -> ExpressionView {
        ExpressionView::Function {
            token: self.token@,
            parameters: identifiers_view(self.parameters@),
            body: self.body@,
        }
    }
}

impl View for CallExpression {
    type V = ExpressionView;

    open spec fn view(&self) -> ExpressionView {
        ExpressionView::Call {
            token: self.token@,
            function: Box::new(self.function@),
            arguments: arguments_view(self.arguments@),
        }
    }
}

impl View for ArrayLiteral {
    type V = ArrayLiteralView;

    open spec fn view(&self) -> ArrayLiteralView {
        ArrayLiteralView { token: self.token@, elements: expressions_view(self.elements@) }
    }
}

impl View for LetStatement {
    type V = StatementView;

    open spec fn view(&self) -> StatementView {
        StatementView::Let {
            token: self.token@,
            name: self.name@,
            value: match &self.value {
                Some(e) => Some(e@),
                None => None,
            },
        }
    }
}

impl View for ReturnStatement {
    type V = StatementView;

    open spec fn view(&self) -> StatementView {
        StatementView::Return { token: self.token@, return_val: self.return_val@ }
    }
}

impl View for ExpressionStatement {
    type V = StatementView;

    open spec fn view(&self) -> StatementView {
        StatementView::Expression { token: self.token@, expression: self.expression@ }
    }
}

impl View for ImportStatement {
    type V = StatementView;

    open spec fn view(&self) -> StatementView {
        StatementView::Import { token: self.token@, namespace: self.namespace@ }
    }
}

impl View for Program {
    type V = ProgramView;

    open spec fn view(&self) -> ProgramView {
        ProgramView { statements: statements_view(self.statements@) }
    }
}

impl View for Node {
    type V = NodeView;

    open spec fn view(&self) -> NodeView {
        match self {
            Node::Program(p) => NodeView::Program(p@),
            Node::Expression(e) => NodeView::Expression(e@),
            Node::Statement(s) => NodeView::Statement(s@),
            Node::BlockStatement(b) => NodeView::BlockStatement(b@),
        }
    }
}

/// The view of a call's arguments, as [`expression_view`] builds it, is the
/// list of the arguments' views.
pub proof fn lemma_call_view(ce: &CallExpression)
    ensures
        expression_view(&Expression::CallExpression(*ce)) == ce@,
{
    reveal(expression_view);
    let e = Expression::CallExpression(*ce);
    assert(expression_view(&e)->Call_arguments =~= arguments_view(ce.arguments@));
}

/// The view of a block lists the views of its statements.
pub proof fn lemma_block_view(b: &BlockStatement)
    ensures
        b@.statements == statements_view(b.statements@),
        b@.token == b.token@,
{
    assert(block_view(b).statements =~= statements_view(b.statements@));
}

impl Clone for Identifier {
    fn clone(&self) -> (r: Self)
        ensures
            r@ == self@,
    {
        Identifier { token: self.token.clone(), value: self.value.clone() }
    }
}

impl Clone for IntegerLiteral {
    fn clone(&self) -> (r: Self)
        ensures
            r@ == self@,
    {
        IntegerLiteral { token: self.token.clone(), value: self.value }
    }
}

impl Clone for StringLiteral {
    fn clone(&self) -> (r: Self)
        ensures
            r@ == self@,
    {
        StringLiteral { token: self.token.clone(), value: self.value.clone() }
    }
}

impl Clone for BooleanLiteral {
    fn clone(&self) -> (r: Self)
        ensures
            r@ == self@,
    {
        BooleanLiteral { token: self.token.clone(), value: self.value }
    }
}

/// Copies a list of identifiers.
pub fn clone_identifiers(ids: &Vec<Identifier>) -> (r: Vec<Identifier>)
    ensures
        identifiers_view(r@) == identifiers_view(ids@),
{
    let mut out: Vec<Identifier> = Vec::new();
    let mut i: usize = 0;
    while i < ids.len()
        invariant
            i <= ids@.len(),
            out@.len() == i,
            forall|j: int| 0 <= j < i ==> out@[j]@ == ids@[j]@,
        decreases ids@.len() - i,
    {
        out.push(ids[i].clone());
        i += 1;
    }
    assert(identifiers_view(out@) =~= identifiers_view(ids@));
    out
}

impl Clone for PrefixExpression {
    fn clone(&self) -> (r: Self)
        ensures
            r@ == self@,
        decreases self,
    {
        PrefixExpression {
            token: self.token.clone(),
            operator: self.operator.clone(),
            right: Box::new((&*self.right).clone()),
        }
    }
}

impl Clone for InfixExpression {
    fn clone(&self) -> (r: Self)
        ensures
            r@ == self@,
        decreases self,
    {
        InfixExpression {
            token: self.token.clone(),
            left: Box::new((&*self.left).clone()),
            right: Box::new((&*self.right).clone()),
            operator: self.operator.clone(),
        }
    }
}

impl Clone for BlockStatement {
    fn clone(&self) -> (r: Self)
        ensures
            r@ == self@,
        decreases self,
    {
        let mut statements: Vec<Statement> = Vec::new();
        let mut i: usize = 0;
        while i < self.statements.len()
            invariant
                i <= self.statements@.len(),
                statements@.len() == i,
                forall|j: int| 0 <= j < i ==> statements@[j]@ == self.statements@[j]@,
            decreases self.statements@.len() - i,
        {
            statements.push(self.statements[i].clone());
            i += 1;
        }
        let r = BlockStatement { token: self.token.clone(), statements };
        assert(r@.statements =~= self@.statements);
        r
    }
}

impl Clone for IfExpression {
    fn clone(&self) -> (r: Self)
        ensures
            r@ == self@,
        decreases self,
    {
        IfExpression {
            token: self.token.clone(),
            condition: Box::new((&*self.condition).clone()),
            consequence: self.consequence.clone(),
            alternative: match &self.alternative {
                Some(alt) => Some(alt.clone()),
                None => None,
            },
        }
    }
}

impl Clone for FunctionLiteral {
    fn clone(&self) -> (r: Self)
        ensures
            r@ == self@,
        decreases self,
    {
        FunctionLiteral {
            token: self.token.clone(),
            parameters: clone_identifiers(&self.parameters),
            body: self.body.clone(),
        }
    }
}

impl Clone for CallExpression {
    fn clone(&self) -> (r: Self)
        ensures
            r@ == self@,
        decreases self,
    {
        let mut arguments: Vec<Box<Expression>> = Vec::new();
        let mut i: usize = 0;
        while i < self.arguments.len()
            invariant
                i <= self.arguments@.len(),
                arguments@.len() == i,
                forall|j: int| 0 <= j < i ==> arguments@[j]@ == self.arguments@[j]@,
            decreases self.arguments@.len() - i,
        {
            arguments.push(Box::new((&*self.arguments[i]).clone()));
            i += 1;
        }
        let r = CallExpression {
            token: self.token.clone(),
            function: Box::new((&*self.function).clone()),
            arguments,
        };
        assert(arguments_view(r.arguments@) =~= arguments_view(self.arguments@));
        r
    }
}

impl Clone for ArrayLiteral {
    fn clone(&self) -> (r: Self)
        ensures
            r@ == self@,
    {
        let mut elements: Vec<Expression> = Vec::new();
        let mut i: usize = 0;
        while i < self.elements.len()
            invariant
                i <= self.elements@.len(),
                elements@.len() == i,
                forall|j: int| 0 <= j < i ==> elements@[j]@ == self.elements@[j]@,
            decreases self.elements@.len() - i,
        {
            elements.push(self.elements[i].clone());
            i += 1;
        }
        let r = ArrayLiteral { token: self.token.clone(), elements };
        assert(expressions_view(r.elements@) =~= expressions_view(self.elements@));
        r
    }
}

impl Clone for Expression {
    fn clone(&self) -> (r: Self)
        ensures
            r@ == self@,
        decreases self,
    {
        proof {
            reveal(expression_view);
        }
        match self {
            Expression::Empty => Expression::Empty,
            Expression::Identifier(i) => Expression::Identifier(i.clone()),
            Expression::IntegerLiteral(il) => Expression::IntegerLiteral(il.clone()),
            Expression::StringLiteral(sl) => Expression::StringLiteral(sl.clone()),
            Expression::PrefixExpression(pe) => Expression::PrefixExpression(pe.clone()),
            Expression::InfixExpression(ie) => Expression::InfixExpression(ie.clone()),
            Expression::Boolean(b) => Expression::Boolean(b.clone()),
            Expression::IfExpression(ie) => Expression::IfExpression(ie.clone()),
            Expression::FunctionLiteral(fl) => Expression::FunctionLiteral(fl.clone()),
            Expression::CallExpression(ce) => {
                proof {
                    lemma_call_view(ce);
                }
                let c = ce.clone();
                proof {
                    lemma_call_view(&c);
                }
                Expression::CallExpression(c)
            },
        }
    }
}

impl Clone for LetStatement {
    fn clone(&self) -> (r: Self)
        ensures
            r@ == self@,
        decreases self,
    {
        LetStatement {
            token: self.token.clone(),
            name: self.name.clone(),
            value: match &self.value {
                Some(e) => Some(e.clone()),
                None => None,
            },
        }
    }
}

impl Clone for ReturnStatement {
    fn clone(&self) -> (r: Self)
        ensures
            r@ == self@,
        decreases self,
    {
        ReturnStatement { token: self.token.clone(), return_val: self.return_val.clone() }
    }
}

impl Clone for ExpressionStatement {
    fn clone(&self) -> (r: Self)
        ensures
            r@ == self@,
        decreases self,
    {
        ExpressionStatement { token: self.token.clone(), expression: self.expression.clone() }
    }
}

impl Clone for ImportStatement {
    fn clone(&self) -> (r: Self)
        ensures
            r@ == self@,
    {
        ImportStatement { token: self.token.clone(), namespace: self.namespace.clone() }
    }
}

impl Clone for Statement {
    fn clone(&self) -> (r: Self)
        ensures
            r@ == self@,
        decreases self,
    {
        match self {
            Statement::LetStatement(ls) => Statement::LetStatement(ls.clone()),
            Statement::ReturnStatement(rs) => Statement::ReturnStatement(rs.clone()),
            Statement::ExpressionStatement(es) => Statement::ExpressionStatement(es.clone()),
            Statement::ImportStatement(is) => Statement::ImportStatement(is.clone()),
        }
    }
}

impl Clone for Program {
    fn clone(&self) -> (r: Self)
        ensures
            r@ == self@,
    {
        let mut statements: Vec<Statement> = Vec::new();
        let mut i: usize = 0;
        while i < self.statements.len()
            invariant
                i <= self.statements@.len(),
                statements@.len() == i,
                forall|j: int| 0 <= j < i ==> statements@[j]@ == self.statements@[j]@,
            decreases self.statements@.len() - i,
        {
            statements.push(self.statements[i].clone());
            i += 1;
        }
        let r = Program { statements };
        assert(r@.statements =~= self@.statements);
        r
    }
}

/// The text of the first `n` of a list of parameters: each name followed by
/// `suffix`.
pub open spec fn parameters_text(ps: Seq<IdentifierView>, suffix: Seq<char>, n: nat) -> Seq<char>
    decreases n,
{
    if n == 0 || n > ps.len() {
        Seq::empty()
    } else {
        parameters_text(ps, suffix, (n - 1) as nat) + literal_text(ps[n - 1].token) + suffix
    }
}

/// The text of an expression. Operators are shown with their operands in
/// parentheses; a string literal, and the parts of a conditional, are shown
/// quoted.
pub open spec fn expression_text(e: ExpressionView) -> Seq<char>
    decreases e, 0nat,
{
    match e {
        ExpressionView::Empty => Seq::empty(),
        ExpressionView::Identifier(i) => literal_text(i.token),
        ExpressionView::IntegerLiteral { token, .. } => literal_text(token),
        ExpressionView::StringLiteral(sl) => debug_quoted(sl.value),
        ExpressionView::Prefix { operator, right, .. } => "("@ + operator + expression_text(*right)
            + ")"@,
        ExpressionView::Infix { left, operator, right, .. } => "("@ + expression_text(*left) + " "@
            + operator + " "@ + expression_text(*right) + ")"@,
        ExpressionView::Boolean { token, .. } => literal_text(token),
        ExpressionView::If { condition, consequence, alternative, .. } => match alternative {
            Some(alt) => "if "@ + debug_quoted(expression_text(*condition)) + " "@ + debug_quoted(
                block_text(consequence),
            ) + " else "@ + debug_quoted(block_text(alt)),
            None => "if "@ + debug_quoted(expression_text(*condition)) + " "@ + debug_quoted(
                block_text(consequence),
            ),
        },
        ExpressionView::Function { token, parameters, body } => literal_text(token) + " ("@
            + parameters_text(parameters, ", "@, parameters.len()) + ") "@ + block_text(body),
        ExpressionView::Call { function, arguments, .. } => expression_text(*function) + "("@
            + arguments_text(arguments, arguments.len()) + ")"@,
    }
}

/// The text of the first `n` arguments of a call: each followed by a comma
/// and a space.
pub open spec fn arguments_text(args: Seq<ExpressionView>, n: nat) -> Seq<char>
    decreases args, n,
{
    if n == 0 || n > args.len() {
        Seq::empty()
    } else {
        arguments_text(args, (n - 1) as nat) + expression_text(args[n - 1]) + ", "@
    }
}

/// The text of a statement.
pub open spec fn statement_text(s: StatementView) -> Seq<char>
    decreases s, 0nat,
{
    match s {
        StatementView::Let { token, name, value } => match value {
            Some(v) => literal_text(token) + " "@ + literal_text(name.token) + " = "@
                + expression_text(v),
            None => literal_text(token) + " "@ + literal_text(name.token) + " = null"@,
        },
        StatementView::Return { .. } => "return statement"@,
        StatementView::Expression { token, .. } => literal_text(token),
        StatementView::Import { namespace, .. } => "import "@ + namespace.value,
    }
}

/// The texts of the first `n` statements, one after the other.
pub open spec fn statements_text(stmts: Seq<StatementView>, n: nat) -> Seq<char>
    decreases stmts, n,
{
    if n == 0 || n > stmts.len() {
        Seq::empty()
    } else {
        statements_text(stmts, (n - 1) as nat) + statement_text(stmts[n - 1])
    }
}

/// The text of a block: the texts of its statements.
pub open spec fn block_text(b: BlockView) -> Seq<char>
    decreases b, 0nat,
{
    statements_text(b.statements, b.statements.len())
}

/// The text of the elements of a list from the `i`-th on, separated by a
/// comma and a space.
pub open spec fn elements_text(es: Seq<ExpressionView>, n: nat) -> Seq<char>
    decreases n,
{
    if n == 0 || n > es.len() {
        Seq::empty()
    } else if n == 1 {
        expression_text(es[0])
    } else {
        elements_text(es, (n - 1) as nat) + ", "@ + expression_text(es[n - 1])
    }
}

/// Rendering of a node as text.
pub trait Inspect {
    /// The source text of the token that the node came from.
    spec fn literal(&self) -> Seq<char>;

    /// The text of the node.
    spec fn text(&self) -> Seq<char>;

    /// The source text of the token that the node came from.
    fn token_literal(&self) -> (r: String)
        ensures
            r@ == self.literal(),
    ;

    /// The text of the node.
    fn to_string(&self) -> (r: String)
        ensures
            r@ == self.text(),
    ;
}

impl Inspect for Identifier {
    open spec fn literal(&self) -> Seq<char> {
        literal_text(self.token@)
    }

    open spec fn text(&self) -> Seq<char> {
        literal_text(self.token@)
    }

    fn token_literal(&self) -> (r: String) {
        get_literal(&self.token)
    }

    fn to_string(&self) -> (r: String) {
        get_literal(&self.token)
    }
}

impl Inspect for IntegerLiteral {
    open spec fn literal(&self) -> Seq<char> {
        literal_text(self.token@)
    }

    open spec fn text(&self) -> Seq<char> {
        expression_text(self@)
    }

    fn token_literal(&self) -> (r: String) {
        get_literal(&self.token)
    }

    fn to_string(&self) -> (r: String) {
        get_literal(&self.token)
    }
}

impl Inspect for BooleanLiteral {
    open spec fn literal(&self) -> Seq<char> {
        literal_text(self.token@)
    }

    open spec fn text(&self) -> Seq<char> {
        expression_text(self@)
    }

    fn token_literal(&self) -> (r: String) {
        get_literal(&self.token)
    }

    fn to_string(&self) -> (r: String) {
        get_literal(&self.token)
    }
}

impl Inspect for StringLiteral {
    open spec fn literal(&self) -> Seq<char> {
        literal_text(self.token@)
    }

    open spec fn text(&self) -> Seq<char> {
        debug_quoted(self.value@)
    }

    fn token_literal(&self) -> (r: String) {
        get_literal(&self.token)
    }

    fn to_string(&self) -> (r: String) {
        debug_quote(self.value.as_str())
    }
}

impl Inspect for PrefixExpression {
    open spec fn literal(&self) -> Seq<char> {
        literal_text(self.token@)
    }

    open spec fn text(&self) -> Seq<char> {
        expression_text(self@)
    }

    fn token_literal(&self) -> (r: String) {
        get_literal(&self.token)
    }

    fn to_string(&self) -> (r: String)
        decreases self,
    {
        let mut out = String::from_str("(");
        out.append(self.operator.as_str());
        let right = (&*self.right).to_string();
        out.append(right.as_str());
        out.append(")");
        out
    }
}

impl Inspect for InfixExpression {
    open spec fn literal(&self) -> Seq<char> {
        literal_text(self.token@)
    }

    open spec fn text(&self) -> Seq<char> {
        expression_text(self@)
    }

    fn token_literal(&self) -> (r: String) {
        get_literal(&self.token)
    }

    fn to_string(&self) -> (r: String)
        decreases self,
    {
        let mut out = String::from_str("(");
        let left = (&*self.left).to_string();
        out.append(left.as_str());
        out.append(" ");
        out.append(self.operator.as_str());
        out.append(" ");
        let right = (&*self.right).to_string();
        out.append(right.as_str());
        out.append(")");
        out
    }
}

impl Inspect for BlockStatement {
    open spec fn literal(&self) -> Seq<char> {
        literal_text(self.token@)
    }

    open spec fn text(&self) -> Seq<char> {
        block_text(self@)
    }

    fn token_literal(&self) -> (r: String) {
        get_literal(&self.token)
    }

    fn to_string(&self) -> (r: String)
        decreases self,
    {
        let mut out = String::new();
        let mut i: usize = 0;
        proof {
            lemma_block_view(self);
        }
        while i < self.statements.len()
            invariant
                i <= self.statements@.len(),
                self@.statements == statements_view(self.statements@),
                out@ == statements_text(self@.statements, i as nat),
            decreases self.statements@.len() - i,
        {
            let t = self.statements[i].to_string();
            out.append(t.as_str());
            i += 1;
        }
        out
    }
}

impl Inspect for IfExpression {
    open spec fn literal(&self) -> Seq<char> {
        literal_text(self.token@)
    }

    open spec fn text(&self) -> Seq<char> {
        expression_text(self@)
    }

    fn token_literal(&self) -> (r: String) {
        get_literal(&self.token)
    }

    fn to_string(&self) -> (r: String)
        decreases self,
    {
        let mut out = String::from_str("if ");
        let condition = (&*self.condition).to_string();
        let quoted = debug_quote(condition.as_str());
        out.append(quoted.as_str());
        out.append(" ");
        let consequence = self.consequence.to_string();
        let quoted = debug_quote(consequence.as_str());
        out.append(quoted.as_str());
        match &self.alternative {
            Some(alt) => {
                out.append(" else ");
                let alternative = alt.to_string();
                let quoted = debug_quote(alternative.as_str());
                out.append(quoted.as_str());
            },
            None => {},
        }
        out
    }
}

/// Renders a list of parameters: each name followed by `suffix`.
pub fn parameters_to_string(params: &Vec<Identifier>, suffix: &str) -> (r: String)
    ensures
        r@ == parameters_text(identifiers_view(params@), suffix@, params@.len()),
{
    let mut out = String::new();
    let mut i: usize = 0;
    while i < params.len()
        invariant
            i <= params@.len(),
            out@ == parameters_text(identifiers_view(params@), suffix@, i as nat),
        decreases params@.len() - i,
    {
        let name = get_literal(&params[i].token);
        out.append(name.as_str());
        out.append(suffix);
        i += 1;
    }
    out
}

impl Inspect for FunctionLiteral {
    open spec fn literal(&self) -> Seq<char> {
        literal_text(self.token@)
    }

    open spec fn text(&self) -> Seq<char> {
        expression_text(self@)
    }

    fn token_literal(&self) -> (r: String) {
        get_literal(&self.token)
    }

    fn to_string(&self) -> (r: String)
        decreases self,
    {
        let mut out = get_literal(&self.token);
        out.append(" (");
        let params = parameters_to_string(&self.parameters, ", ");
        out.append(params.as_str());
        out.append(") ");
        let body = self.body.to_string();
        out.append(body.as_str());
        out
    }
}

impl Inspect for CallExpression {
    open spec fn literal(&self) -> Seq<char> {
        literal_text(self.token@)
    }

    open spec fn text(&self) -> Seq<char> {
        expression_text(self@)
    }

    fn token_literal(&self) -> (r: String) {
        get_literal(&self.token)
    }

    fn to_string(&self) -> (r: String)
        decreases self,
    {
        let mut out = (&*self.function).to_string();
        out.append("(");
        let ghost head = out@;
        let mut i: usize = 0;
        while i < self.arguments.len()
            invariant
                i <= self.arguments@.len(),
                out@ == head + arguments_text(arguments_view(self.arguments@), i as nat),
            decreases self.arguments@.len() - i,
        {
            let t = (&*self.arguments[i]).to_string();
            out.append(t.as_str());
            out.append(", ");
            assert(arguments_view(self.arguments@)[i as int] == self.arguments@[i as int]@);
            i += 1;
        }
        out.append(")");
        out
    }
}

impl Inspect for ArrayLiteral {
    open spec fn literal(&self) -> Seq<char> {
        literal_text(self.token@)
    }

    open spec fn text(&self) -> Seq<char> {
        "["@ + elements_text(self@.elements, self@.elements.len()) + "]"@
    }

    fn token_literal(&self) -> (r: String) {
        get_literal(&self.token)
    }

    fn to_string(&self) -> (r: String) {
        let mut out = String::from_str("[");
        let mut i: usize = 0;
        while i < self.elements.len()
            invariant
                i <= self.elements@.len(),
                out@ == "["@ + elements_text(expressions_view(self.elements@), i as nat),
            decreases self.elements@.len() - i,
        {
            if i > 0 {
                out.append(", ");
            }
            let t = self.elements[i].to_string();
            out.append(t.as_str());
            assert(expressions_view(self.elements@)[i as int] == self.elements@[i as int]@);
            i += 1;
        }
        out.append("]");
        out
    }
}

impl Inspect for Expression {
    open spec fn literal(&self) -> Seq<char> {
        match self {
            Expression::Empty => Seq::empty(),
            Expression::Identifier(i) => literal_text(i.token@),
            Expression::IntegerLiteral(il) => literal_text(il.token@),
            Expression::StringLiteral(sl) => literal_text(sl.token@),
            Expression::PrefixExpression(pe) => literal_text(pe.token@),
            Expression::InfixExpression(ie) => literal_text(ie.token@),
            Expression::Boolean(b) => literal_text(b.token@),
            Expression::IfExpression(ie) => literal_text(ie.token@),
            Expression::FunctionLiteral(fl) => literal_text(fl.token@),
            Expression::CallExpression(ce) => literal_text(ce.token@),
        }
    }

    open spec fn text(&self) -> Seq<char> {
        expression_text(self@)
    }

    fn token_literal(&self) -> (r: String) {
        match self {
            Expression::Empty => String::new(),
            Expression::Identifier(i) => get_literal(&i.token),
            Expression::IntegerLiteral(il) => get_literal(&il.token),
            Expression::StringLiteral(sl) => get_literal(&sl.token),
            Expression::PrefixExpression(pe) => get_literal(&pe.token),
            Expression::InfixExpression(ie) => get_literal(&ie.token),
            Expression::Boolean(b) => get_literal(&b.token),
            Expression::IfExpression(ie) => get_literal(&ie.token),
            Expression::FunctionLiteral(fl) => get_literal(&fl.token),
            Expression::CallExpression(ce) => get_literal(&ce.token),
        }
    }

    fn to_string(&self) -> (r: String)
        decreases self,
    {
        match self {
            Expression::Empty => String::new(),
            Expression::Identifier(i) => i.to_string(),
            Expression::IntegerLiteral(il) => il.to_string(),
            Expression::StringLiteral(sl) => sl.to_string(),
            Expression::PrefixExpression(pe) => pe.to_string(),
            Expression::InfixExpression(ie) => ie.to_string(),
            Expression::Boolean(b) => b.to_string(),
            Expression::IfExpression(ie) => ie.to_string(),
            Expression::FunctionLiteral(fl) => fl.to_string(),
            Expression::CallExpression(ce) => {
                proof {
                    lemma_call_view(ce);
                }
                ce.to_string()
            },
        }
    }
}

impl Inspect for LetStatement {
    open spec fn literal(&self) -> Seq<char> {
        literal_text(self.token@)
    }

    open spec fn text(&self) -> Seq<char> {
        statement_text(self@)
    }

    fn token_literal(&self) -> (r: String) {
        get_literal(&self.token)
    }

    fn to_string(&self) -> (r: String)
        decreases self,
    {
        let mut out = get_literal(&self.token);
        out.append(" ");
        let name = self.name.to_string();
        out.append(name.as_str());
        match &self.value {
            Some(val) => {
                out.append(" = ");
                let v = val.to_string();
                out.append(v.as_str());
            },
            None => {
                out.append(" = null");
            },
        }
        out
    }
}

impl Inspect for ReturnStatement {
    open spec fn literal(&self) -> Seq<char> {
        literal_text(self.token@)
    }

    open spec fn text(&self) -> Seq<char> {
        statement_text(self@)
    }

    fn token_literal(&self) -> (r: String) {
        get_literal(&self.token)
    }

    fn to_string(&self) -> (r: String) {
        String::from_str("return statement")
    }
}

impl Inspect for ExpressionStatement {
    open spec fn literal(&self) -> Seq<char> {
        literal_text(self.token@)
    }

    open spec fn text(&self) -> Seq<char> {
        statement_text(self@)
    }

    fn token_literal(&self) -> (r: String) {
        get_literal(&self.token)
    }

    fn to_string(&self) -> (r: String) {
        get_literal(&self.token)
    }
}

impl Inspect for ImportStatement {
    open spec fn literal(&self) -> Seq<char> {
        literal_text(self.token@)
    }

    open spec fn text(&self) -> Seq<char> {
        statement_text(self@)
    }

    fn token_literal(&self) -> (r: String) {
        get_literal(&self.token)
    }

    fn to_string(&self) -> (r: String) {
        let mut out = String::from_str("import ");
        out.append(self.namespace.value.as_str());
        out
    }
}

impl Inspect for Statement {
    open spec fn literal(&self) -> Seq<char> {
        Seq::empty()
    }

    open spec fn text(&self) -> Seq<char> {
        statement_text(self@)
    }

    fn token_literal(&self) -> (r: String) {
        String::new()
    }

    fn to_string(&self) -> (r: String)
        decreases self,
    {
        match self {
            Statement::LetStatement(ls) => ls.to_string(),
            Statement::ReturnStatement(rs) => rs.to_string(),
            Statement::ExpressionStatement(es) => es.to_string(),
            Statement::ImportStatement(is) => is.to_string(),
        }
    }
}

impl Inspect for Program {
    open spec fn literal(&self) -> Seq<char> {
        Seq::empty()
    }

    open spec fn text(&self) -> Seq<char> {
        statements_text(self@.statements, self@.statements.len())
    }

    fn token_literal(&self) -> (r: String) {
        if self.statements.len() > 0 {
            self.statements[0].token_literal()
        } else {
            String::new()
        }
    }

    fn to_string(&self) -> (r: String) {
        let mut out = String::new();
        let mut i: usize = 0;
        while i < self.statements.len()
            invariant
                i <= self.statements@.len(),
                out@ == statements_text(statements_view(self.statements@), i as nat),
            decreases self.statements@.len() - i,
        {
            let t = self.statements[i].to_string();
            out.append(t.as_str());
            i += 1;
        }
        out
    }
}

} // verus!
