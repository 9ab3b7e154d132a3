//! The parser: reads tokens two ahead and builds the syntax tree by operator
//! precedence. Malformed input never stops it; it records a diagnostic and
//! goes on.
//!
//! What it makes of a token sequence is defined in [`crate::grammar`]; every
//! function here is proved to build exactly that tree and to record exactly
//! those diagnostics.

use crate::ast::{
    arguments_view, identifiers_view, lemma_block_view, lemma_call_view, statements_view,
    BlockStatement, BooleanLiteral, CallExpression, Expression, ExpressionStatement,
    ExpressionView, FunctionLiteral, Identifier, IfExpression, ImportStatement, InfixExpression,
    IntegerLiteral, LetStatement, PrefixExpression, Program, ReturnStatement, Statement,
    StatementView, StringLiteral,
};
use crate::grammar::{
    arguments_loop, arguments_parse, binary_parse, block_loop, block_parse,
    boolean_parse, call_parse, expression_parse, expression_statement_parse, function_parse,
    grouped_parse, identifier_here, identifier_parse, if_parse, import_parse, infix_handler,
    infix_loop, infix_parse, integer_parse, lemma_trim_concat, lemma_trim_rest,
    lemma_trim_token_at, let_parse, no_prefix_message, parameters_loop, parameters_parse,
    peek_message, prefix_handler, prefix_operator_parse, priority_of, program_loop,
    program_parse, rest, return_parse, statement_parse, string_parse, trim,
    InfixParseFn, ParseState, Parsed, PrefixParseFn, Priority,
};
use crate::lexer::{lemma_scan_advances, scan, tokens_from, Lexer};
use crate::text::parse_decimal;
use crate::token::{display, get_literal, kinds_match, same_kind, tokens_match, Token, TokenView};
use vstd::prelude::*;
use vstd::string::StringExecFns;

verus! {

/// A parser over the tokens of a [`Lexer`].
pub struct Parser<'a> {
    l: Lexer<'a>,
    pub curr_token: Token,
    pub peek_token: Token,
    pub errors: Vec<String>,
}

/// The texts of a list of strings, in order.
pub open spec fn texts(v: Seq<String>) -> Seq<Seq<char>> {
    Seq::new(v.len(), |i: int| v[i]@)
}

/// The value of an optional expression.
pub open spec fn optional_expression(e: Option<Expression>) -> Option<ExpressionView> {
    match e {
        Some(x) => Some(x@),
        None => None,
    }
}

/// The value of an optional statement.
pub open spec fn optional_statement(s: Option<Statement>) -> Option<StatementView> {
    match s {
        Some(x) => Some(x@),
        None => None,
    }
}

/// The value of an optional list of arguments.
pub open spec fn optional_arguments(a: Option<Vec<Box<Expression>>>) -> Option<
    Seq<ExpressionView>,
> {
    match a {
        Some(x) => Some(arguments_view(x@)),
        None => None,
    }
}

/// The value of an optional list of identifiers.
pub open spec fn optional_identifiers(a: Option<Vec<Identifier>>) -> Option<
    Seq<crate::ast::IdentifierView>,
> {
    match a {
        Some(x) => Some(identifiers_view(x@)),
        None => None,
    }
}

/// That a parse function read `value` and left the state `after`, as the
/// grammar says, without gaining tokens.
pub open spec fn parsed_as<V>(
    value: V,
    before: ParseState,
    after: ParseState,
    expected: Parsed<V>,
) -> bool {
    &&& value == expected.value
    &&& after == expected.state
    &&& after.tokens.len() <= before.tokens.len()
}

/// The tokens that a text holds from an offset on are the next token followed
/// by those after it, up to end-of-input tokens at the end.
pub proof fn lemma_pending_unfolds(input: Seq<u8>, pos: int)
    requires
        0 <= pos <= input.len(),
    ensures
        trim(seq![scan(input, pos).token] + tokens_from(input, scan(input, pos).next)) == trim(
            tokens_from(input, pos),
        ),
{
    lemma_scan_advances(input, pos);
    if pos < input.len() {
    } else {
        let t = scan(input, pos).token;
        assert(crate::lexer::skip_spaces(input, pos) == pos);
        assert(t is EOF);
        assert(tokens_from(input, pos) =~= Seq::<TokenView>::empty());
        assert(tokens_from(input, scan(input, pos).next) =~= Seq::<TokenView>::empty());
        assert((seq![t] + Seq::<TokenView>::empty()).drop_last() =~= Seq::<TokenView>::empty());
    }
}

fn level(p: Priority) -> (r: u8)
    ensures
        r == p.rank(),
{
    match p {
        Priority::LOWEST => 0,
        Priority::EQUALS => 1,
        Priority::LESSGREATER => 2,
        Priority::SUM => 3,
        Priority::PRODUCT => 4,
        Priority::POWER => 5,
        Priority::PREFIX => 6,
        Priority::CALL => 7,
    }
}

/// The binding power of a token.
pub fn get_priority(t: &Token) -> (r: Priority)
    ensures
        r == priority_of(t@),
{
    match t {
        Token::EQ | Token::NEQ => Priority::EQUALS,
        Token::LT | Token::GT => Priority::LESSGREATER,
        Token::PLUS | Token::MINUS => Priority::SUM,
        Token::SLASH | Token::ASTERISK => Priority::PRODUCT,
        Token::POWER => Priority::POWER,
        Token::LPAREN => Priority::CALL,
        _ => Priority::LOWEST,
    }
}

/// How a token starts an expression, if it can start one.
pub fn get_prefix_fn(token: &Token) -> (r: Option<PrefixParseFn>)
    ensures
        r == prefix_handler(token@),
{
    match token {
        Token::IDENT(_) => Some(PrefixParseFn::Identifier),
        Token::INT(_) => Some(PrefixParseFn::IntegerLiteral),
        Token::STRING(_) => Some(PrefixParseFn::StringLiteral),
        Token::BANG | Token::MINUS => Some(PrefixParseFn::PrefixExpression),
        Token::TRUE | Token::FALSE => Some(PrefixParseFn::Boolean),
        Token::LPAREN => Some(PrefixParseFn::GroupedExpression),
        Token::IF => Some(PrefixParseFn::IfStatement),
        Token::FUNCTION => Some(PrefixParseFn::FunctionLiteral),
        _ => None,
    }
}

/// How a token continues an expression, if it can continue one.
pub fn get_infix_fn(token: &Token) -> (r: Option<InfixParseFn>)
    ensures
        r == infix_handler(token@),
{
    match token {
        Token::PLUS
        | Token::MINUS
        | Token::SLASH
        | Token::ASTERISK
        | Token::EQ
        | Token::NEQ
        | Token::LT
        | Token::GT
        | Token::POWER => Some(InfixParseFn::InfixExpression),
        Token::LPAREN => Some(InfixParseFn::CallExpression),
        _ => None,
    }
}

fn expected_message(wanted: &Token, got: &Token) -> (r: String)
    ensures
        r@ == peek_message(wanted@, got@),
{
    let mut msg = String::from_str("expected next token to be ");
    let w = display(wanted);
    msg.append(w.as_str());
    msg.append(", got ");
    let g = display(got);
    msg.append(g.as_str());
    msg.append(" instead");
    msg
}


/// A name in expression position.
pub fn parse_identifier(p: &mut Parser) -> (r: Option<Expression>)
    requires
        old(p).wf(),
    ensures
        final(p).wf(),
        parsed_as(optional_expression(r), old(p)@, final(p)@, identifier_parse(old(p)@)),
{
    Some(Expression::Identifier(p.identifier()))
}

/// An integer literal; nothing where the digits denote no 32-bit integer.
pub fn parse_integer_literal(p: &mut Parser) -> (r: Option<Expression>)
    requires
        old(p).wf(),
    ensures
        final(p).wf(),
        parsed_as(optional_expression(r), old(p)@, final(p)@, integer_parse(old(p)@)),
{
    proof {
        p.lemma_view();
    }
    let text = get_literal(&p.curr_token);
    match parse_decimal(text.as_str()) {
        Some(value) => Some(
            Expression::IntegerLiteral(IntegerLiteral { token: p.curr_token.clone(), value }),
        ),
        None => None,
    }
}

/// A string literal; nothing where the current token is no string.
pub fn parse_string_literal(p: &mut Parser) -> (r: Option<Expression>)
    requires
        old(p).wf(),
    ensures
        final(p).wf(),
        parsed_as(optional_expression(r), old(p)@, final(p)@, string_parse(old(p)@)),
{
    proof {
        p.lemma_view();
    }
    match &p.curr_token {
        Token::STRING(s) => Some(
            Expression::StringLiteral(
                StringLiteral { token: p.curr_token.clone(), value: s.clone() },
            ),
        ),
        _ => None,
    }
}

/// `true` or `false`.
pub fn parse_boolean(p: &mut Parser) -> (r: Option<Expression>)
    requires
        old(p).wf(),
    ensures
        final(p).wf(),
        parsed_as(optional_expression(r), old(p)@, final(p)@, boolean_parse(old(p)@)),
{
    proof {
        p.lemma_view();
    }
    let value = match &p.curr_token {
        Token::TRUE => true,
        _ => false,
    };
    Some(Expression::Boolean(BooleanLiteral { token: p.curr_token.clone(), value }))
}

/// The parameters of a function literal, with the opening parenthesis as the
/// current token. Nothing for an empty list and after a diagnostic.
pub fn parse_function_parameters(p: &mut Parser) -> (r: Option<Vec<Identifier>>)
    requires
        old(p).wf(),
    ensures
        final(p).wf(),
        parsed_as(optional_identifiers(r), old(p)@, final(p)@, parameters_parse(old(p)@)),
{
    if p.peek_is(Token::RPAREN) {
        p.next_token();
        return None;
    }
    if !p.expect_peek(Token::IDENT(String::new())) {
        return None;
    }
    p.next_token();
    let mut idents: Vec<Identifier> = Vec::new();
    let first = p.identifier();
    let ghost start = p@;
    idents.push(first);
    assert(identifiers_view(idents@) =~= seq![identifier_here(start)]);
    while p.peek_is(Token::COMMA)
        invariant
            p.wf(),
            p@.tokens.len() <= old(p)@.tokens.len(),
            parameters_parse(old(p)@) == parameters_loop(start, seq![identifier_here(start)]),
            parameters_loop(p@, identifiers_view(idents@)) == parameters_loop(
                start,
                seq![identifier_here(start)],
            ),
        decreases p@.tokens.len(),
    {
        let ghost found = identifiers_view(idents@);
        p.next_token();
        if !p.expect_peek(Token::IDENT(String::new())) {
            return None;
        }
        p.next_token();
        let ident = p.identifier();
        idents.push(ident);
        assert(identifiers_view(idents@) =~= found.push(identifier_here(p@)));
    }
    if !p.expect_peek(Token::RPAREN) {
        return None;
    }
    p.next_token();
    Some(idents)
}

/// The arguments of a call, with the opening parenthesis as the current token.
/// Nothing for an empty list and after a diagnostic.
fn parse_call_arguments(p: &mut Parser) -> (r: Option<Vec<Box<Expression>>>)
    requires
        old(p).wf(),
        old(p)@.tokens.len() > 0,
    ensures
        final(p).wf(),
        parsed_as(optional_arguments(r), old(p)@, final(p)@, arguments_parse(old(p)@)),
    decreases old(p)@.tokens.len(), 0nat,
{
    p.next_token();
    if p.expect_curr(Token::RPAREN) {
        return None;
    }
    let first = match p.parse_expression(Priority::LOWEST) {
        Some(e) => e,
        None => {
            return None;
        },
    };
    let ghost start = p@;
    let ghost first_view = first@;
    let mut args: Vec<Box<Expression>> = Vec::new();
    args.push(Box::new(first));
    assert(arguments_view(args@) =~= seq![first_view]);
    while p.peek_is(Token::COMMA)
        invariant
            p.wf(),
            p@.tokens.len() < old(p)@.tokens.len(),
            arguments_parse(old(p)@) == arguments_loop(start, seq![first_view]),
            arguments_loop(p@, arguments_view(args@)) == arguments_loop(start, seq![first_view]),
        decreases p@.tokens.len(),
    {
        let ghost found = arguments_view(args@);
        p.next_token();
        p.next_token();
        match p.parse_expression(Priority::LOWEST) {
            Some(e) => {
                let ghost view = e@;
                args.push(Box::new(e));
                assert(arguments_view(args@) =~= found.push(view));
            },
            None => {
                return None;
            },
        }
    }
    if !p.expect_peek(Token::RPAREN) {
        p.next_token();
        return None;
    }
    p.next_token();
    Some(args)
}

/// A call of `function`, with the opening parenthesis as the current token.
fn parse_call_expression(p: &mut Parser, function: Expression) -> (r: Option<Expression>)
    requires
        old(p).wf(),
        old(p)@.tokens.len() > 0,
    ensures
        final(p).wf(),
        parsed_as(optional_expression(r), old(p)@, final(p)@, call_parse(old(p)@, function@)),
    decreases old(p)@.tokens.len(), 1nat,
{
    proof {
        p.lemma_view();
    }
    let token = p.curr_token.clone();
    let arguments = match parse_call_arguments(p) {
        Some(args) => args,
        None => Vec::new(),
    };
    let call = CallExpression { token, function: Box::new(function), arguments };
    proof {
        lemma_call_view(&call);
        assert(arguments_view(Seq::<Box<Expression>>::empty()) =~= Seq::<ExpressionView>::empty());
    }
    Some(Expression::CallExpression(call))
}

/// A block, with the opening brace as the current token.
fn parse_block_statement(p: &mut Parser) -> (r: Option<BlockStatement>)
    requires
        old(p).wf(),
        old(p)@.tokens.len() > 0,
    ensures
        final(p).wf(),
        r is Some,
        parsed_as(r->0@, old(p)@, final(p)@, block_parse(old(p)@)),
    decreases old(p)@.tokens.len(), 7nat,
{
    proof {
        p.lemma_view();
    }
    let token = p.curr_token.clone();
    p.next_token();
    let ghost start = p@;
    let mut statements: Vec<Statement> = Vec::new();
    assert(statements_view(statements@) =~= Seq::<StatementView>::empty());
    while !p.expect_curr(Token::RSQUIRLY) && !p.expect_curr(Token::EOF)
        invariant
            p.wf(),
            p@.tokens.len() < old(p)@.tokens.len(),
            block_loop(p@, statements_view(statements@)) == block_loop(start, Seq::empty()),
        decreases p@.tokens.len(),
    {
        let ghost found = statements_view(statements@);
        match p.parse_statement() {
            Some(stmt) => {
                let ghost view = stmt@;
                statements.push(stmt);
                assert(statements_view(statements@) =~= found.push(view));
            },
            None => {},
        }
        p.next_token();
    }
    if p.expect_curr(Token::EOF) {
        let msg = expected_message(&Token::RSQUIRLY, &Token::EOF);
        p.note(msg);
    }
    let block = BlockStatement { token, statements };
    proof {
        lemma_block_view(&block);
    }
    Some(block)
}

/// A function literal, with `fn` as the current token.
pub fn parse_function_literal(p: &mut Parser) -> (r: Option<Expression>)
    requires
        old(p).wf(),
    ensures
        final(p).wf(),
        parsed_as(optional_expression(r), old(p)@, final(p)@, function_parse(old(p)@)),
    decreases old(p)@.tokens.len(), 1nat,
{
    proof {
        p.lemma_view();
    }
    let token = p.curr_token.clone();
    if !p.expect_peek(Token::LPAREN) {
        return None;
    }
    p.next_token();
    let parameters = match parse_function_parameters(p) {
        Some(params) => params,
        None => Vec::new(),
    };
    assert(identifiers_view(Seq::<Identifier>::empty()) =~= Seq::<
        crate::ast::IdentifierView,
    >::empty());
    if !p.expect_peek(Token::LSQUIRLY) {
        return None;
    }
    p.next_token();
    match parse_block_statement(p) {
        Some(body) => Some(Expression::FunctionLiteral(FunctionLiteral { token, parameters, body })),
        None => None,
    }
}

/// A conditional, with `if` as the current token.
pub fn parse_if_statement(p: &mut Parser) -> (r: Option<Expression>)
    requires
        old(p).wf(),
    ensures
        final(p).wf(),
        parsed_as(optional_expression(r), old(p)@, final(p)@, if_parse(old(p)@)),
    decreases old(p)@.tokens.len(), 1nat,
{
    proof {
        p.lemma_view();
    }
    let token = p.curr_token.clone();
    if !p.expect_peek(Token::LPAREN) {
        return None;
    }
    p.next_token();
    p.next_token();
    let condition = match p.parse_expression(Priority::LOWEST) {
        Some(c) => c,
        None => {
            return None;
        },
    };
    if !p.expect_peek(Token::RPAREN) {
        return None;
    }
    p.next_token();
    if !p.expect_peek(Token::LSQUIRLY) {
        return None;
    }
    p.next_token();
    let consequence = match parse_block_statement(p) {
        Some(bs) => bs,
        None => {
            return None;
        },
    };
    let mut alternative: Option<BlockStatement> = None;
    if p.peek_is(Token::ELSE) {
        p.next_token();
        if !p.expect_peek(Token::LSQUIRLY) {
            return None;
        }
        p.next_token();
        alternative = parse_block_statement(p);
    }
    Some(
        Expression::IfExpression(
            IfExpression { token, condition: Box::new(condition), consequence, alternative },
        ),
    )
}

/// An expression in parentheses.
fn parse_grouped_expression(p: &mut Parser) -> (r: Option<Expression>)
    requires
        old(p).wf(),
        old(p)@.tokens.len() > 0,
    ensures
        final(p).wf(),
        parsed_as(optional_expression(r), old(p)@, final(p)@, grouped_parse(old(p)@)),
    decreases old(p)@.tokens.len(), 1nat,
{
    p.next_token();
    let exp = p.parse_expression(Priority::LOWEST);
    if !p.expect_peek(Token::RPAREN) {
        return None;
    }
    p.next_token();
    exp
}

/// A unary operator and its operand, with the operator as the current token.
fn parse_prefix_expression(p: &mut Parser) -> (r: Option<Expression>)
    requires
        old(p).wf(),
        old(p)@.tokens.len() > 0,
    ensures
        final(p).wf(),
        parsed_as(optional_expression(r), old(p)@, final(p)@, prefix_operator_parse(old(p)@)),
    decreases old(p)@.tokens.len(), 1nat,
{
    proof {
        p.lemma_view();
    }
    let token = p.curr_token.clone();
    p.next_token();
    match p.parse_expression(Priority::PREFIX) {
        Some(right) => {
            let operator = get_literal(&token);
            Some(
                Expression::PrefixExpression(
                    PrefixExpression { token, operator, right: Box::new(right) },
                ),
            )
        },
        None => None,
    }
}

/// A binary operator and its right operand, with the operator as the current
/// token and `exp` as the left operand.
fn parse_infix_expression(p: &mut Parser, exp: Expression) -> (r: Option<Expression>)
    requires
        old(p).wf(),
        old(p)@.tokens.len() > 0,
    ensures
        final(p).wf(),
        parsed_as(optional_expression(r), old(p)@, final(p)@, binary_parse(old(p)@, exp@)),
    decreases old(p)@.tokens.len(), 1nat,
{
    proof {
        p.lemma_view();
    }
    let token = p.curr_token.clone();
    let operator = get_literal(&p.curr_token);
    let priority = p.curr_priority();
    p.next_token();
    match p.parse_expression(priority) {
        Some(right) => Some(
            Expression::InfixExpression(
                InfixExpression { token, left: Box::new(exp), right: Box::new(right), operator },
            ),
        ),
        None => None,
    }
}

impl<'a> View for Parser<'a> {
    type V = ParseState;

    closed spec fn view(&self) -> ParseState {
        ParseState {
            tokens: trim(seq![self.curr_token@, self.peek_token@] + self.l.pending()),
            errors: texts(self.errors@),
        }
    }
}

impl<'a> Parser<'a> {
    /// Well-formedness: the tokenizer is well-formed.
    pub closed spec fn wf(&self) -> bool {
        self.l.wf()
    }

    /// The two tokens that the parser holds are the first two of its state,
    /// and its diagnostics are those of its state.
    proof fn lemma_view(&self)
        ensures
            self@.cur() == self.curr_token@,
            self@.peek() == self.peek_token@,
            self@.errors == texts(self.errors@),
    {
        let raw = seq![self.curr_token@, self.peek_token@] + self.l.pending();
        lemma_trim_token_at(raw, 0);
        lemma_trim_token_at(raw, 1);
    }

    /// The diagnostics recorded so far: the field `errors`.
    pub fn diagnostics(&self) -> (r: &Vec<String>)
        ensures
            texts(r@) == self@.errors,
    {
        proof {
            self.lemma_view();
        }
        &self.errors
    }

    /// The current token: the field `curr_token`.
    pub fn current(&self) -> (r: &Token)
        ensures
            r@ == self@.cur(),
    {
        proof {
            self.lemma_view();
        }
        &self.curr_token
    }

    /// The token after the current one: the field `peek_token`.
    pub fn upcoming(&self) -> (r: &Token)
        ensures
            r@ == self@.peek(),
    {
        proof {
            self.lemma_view();
        }
        &self.peek_token
    }

    /// A parser at the start of the tokens of `l`.
    pub fn new(l: Lexer<'a>) -> (r: Self)
        requires
            l.wf(),
        ensures
            r.wf(),
            r@.tokens == trim(l.pending()),
            r@.errors == Seq::<Seq<char>>::empty(),
    {
        let mut lexer = l;
        proof {
            l.lemma_wf();
        }
        let first = lexer.next_token();
        proof {
            lexer.lemma_wf();
        }
        let ghost mid = lexer;
        let second = lexer.next_token();
        let p = Parser { l: lexer, curr_token: first, peek_token: second, errors: Vec::new() };
        proof {
            let src = l.source();
            let p0 = tokens_from(src, l.offset());
            let p1 = tokens_from(src, mid.offset());
            let p2 = tokens_from(src, lexer.offset());
            lemma_pending_unfolds(src, l.offset());
            lemma_pending_unfolds(src, mid.offset());
            // trim([first] + p1) == trim(p0), trim([second] + p2) == trim(p1)
            lemma_trim_concat(seq![first@], seq![second@] + p2);
            lemma_trim_concat(seq![first@], p1);
            assert(seq![first@] + (seq![second@] + p2) =~= seq![first@, second@] + p2);
            assert(texts(p.errors@) =~= Seq::<Seq<char>>::empty());
        }
        p
    }

    /// Moves to the next token.
    pub fn next_token(&mut self)
        requires
            old(self).wf(),
        ensures
            final(self).wf(),
            final(self)@ == old(self)@.next(),
            final(self)@.tokens.len() <= old(self)@.tokens.len(),
            old(self)@.tokens.len() > 0 ==> final(self)@.tokens.len() < old(self)@.tokens.len(),
    {
        proof {
            self.l.lemma_wf();
        }
        let ghost before = *self;
        let next = self.l.next_token();
        self.curr_token = self.peek_token.clone();
        self.peek_token = next;
        proof {
            let src = before.l.source();
            let p0 = tokens_from(src, before.l.offset());
            let p1 = tokens_from(src, self.l.offset());
            let c = before.curr_token@;
            let k = before.peek_token@;
            let n = self.peek_token@;
            lemma_pending_unfolds(src, before.l.offset());
            lemma_trim_concat(seq![k], seq![n] + p1);
            lemma_trim_concat(seq![k], p0);
            assert(seq![k] + (seq![n] + p1) =~= seq![k, n] + p1);
            let raw = seq![c, k] + p0;
            assert(rest(raw) =~= seq![k] + p0);
            lemma_trim_rest(raw);
            lemma_trim_token_at(raw, 0);
        }
    }

    /// Whether the next token is of the kind of `t`; records a diagnostic if
    /// it is not.
    pub fn expect_peek(&mut self, t: Token) -> (r: bool)
        requires
            old(self).wf(),
        ensures
            final(self).wf(),
            r == same_kind(old(self)@.peek(), t@),
            final(self)@ == old(self)@.expect(t@),
    {
        proof {
            self.lemma_view();
        }
        if kinds_match(&self.peek_token, &t) {
            true
        } else {
            self.peek_error(t);
            false
        }
    }

    /// Whether the current token equals `t`.
    pub fn expect_curr(&self, t: Token) -> (r: bool)
        requires
            self.wf(),
        ensures
            r == (self@.cur() == t@),
    {
        proof {
            self.lemma_view();
        }
        tokens_match(&self.curr_token, &t)
    }

    fn peek_is(&self, t: Token) -> (r: bool)
        requires
            self.wf(),
        ensures
            r == (self@.peek() == t@),
    {
        proof {
            self.lemma_view();
        }
        tokens_match(&self.peek_token, &t)
    }

    fn identifier(&self) -> (r: Identifier)
        requires
            self.wf(),
        ensures
            r@ == identifier_here(self@),
    {
        proof {
            self.lemma_view();
        }
        Identifier { token: self.curr_token.clone(), value: get_literal(&self.curr_token) }
    }

    fn skip_semicolon(&mut self)
        requires
            old(self).wf(),
        ensures
            final(self).wf(),
            final(self)@ == crate::grammar::after_semicolon(old(self)@),
            final(self)@.tokens.len() <= old(self)@.tokens.len(),
    {
        if self.peek_is(Token::SEMICOLON) {
            self.next_token();
        }
    }

    fn note(&mut self, msg: String)
        requires
            old(self).wf(),
        ensures
            final(self).wf(),
            final(self)@ == old(self)@.with_error(msg@),
    {
        self.errors.push(msg);
        proof {
            assert(texts(self.errors@) =~= texts(old(self).errors@).push(msg@));
        }
    }

    /// Records that the next token is not of the kind of `t`.
    pub fn peek_error(&mut self, t: Token)
        requires
            old(self).wf(),
        ensures
            final(self).wf(),
            final(self)@ == old(self)@.with_error(peek_message(t@, old(self)@.peek())),
    {
        proof {
            self.lemma_view();
        }
        let msg = expected_message(&t, &self.peek_token);
        self.note(msg);
    }

    /// The binding power of the next token.
    pub fn peek_priority(&self) -> (r: Priority)
        requires
            self.wf(),
        ensures
            r == priority_of(self@.peek()),
    {
        proof {
            self.lemma_view();
        }
        get_priority(&self.peek_token)
    }

    /// The binding power of the current token.
    pub fn curr_priority(&self) -> (r: Priority)
        requires
            self.wf(),
        ensures
            r == priority_of(self@.cur()),
    {
        proof {
            self.lemma_view();
        }
        get_priority(&self.curr_token)
    }

    /// Records that `t` cannot start an expression.
    pub fn no_prefix_parse_fn_error(&mut self, t: Token)
        requires
            old(self).wf(),
        ensures
            final(self).wf(),
            final(self)@ == old(self)@.with_error(no_prefix_message(t@)),
    {
        let mut msg = String::from_str("no prefix parse function for ");
        let lit = get_literal(&t);
        msg.append(lit.as_str());
        msg.append(" found");
        self.note(msg);
    }
    /// `import "namespace";` with `import` as the current token.
    pub fn parse_import_statement(&mut self) -> (r: Option<Statement>)
        requires
            old(self).wf(),
        ensures
            final(self).wf(),
            parsed_as(optional_statement(r), old(self)@, final(self)@, import_parse(old(self)@)),
    {
        if !self.expect_peek(Token::STRING(String::new())) {
            return None;
        }
        self.next_token();
        proof {
            self.lemma_view();
        }
        let namespace = match &self.curr_token {
            Token::STRING(s) => StringLiteral { token: self.curr_token.clone(), value: s.clone() },
            _ => {
                return None;
            },
        };
        if !self.expect_peek(Token::SEMICOLON) {
            return None;
        }
        self.next_token();
        Some(Statement::ImportStatement(ImportStatement { token: Token::IMPORT, namespace }))
    }
    /// `let name = value;` with `let` as the current token.
    pub fn parse_let_statement(&mut self) -> (r: Option<Statement>)
        requires
            old(self).wf(),
        ensures
            final(self).wf(),
            parsed_as(optional_statement(r), old(self)@, final(self)@, let_parse(old(self)@)),
        decreases old(self)@.tokens.len(), 4nat,
    {
        proof {
            self.lemma_view();
        }
        let token = self.curr_token.clone();
        if !self.expect_peek(Token::IDENT(String::new())) {
            return None;
        }
        self.next_token();
        let name = self.identifier();
        if !self.expect_peek(Token::ASSIGN) {
            return None;
        }
        self.next_token();
        self.next_token();
        let value = self.parse_expression(Priority::LOWEST);
        self.skip_semicolon();
        Some(Statement::LetStatement(LetStatement { token, name, value }))
    }

    /// `return value;` with `return` as the current token.
    fn parse_return_statement(&mut self) -> (r: Option<Statement>)
        requires
            old(self).wf(),
            old(self)@.tokens.len() > 0,
        ensures
            final(self).wf(),
            parsed_as(optional_statement(r), old(self)@, final(self)@, return_parse(old(self)@)),
        decreases old(self)@.tokens.len(), 4nat,
    {
        proof {
            self.lemma_view();
        }
        let token = self.curr_token.clone();
        self.next_token();
        let return_val = match self.parse_expression(Priority::LOWEST) {
            Some(exp) => exp,
            None => Expression::Empty,
        };
        self.skip_semicolon();
        Some(Statement::ReturnStatement(ReturnStatement { token, return_val }))
    }

    /// An expression whose operators bind more tightly than `p`.
    pub fn parse_expression(&mut self, p: Priority) -> (r: Option<Expression>)
        requires
            old(self).wf(),
        ensures
            final(self).wf(),
            parsed_as(
                optional_expression(r),
                old(self)@,
                final(self)@,
                expression_parse(old(self)@, p),
            ),
        decreases old(self)@.tokens.len(), 3nat,
    {
        proof {
            self.lemma_view();
        }
        let prefix = match get_prefix_fn(&self.curr_token) {
            Some(prefix) => prefix,
            None => {
                let t = self.curr_token.clone();
                self.no_prefix_parse_fn_error(t);
                return None;
            },
        };
        let first = match prefix {
            PrefixParseFn::Identifier => parse_identifier(self),
            PrefixParseFn::IntegerLiteral => parse_integer_literal(self),
            PrefixParseFn::StringLiteral => parse_string_literal(self),
            PrefixParseFn::PrefixExpression => parse_prefix_expression(self),
            PrefixParseFn::Boolean => parse_boolean(self),
            PrefixParseFn::GroupedExpression => parse_grouped_expression(self),
            PrefixParseFn::IfStatement => parse_if_statement(self),
            PrefixParseFn::FunctionLiteral => parse_function_literal(self),
        };
        let mut left = match first {
            Some(e) => e,
            None => {
                return None;
            },
        };
        let ghost start = self@;
        let ghost first_view = left@;
        while !self.peek_is(Token::SEMICOLON) && level(p) < level(self.peek_priority())
            invariant
                self.wf(),
                self@.tokens.len() <= old(self)@.tokens.len(),
                expression_parse(old(self)@, p) == infix_loop(start, p, first_view),
                infix_loop(self@, p, left@) == infix_loop(start, p, first_view),
            decreases self@.tokens.len(),
        {
            proof {
                self.lemma_view();
            }
            let ghost before = self@;
            let ghost operand = left@;
            match get_infix_fn(&self.peek_token) {
                Some(infix) => {
                    self.next_token();
                    let ghost s1 = self@;
                    let folded = match infix {
                        InfixParseFn::InfixExpression => parse_infix_expression(self, left),
                        InfixParseFn::CallExpression => parse_call_expression(self, left),
                    };
                    proof {
                        let r = infix_parse(s1, infix, operand);
                        assert(r.within(s1) == r);
                        assert(infix_loop(before, p, operand) == (match r.value {
                            None => r,
                            Some(e) => infix_loop(r.state, p, e),
                        }));
                    }
                    match folded {
                        Some(e) => {
                            left = e;
                        },
                        None => {
                            return None;
                        },
                    }
                },
                None => {
                    return Some(left);
                },
            }
        }
        Some(left)
    }

    /// An expression as a statement, with an optional semicolon.
    pub fn parse_expression_statement(&mut self) -> (r: Option<Statement>)
        requires
            old(self).wf(),
        ensures
            final(self).wf(),
            parsed_as(
                optional_statement(r),
                old(self)@,
                final(self)@,
                expression_statement_parse(old(self)@),
            ),
        decreases old(self)@.tokens.len(), 4nat,
    {
        proof {
            self.lemma_view();
        }
        let token = self.curr_token.clone();
        let expression = match self.parse_expression(Priority::LOWEST) {
            Some(exp) => exp,
            None => Expression::Empty,
        };
        self.skip_semicolon();
        Some(Statement::ExpressionStatement(ExpressionStatement { token, expression }))
    }

    /// A statement, chosen by the current token.
    pub fn parse_statement(&mut self) -> (r: Option<Statement>)
        requires
            old(self).wf(),
        ensures
            final(self).wf(),
            parsed_as(optional_statement(r), old(self)@, final(self)@, statement_parse(old(self)@)),
        decreases old(self)@.tokens.len(), 5nat,
    {
        proof {
            self.lemma_view();
        }
        match &self.curr_token {
            Token::LET => self.parse_let_statement(),
            Token::RETURN => self.parse_return_statement(),
            Token::IMPORT => self.parse_import_statement(),
            _ => self.parse_expression_statement(),
        }
    }

    /// Parses a whole program: every statement up to the end of input. The
    /// diagnostics are added to `errors`; the result is always a program.
    pub fn parse_program(&mut self) -> (r: Option<Program>)
        requires
            old(self).wf(),
        ensures
            final(self).wf(),
            r is Some,
            parsed_as(r->0@, old(self)@, final(self)@, program_parse(old(self)@)),
    {
        let mut statements: Vec<Statement> = Vec::new();
        let ghost start = self@;
        assert(statements_view(statements@) =~= Seq::<StatementView>::empty());
        while !self.expect_curr(Token::EOF)
            invariant
                self.wf(),
                self@.tokens.len() <= old(self)@.tokens.len(),
                program_loop(self@, statements_view(statements@)) == program_loop(
                    start,
                    Seq::empty(),
                ),
            decreases self@.tokens.len(),
        {
            let ghost found = statements_view(statements@);
            match self.parse_statement() {
                Some(statement) => {
                    let ghost view = statement@;
                    statements.push(statement);
                    assert(statements_view(statements@) =~= found.push(view));
                },
                None => {},
            }
            self.next_token();
        }
        Some(Program { statements })
    }
}

} // verus!
