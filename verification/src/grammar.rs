//! What the parser makes of a sequence of tokens, as functions on mathematical
//! values.
//!
//! A [`ParseState`] holds the tokens that are still to be read, the current
//! one first, and the diagnostics recorded so far. Past its last token the
//! sequence goes on with end-of-input tokens for ever, so the state of a
//! parser is kept without such tokens at its end ([`trim`]). Every function
//! takes a state and yields a [`Parsed`]: what was read, and the state
//! afterwards.

use crate::ast::{
    BlockView, ExpressionView, IdentifierView, ProgramView, StatementView, StringLiteralView,
};
use crate::text::integer_of;
use crate::token::{display_text, literal_text, same_kind, TokenView};
use vstd::prelude::*;

verus! {

/// Binding power of operators, lowest first.
#[allow(non_camel_case_types)]
#[derive(Debug, Clone, Copy, PartialEq, Eq, Structural)]
pub enum Priority {
    LOWEST,
    EQUALS,
    LESSGREATER,
    SUM,
    PRODUCT,
    POWER,
    PREFIX,
    CALL,
}

impl Priority {
    /// The place of a binding power in their order.
    pub open spec fn rank(self) -> nat {
        match self {
            Priority::LOWEST => 0,
            Priority::EQUALS => 1,
            Priority::LESSGREATER => 2,
            Priority::SUM => 3,
            Priority::PRODUCT => 4,
            Priority::POWER => 5,
            Priority::PREFIX => 6,
            Priority::CALL => 7,
        }
    }
}

/// The binding power of a token that continues an expression; the lowest for
/// every other token.
pub open spec fn priority_of(t: TokenView) -> Priority {
    match t {
        TokenView::EQ | TokenView::NEQ => Priority::EQUALS,
        TokenView::LT | TokenView::GT => Priority::LESSGREATER,
        TokenView::PLUS | TokenView::MINUS => Priority::SUM,
        TokenView::SLASH | TokenView::ASTERISK => Priority::PRODUCT,
        TokenView::POWER => Priority::POWER,
        TokenView::LPAREN => Priority::CALL,
        _ => Priority::LOWEST,
    }
}

/// The sequence without the end-of-input tokens at its end.
pub open spec fn trim(tokens: Seq<TokenView>) -> Seq<TokenView>
    decreases tokens.len(),
{
    if tokens.len() > 0 && tokens.last() is EOF {
        trim(tokens.drop_last())
    } else {
        tokens
    }
}

/// The token at position `i`, which is the end of input past the last token.
pub open spec fn token_at(tokens: Seq<TokenView>, i: int) -> TokenView {
    if 0 <= i < tokens.len() {
        tokens[i]
    } else {
        TokenView::EOF
    }
}

/// The sequence after its first token; the empty sequence stays empty.
pub open spec fn rest(tokens: Seq<TokenView>) -> Seq<TokenView> {
    if tokens.len() > 0 {
        tokens.skip(1)
    } else {
        tokens
    }
}

/// The state of a parse: the tokens still to be read and the diagnostics.
pub struct ParseState {
    pub tokens: Seq<TokenView>,
    pub errors: Seq<Seq<char>>,
}

/// What a parse function read, and the state afterwards.
pub struct Parsed<T> {
    pub value: T,
    pub state: ParseState,
}

impl ParseState {
    /// The current token.
    pub open spec fn cur(self) -> TokenView {
        token_at(self.tokens, 0)
    }

    /// The token after the current one.
    pub open spec fn peek(self) -> TokenView {
        token_at(self.tokens, 1)
    }

    /// The state after moving to the next token.
    pub open spec fn next(self) -> ParseState {
        ParseState { tokens: rest(self.tokens), errors: self.errors }
    }

    /// The state with one more diagnostic.
    pub open spec fn with_error(self, message: Seq<char>) -> ParseState {
        ParseState { tokens: self.tokens, errors: self.errors.push(message) }
    }

    /// The state after demanding that the next token be of the kind of
    /// `wanted`: unchanged if it is, with a diagnostic if it is not.
    pub open spec fn expect(self, wanted: TokenView) -> ParseState {
        if same_kind(self.peek(), wanted) {
            self
        } else {
            self.with_error(peek_message(wanted, self.peek()))
        }
    }
}

impl<T> Parsed<T> {
    /// The same result, with a state that holds no more tokens than `s`. Every
    /// parse function leaves at most the tokens it was given, so this changes
    /// nothing; it is what shows that the definitions below end.
    pub open spec fn within(self, s: ParseState) -> Parsed<T> {
        if self.state.tokens.len() <= s.tokens.len() {
            self
        } else {
            Parsed {
                value: self.value,
                state: ParseState { tokens: s.tokens, errors: self.state.errors },
            }
        }
    }
}

/// The diagnostic for a token of another kind than the one wanted.
pub open spec fn peek_message(wanted: TokenView, got: TokenView) -> Seq<char> {
    "expected next token to be "@ + display_text(wanted) + ", got "@ + display_text(got)
        + " instead"@
}

/// The diagnostic for a token that cannot start an expression.
pub open spec fn no_prefix_message(t: TokenView) -> Seq<char> {
    "no prefix parse function for "@ + literal_text(t) + " found"@
}

/// A name token without text, as a pattern for [`ParseState::expect`].
pub open spec fn any_ident() -> TokenView {
    TokenView::IDENT(Seq::empty())
}

/// A string token without text, as a pattern for [`ParseState::expect`].
pub open spec fn any_string() -> TokenView {
    TokenView::STRING(Seq::empty())
}

/// A result that holds nothing, with the state `s`.
pub open spec fn absent<T>(s: ParseState) -> Parsed<Option<T>> {
    Parsed { value: None, state: s }
}

/// The name that the current token of `s` stands for: the token itself and its
/// source text.
pub open spec fn identifier_here(s: ParseState) -> IdentifierView {
    IdentifierView { token: s.cur(), value: literal_text(s.cur()) }
}

/// The ways in which a token can start an expression.
#[derive(Debug, Clone, Copy, PartialEq, Eq, Structural)]
pub enum PrefixParseFn {
    Identifier,
    IntegerLiteral,
    StringLiteral,
    PrefixExpression,
    Boolean,
    GroupedExpression,
    IfStatement,
    FunctionLiteral,
}

/// The ways in which a token can continue an expression.
#[derive(Debug, Clone, Copy, PartialEq, Eq, Structural)]
pub enum InfixParseFn {
    InfixExpression,
    CallExpression,
}

/// How a token starts an expression, if it can start one.
pub open spec fn prefix_handler(t: TokenView) -> Option<PrefixParseFn> {
    match t {
        TokenView::IDENT(_) => Some(PrefixParseFn::Identifier),
        TokenView::INT(_) => Some(PrefixParseFn::IntegerLiteral),
        TokenView::STRING(_) => Some(PrefixParseFn::StringLiteral),
        TokenView::BANG | TokenView::MINUS => Some(PrefixParseFn::PrefixExpression),
        TokenView::TRUE | TokenView::FALSE => Some(PrefixParseFn::Boolean),
        TokenView::LPAREN => Some(PrefixParseFn::GroupedExpression),
        TokenView::IF => Some(PrefixParseFn::IfStatement),
        TokenView::FUNCTION => Some(PrefixParseFn::FunctionLiteral),
        _ => None,
    }
}

/// How a token continues an expression, if it can continue one: as a binary
/// operator or as the parenthesis of a call.
pub open spec fn infix_handler(t: TokenView) -> Option<InfixParseFn> {
    match t {
        TokenView::PLUS
        | TokenView::MINUS
        | TokenView::SLASH
        | TokenView::ASTERISK
        | TokenView::EQ
        | TokenView::NEQ
        | TokenView::LT
        | TokenView::GT
        | TokenView::POWER => Some(InfixParseFn::InfixExpression),
        TokenView::LPAREN => Some(InfixParseFn::CallExpression),
        _ => None,
    }
}

/// The state after an optional semicolon.
pub open spec fn after_semicolon(s: ParseState) -> ParseState {
    if s.peek() is SEMICOLON {
        s.next()
    } else {
        s
    }
}

/// An expression, or the empty expression where none was read.
pub open spec fn or_empty(e: Option<ExpressionView>) -> ExpressionView {
    match e {
        Some(x) => x,
        None => ExpressionView::Empty,
    }
}

/// A name in expression position.
pub open spec fn identifier_parse(s: ParseState) -> Parsed<Option<ExpressionView>> {
    Parsed { value: Some(ExpressionView::Identifier(identifier_here(s))), state: s }
}

/// An integer literal: absent where the digits denote no 32-bit integer.
pub open spec fn integer_parse(s: ParseState) -> Parsed<Option<ExpressionView>> {
    Parsed {
        value: match integer_of(literal_text(s.cur())) {
            Some(v) => Some(ExpressionView::IntegerLiteral { token: s.cur(), value: v as i32 }),
            None => None,
        },
        state: s,
    }
}

/// A string literal: absent where the current token is no string.
pub open spec fn string_parse(s: ParseState) -> Parsed<Option<ExpressionView>> {
    Parsed {
        value: match s.cur() {
            TokenView::STRING(text) => Some(
                ExpressionView::StringLiteral(StringLiteralView { token: s.cur(), value: text }),
            ),
            _ => None,
        },
        state: s,
    }
}

/// `true` or `false`.
pub open spec fn boolean_parse(s: ParseState) -> Parsed<Option<ExpressionView>> {
    Parsed {
        value: Some(ExpressionView::Boolean { token: s.cur(), value: s.cur() is TRUE }),
        state: s,
    }
}

/// The parameters of a function literal from the second on: after each comma
/// a name is demanded; then a closing parenthesis is demanded.
pub open spec fn parameters_loop(s: ParseState, found: Seq<IdentifierView>) -> Parsed<
    Option<Seq<IdentifierView>>,
>
    decreases s.tokens.len(),
{
    if s.peek() is COMMA {
        let s1 = s.next();
        if !same_kind(s1.peek(), any_ident()) {
            absent(s1.expect(any_ident()))
        } else {
            let s2 = s1.next();
            parameters_loop(s2, found.push(identifier_here(s2)))
        }
    } else if same_kind(s.peek(), TokenView::RPAREN) {
        Parsed { value: Some(found), state: s.next() }
    } else {
        absent(s.expect(TokenView::RPAREN))
    }
}

/// The parameters of a function literal, with the opening parenthesis as the
/// current token: names separated by commas, up to the closing parenthesis,
/// which is then the current token. Absent for an empty list and after a
/// diagnostic.
pub open spec fn parameters_parse(s: ParseState) -> Parsed<Option<Seq<IdentifierView>>> {
    if s.peek() is RPAREN {
        absent(s.next())
    } else if !same_kind(s.peek(), any_ident()) {
        absent(s.expect(any_ident()))
    } else {
        let s1 = s.next();
        parameters_loop(s1, seq![identifier_here(s1)])
    }
}

/// `import "namespace";` with `import` as the current token.
pub open spec fn import_parse(s: ParseState) -> Parsed<Option<StatementView>> {
    if !same_kind(s.peek(), any_string()) {
        absent(s.expect(any_string()))
    } else {
        let s1 = s.next();
        match s1.cur() {
            TokenView::STRING(text) => {
                if !same_kind(s1.peek(), TokenView::SEMICOLON) {
                    absent(s1.expect(TokenView::SEMICOLON))
                } else {
                    Parsed {
                        value: Some(
                            StatementView::Import {
                                token: TokenView::IMPORT,
                                namespace: StringLiteralView { token: s1.cur(), value: text },
                            },
                        ),
                        state: s1.next(),
                    }
                }
            },
            _ => absent(s1),
        }
    }
}

/// An expression whose operators bind more tightly than `p`: what the current
/// token starts, then every operator of higher binding power with its right
/// operand, folded in from the left. A token that starts no expression is a
/// diagnostic.
pub open spec fn expression_parse(s: ParseState, p: Priority) -> Parsed<Option<ExpressionView>>
    decreases s.tokens.len(), 3nat,
{
    match prefix_handler(s.cur()) {
        None => absent(s.with_error(no_prefix_message(s.cur()))),
        Some(handler) => {
            let left = prefix_parse(s, handler).within(s);
            match left.value {
                None => left,
                Some(e) => infix_loop(left.state, p, e),
            }
        },
    }
}

/// What the current token starts, read in the given way.
pub open spec fn prefix_parse(s: ParseState, handler: PrefixParseFn) -> Parsed<
    Option<ExpressionView>,
>
    decreases s.tokens.len(), 2nat,
{
    match handler {
        PrefixParseFn::Identifier => identifier_parse(s),
        PrefixParseFn::IntegerLiteral => integer_parse(s),
        PrefixParseFn::StringLiteral => string_parse(s),
        PrefixParseFn::PrefixExpression => prefix_operator_parse(s),
        PrefixParseFn::Boolean => boolean_parse(s),
        PrefixParseFn::GroupedExpression => grouped_parse(s),
        PrefixParseFn::IfStatement => if_parse(s),
        PrefixParseFn::FunctionLiteral => function_parse(s),
    }
}

/// The operators that follow `left` and bind more tightly than `p`, each with
/// its right operand.
pub open spec fn infix_loop(s: ParseState, p: Priority, left: ExpressionView) -> Parsed<
    Option<ExpressionView>,
>
    decreases s.tokens.len(), 1nat,
{
    if !(s.peek() is SEMICOLON) && p.rank() < priority_of(s.peek()).rank() {
        match infix_handler(s.peek()) {
            Some(handler) => {
                let s1 = s.next();
                let r = infix_parse(s1, handler, left).within(s1);
                match r.value {
                    None => r,
                    Some(e) => infix_loop(r.state, p, e),
                }
            },
            None => Parsed { value: Some(left), state: s },
        }
    } else {
        Parsed { value: Some(left), state: s }
    }
}

/// What the operator at the current token makes of `left`, read in the given
/// way: a binary expression or a call.
pub open spec fn infix_parse(s: ParseState, handler: InfixParseFn, left: ExpressionView) -> Parsed<
    Option<ExpressionView>,
>
    decreases s.tokens.len(), 2nat,
{
    match handler {
        InfixParseFn::InfixExpression => binary_parse(s, left),
        InfixParseFn::CallExpression => call_parse(s, left),
    }
}

/// A unary operator and its operand.
pub open spec fn prefix_operator_parse(s: ParseState) -> Parsed<Option<ExpressionView>>
    decreases s.tokens.len(), 1nat,
    when s.tokens.len() > 0
{
    let r = expression_parse(s.next(), Priority::PREFIX);
    Parsed {
        value: match r.value {
            Some(right) => Some(
                ExpressionView::Prefix {
                    token: s.cur(),
                    operator: literal_text(s.cur()),
                    right: Box::new(right),
                },
            ),
            None => None,
        },
        state: r.state,
    }
}

/// A binary operator at the current token, with `left` before it: its right
/// operand is an expression that binds more tightly than the operator.
pub open spec fn binary_parse(s: ParseState, left: ExpressionView) -> Parsed<
    Option<ExpressionView>,
>
    decreases s.tokens.len(), 1nat,
    when s.tokens.len() > 0
{
    let r = expression_parse(s.next(), priority_of(s.cur()));
    Parsed {
        value: match r.value {
            Some(right) => Some(
                ExpressionView::Infix {
                    token: s.cur(),
                    left: Box::new(left),
                    operator: literal_text(s.cur()),
                    right: Box::new(right),
                },
            ),
            None => None,
        },
        state: r.state,
    }
}

/// An expression in parentheses.
pub open spec fn grouped_parse(s: ParseState) -> Parsed<Option<ExpressionView>>
    decreases s.tokens.len(), 1nat,
    when s.tokens.len() > 0
{
    let r = expression_parse(s.next(), Priority::LOWEST);
    if same_kind(r.state.peek(), TokenView::RPAREN) {
        Parsed { value: r.value, state: r.state.next() }
    } else {
        absent(r.state.expect(TokenView::RPAREN))
    }
}

/// A call of `function`, with the opening parenthesis as the current token.
/// Where the arguments cannot be read the call has none.
pub open spec fn call_parse(s: ParseState, function: ExpressionView) -> Parsed<
    Option<ExpressionView>,
>
    decreases s.tokens.len(), 1nat,
    when s.tokens.len() > 0
{
    let a = arguments_parse(s);
    Parsed {
        value: Some(
            ExpressionView::Call {
                token: s.cur(),
                function: Box::new(function),
                arguments: match a.value {
                    Some(args) => args,
                    None => Seq::empty(),
                },
            },
        ),
        state: a.state,
    }
}

/// The arguments of a call, with the opening parenthesis as the current token.
/// Absent for an empty list and after a diagnostic.
pub open spec fn arguments_parse(s: ParseState) -> Parsed<Option<Seq<ExpressionView>>>
    decreases s.tokens.len(), 0nat,
    when s.tokens.len() > 0
{
    let s1 = s.next();
    if s1.cur() is RPAREN {
        absent(s1)
    } else {
        let first = expression_parse(s1, Priority::LOWEST).within(s1);
        match first.value {
            None => absent(first.state),
            Some(e) => arguments_loop(first.state, seq![e]),
        }
    }
}

/// The arguments of a call from the second on, then the closing parenthesis.
pub open spec fn arguments_loop(s: ParseState, found: Seq<ExpressionView>) -> Parsed<
    Option<Seq<ExpressionView>>,
>
    decreases s.tokens.len(), 0nat,
{
    if s.peek() is COMMA {
        let s1 = s.next().next();
        let r = expression_parse(s1, Priority::LOWEST).within(s1);
        match r.value {
            None => absent(r.state),
            Some(e) => arguments_loop(r.state, found.push(e)),
        }
    } else if same_kind(s.peek(), TokenView::RPAREN) {
        Parsed { value: Some(found), state: s.next() }
    } else {
        absent(s.expect(TokenView::RPAREN).next())
    }
}

/// A conditional, with `if` as the current token.
pub open spec fn if_parse(s: ParseState) -> Parsed<Option<ExpressionView>>
    decreases s.tokens.len(), 1nat,
{
    if !same_kind(s.peek(), TokenView::LPAREN) {
        absent(s.expect(TokenView::LPAREN))
    } else {
        let s1 = s.next().next();
        let cond = expression_parse(s1, Priority::LOWEST).within(s1);
        match cond.value {
            None => absent(cond.state),
            Some(condition) => {
                let s2 = cond.state;
                if !same_kind(s2.peek(), TokenView::RPAREN) {
                    absent(s2.expect(TokenView::RPAREN))
                } else if !same_kind(s2.next().peek(), TokenView::LSQUIRLY) {
                    absent(s2.next().expect(TokenView::LSQUIRLY))
                } else {
                    let s3 = s2.next().next();
                    let cons = block_parse(s3).within(s3);
                    if cons.state.peek() is ELSE {
                        let s4 = cons.state.next();
                        if !same_kind(s4.peek(), TokenView::LSQUIRLY) {
                            absent(s4.expect(TokenView::LSQUIRLY))
                        } else {
                            let alt = block_parse(s4.next());
                            Parsed {
                                value: Some(
                                    ExpressionView::If {
                                        token: s.cur(),
                                        condition: Box::new(condition),
                                        consequence: cons.value,
                                        alternative: Some(alt.value),
                                    },
                                ),
                                state: alt.state,
                            }
                        }
                    } else {
                        Parsed {
                            value: Some(
                                ExpressionView::If {
                                    token: s.cur(),
                                    condition: Box::new(condition),
                                    consequence: cons.value,
                                    alternative: None,
                                },
                            ),
                            state: cons.state,
                        }
                    }
                }
            },
        }
    }
}

/// A function literal, with `fn` as the current token.
pub open spec fn function_parse(s: ParseState) -> Parsed<Option<ExpressionView>>
    decreases s.tokens.len(), 1nat,
{
    if !same_kind(s.peek(), TokenView::LPAREN) {
        absent(s.expect(TokenView::LPAREN))
    } else {
        let s1 = s.next();
        let params = parameters_parse(s1).within(s1);
        let s2 = params.state;
        if !same_kind(s2.peek(), TokenView::LSQUIRLY) {
            absent(s2.expect(TokenView::LSQUIRLY))
        } else {
            let body = block_parse(s2.next());
            Parsed {
                value: Some(
                    ExpressionView::Function {
                        token: s.cur(),
                        parameters: match params.value {
                            Some(found) => found,
                            None => Seq::empty(),
                        },
                        body: body.value,
                    },
                ),
                state: body.state,
            }
        }
    }
}

/// A block, with the opening brace as the current token: statements up to the
/// closing brace, which is then the current token. The end of input inside
/// the block is a diagnostic.
pub open spec fn block_parse(s: ParseState) -> Parsed<BlockView>
    decreases s.tokens.len(), 7nat,
    when s.tokens.len() > 0
{
    let body = block_loop(s.next(), Seq::empty());
    Parsed {
        value: BlockView { token: s.cur(), statements: body.value },
        state: if body.state.cur() is EOF {
            body.state.with_error(peek_message(TokenView::RSQUIRLY, TokenView::EOF))
        } else {
            body.state
        },
    }
}

/// The statements of a block up to the closing brace or the end of input.
pub open spec fn block_loop(s: ParseState, found: Seq<StatementView>) -> Parsed<
    Seq<StatementView>,
>
    decreases s.tokens.len(), 6nat,
{
    if s.cur() is RSQUIRLY || s.cur() is EOF {
        Parsed { value: found, state: s }
    } else {
        let r = statement_parse(s).within(s);
        block_loop(
            r.state.next(),
            match r.value {
                Some(statement) => found.push(statement),
                None => found,
            },
        )
    }
}

/// A statement, chosen by the current token.
pub open spec fn statement_parse(s: ParseState) -> Parsed<Option<StatementView>>
    decreases s.tokens.len(), 5nat,
{
    match s.cur() {
        TokenView::LET => let_parse(s),
        TokenView::RETURN => return_parse(s),
        TokenView::IMPORT => import_parse(s),
        _ => expression_statement_parse(s),
    }
}

/// `let name = value;` with `let` as the current token. The semicolon is
/// optional; the value is absent where no expression can be read.
pub open spec fn let_parse(s: ParseState) -> Parsed<Option<StatementView>>
    decreases s.tokens.len(), 4nat,
{
    if !same_kind(s.peek(), any_ident()) {
        absent(s.expect(any_ident()))
    } else {
        let s1 = s.next();
        if !same_kind(s1.peek(), TokenView::ASSIGN) {
            absent(s1.expect(TokenView::ASSIGN))
        } else {
            let v = expression_parse(s1.next().next(), Priority::LOWEST);
            Parsed {
                value: Some(
                    StatementView::Let {
                        token: s.cur(),
                        name: identifier_here(s1),
                        value: v.value,
                    },
                ),
                state: after_semicolon(v.state),
            }
        }
    }
}

/// `return value;` with `return` as the current token. The semicolon is
/// optional; the value is the empty expression where none can be read.
pub open spec fn return_parse(s: ParseState) -> Parsed<Option<StatementView>>
    decreases s.tokens.len(), 4nat,
    when s.tokens.len() > 0
{
    let v = expression_parse(s.next(), Priority::LOWEST);
    Parsed {
        value: Some(StatementView::Return { token: s.cur(), return_val: or_empty(v.value) }),
        state: after_semicolon(v.state),
    }
}

/// An expression as a statement, with an optional semicolon. The expression
/// is the empty one where none can be read.
pub open spec fn expression_statement_parse(s: ParseState) -> Parsed<Option<StatementView>>
    decreases s.tokens.len(), 4nat,
{
    let v = expression_parse(s, Priority::LOWEST);
    Parsed {
        value: Some(StatementView::Expression { token: s.cur(), expression: or_empty(v.value) }),
        state: after_semicolon(v.state),
    }
}

/// The statements of a program up to the first end-of-input token that is
/// current after a statement.
pub open spec fn program_loop(s: ParseState, found: Seq<StatementView>) -> Parsed<
    Seq<StatementView>,
>
    decreases s.tokens.len(),
{
    if s.cur() is EOF {
        Parsed { value: found, state: s }
    } else {
        let r = statement_parse(s).within(s);
        program_loop(
            r.state.next(),
            match r.value {
                Some(statement) => found.push(statement),
                None => found,
            },
        )
    }
}

/// A program: its statements, and the state with all diagnostics.
pub open spec fn program_parse(s: ParseState) -> Parsed<ProgramView> {
    let r = program_loop(s, Seq::empty());
    Parsed { value: ProgramView { statements: r.value }, state: r.state }
}

/// Whether a result leaves no more tokens than the state `s` held. The lemmas
/// below show this of every function of the grammar.
pub open spec fn consumes<T>(r: Parsed<T>, s: ParseState) -> bool {
    r.state.tokens.len() <= s.tokens.len()
}

/// Reading parameters leaves no more tokens than there were.
pub proof fn lemma_parameters_consume(s: ParseState)
    ensures
        consumes(parameters_parse(s), s),
{
    if !(s.peek() is RPAREN) && same_kind(s.peek(), any_ident()) {
        let s1 = s.next();
        lemma_parameters_loop_consumes(s1, seq![identifier_here(s1)]);
    }
}

proof fn lemma_parameters_loop_consumes(s: ParseState, found: Seq<IdentifierView>)
    ensures
        consumes(parameters_loop(s, found), s),
    decreases s.tokens.len(),
{
    if s.peek() is COMMA {
        let s1 = s.next();
        if same_kind(s1.peek(), any_ident()) {
            let s2 = s1.next();
            lemma_parameters_loop_consumes(s2, found.push(identifier_here(s2)));
        }
    }
}

/// Reading an expression leaves no more tokens than there were.
pub proof fn lemma_expression_consumes(s: ParseState, p: Priority)
    ensures
        consumes(expression_parse(s, p), s),
    decreases s.tokens.len(), 3nat,
{
    match prefix_handler(s.cur()) {
        None => {},
        Some(handler) => {
            lemma_prefix_consumes(s, handler);
            let left = prefix_parse(s, handler);
            match left.value {
                None => {},
                Some(e) => lemma_infix_loop_consumes(left.state, p, e),
            }
        },
    }
}

/// Reading what a token starts leaves no more tokens than there were.
pub proof fn lemma_prefix_consumes(s: ParseState, handler: PrefixParseFn)
    requires
        prefix_handler(s.cur()) == Some(handler),
    ensures
        consumes(prefix_parse(s, handler), s),
    decreases s.tokens.len(), 2nat,
{
    match handler {
        PrefixParseFn::PrefixExpression => lemma_expression_consumes(s.next(), Priority::PREFIX),
        PrefixParseFn::GroupedExpression => lemma_expression_consumes(s.next(), Priority::LOWEST),
        PrefixParseFn::IfStatement => lemma_if_consumes(s),
        PrefixParseFn::FunctionLiteral => lemma_function_consumes(s),
        _ => {},
    }
}

proof fn lemma_infix_loop_consumes(s: ParseState, p: Priority, left: ExpressionView)
    ensures
        consumes(infix_loop(s, p, left), s),
    decreases s.tokens.len(), 1nat,
{
    if !(s.peek() is SEMICOLON) && p.rank() < priority_of(s.peek()).rank() {
        match infix_handler(s.peek()) {
            Some(handler) => {
                let s1 = s.next();
                lemma_infix_consumes(s1, handler, left);
                let r = infix_parse(s1, handler, left);
                match r.value {
                    None => {},
                    Some(e) => lemma_infix_loop_consumes(r.state, p, e),
                }
            },
            None => {},
        }
    }
}

/// Reading an operator and its right operand, or the arguments of a call,
/// leaves no more tokens than there were.
pub proof fn lemma_infix_consumes(s: ParseState, handler: InfixParseFn, left: ExpressionView)
    requires
        s.tokens.len() > 0,
    ensures
        consumes(infix_parse(s, handler, left), s),
    decreases s.tokens.len(), 2nat,
{
    match handler {
        InfixParseFn::InfixExpression => lemma_expression_consumes(s.next(), priority_of(s.cur())),
        InfixParseFn::CallExpression => lemma_arguments_consume(s),
    }
}

proof fn lemma_arguments_consume(s: ParseState)
    requires
        s.tokens.len() > 0,
    ensures
        consumes(arguments_parse(s), s),
    decreases s.tokens.len(), 0nat,
{
    let s1 = s.next();
    if !(s1.cur() is RPAREN) {
        lemma_expression_consumes(s1, Priority::LOWEST);
        let first = expression_parse(s1, Priority::LOWEST);
        match first.value {
            None => {},
            Some(e) => lemma_arguments_loop_consumes(first.state, seq![e]),
        }
    }
}

proof fn lemma_arguments_loop_consumes(s: ParseState, found: Seq<ExpressionView>)
    ensures
        consumes(arguments_loop(s, found), s),
    decreases s.tokens.len(), 0nat,
{
    if s.peek() is COMMA {
        let s1 = s.next().next();
        lemma_expression_consumes(s1, Priority::LOWEST);
        let r = expression_parse(s1, Priority::LOWEST);
        match r.value {
            None => {},
            Some(e) => lemma_arguments_loop_consumes(r.state, found.push(e)),
        }
    }
}

proof fn lemma_if_consumes(s: ParseState)
    ensures
        consumes(if_parse(s), s),
    decreases s.tokens.len(), 1nat,
{
    if same_kind(s.peek(), TokenView::LPAREN) {
        let s1 = s.next().next();
        lemma_expression_consumes(s1, Priority::LOWEST);
        let cond = expression_parse(s1, Priority::LOWEST);
        if cond.value is Some {
            let s2 = cond.state;
            if same_kind(s2.peek(), TokenView::RPAREN) && same_kind(
                s2.next().peek(),
                TokenView::LSQUIRLY,
            ) {
                let s3 = s2.next().next();
                lemma_block_consumes(s3);
                let cons = block_parse(s3);
                if cons.state.peek() is ELSE {
                    let s4 = cons.state.next();
                    if same_kind(s4.peek(), TokenView::LSQUIRLY) {
                        lemma_block_consumes(s4.next());
                    }
                }
            }
        }
    }
}

proof fn lemma_function_consumes(s: ParseState)
    ensures
        consumes(function_parse(s), s),
    decreases s.tokens.len(), 1nat,
{
    if same_kind(s.peek(), TokenView::LPAREN) {
        let s1 = s.next();
        lemma_parameters_consume(s1);
        let s2 = parameters_parse(s1).state;
        if same_kind(s2.peek(), TokenView::LSQUIRLY) {
            lemma_block_consumes(s2.next());
        }
    }
}

proof fn lemma_block_consumes(s: ParseState)
    requires
        s.tokens.len() > 0,
    ensures
        consumes(block_parse(s), s),
    decreases s.tokens.len(), 7nat,
{
    lemma_block_loop_consumes(s.next(), Seq::empty());
}

proof fn lemma_block_loop_consumes(s: ParseState, found: Seq<StatementView>)
    ensures
        consumes(block_loop(s, found), s),
    decreases s.tokens.len(), 6nat,
{
    if !(s.cur() is RSQUIRLY || s.cur() is EOF) {
        lemma_statement_consumes(s);
        let r = statement_parse(s);
        lemma_block_loop_consumes(
            r.state.next(),
            match r.value {
                Some(statement) => found.push(statement),
                None => found,
            },
        );
    }
}

/// Reading a statement leaves no more tokens than there were.
pub proof fn lemma_statement_consumes(s: ParseState)
    ensures
        consumes(statement_parse(s), s),
    decreases s.tokens.len(), 5nat,
{
    match s.cur() {
        TokenView::LET => {
            if same_kind(s.peek(), any_ident()) {
                let s1 = s.next();
                if same_kind(s1.peek(), TokenView::ASSIGN) {
                    lemma_expression_consumes(s1.next().next(), Priority::LOWEST);
                }
            }
        },
        TokenView::RETURN => lemma_expression_consumes(s.next(), Priority::LOWEST),
        TokenView::IMPORT => {},
        _ => lemma_expression_consumes(s, Priority::LOWEST),
    }
}

/// Reading a program leaves no more tokens than there were.
pub proof fn lemma_program_consumes(s: ParseState, found: Seq<StatementView>)
    ensures
        consumes(program_loop(s, found), s),
    decreases s.tokens.len(),
{
    if !(s.cur() is EOF) {
        lemma_statement_consumes(s);
        let r = statement_parse(s);
        lemma_program_consumes(
            r.state.next(),
            match r.value {
                Some(statement) => found.push(statement),
                None => found,
            },
        );
    }
}

/// A `let` that is not followed by a name yields no statement and exactly one
/// diagnostic, which names the token found in place of the name.
pub proof fn lemma_let_without_name(s: ParseState)
    requires
        s.cur() is LET,
        !(s.peek() is IDENT),
    ensures
        statement_parse(s).value is None,
        statement_parse(s).state.tokens == s.tokens,
        statement_parse(s).state.errors == s.errors.push(peek_message(any_ident(), s.peek())),
{
}

/// Trimming keeps every token: past the end of the trimmed sequence the
/// original holds end-of-input tokens only.
pub proof fn lemma_trim_token_at(tokens: Seq<TokenView>, i: int)
    ensures
        token_at(trim(tokens), i) == token_at(tokens, i),
        trim(tokens).len() <= tokens.len(),
    decreases tokens.len(),
{
    if tokens.len() > 0 && tokens.last() is EOF {
        lemma_trim_token_at(tokens.drop_last(), i);
    }
}

/// Trimming commutes with dropping the first token.
pub proof fn lemma_trim_rest(tokens: Seq<TokenView>)
    ensures
        trim(rest(tokens)) == rest(trim(tokens)),
    decreases tokens.len(),
{
    if tokens.len() > 0 && tokens.last() is EOF {
        let shorter = tokens.drop_last();
        lemma_trim_rest(shorter);
        if tokens.len() == 1 {
            assert(rest(tokens) =~= Seq::<TokenView>::empty());
            assert(shorter =~= Seq::<TokenView>::empty());
        } else {
            assert(rest(tokens).drop_last() =~= rest(shorter));
        }
    } else if tokens.len() > 0 {
        if tokens.len() == 1 {
            assert(rest(tokens) =~= Seq::<TokenView>::empty());
        } else {
            assert(rest(tokens).last() == tokens.last());
        }
    }
}

/// What follows end-of-input tokens does not count: trimming a concatenation
/// is trimming it with its second part trimmed.
pub proof fn lemma_trim_concat(a: Seq<TokenView>, b: Seq<TokenView>)
    ensures
        trim(a + b) == trim(a + trim(b)),
    decreases b.len(),
{
    if b.len() > 0 && b.last() is EOF {
        lemma_trim_concat(a, b.drop_last());
        assert((a + b).drop_last() =~= a + b.drop_last());
        assert((a + b).last() == b.last());
    }
}

} // verus!
