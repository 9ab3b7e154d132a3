//! The notation of the language, and the proof that the parser reads it as
//! written.
//!
//! A [`Notation`] is an expression as it stands in a source text, a
//! [`Sentence`] a statement. Each has its token sequence (`tokens`) and the
//! syntax tree it denotes (`meaning`). Where the notation has the parentheses
//! and semicolons that the grammar requires (`respects`), parsing the tokens
//! yields exactly the tree, without a diagnostic: see
//! [`lemma_parses_notation`] and [`lemma_parses_program`].

use crate::ast::{
    statement_text, BlockView, ExpressionView, IdentifierView, ProgramView, StatementView, StringLiteralView,
};
use crate::grammar::{
    after_semicolon, infix_parse, prefix_parse, PrefixParseFn, arguments_loop, arguments_parse, binary_parse, block_loop, block_parse,
    call_parse, expression_parse, function_parse, grouped_parse, identifier_here, if_parse,
    infix_handler, infix_loop, parameters_loop, parameters_parse, prefix_handler,
    prefix_operator_parse, priority_of, program_loop, program_parse, statement_parse, token_at,
    InfixParseFn, ParseState, Parsed, Priority,
};
use crate::text::integer_of;
use crate::token::{literal_text, TokenView};
use vstd::prelude::*;

verus! {

/// An expression as written.
pub enum Notation {
    /// A name, an integer, a string or a boolean.
    Atom(TokenView),
    /// A unary operator before its operand.
    Prefix(TokenView, Box<Notation>),
    /// A binary operator between its operands.
    Infix(Box<Notation>, TokenView, Box<Notation>),
    /// An expression in parentheses.
    Group(Box<Notation>),
    /// A callee and its arguments in parentheses, separated by commas.
    Call(Box<Notation>, Seq<Notation>),
    /// `if (condition) { ... }`, with or without `else { ... }`.
    If(Box<Notation>, Seq<Sentence>, Option<Seq<Sentence>>),
    /// `fn (parameters) { ... }`, with the parameters as name tokens.
    Function(Seq<TokenView>, Seq<Sentence>),
}

/// A statement as written. The flag says whether a semicolon ends it.
pub enum Sentence {
    /// `let name = value`.
    Let(TokenView, Notation, bool),
    /// `return value`.
    Return(Notation, bool),
    /// An expression as a statement.
    Expression(Notation, bool),
    /// `import "namespace";`, with the namespace as a string token.
    Import(TokenView),
}

/// Whether a token is an atom: a name, a string, a boolean, or a run of digits
/// that denotes a 32-bit integer.
pub open spec fn atom_token(t: TokenView) -> bool {
    match t {
        TokenView::IDENT(_) => true,
        TokenView::INT(digits) => integer_of(digits) is Some,
        TokenView::STRING(_) => true,
        TokenView::TRUE => true,
        TokenView::FALSE => true,
        _ => false,
    }
}

/// Whether a token is a unary operator.
pub open spec fn prefix_token(t: TokenView) -> bool {
    t is BANG || t is MINUS
}

/// Whether a token is a binary operator.
pub open spec fn binary_token(t: TokenView) -> bool {
    infix_handler(t) == Some(InfixParseFn::InfixExpression)
}

/// The expression that an atom denotes.
pub open spec fn atom_meaning(t: TokenView) -> ExpressionView {
    match t {
        TokenView::IDENT(name) => ExpressionView::Identifier(
            IdentifierView { token: t, value: name },
        ),
        TokenView::INT(digits) => ExpressionView::IntegerLiteral {
            token: t,
            value: integer_of(digits).unwrap() as i32,
        },
        TokenView::STRING(text) => ExpressionView::StringLiteral(
            StringLiteralView { token: t, value: text },
        ),
        TokenView::TRUE => ExpressionView::Boolean { token: t, value: true },
        TokenView::FALSE => ExpressionView::Boolean { token: t, value: false },
        _ => ExpressionView::Empty,
    }
}

/// The name that a token denotes as a parameter or as the name of a `let`.
pub open spec fn name_meaning(t: TokenView) -> IdentifierView {
    IdentifierView { token: t, value: literal_text(t) }
}

/// The tokens of the names from the `i`-th on, each after a comma.
pub open spec fn more_names(names: Seq<TokenView>, i: nat) -> Seq<TokenView>
    decreases names.len() - i,
{
    if i >= names.len() {
        Seq::empty()
    } else {
        seq![TokenView::COMMA, names[i as int]] + more_names(names, i + 1)
    }
}

/// The tokens of a list of names separated by commas.
pub open spec fn names_tokens(names: Seq<TokenView>) -> Seq<TokenView> {
    if names.len() == 0 {
        Seq::empty()
    } else {
        seq![names[0]] + more_names(names, 1)
    }
}

/// The tokens of a semicolon, if there is one.
pub open spec fn semicolon_tokens(semicolon: bool) -> Seq<TokenView> {
    if semicolon {
        seq![TokenView::SEMICOLON]
    } else {
        Seq::empty()
    }
}

impl Notation {
    /// The tokens of the notation, in the order of the source text.
    pub open spec fn tokens(self) -> Seq<TokenView>
        decreases self, 0nat,
    {
        match self {
            Notation::Atom(t) => seq![t],
            Notation::Prefix(t, x) => seq![t] + x.tokens(),
            Notation::Infix(l, t, r) => l.tokens() + seq![t] + r.tokens(),
            Notation::Group(x) => seq![TokenView::LPAREN] + x.tokens() + seq![TokenView::RPAREN],
            Notation::Call(c, args) => c.tokens() + seq![TokenView::LPAREN] + (if args.len() == 0 {
                Seq::empty()
            } else {
                args[0].tokens() + more_arguments(args, 1)
            }) + seq![TokenView::RPAREN],
            Notation::If(c, consequence, alternative) => seq![TokenView::IF, TokenView::LPAREN]
                + c.tokens() + seq![TokenView::RPAREN, TokenView::LSQUIRLY] + sentences_tokens(
                consequence,
                0,
            ) + seq![TokenView::RSQUIRLY] + (match alternative {
                Some(alt) => seq![TokenView::ELSE, TokenView::LSQUIRLY] + sentences_tokens(alt, 0)
                    + seq![TokenView::RSQUIRLY],
                None => Seq::empty(),
            }),
            Notation::Function(names, body) => seq![TokenView::FUNCTION, TokenView::LPAREN]
                + names_tokens(names) + seq![TokenView::RPAREN, TokenView::LSQUIRLY]
                + sentences_tokens(body, 0) + seq![TokenView::RSQUIRLY],
        }
    }

    /// The syntax tree that the notation denotes. Parentheses leave no trace
    /// in it.
    pub open spec fn meaning(self) -> ExpressionView
        decreases self, 0nat,
    {
        match self {
            Notation::Atom(t) => atom_meaning(t),
            Notation::Prefix(t, x) => ExpressionView::Prefix {
                token: t,
                operator: literal_text(t),
                right: Box::new(x.meaning()),
            },
            Notation::Infix(l, t, r) => ExpressionView::Infix {
                token: t,
                left: Box::new(l.meaning()),
                operator: literal_text(t),
                right: Box::new(r.meaning()),
            },
            Notation::Group(x) => x.meaning(),
            Notation::Call(c, args) => ExpressionView::Call {
                token: TokenView::LPAREN,
                function: Box::new(c.meaning()),
                arguments: arguments_meaning(args, args.len()),
            },
            Notation::If(c, consequence, alternative) => ExpressionView::If {
                token: TokenView::IF,
                condition: Box::new(c.meaning()),
                consequence: BlockView {
                    token: TokenView::LSQUIRLY,
                    statements: sentences_meaning(consequence, consequence.len()),
                },
                alternative: match alternative {
                    Some(alt) => Some(
                        BlockView {
                            token: TokenView::LSQUIRLY,
                            statements: sentences_meaning(alt, alt.len()),
                        },
                    ),
                    None => None,
                },
            },
            Notation::Function(names, body) => ExpressionView::Function {
                token: TokenView::FUNCTION,
                parameters: Seq::new(names.len(), |i: int| name_meaning(names[i])),
                body: BlockView {
                    token: TokenView::LSQUIRLY,
                    statements: sentences_meaning(body, body.len()),
                },
            },
        }
    }

    /// Whether `next` may follow the notation without becoming part of it: it
    /// must not bind more tightly than the operators at the right end of the
    /// notation, and it must not be the `else` of a conditional that has
    /// none.
    pub open spec fn followed_by(self, next: TokenView) -> bool
        decreases self,
    {
        match self {
            Notation::Prefix(_, x) => priority_of(next).rank() <= 6 && x.followed_by(next),
            Notation::Infix(_, t, r) => priority_of(next).rank() <= priority_of(t).rank()
                && r.followed_by(next),
            Notation::If(_, _, alternative) => alternative is Some || !(next is ELSE),
            _ => true,
        }
    }

    /// Whether the notation is well-formed and has the parentheses that
    /// binding powers require, where it is read at the binding power `floor`:
    /// every operator outside parentheses binds more tightly than `floor`, a
    /// right operand is read at the binding power of its operator, and what
    /// stands to the left of an operator or of the parenthesis of a call may
    /// be followed by it.
    pub open spec fn respects(self, floor: nat) -> bool
        decreases self, 0nat,
    {
        match self {
            Notation::Atom(t) => atom_token(t),
            Notation::Prefix(t, x) => prefix_token(t) && x.respects(6),
            Notation::Infix(l, t, r) => {
                &&& binary_token(t)
                &&& priority_of(t).rank() > floor
                &&& l.respects(floor)
                &&& l.followed_by(t)
                &&& r.respects(priority_of(t).rank())
            },
            Notation::Group(x) => x.respects(0),
            Notation::Call(c, args) => {
                &&& c.respects(floor)
                &&& c.followed_by(TokenView::LPAREN)
                &&& arguments_respect(args, args.len())
            },
            Notation::If(c, consequence, alternative) => {
                &&& c.respects(0)
                &&& sentences_respect(consequence, consequence.len(), TokenView::RSQUIRLY)
                &&& match alternative {
                    Some(alt) => sentences_respect(alt, alt.len(), TokenView::RSQUIRLY),
                    None => true,
                }
            },
            Notation::Function(names, body) => {
                &&& forall|i: int| 0 <= i < names.len() ==> (#[trigger] names[i]) is IDENT
                &&& sentences_respect(body, body.len(), TokenView::RSQUIRLY)
            },
        }
    }
}

/// The tokens of the arguments from the `i`-th on, each after a comma.
pub open spec fn more_arguments(args: Seq<Notation>, i: nat) -> Seq<TokenView>
    decreases args, args.len() - i,
{
    if i >= args.len() {
        Seq::empty()
    } else {
        seq![TokenView::COMMA] + args[i as int].tokens() + more_arguments(args, i + 1)
    }
}

/// The meanings of the first `n` arguments.
pub open spec fn arguments_meaning(args: Seq<Notation>, n: nat) -> Seq<ExpressionView>
    decreases args, n,
{
    if n == 0 || n > args.len() {
        Seq::empty()
    } else {
        arguments_meaning(args, (n - 1) as nat).push(args[n - 1].meaning())
    }
}

/// Whether each of the first `n` arguments is well-formed.
pub open spec fn arguments_respect(args: Seq<Notation>, n: nat) -> bool
    decreases args, n,
{
    if n == 0 || n > args.len() {
        true
    } else {
        arguments_respect(args, (n - 1) as nat) && args[n - 1].respects(0)
    }
}

/// The tokens of the sentences from the `i`-th on.
pub open spec fn sentences_tokens(sentences: Seq<Sentence>, i: nat) -> Seq<TokenView>
    decreases sentences, sentences.len() - i,
{
    if i >= sentences.len() {
        Seq::empty()
    } else {
        sentences[i as int].tokens() + sentences_tokens(sentences, i + 1)
    }
}

/// The meanings of the first `n` sentences.
pub open spec fn sentences_meaning(sentences: Seq<Sentence>, n: nat) -> Seq<StatementView>
    decreases sentences, n,
{
    if n == 0 || n > sentences.len() {
        Seq::empty()
    } else {
        sentences_meaning(sentences, (n - 1) as nat).push(sentences[n - 1].meaning())
    }
}

/// The token that follows the `i`-th sentence: the first token of the next
/// one, or `closing` after the last.
pub open spec fn token_after(sentences: Seq<Sentence>, i: int, closing: TokenView) -> TokenView {
    if 0 <= i && i + 1 < sentences.len() {
        sentences[i + 1].first_token()
    } else {
        closing
    }
}

/// Whether each of the first `n` sentences is well-formed and properly ended
/// before what follows it, with `closing` after the last sentence.
pub open spec fn sentences_respect(sentences: Seq<Sentence>, n: nat, closing: TokenView) -> bool
    decreases sentences, n,
{
    if n == 0 || n > sentences.len() {
        true
    } else {
        sentences_respect(sentences, (n - 1) as nat, closing) && sentences[n - 1].respects(
            token_after(sentences, n - 1, closing),
        )
    }
}

impl Sentence {
    /// The first token of the sentence.
    pub open spec fn first_token(self) -> TokenView {
        match self {
            Sentence::Let(_, _, _) => TokenView::LET,
            Sentence::Return(_, _) => TokenView::RETURN,
            Sentence::Expression(v, _) => v.tokens()[0],
            Sentence::Import(_) => TokenView::IMPORT,
        }
    }

    /// The tokens of the sentence, in the order of the source text.
    pub open spec fn tokens(self) -> Seq<TokenView>
        decreases self, 0nat,
    {
        match self {
            Sentence::Let(name, v, semicolon) => seq![TokenView::LET, name, TokenView::ASSIGN]
                + v.tokens() + semicolon_tokens(semicolon),
            Sentence::Return(v, semicolon) => seq![TokenView::RETURN] + v.tokens()
                + semicolon_tokens(semicolon),
            Sentence::Expression(v, semicolon) => v.tokens() + semicolon_tokens(semicolon),
            Sentence::Import(namespace) => seq![
                TokenView::IMPORT,
                namespace,
                TokenView::SEMICOLON,
            ],
        }
    }

    /// The statement that the sentence denotes.
    pub open spec fn meaning(self) -> StatementView
        decreases self, 0nat,
    {
        match self {
            Sentence::Let(name, v, _) => StatementView::Let {
                token: TokenView::LET,
                name: name_meaning(name),
                value: Some(v.meaning()),
            },
            Sentence::Return(v, _) => StatementView::Return {
                token: TokenView::RETURN,
                return_val: v.meaning(),
            },
            Sentence::Expression(v, _) => StatementView::Expression {
                token: v.tokens()[0],
                expression: v.meaning(),
            },
            Sentence::Import(namespace) => StatementView::Import {
                token: TokenView::IMPORT,
                namespace: StringLiteralView {
                    token: namespace,
                    value: literal_text(namespace),
                },
            },
        }
    }

    /// Whether the sentence is well-formed and properly ended before `next`:
    /// where it has no semicolon, `next` must not continue its expression.
    pub open spec fn respects(self, next: TokenView) -> bool
        decreases self, 0nat,
    {
        match self {
            Sentence::Let(name, v, semicolon) => name is IDENT && v.respects(0) && ended(
                semicolon,
                next,
            ),
            Sentence::Return(v, semicolon) => v.respects(0) && ended(semicolon, next),
            Sentence::Expression(v, semicolon) => v.respects(0) && ended(semicolon, next),
            Sentence::Import(namespace) => namespace is STRING,
        }
    }
}

/// Whether a token ends an expression: it continues none, and it is neither
/// a semicolon nor `else`.
pub open spec fn ends_expression(next: TokenView) -> bool {
    priority_of(next).rank() == 0 && !(next is SEMICOLON) && !(next is ELSE)
}

/// Whether a sentence is ended: by its semicolon, or by a token that ends its
/// expression.
pub open spec fn ended(semicolon: bool, next: TokenView) -> bool {
    semicolon || ends_expression(next)
}

/// The state that holds the given tokens, then `rest`.
pub open spec fn before(tokens: Seq<TokenView>, rest: Seq<TokenView>, errors: Seq<Seq<char>>)
    -> ParseState {
    ParseState { tokens: tokens + rest, errors }
}

/// The state in which the last of the given tokens is current and `rest`
/// follows.
pub open spec fn after(tokens: Seq<TokenView>, rest: Seq<TokenView>, errors: Seq<Seq<char>>)
    -> ParseState {
    ParseState { tokens: seq![tokens.last()] + rest, errors }
}

/// A notation has at least one token, and its first token starts an
/// expression and no other statement.
pub proof fn lemma_first_token(n: Notation)
    ensures
        n.tokens().len() > 0,
        n.respects(0) ==> prefix_handler(n.tokens()[0]) is Some,
    decreases n,
{
    match n {
        Notation::Infix(l, t, r) => {
            lemma_first_token(*l);
            lemma_first_token(*r);
        },
        Notation::Call(c, args) => {
            lemma_first_token(*c);
        },
        _ => {},
    }
}

/// A token that continues no expression, and is not `else`, may follow every
/// notation.
pub proof fn lemma_followed_by_low(n: Notation, next: TokenView)
    requires
        priority_of(next).rank() == 0,
        !(next is ELSE),
    ensures
        n.followed_by(next),
    decreases n,
{
    match n {
        Notation::Prefix(_, x) => lemma_followed_by_low(*x, next),
        Notation::Infix(_, _, r) => lemma_followed_by_low(*r, next),
        _ => {},
    }
}


/// The state that holds exactly the given tokens.
pub open spec fn state(tokens: Seq<TokenView>, errors: Seq<Seq<char>>) -> ParseState {
    ParseState { tokens, errors }
}

/// The meanings of the first `n` names.
pub open spec fn names_meaning(names: Seq<TokenView>, n: nat) -> Seq<IdentifierView> {
    Seq::new(n, |i: int| name_meaning(names[i]))
}

/// Each of the first `n` arguments of a well-formed list is well-formed.
pub proof fn lemma_argument_respects(args: Seq<Notation>, n: nat, k: int)
    requires
        arguments_respect(args, n),
        0 <= k < n <= args.len(),
    ensures
        args[k].respects(0),
    decreases n,
{
    if k < n - 1 {
        lemma_argument_respects(args, (n - 1) as nat, k);
    }
}

/// Each of the first `n` sentences of a well-formed list is well-formed and
/// properly ended before what follows it.
pub proof fn lemma_sentence_respects(sentences: Seq<Sentence>, n: nat, closing: TokenView, k: int)
    requires
        sentences_respect(sentences, n, closing),
        0 <= k < n <= sentences.len(),
    ensures
        sentences[k].respects(token_after(sentences, k, closing)),
    decreases n,
{
    if k < n - 1 {
        lemma_sentence_respects(sentences, (n - 1) as nat, closing, k);
    }
}

/// A sentence has at least one token; the first is its first token, which is
/// neither a closing brace nor the end of input, and, for an expression,
/// starts an expression and no other statement.
pub proof fn lemma_sentence_first(st: Sentence, next: TokenView)
    requires
        st.respects(next),
    ensures
        st.tokens().len() > 0,
        st.tokens()[0] == st.first_token(),
        !(st.first_token() is RSQUIRLY),
        !(st.first_token() is EOF),
        st is Expression ==> prefix_handler(st.first_token()) is Some,
{
    match st {
        Sentence::Expression(v, _) => {
            lemma_first_token(v);
        },
        _ => {},
    }
}

/// Reading the names of a parameter list from the second on.
pub proof fn lemma_reads_names(
    names: Seq<TokenView>,
    i: nat,
    rest: Seq<TokenView>,
    errors: Seq<Seq<char>>,
)
    requires
        1 <= i <= names.len(),
        forall|k: int| 0 <= k < names.len() ==> (#[trigger] names[k]) is IDENT,
    ensures
        parameters_loop(
            state(
                seq![names[i - 1]] + more_names(names, i) + seq![TokenView::RPAREN] + rest,
                errors,
            ),
            names_meaning(names, i),
        ) == (Parsed {
            value: Some(names_meaning(names, names.len())),
            state: state(seq![TokenView::RPAREN] + rest, errors),
        }),
    decreases names.len() - i,
{
    let s = state(
        seq![names[i - 1]] + more_names(names, i) + seq![TokenView::RPAREN] + rest,
        errors,
    );
    if i < names.len() {
        let tail = more_names(names, i + 1) + seq![TokenView::RPAREN] + rest;
        assert(s.tokens =~= seq![names[i - 1], TokenView::COMMA, names[i as int]] + tail);
        assert(s.peek() is COMMA);
        let s1 = s.next();
        assert(s1.tokens =~= seq![TokenView::COMMA, names[i as int]] + tail);
        assert(names[i as int] is IDENT);
        let s2 = s1.next();
        assert(s2.tokens =~= seq![names[i as int]] + tail);
        assert(names_meaning(names, i).push(identifier_here(s2)) =~= names_meaning(
            names,
            i + 1,
        ));
        lemma_reads_names(names, i + 1, rest, errors);
        assert(s2.tokens =~= seq![names[i as int]] + more_names(names, i + 1) + seq![
            TokenView::RPAREN,
        ] + rest);
    } else {
        assert(more_names(names, i) =~= Seq::<TokenView>::empty());
        assert(s.tokens =~= seq![names[i - 1], TokenView::RPAREN] + rest);
        assert(s.peek() is RPAREN);
        assert(s.next().tokens =~= seq![TokenView::RPAREN] + rest);
    }
}

/// Reading a parameter list: the names, or nothing for an empty list, and the
/// closing parenthesis as the current token afterwards.
pub proof fn lemma_reads_parameters(
    names: Seq<TokenView>,
    rest: Seq<TokenView>,
    errors: Seq<Seq<char>>,
)
    requires
        forall|k: int| 0 <= k < names.len() ==> (#[trigger] names[k]) is IDENT,
    ensures
        parameters_parse(
            state(
                seq![TokenView::LPAREN] + names_tokens(names) + seq![TokenView::RPAREN] + rest,
                errors,
            ),
        ) == (Parsed {
            value: if names.len() == 0 {
                None
            } else {
                Some(names_meaning(names, names.len()))
            },
            state: state(seq![TokenView::RPAREN] + rest, errors),
        }),
{
    let s = state(
        seq![TokenView::LPAREN] + names_tokens(names) + seq![TokenView::RPAREN] + rest,
        errors,
    );
    if names.len() == 0 {
        assert(s.tokens =~= seq![TokenView::LPAREN, TokenView::RPAREN] + rest);
        assert(s.peek() is RPAREN);
        assert(s.next().tokens =~= seq![TokenView::RPAREN] + rest);
    } else {
        let tail = more_names(names, 1) + seq![TokenView::RPAREN] + rest;
        assert(s.tokens =~= seq![TokenView::LPAREN, names[0]] + tail);
        assert(names[0] is IDENT);
        assert(s.peek() == names[0]);
        let s1 = s.next();
        assert(s1.tokens =~= seq![names[0]] + tail);
        assert(seq![identifier_here(s1)] =~= names_meaning(names, 1));
        lemma_reads_names(names, 1, rest, errors);
        assert(s1.tokens =~= seq![names[0]] + more_names(names, 1) + seq![TokenView::RPAREN]
            + rest);
    }
}

/// One turn of the loop over operators: where the next token continues the
/// expression and what it makes of `left` is `folded`, the loop goes on from
/// there with `folded` as the expression read so far.
proof fn lemma_loop_step(
    s: ParseState,
    floor: Priority,
    left: ExpressionView,
    handler: InfixParseFn,
    folded: ExpressionView,
    then: ParseState,
)
    requires
        !(s.peek() is SEMICOLON),
        floor.rank() < priority_of(s.peek()).rank(),
        infix_handler(s.peek()) == Some(handler),
        infix_parse(s.next(), handler, left) == (Parsed { value: Some(folded), state: then }),
        then.tokens.len() <= s.next().tokens.len(),
    ensures
        infix_loop(s, floor, left) == infix_loop(then, floor, folded),
{
}

/// The first step of reading an expression: where what the current token
/// starts is `value`, the loop over operators goes on from there.
proof fn lemma_start_step(
    s: ParseState,
    floor: Priority,
    handler: PrefixParseFn,
    value: ExpressionView,
    then: ParseState,
)
    requires
        prefix_handler(s.cur()) == Some(handler),
        prefix_parse(s, handler) == (Parsed { value: Some(value), state: then }),
        then.tokens.len() <= s.tokens.len(),
    ensures
        expression_parse(s, floor) == infix_loop(then, floor, value),
{
}

/// What a conditional is read as, once its condition and its first block are
/// read.
proof fn lemma_conditional_steps(
    s: ParseState,
    condition: ExpressionView,
    s2: ParseState,
    first: BlockView,
    s4: ParseState,
)
    requires
        s.peek() == TokenView::LPAREN,
        expression_parse(s.next().next(), Priority::LOWEST) == (Parsed {
            value: Some(condition),
            state: s2,
        }),
        s2.tokens.len() <= s.next().next().tokens.len(),
        s2.peek() == TokenView::RPAREN,
        s2.next().peek() == TokenView::LSQUIRLY,
        block_parse(s2.next().next()) == (Parsed { value: first, state: s4 }),
        s4.tokens.len() <= s2.next().next().tokens.len(),
    ensures
        !(s4.peek() is ELSE) ==> if_parse(s) == (Parsed {
            value: Some(
                ExpressionView::If {
                    token: s.cur(),
                    condition: Box::new(condition),
                    consequence: first,
                    alternative: None,
                },
            ),
            state: s4,
        }),
        s4.peek() is ELSE && s4.next().peek() == TokenView::LSQUIRLY ==> if_parse(s) == (Parsed {
            value: Some(
                ExpressionView::If {
                    token: s.cur(),
                    condition: Box::new(condition),
                    consequence: first,
                    alternative: Some(block_parse(s4.next().next()).value),
                },
            ),
            state: block_parse(s4.next().next()).state,
        }),
{
}

/// Reading a notation at a binding power that it respects takes all of it:
/// the parser arrives at its last token with its meaning as the expression
/// read so far, and goes on from there.
pub proof fn lemma_reads_notation(
    n: Notation,
    floor: Priority,
    rest: Seq<TokenView>,
    errors: Seq<Seq<char>>,
)
    requires
        n.respects(floor.rank()),
        n.followed_by(token_at(rest, 0)),
        floor.rank() <= 6,
    ensures
        expression_parse(before(n.tokens(), rest, errors), floor) == infix_loop(
            after(n.tokens(), rest, errors),
            floor,
            n.meaning(),
        ),
    decreases n, 3nat,
{
    match n {
        Notation::Atom(..) => lemma_reads_atom(n, floor, rest, errors),
        Notation::Prefix(..) => lemma_reads_prefix(n, floor, rest, errors),
        Notation::Group(..) => lemma_reads_group(n, floor, rest, errors),
        Notation::Infix(..) => lemma_reads_infix(n, floor, rest, errors),
        Notation::Call(..) => lemma_reads_call(n, floor, rest, errors),
        Notation::If(..) => lemma_reads_conditional(n, floor, rest, errors),
        Notation::Function(..) => lemma_reads_function(n, floor, rest, errors),
    }
}

proof fn lemma_reads_atom(
    n: Notation,
    floor: Priority,
    rest: Seq<TokenView>,
    errors: Seq<Seq<char>>,
)
    requires
        n.respects(floor.rank()),
        n.followed_by(token_at(rest, 0)),
        floor.rank() <= 6,
        n is Atom,
    ensures
        expression_parse(before(n.tokens(), rest, errors), floor) == infix_loop(
            after(n.tokens(), rest, errors),
            floor,
            n.meaning(),
        ),
    decreases n, 2nat,
{
    let s = before(n.tokens(), rest, errors);
    let end = after(n.tokens(), rest, errors);
    lemma_first_token(n);
    match n {
        Notation::Atom(t) => {
            assert(s.cur() == t);
            assert(s.tokens =~= end.tokens);
        },
        _ => {},
    }
}

proof fn lemma_reads_prefix(
    n: Notation,
    floor: Priority,
    rest: Seq<TokenView>,
    errors: Seq<Seq<char>>,
)
    requires
        n.respects(floor.rank()),
        n.followed_by(token_at(rest, 0)),
        floor.rank() <= 6,
        n is Prefix,
    ensures
        expression_parse(before(n.tokens(), rest, errors), floor) == infix_loop(
            after(n.tokens(), rest, errors),
            floor,
            n.meaning(),
        ),
    decreases n, 2nat,
{
    let s = before(n.tokens(), rest, errors);
    let end = after(n.tokens(), rest, errors);
    lemma_first_token(n);
    match n {
        Notation::Prefix(t, x) => {
            lemma_first_token(*x);
            assert(s.cur() == t);
            assert(s.next().tokens =~= before(x.tokens(), rest, errors).tokens);
            lemma_reads_notation(*x, Priority::PREFIX, rest, errors);
            let done = after(x.tokens(), rest, errors);
            assert(done.peek() == token_at(rest, 0));
            assert(infix_loop(done, Priority::PREFIX, x.meaning()) == (Parsed {
                value: Some(x.meaning()),
                state: done,
            }));
            assert(prefix_operator_parse(s) == (Parsed { value: Some(n.meaning()), state: done }));
            assert(n.tokens().last() == x.tokens().last());
        },
        _ => {},
    }
}

proof fn lemma_reads_group(
    n: Notation,
    floor: Priority,
    rest: Seq<TokenView>,
    errors: Seq<Seq<char>>,
)
    requires
        n.respects(floor.rank()),
        n.followed_by(token_at(rest, 0)),
        floor.rank() <= 6,
        n is Group,
    ensures
        expression_parse(before(n.tokens(), rest, errors), floor) == infix_loop(
            after(n.tokens(), rest, errors),
            floor,
            n.meaning(),
        ),
    decreases n, 2nat,
{
    let s = before(n.tokens(), rest, errors);
    let end = after(n.tokens(), rest, errors);
    lemma_first_token(n);
    match n {
        Notation::Group(x) => {
            lemma_first_token(*x);
            assert(s.cur() == TokenView::LPAREN);
            let closing = seq![TokenView::RPAREN] + rest;
            assert(s.next().tokens =~= before(x.tokens(), closing, errors).tokens);
            lemma_followed_by_low(*x, TokenView::RPAREN);
            lemma_reads_notation(*x, Priority::LOWEST, closing, errors);
            let done = after(x.tokens(), closing, errors);
            assert(done.peek() == TokenView::RPAREN);
            assert(infix_loop(done, Priority::LOWEST, x.meaning()) == (Parsed {
                value: Some(x.meaning()),
                state: done,
            }));
            assert(done.next().tokens =~= end.tokens);
            assert(grouped_parse(s) == (Parsed { value: Some(n.meaning()), state: end }));
        },
        _ => {},
    }
}

#[verifier::rlimit(30)]
proof fn lemma_reads_infix(
    n: Notation,
    floor: Priority,
    rest: Seq<TokenView>,
    errors: Seq<Seq<char>>,
)
    requires
        n.respects(floor.rank()),
        n.followed_by(token_at(rest, 0)),
        floor.rank() <= 6,
        n is Infix,
    ensures
        expression_parse(before(n.tokens(), rest, errors), floor) == infix_loop(
            after(n.tokens(), rest, errors),
            floor,
            n.meaning(),
        ),
    decreases n, 2nat,
{
    let s = before(n.tokens(), rest, errors);
    let end = after(n.tokens(), rest, errors);
    lemma_first_token(n);
    match n {
        Notation::Infix(l, t, r) => {
            lemma_first_token(*l);
            lemma_first_token(*r);
            let q = priority_of(t);
            let right_rest = r.tokens() + rest;
            let left_rest = seq![t] + right_rest;
            assert(s.tokens =~= before(l.tokens(), left_rest, errors).tokens);
            lemma_reads_notation(*l, floor, left_rest, errors);
            let at_left = after(l.tokens(), left_rest, errors);
            assert(at_left.peek() == t);
            let at_operator = at_left.next();
            assert(at_operator.tokens =~= left_rest);
            assert(at_operator.cur() == t);
            assert(at_operator.next().tokens =~= before(r.tokens(), rest, errors).tokens);
            lemma_reads_notation(*r, q, rest, errors);
            let done = after(r.tokens(), rest, errors);
            assert(done.peek() == token_at(rest, 0));
            assert(infix_loop(done, q, r.meaning()) == (Parsed {
                value: Some(r.meaning()),
                state: done,
            }));
            assert(binary_parse(at_operator, l.meaning()) == (Parsed {
                value: Some(n.meaning()),
                state: done,
            }));
            assert(done.tokens.len() <= at_operator.tokens.len());
            lemma_loop_step(
                at_left,
                floor,
                l.meaning(),
                InfixParseFn::InfixExpression,
                n.meaning(),
                done,
            );
            assert(n.tokens().last() == r.tokens().last());
        },
        _ => {},
    }
}

#[verifier::rlimit(30)]
proof fn lemma_reads_call(
    n: Notation,
    floor: Priority,
    rest: Seq<TokenView>,
    errors: Seq<Seq<char>>,
)
    requires
        n.respects(floor.rank()),
        n.followed_by(token_at(rest, 0)),
        floor.rank() <= 6,
        n is Call,
    ensures
        expression_parse(before(n.tokens(), rest, errors), floor) == infix_loop(
            after(n.tokens(), rest, errors),
            floor,
            n.meaning(),
        ),
    decreases n, 2nat,
{
    let s = before(n.tokens(), rest, errors);
    let end = after(n.tokens(), rest, errors);
    lemma_first_token(n);
    match n {
        Notation::Call(c, args) => {
            lemma_first_token(*c);
            let listed = if args.len() == 0 {
                Seq::<TokenView>::empty()
            } else {
                args[0].tokens() + more_arguments(args, 1)
            };
            let closing = seq![TokenView::RPAREN] + rest;
            let callee_rest = seq![TokenView::LPAREN] + listed + closing;
            assert(s.tokens =~= before(c.tokens(), callee_rest, errors).tokens);
            lemma_reads_notation(*c, floor, callee_rest, errors);
            let at_callee = after(c.tokens(), callee_rest, errors);
            assert(at_callee.peek() == TokenView::LPAREN);
            let at_paren = at_callee.next();
            assert(at_paren.tokens =~= callee_rest);
            assert(at_paren.cur() == TokenView::LPAREN);
            let inside = at_paren.next();
            assert(inside.tokens =~= listed + closing);
            let done = state(closing, errors);
            assert(end.tokens =~= closing);
            if args.len() == 0 {
                assert(inside.tokens =~= closing);
                assert(inside.cur() is RPAREN);
                assert(arguments_meaning(args, 0) =~= Seq::<ExpressionView>::empty());
                assert(arguments_parse(at_paren) == (Parsed {
                    value: None::<Seq<ExpressionView>>,
                    state: done,
                }));
            } else {
                let first = args[0];
                lemma_argument_respects(args, args.len(), 0);
                lemma_first_token(first);
                let first_rest = more_arguments(args, 1) + closing;
                assert(inside.tokens =~= before(first.tokens(), first_rest, errors).tokens);
                assert(inside.cur() == first.tokens()[0]);
                assert(token_at(first_rest, 0) is COMMA || token_at(first_rest, 0) is RPAREN) by {
                    if args.len() > 1 {
                        assert(more_arguments(args, 1)[0] == TokenView::COMMA);
                    } else {
                        assert(more_arguments(args, 1) =~= Seq::<TokenView>::empty());
                    }
                }
                lemma_followed_by_low(first, token_at(first_rest, 0));
                lemma_reads_notation(first, Priority::LOWEST, first_rest, errors);
                let at_first = after(first.tokens(), first_rest, errors);
                assert(at_first.peek() == token_at(first_rest, 0));
                assert(infix_loop(at_first, Priority::LOWEST, first.meaning()) == (Parsed {
                    value: Some(first.meaning()),
                    state: at_first,
                }));
                assert(seq![first.meaning()] =~= arguments_meaning(args, 1)) by {
                    assert(arguments_meaning(args, 0) =~= Seq::<ExpressionView>::empty());
                }
                lemma_reads_arguments(args, 1, rest, errors);
                assert(at_first.tokens =~= seq![args[0].tokens().last()] + more_arguments(args, 1)
                    + seq![TokenView::RPAREN] + rest);
                assert(arguments_parse(at_paren) == (Parsed {
                    value: Some(arguments_meaning(args, args.len())),
                    state: done,
                }));
            }
            assert(call_parse(at_paren, c.meaning()) == (Parsed {
                value: Some(n.meaning()),
                state: done,
            }));
            assert(done.tokens.len() <= at_paren.tokens.len());
            lemma_loop_step(
                at_callee,
                floor,
                c.meaning(),
                InfixParseFn::CallExpression,
                n.meaning(),
                done,
            );
            assert(n.tokens().last() == TokenView::RPAREN);
        },
        _ => {},
    }
}

/// The tokens of a conditional without `else`, laid out part by part.
proof fn lemma_if_layout(n: Notation, rest: Seq<TokenView>)
    requires
        n is If,
        n->If_2 is None,
    ensures
        n.tokens().len() > 0,
        n.tokens().last() == TokenView::RSQUIRLY,
        n.tokens() + rest == seq![TokenView::IF, TokenView::LPAREN] + (n->If_0.tokens() + (seq![
            TokenView::RPAREN,
        ] + (seq![TokenView::LSQUIRLY] + sentences_tokens(n->If_1, 0) + seq![TokenView::RSQUIRLY]
            + rest))),
{
    let whole = seq![TokenView::IF, TokenView::LPAREN] + (n->If_0.tokens() + (seq![
        TokenView::RPAREN,
    ] + (seq![TokenView::LSQUIRLY] + sentences_tokens(n->If_1, 0) + seq![TokenView::RSQUIRLY]
        + rest)));
    assert(n.tokens() + rest =~= whole);
}

/// The tokens of a conditional with `else`, laid out part by part.
proof fn lemma_if_else_layout(n: Notation, rest: Seq<TokenView>)
    requires
        n is If,
        n->If_2 is Some,
    ensures
        n.tokens().len() > 0,
        n.tokens().last() == TokenView::RSQUIRLY,
        n.tokens() + rest == seq![TokenView::IF, TokenView::LPAREN] + (n->If_0.tokens() + (seq![
            TokenView::RPAREN,
        ] + (seq![TokenView::LSQUIRLY] + sentences_tokens(n->If_1, 0) + seq![TokenView::RSQUIRLY]
            + (seq![TokenView::ELSE] + (seq![TokenView::LSQUIRLY] + sentences_tokens(
            n->If_2->0,
            0,
        ) + seq![TokenView::RSQUIRLY] + rest))))),
{
    let whole = seq![TokenView::IF, TokenView::LPAREN] + (n->If_0.tokens() + (seq![
        TokenView::RPAREN,
    ] + (seq![TokenView::LSQUIRLY] + sentences_tokens(n->If_1, 0) + seq![TokenView::RSQUIRLY]
        + (seq![TokenView::ELSE] + (seq![TokenView::LSQUIRLY] + sentences_tokens(n->If_2->0, 0)
        + seq![TokenView::RSQUIRLY] + rest)))));
    assert(n.tokens() + rest =~= whole);
}

/// The states that reading a conditional passes through, given its tokens
/// part by part: those of the condition, then `block` for the first block and
/// all that follows it.
proof fn lemma_if_states(
    tokens: Seq<TokenView>,
    condition: Seq<TokenView>,
    block: Seq<TokenView>,
    errors: Seq<Seq<char>>,
)
    requires
        condition.len() > 0,
        block.len() > 0,
        block[0] == TokenView::LSQUIRLY,
        tokens == seq![TokenView::IF, TokenView::LPAREN] + (condition + (seq![TokenView::RPAREN]
            + block)),
    ensures
        state(tokens, errors).cur() == TokenView::IF,
        state(tokens, errors).peek() == TokenView::LPAREN,
        state(tokens, errors).next().next() == before(
            condition,
            seq![TokenView::RPAREN] + block,
            errors,
        ),
        after(condition, seq![TokenView::RPAREN] + block, errors).peek() == TokenView::RPAREN,
        after(condition, seq![TokenView::RPAREN] + block, errors).next().peek()
            == TokenView::LSQUIRLY,
        after(condition, seq![TokenView::RPAREN] + block, errors).next().next() == state(
            block,
            errors,
        ),
        after(condition, seq![TokenView::RPAREN] + block, errors).tokens.len() <= before(
            condition,
            seq![TokenView::RPAREN] + block,
            errors,
        ).tokens.len(),
{
    let s = state(tokens, errors);
    let closing = seq![TokenView::RPAREN] + block;
    assert(s.next().next().tokens =~= condition + closing);
    let s2 = after(condition, closing, errors);
    assert(s2.next().tokens =~= closing);
    assert(s2.next().next().tokens =~= block);
}

#[verifier::rlimit(30)]
proof fn lemma_reads_if_only(
    n: Notation,
    rest: Seq<TokenView>,
    errors: Seq<Seq<char>>,
)
    requires
        n.respects(0),
        n.followed_by(token_at(rest, 0)),
        n is If,
        n->If_2 is None,
    ensures
        n.tokens().len() > 0,
        if_parse(before(n.tokens(), rest, errors)) == (Parsed {
            value: Some(n.meaning()),
            state: after(n.tokens(), rest, errors),
        }),
    decreases n, 1nat,
{
    let c = n->If_0;
    let consequence = n->If_1;
    lemma_if_layout(n, rest);
    lemma_first_token(*c);
    let block = seq![TokenView::LSQUIRLY] + sentences_tokens(consequence, 0) + seq![
        TokenView::RSQUIRLY,
    ] + rest;
    let closing = seq![TokenView::RPAREN] + block;
    let s = before(n.tokens(), rest, errors);
    lemma_if_states(s.tokens, c.tokens(), block, errors);
    let s2 = after(c.tokens(), closing, errors);
    let s4 = state(seq![TokenView::RSQUIRLY] + rest, errors);
    let first_block = BlockView {
        token: TokenView::LSQUIRLY,
        statements: sentences_meaning(consequence, consequence.len()),
    };
    assert(expression_parse(s.next().next(), Priority::LOWEST) == (Parsed {
        value: Some(c.meaning()),
        state: s2,
    })) by {
        lemma_followed_by_low(*c, TokenView::RPAREN);
        lemma_parses_inner(*c, closing, errors);
    }
    assert(block_parse(s2.next().next()) == (Parsed { value: first_block, state: s4 })) by {
        lemma_reads_block(consequence, rest, errors);
    }
    assert(s4.peek() == token_at(rest, 0));
    assert(s4.tokens.len() <= s2.next().next().tokens.len());
    lemma_conditional_steps(s, c.meaning(), s2, first_block, s4);
    assert(after(n.tokens(), rest, errors) == s4);
}

#[verifier::rlimit(30)]
proof fn lemma_reads_if_else(
    n: Notation,
    rest: Seq<TokenView>,
    errors: Seq<Seq<char>>,
)
    requires
        n.respects(0),
        n is If,
        n->If_2 is Some,
    ensures
        n.tokens().len() > 0,
        if_parse(before(n.tokens(), rest, errors)) == (Parsed {
            value: Some(n.meaning()),
            state: after(n.tokens(), rest, errors),
        }),
    decreases n, 1nat,
{
    let c = n->If_0;
    let consequence = n->If_1;
    let alt = n->If_2->0;
    lemma_if_else_layout(n, rest);
    lemma_first_token(*c);
    let second = seq![TokenView::LSQUIRLY] + sentences_tokens(alt, 0) + seq![
        TokenView::RSQUIRLY,
    ] + rest;
    let after_first = seq![TokenView::ELSE] + second;
    let block = seq![TokenView::LSQUIRLY] + sentences_tokens(consequence, 0) + seq![
        TokenView::RSQUIRLY,
    ] + after_first;
    let closing = seq![TokenView::RPAREN] + block;
    let s = before(n.tokens(), rest, errors);
    lemma_if_states(s.tokens, c.tokens(), block, errors);
    let s2 = after(c.tokens(), closing, errors);
    let s4 = state(seq![TokenView::RSQUIRLY] + after_first, errors);
    let end = state(seq![TokenView::RSQUIRLY] + rest, errors);
    let first_block = BlockView {
        token: TokenView::LSQUIRLY,
        statements: sentences_meaning(consequence, consequence.len()),
    };
    let second_block = BlockView {
        token: TokenView::LSQUIRLY,
        statements: sentences_meaning(alt, alt.len()),
    };
    assert(expression_parse(s.next().next(), Priority::LOWEST) == (Parsed {
        value: Some(c.meaning()),
        state: s2,
    })) by {
        lemma_followed_by_low(*c, TokenView::RPAREN);
        lemma_parses_inner(*c, closing, errors);
    }
    assert(block_parse(s2.next().next()) == (Parsed { value: first_block, state: s4 })) by {
        lemma_reads_block(consequence, after_first, errors);
    }
    assert(s4.peek() is ELSE);
    assert(s4.next().peek() == TokenView::LSQUIRLY);
    assert(s4.next().next().tokens =~= second);
    assert(block_parse(s4.next().next()) == (Parsed { value: second_block, state: end })) by {
        lemma_reads_block(alt, rest, errors);
    }
    assert(s4.tokens.len() <= s2.next().next().tokens.len());
    lemma_conditional_steps(s, c.meaning(), s2, first_block, s4);
    assert(after(n.tokens(), rest, errors) == end);
}

#[verifier::rlimit(30)]
proof fn lemma_reads_conditional(
    n: Notation,
    floor: Priority,
    rest: Seq<TokenView>,
    errors: Seq<Seq<char>>,
)
    requires
        n.respects(floor.rank()),
        n.followed_by(token_at(rest, 0)),
        floor.rank() <= 6,
        n is If,
    ensures
        expression_parse(before(n.tokens(), rest, errors), floor) == infix_loop(
            after(n.tokens(), rest, errors),
            floor,
            n.meaning(),
        ),
    decreases n, 2nat,
{
    let s = before(n.tokens(), rest, errors);
    let end = after(n.tokens(), rest, errors);
    if n->If_2 is Some {
        lemma_reads_if_else(n, rest, errors);
    } else {
        lemma_reads_if_only(n, rest, errors);
    }
    assert(s.cur() == n.tokens()[0]);
    assert(n.tokens()[0] == TokenView::IF);
    lemma_start_step(s, floor, PrefixParseFn::IfStatement, n.meaning(), end);
}

#[verifier::rlimit(30)]
proof fn lemma_reads_function(
    n: Notation,
    floor: Priority,
    rest: Seq<TokenView>,
    errors: Seq<Seq<char>>,
)
    requires
        n.respects(floor.rank()),
        n.followed_by(token_at(rest, 0)),
        floor.rank() <= 6,
        n is Function,
    ensures
        expression_parse(before(n.tokens(), rest, errors), floor) == infix_loop(
            after(n.tokens(), rest, errors),
            floor,
            n.meaning(),
        ),
    decreases n, 2nat,
{
    let s = before(n.tokens(), rest, errors);
    let end = after(n.tokens(), rest, errors);
    lemma_first_token(n);
    match n {
        Notation::Function(names, body) => {
            let block = seq![TokenView::LSQUIRLY] + sentences_tokens(body, 0) + seq![
                TokenView::RSQUIRLY,
            ] + rest;
            let list = seq![TokenView::LPAREN] + names_tokens(names) + seq![TokenView::RPAREN]
                + block;
            assert(s.tokens =~= seq![TokenView::FUNCTION] + list);
            assert(s.cur() == TokenView::FUNCTION);
            assert(s.peek() == TokenView::LPAREN);
            let s1 = s.next();
            assert(s1.tokens =~= list);
            lemma_reads_parameters(names, block, errors);
            let s2 = state(seq![TokenView::RPAREN] + block, errors);
            assert(parameters_parse(s1).state == s2);
            assert(s2.peek() == TokenView::LSQUIRLY);
            let s3 = s2.next();
            assert(s3.tokens =~= block);
            lemma_reads_block(body, rest, errors);
            assert(end.tokens =~= seq![TokenView::RSQUIRLY] + rest);
            assert(names_meaning(names, 0) =~= Seq::<IdentifierView>::empty());
            assert(names_meaning(names, names.len()) =~= Seq::new(
                names.len(),
                |i: int| name_meaning(names[i]),
            ));
            assert(function_parse(s) == (Parsed { value: Some(n.meaning()), state: end }));
        },
        _ => {},
    }
}

/// Reading a notation between delimiters: at the lowest binding power and
/// before a token that continues no expression, it is read whole.
proof fn lemma_parses_inner(n: Notation, rest: Seq<TokenView>, errors: Seq<Seq<char>>)
    requires
        n.respects(0),
        n.followed_by(token_at(rest, 0)),
        priority_of(token_at(rest, 0)).rank() == 0,
    ensures
        expression_parse(before(n.tokens(), rest, errors), Priority::LOWEST) == (Parsed {
            value: Some(n.meaning()),
            state: after(n.tokens(), rest, errors),
        }),
    decreases n, 4nat,
{
    lemma_reads_notation(n, Priority::LOWEST, rest, errors);
    lemma_first_token(n);
    let done = after(n.tokens(), rest, errors);
    assert(done.peek() == token_at(rest, 0));
}

/// Reading the arguments of a call from the `i`-th on, after the one before.
#[verifier::rlimit(30)]
pub proof fn lemma_reads_arguments(
    args: Seq<Notation>,
    i: nat,
    rest: Seq<TokenView>,
    errors: Seq<Seq<char>>,
)
    requires
        1 <= i <= args.len(),
        arguments_respect(args, args.len()),
    ensures
        arguments_loop(
            state(
                seq![args[i - 1].tokens().last()] + more_arguments(args, i) + seq![
                    TokenView::RPAREN,
                ] + rest,
                errors,
            ),
            arguments_meaning(args, i),
        ) == (Parsed {
            value: Some(arguments_meaning(args, args.len())),
            state: state(seq![TokenView::RPAREN] + rest, errors),
        }),
    decreases args, args.len() - i,
{
    let closing = seq![TokenView::RPAREN] + rest;
    let s = state(
        seq![args[i - 1].tokens().last()] + more_arguments(args, i) + seq![TokenView::RPAREN]
            + rest,
        errors,
    );
    if i < args.len() {
        let x = args[i as int];
        lemma_argument_respects(args, args.len(), i as int);
        lemma_first_token(x);
        let x_rest = more_arguments(args, i + 1) + closing;
        assert(s.tokens =~= seq![args[i - 1].tokens().last(), TokenView::COMMA] + (x.tokens()
            + x_rest));
        assert(s.peek() is COMMA);
        let s1 = s.next().next();
        assert(s1.tokens =~= before(x.tokens(), x_rest, errors).tokens);
        assert(token_at(x_rest, 0) is COMMA || token_at(x_rest, 0) is RPAREN) by {
            if i + 1 < args.len() {
                assert(more_arguments(args, i + 1)[0] == TokenView::COMMA);
            } else {
                assert(more_arguments(args, i + 1) =~= Seq::<TokenView>::empty());
            }
        }
        lemma_followed_by_low(x, token_at(x_rest, 0));
        lemma_reads_notation(x, Priority::LOWEST, x_rest, errors);
        let at_x = after(x.tokens(), x_rest, errors);
        assert(at_x.peek() == token_at(x_rest, 0));
        assert(infix_loop(at_x, Priority::LOWEST, x.meaning()) == (Parsed {
            value: Some(x.meaning()),
            state: at_x,
        }));
        lemma_reads_arguments(args, i + 1, rest, errors);
        assert(at_x.tokens =~= seq![args[i as int].tokens().last()] + more_arguments(args, i + 1)
            + seq![TokenView::RPAREN] + rest);
        assert(arguments_meaning(args, i).push(x.meaning()) =~= arguments_meaning(args, i + 1));
    } else {
        assert(more_arguments(args, i) =~= Seq::<TokenView>::empty());
        assert(s.tokens =~= seq![args[i - 1].tokens().last(), TokenView::RPAREN] + rest);
        assert(s.peek() is RPAREN);
        assert(s.next().tokens =~= closing);
    }
}

/// Reading a sentence: the statement it denotes, and its last token as the
/// current token afterwards.
pub proof fn lemma_reads_sentence(st: Sentence, rest: Seq<TokenView>, errors: Seq<Seq<char>>)
    requires
        st.respects(token_at(rest, 0)),
    ensures
        statement_parse(before(st.tokens(), rest, errors)) == (Parsed {
            value: Some(st.meaning()),
            state: after(st.tokens(), rest, errors),
        }),
    decreases st, 1nat,
{
    match st {
        Sentence::Let(..) => lemma_reads_let_sentence(st, rest, errors),
        Sentence::Return(..) => lemma_reads_return_sentence(st, rest, errors),
        Sentence::Expression(..) => lemma_reads_expression_sentence(st, rest, errors),
        Sentence::Import(..) => lemma_reads_import_sentence(st, rest, errors),
    }
}

proof fn lemma_reads_let_sentence(st: Sentence, rest: Seq<TokenView>, errors: Seq<Seq<char>>)
    requires
        st.respects(token_at(rest, 0)),
        st is Let,
    ensures
        statement_parse(before(st.tokens(), rest, errors)) == (Parsed {
            value: Some(st.meaning()),
            state: after(st.tokens(), rest, errors),
        }),
    decreases st, 0nat,
{
    let s = before(st.tokens(), rest, errors);
    let end = after(st.tokens(), rest, errors);
    match st {
        Sentence::Let(name, v, semicolon) => {
            lemma_first_token(v);
            let v_rest = semicolon_tokens(semicolon) + rest;
            assert(s.tokens =~= seq![TokenView::LET, name, TokenView::ASSIGN] + (v.tokens()
                + v_rest));
            assert(s.cur() == TokenView::LET);
            assert(s.peek() == name);
            let s1 = s.next();
            assert(s1.cur() == name);
            assert(s1.peek() == TokenView::ASSIGN);
            let s2 = s1.next().next();
            assert(s2.tokens =~= before(v.tokens(), v_rest, errors).tokens);
            lemma_ends(v, semicolon, rest, errors);
            assert(end.tokens =~= after_semicolon(after(v.tokens(), v_rest, errors)).tokens);
        },
        _ => {},
    }
}

proof fn lemma_reads_return_sentence(st: Sentence, rest: Seq<TokenView>, errors: Seq<Seq<char>>)
    requires
        st.respects(token_at(rest, 0)),
        st is Return,
    ensures
        statement_parse(before(st.tokens(), rest, errors)) == (Parsed {
            value: Some(st.meaning()),
            state: after(st.tokens(), rest, errors),
        }),
    decreases st, 0nat,
{
    let s = before(st.tokens(), rest, errors);
    let end = after(st.tokens(), rest, errors);
    match st {
        Sentence::Return(v, semicolon) => {
            lemma_first_token(v);
            let v_rest = semicolon_tokens(semicolon) + rest;
            assert(s.tokens =~= seq![TokenView::RETURN] + (v.tokens() + v_rest));
            assert(s.cur() == TokenView::RETURN);
            assert(s.next().tokens =~= before(v.tokens(), v_rest, errors).tokens);
            lemma_ends(v, semicolon, rest, errors);
            assert(end.tokens =~= after_semicolon(after(v.tokens(), v_rest, errors)).tokens);
        },
        _ => {},
    }
}

proof fn lemma_reads_expression_sentence(st: Sentence, rest: Seq<TokenView>, errors: Seq<Seq<char>>)
    requires
        st.respects(token_at(rest, 0)),
        st is Expression,
    ensures
        statement_parse(before(st.tokens(), rest, errors)) == (Parsed {
            value: Some(st.meaning()),
            state: after(st.tokens(), rest, errors),
        }),
    decreases st, 0nat,
{
    let s = before(st.tokens(), rest, errors);
    let end = after(st.tokens(), rest, errors);
    match st {
        Sentence::Expression(v, semicolon) => {
            lemma_first_token(v);
            let v_rest = semicolon_tokens(semicolon) + rest;
            assert(s.tokens =~= before(v.tokens(), v_rest, errors).tokens);
            assert(s.cur() == v.tokens()[0]);
            lemma_ends(v, semicolon, rest, errors);
            assert(end.tokens =~= after_semicolon(after(v.tokens(), v_rest, errors)).tokens);
        },
        _ => {},
    }
}

proof fn lemma_reads_import_sentence(st: Sentence, rest: Seq<TokenView>, errors: Seq<Seq<char>>)
    requires
        st.respects(token_at(rest, 0)),
        st is Import,
    ensures
        statement_parse(before(st.tokens(), rest, errors)) == (Parsed {
            value: Some(st.meaning()),
            state: after(st.tokens(), rest, errors),
        }),
    decreases st, 0nat,
{
    let s = before(st.tokens(), rest, errors);
    let end = after(st.tokens(), rest, errors);
    match st {
        Sentence::Import(namespace) => {
            assert(s.tokens =~= seq![TokenView::IMPORT, namespace, TokenView::SEMICOLON] + rest);
            assert(s.cur() == TokenView::IMPORT);
            assert(s.peek() == namespace);
            let s1 = s.next();
            assert(s1.cur() == namespace);
            assert(s1.peek() == TokenView::SEMICOLON);
            assert(s1.next().tokens =~= end.tokens);
        },
        _ => {},
    }
}

/// Reading the expression of a sentence that is ended by its semicolon or by
/// what follows: the expression is read whole, and the semicolon is taken.
proof fn lemma_ends(v: Notation, semicolon: bool, rest: Seq<TokenView>, errors: Seq<Seq<char>>)
    requires
        v.respects(0),
        ended(semicolon, token_at(rest, 0)),
    ensures
        expression_parse(
            before(v.tokens(), semicolon_tokens(semicolon) + rest, errors),
            Priority::LOWEST,
        ) == (Parsed {
            value: Some(v.meaning()),
            state: after(v.tokens(), semicolon_tokens(semicolon) + rest, errors),
        }),
        after_semicolon(after(v.tokens(), semicolon_tokens(semicolon) + rest, errors)).tokens
            =~= (if semicolon {
            seq![TokenView::SEMICOLON] + rest
        } else {
            seq![v.tokens().last()] + rest
        }),
        after_semicolon(after(v.tokens(), semicolon_tokens(semicolon) + rest, errors)).errors
            == errors,
    decreases v, 5nat,
{
    let v_rest = semicolon_tokens(semicolon) + rest;
    let next = token_at(v_rest, 0);
    if semicolon {
        assert(next == TokenView::SEMICOLON);
    } else {
        assert(v_rest =~= rest);
    }
    lemma_followed_by_low(v, next);
    lemma_reads_notation(v, Priority::LOWEST, v_rest, errors);
    let done = after(v.tokens(), v_rest, errors);
    assert(done.peek() == next);
    if semicolon {
        assert(done.next().tokens =~= seq![TokenView::SEMICOLON] + rest);
    }
}

/// One turn of the loop over the statements of a block: where the current
/// token is neither the closing brace nor the end of input and the statement
/// that starts there is `statement`, the loop goes on after it.
proof fn lemma_block_step(
    s: ParseState,
    found: Seq<StatementView>,
    statement: StatementView,
    then: ParseState,
)
    requires
        !(s.cur() is RSQUIRLY),
        !(s.cur() is EOF),
        statement_parse(s) == (Parsed { value: Some(statement), state: then }),
        then.tokens.len() <= s.tokens.len(),
    ensures
        block_loop(s, found) == block_loop(then.next(), found.push(statement)),
{
}

/// The token that follows the `i`-th sentence in the token sequence is the
/// one that [`token_after`] names.
proof fn lemma_token_after(sentences: Seq<Sentence>, i: nat, closing: Seq<TokenView>)
    requires
        i < sentences.len(),
        sentences_respect(sentences, sentences.len(), token_at(closing, 0)),
    ensures
        token_at(sentences_tokens(sentences, i + 1) + closing, 0) == token_after(
            sentences,
            i as int,
            token_at(closing, 0),
        ),
        sentences_tokens(sentences, i) + closing == sentences[i as int].tokens() + (
        sentences_tokens(sentences, i + 1) + closing),
{
    if i + 1 < sentences.len() {
        let following = sentences[i as int + 1];
        lemma_sentence_respects(sentences, sentences.len(), token_at(closing, 0), i as int + 1);
        lemma_sentence_first(following, token_after(sentences, i as int + 1, token_at(closing, 0)));
        assert(sentences_tokens(sentences, i + 1)[0] == following.tokens()[0]);
    } else {
        assert(sentences_tokens(sentences, i + 1) =~= Seq::<TokenView>::empty());
        assert(sentences_tokens(sentences, i + 1) + closing =~= closing);
    }
    assert(sentences_tokens(sentences, i) + closing =~= sentences[i as int].tokens() + (
    sentences_tokens(sentences, i + 1) + closing));
}

/// Reading the sentences of a block from the `i`-th on, up to the closing
/// brace.
#[verifier::rlimit(30)]
pub proof fn lemma_reads_sentences(
    sentences: Seq<Sentence>,
    i: nat,
    rest: Seq<TokenView>,
    errors: Seq<Seq<char>>,
)
    requires
        i <= sentences.len(),
        sentences_respect(sentences, sentences.len(), TokenView::RSQUIRLY),
    ensures
        block_loop(
            state(sentences_tokens(sentences, i) + (seq![TokenView::RSQUIRLY] + rest), errors),
            sentences_meaning(sentences, i),
        ) == (Parsed {
            value: sentences_meaning(sentences, sentences.len()),
            state: state(seq![TokenView::RSQUIRLY] + rest, errors),
        }),
    decreases sentences, sentences.len() - i,
{
    let closing = seq![TokenView::RSQUIRLY] + rest;
    let s = state(sentences_tokens(sentences, i) + closing, errors);
    if i < sentences.len() {
        let st = sentences[i as int];
        let st_rest = sentences_tokens(sentences, i + 1) + closing;
        lemma_sentence_respects(sentences, sentences.len(), TokenView::RSQUIRLY, i as int);
        lemma_sentence_first(st, token_after(sentences, i as int, TokenView::RSQUIRLY));
        lemma_token_after(sentences, i, closing);
        lemma_reads_sentence(st, st_rest, errors);
        let done = after(st.tokens(), st_rest, errors);
        assert(s == before(st.tokens(), st_rest, errors));
        assert(s.cur() == st.first_token());
        assert(done.next().tokens =~= st_rest);
        assert(sentences_meaning(sentences, i).push(st.meaning()) =~= sentences_meaning(
            sentences,
            i + 1,
        ));
        lemma_block_step(s, sentences_meaning(sentences, i), st.meaning(), done);
        lemma_reads_sentences(sentences, i + 1, rest, errors);
    } else {
        assert(sentences_tokens(sentences, i) =~= Seq::<TokenView>::empty());
        assert(s.tokens =~= closing);
        assert(s.cur() is RSQUIRLY);
    }
}

/// Reading a block: its statements, and the closing brace as the current
/// token afterwards.
pub proof fn lemma_reads_block(
    sentences: Seq<Sentence>,
    rest: Seq<TokenView>,
    errors: Seq<Seq<char>>,
)
    requires
        sentences_respect(sentences, sentences.len(), TokenView::RSQUIRLY),
    ensures
        block_parse(
            state(
                seq![TokenView::LSQUIRLY] + sentences_tokens(sentences, 0) + seq![
                    TokenView::RSQUIRLY,
                ] + rest,
                errors,
            ),
        ) == (Parsed {
            value: BlockView {
                token: TokenView::LSQUIRLY,
                statements: sentences_meaning(sentences, sentences.len()),
            },
            state: state(seq![TokenView::RSQUIRLY] + rest, errors),
        }),
    decreases sentences, sentences.len() + 1,
{
    let s = state(
        seq![TokenView::LSQUIRLY] + sentences_tokens(sentences, 0) + seq![TokenView::RSQUIRLY]
            + rest,
        errors,
    );
    assert(s.cur() == TokenView::LSQUIRLY);
    assert(s.next().tokens =~= sentences_tokens(sentences, 0) + (seq![TokenView::RSQUIRLY]
        + rest));
    assert(sentences_meaning(sentences, 0) =~= Seq::<StatementView>::empty());
    lemma_reads_sentences(sentences, 0, rest, errors);
    let done = state(seq![TokenView::RSQUIRLY] + rest, errors);
    assert(done.cur() is RSQUIRLY);
}

/// Parsing a notation that has the parentheses it needs yields its meaning
/// and no diagnostic, and stops at its last token: for every notation, at
/// every binding power that it respects, before every token that does not
/// continue it.
pub proof fn lemma_parses_notation(
    n: Notation,
    floor: Priority,
    rest: Seq<TokenView>,
    errors: Seq<Seq<char>>,
)
    requires
        n.respects(floor.rank()),
        n.followed_by(token_at(rest, 0)),
        priority_of(token_at(rest, 0)).rank() <= floor.rank(),
        floor.rank() <= 6,
    ensures
        expression_parse(before(n.tokens(), rest, errors), floor) == (Parsed {
            value: Some(n.meaning()),
            state: after(n.tokens(), rest, errors),
        }),
{
    lemma_reads_notation(n, floor, rest, errors);
    lemma_first_token(n);
    let done = after(n.tokens(), rest, errors);
    assert(done.peek() == token_at(rest, 0));
}

/// One turn of the loop over the statements of a program.
proof fn lemma_program_step(
    s: ParseState,
    found: Seq<StatementView>,
    statement: StatementView,
    then: ParseState,
)
    requires
        !(s.cur() is EOF),
        statement_parse(s) == (Parsed { value: Some(statement), state: then }),
        then.tokens.len() <= s.tokens.len(),
    ensures
        program_loop(s, found) == program_loop(then.next(), found.push(statement)),
{
}

/// Reading the sentences of a program from the `i`-th on, up to the end of
/// input.
#[verifier::rlimit(30)]
pub proof fn lemma_reads_program(sentences: Seq<Sentence>, i: nat, errors: Seq<Seq<char>>)
    requires
        i <= sentences.len(),
        sentences_respect(sentences, sentences.len(), TokenView::EOF),
    ensures
        program_loop(state(sentences_tokens(sentences, i), errors), sentences_meaning(sentences, i))
            == (Parsed {
            value: sentences_meaning(sentences, sentences.len()),
            state: state(Seq::empty(), errors),
        }),
    decreases sentences.len() - i,
{
    let closing = Seq::<TokenView>::empty();
    let s = state(sentences_tokens(sentences, i), errors);
    if i < sentences.len() {
        let st = sentences[i as int];
        let st_rest = sentences_tokens(sentences, i + 1);
        assert(token_at(closing, 0) == TokenView::EOF);
        lemma_sentence_respects(sentences, sentences.len(), TokenView::EOF, i as int);
        lemma_sentence_first(st, token_after(sentences, i as int, TokenView::EOF));
        lemma_token_after(sentences, i, closing);
        assert(sentences_tokens(sentences, i + 1) + closing =~= st_rest);
        assert(sentences_tokens(sentences, i) + closing =~= sentences_tokens(sentences, i));
        lemma_reads_sentence(st, st_rest, errors);
        let done = after(st.tokens(), st_rest, errors);
        assert(s == before(st.tokens(), st_rest, errors));
        assert(s.cur() == st.first_token());
        assert(done.next().tokens =~= st_rest);
        assert(sentences_meaning(sentences, i).push(st.meaning()) =~= sentences_meaning(
            sentences,
            i + 1,
        ));
        lemma_program_step(s, sentences_meaning(sentences, i), st.meaning(), done);
        lemma_reads_program(sentences, i + 1, errors);
    } else {
        assert(sentences_tokens(sentences, i) =~= Seq::<TokenView>::empty());
    }
}

/// Parsing a program as written yields the statements that its sentences
/// denote, in order, and no diagnostic: for every sequence of well-formed
/// sentences, each of them ended by a semicolon or by a token that does not
/// continue it.
pub proof fn lemma_parses_program(sentences: Seq<Sentence>)
    requires
        sentences_respect(sentences, sentences.len(), TokenView::EOF),
    ensures
        program_parse(state(sentences_tokens(sentences, 0), Seq::empty())) == (Parsed {
            value: ProgramView { statements: sentences_meaning(sentences, sentences.len()) },
            state: state(Seq::empty(), Seq::empty()),
        }),
{
    assert(sentences_meaning(sentences, 0) =~= Seq::<StatementView>::empty());
    lemma_reads_program(sentences, 0, Seq::empty());
}

/// A `let` of a name to an integer literal, written with a semicolon, is
/// parsed without a diagnostic to one statement, and the text of that
/// statement is the source text without the semicolon: `let`, the name, `=`
/// and the digits, separated by single spaces.
pub proof fn lemma_let_round_trip(name: Seq<char>, digits: Seq<char>)
    requires
        integer_of(digits) is Some,
    ensures
        ({
            let parsed = program_parse(
                state(
                    seq![
                        TokenView::LET,
                        TokenView::IDENT(name),
                        TokenView::ASSIGN,
                        TokenView::INT(digits),
                        TokenView::SEMICOLON,
                    ],
                    Seq::empty(),
                ),
            );
            &&& parsed.state.errors == Seq::<Seq<char>>::empty()
            &&& parsed.value.statements.len() == 1
            &&& statement_text(parsed.value.statements[0]) == "let"@ + " "@ + name + " = "@
                + digits
        }),
{
    let value = Notation::Atom(TokenView::INT(digits));
    let sentence = Sentence::Let(TokenView::IDENT(name), value, true);
    let sentences = seq![sentence];
    assert(sentence.respects(TokenView::EOF));
    assert(sentences_respect(sentences, 0, TokenView::EOF));
    assert(sentences_respect(sentences, 1, TokenView::EOF));
    lemma_parses_program(sentences);
    assert(sentences_tokens(sentences, 1) =~= Seq::<TokenView>::empty());
    assert(value.tokens() =~= seq![TokenView::INT(digits)]);
    assert(sentence.tokens() =~= seq![
        TokenView::LET,
        TokenView::IDENT(name),
        TokenView::ASSIGN,
        TokenView::INT(digits),
        TokenView::SEMICOLON,
    ]);
    assert(sentences[0] == sentence);
    assert(sentences_tokens(sentences, 0) =~= sentence.tokens() + sentences_tokens(sentences, 1));
    assert(sentences_tokens(sentences, 0) =~= seq![
        TokenView::LET,
        TokenView::IDENT(name),
        TokenView::ASSIGN,
        TokenView::INT(digits),
        TokenView::SEMICOLON,
    ]);
    assert(sentences_meaning(sentences, 0) =~= Seq::<StatementView>::empty());
    assert(sentences_meaning(sentences, 1) =~= seq![sentence.meaning()]);
}

} // verus!
