//! The meaning of the language, as functions on mathematical values.
//!
//! Values are [`ObjectView`]s, syntax is given by the views of the tree, and an
//! environment is an [`EnvironmentView`]. Evaluating a node yields an
//! [`Outcome`]: the value and the environment afterwards.

use crate::ast::{BlockView, ExpressionView, IdentifierView, NodeView, ProgramView, StatementView};
use crate::object::{type_label, Builtin, EnvironmentView, FunctionView, ObjectView};
use crate::token::TokenView;
use crate::text::text_before;
use vstd::prelude::*;

verus! {

/// Truthiness: null is false, a boolean is itself, an integer is true unless
/// it is zero, a return signal is as true as the value it carries, and every
/// other value is true.
pub open spec fn truthy(o: ObjectView) -> bool
    decreases o,
{
    match o {
        ObjectView::Null => false,
        ObjectView::Boolean(b) => b,
        ObjectView::Integer(i) => i != 0,
        ObjectView::ReturnValue(r) => truthy(*r),
        _ => true,
    }
}

/// Structural equality. Two closures count as equal when they agree in the
/// number of parameters and of statements in the body.
pub open spec fn same_value(a: ObjectView, b: ObjectView) -> bool
    decreases a,
{
    match (a, b) {
        (ObjectView::Integer(x), ObjectView::Integer(y)) => x == y,
        (ObjectView::Boolean(x), ObjectView::Boolean(y)) => x == y,
        (ObjectView::String(x), ObjectView::String(y)) => x == y,
        (ObjectView::ReturnValue(x), ObjectView::ReturnValue(y)) => same_value(*x, *y),
        (ObjectView::Null, ObjectView::Null) => true,
        (ObjectView::Error(x), ObjectView::Error(y)) => x == y,
        (ObjectView::Function(f), ObjectView::Function(g)) => f.parameters.len()
            == g.parameters.len() && f.body.statements.len() == g.body.statements.len(),
        (ObjectView::Builtin(x), ObjectView::Builtin(y)) => x == y,
        _ => false,
    }
}

/// The place of a value's variant in the order of variants.
pub open spec fn variant_rank(o: ObjectView) -> int {
    match o {
        ObjectView::Integer(_) => 0,
        ObjectView::Boolean(_) => 1,
        ObjectView::String(_) => 2,
        ObjectView::ReturnValue(_) => 3,
        ObjectView::Null => 4,
        ObjectView::Error(_) => 5,
        ObjectView::Function(_) => 6,
        ObjectView::Builtin(_) => 7,
    }
}

/// Structural order: whether `a` comes strictly before `b`. Values of one
/// variant are ordered by what they hold (integers by size, `false` before
/// `true`, texts lexicographically; no closure comes before another, and no
/// builtin); values of different variants by the order of the variants.
pub open spec fn value_before(a: ObjectView, b: ObjectView) -> bool
    decreases a,
{
    match (a, b) {
        (ObjectView::Integer(x), ObjectView::Integer(y)) => x < y,
        (ObjectView::Boolean(x), ObjectView::Boolean(y)) => !x && y,
        (ObjectView::String(x), ObjectView::String(y)) => text_before(x, y),
        (ObjectView::ReturnValue(x), ObjectView::ReturnValue(y)) => value_before(*x, *y),
        (ObjectView::Null, ObjectView::Null) => false,
        (ObjectView::Error(x), ObjectView::Error(y)) => text_before(x, y),
        (ObjectView::Function(_), ObjectView::Function(_)) => false,
        (ObjectView::Builtin(_), ObjectView::Builtin(_)) => false,
        _ => variant_rank(a) < variant_rank(b),
    }
}

/// The value of `!right`.
pub open spec fn bang(right: ObjectView) -> ObjectView {
    match right {
        ObjectView::Boolean(b) => ObjectView::Boolean(!b),
        ObjectView::Null => ObjectView::Boolean(true),
        _ => ObjectView::Boolean(false),
    }
}

/// Whether an integer fits in 32 bits.
pub open spec fn fits(i: int) -> bool {
    i32::MIN <= i <= i32::MAX
}

/// The integer value `i` if it fits in 32 bits, else the overflow error.
pub open spec fn integer_value(i: int) -> ObjectView {
    if fits(i) {
        ObjectView::Integer(i as i32)
    } else {
        ObjectView::Error("integer overflow"@)
    }
}

/// The value of `-right`.
pub open spec fn minus(right: ObjectView) -> ObjectView {
    match right {
        ObjectView::Integer(i) => integer_value(-(i as int)),
        _ => ObjectView::Error("unknown operator: -"@ + type_label(right)),
    }
}

/// The value of a prefix operator applied to a value.
pub open spec fn prefix_value(op: Seq<char>, right: ObjectView) -> ObjectView {
    if op == "!"@ {
        bang(right)
    } else if op == "-"@ {
        minus(right)
    } else {
        ObjectView::Error("unknown operator: "@ + op + type_label(right))
    }
}

/// The message of an error about a binary operator: the prefix, then the left
/// operand, the operator and the right operand, separated by spaces.
pub open spec fn operands_message(
    prefix: Seq<char>,
    left: Seq<char>,
    op: Seq<char>,
    right: Seq<char>,
) -> Seq<char> {
    prefix + left + " "@ + op + " "@ + right
}

/// The absolute value of an integer.
pub open spec fn magnitude(i: int) -> int {
    if i < 0 {
        -i
    } else {
        i
    }
}

/// Division that truncates toward zero.
pub open spec fn truncated_quotient(l: int, r: int) -> int
    recommends
        r != 0,
{
    if (l < 0) == (r < 0) {
        magnitude(l) / magnitude(r)
    } else {
        -(magnitude(l) / magnitude(r))
    }
}

/// The value of `l / r`.
pub open spec fn quotient_value(l: int, r: int) -> ObjectView {
    if r == 0 {
        ObjectView::Error("division by zero"@)
    } else {
        integer_value(truncated_quotient(l, r))
    }
}

/// `base` raised to the power `exponent`.
pub open spec fn power(base: int, exponent: nat) -> int
    decreases exponent,
{
    if exponent == 0 {
        1
    } else {
        base * power(base, (exponent - 1) as nat)
    }
}

/// The value of `base ** exponent`: an error for a negative exponent.
pub open spec fn power_value(base: int, exponent: int) -> ObjectView {
    if exponent < 0 {
        ObjectView::Error("unknown operator: INTEGER ** INTEGER"@)
    } else {
        integer_value(power(base, exponent as nat))
    }
}

/// The value of a binary operator applied to two integers.
pub open spec fn integer_infix(op: Seq<char>, l: i32, r: i32) -> ObjectView {
    if op == "+"@ {
        integer_value(l + r)
    } else if op == "-"@ {
        integer_value(l - r)
    } else if op == "*"@ {
        integer_value(l * r)
    } else if op == "/"@ {
        quotient_value(l as int, r as int)
    } else if op == "**"@ {
        power_value(l as int, r as int)
    } else if op == "<"@ {
        ObjectView::Boolean(l < r)
    } else if op == ">"@ {
        ObjectView::Boolean(l > r)
    } else if op == "=="@ {
        ObjectView::Boolean(l == r)
    } else if op == "!="@ {
        ObjectView::Boolean(l != r)
    } else {
        ObjectView::Error(operands_message("unknown operator: "@, "INTEGER"@, op, "INTEGER"@))
    }
}

/// The value of a binary operator applied to two booleans: equality and
/// inequality are defined, every other operator is unknown.
pub open spec fn boolean_infix(op: Seq<char>, l: bool, r: bool) -> ObjectView {
    if op == "=="@ {
        ObjectView::Boolean(l == r)
    } else if op == "!="@ {
        ObjectView::Boolean(l != r)
    } else {
        ObjectView::Error(operands_message("unknown operator: "@, "BOOLEAN"@, op, "BOOLEAN"@))
    }
}

/// Whether two values are of the same type: of the same variant.
pub open spec fn same_type(l: ObjectView, r: ObjectView) -> bool {
    variant_rank(l) == variant_rank(r)
}

/// The value of a binary operator applied to two strings.
pub open spec fn string_infix(op: Seq<char>, l: Seq<char>, r: Seq<char>) -> ObjectView {
    if op == "+"@ {
        ObjectView::String(l + r)
    } else {
        ObjectView::Error(operands_message("unknown operator: "@, "STRING"@, op, "STRING"@))
    }
}

/// The value of a binary operator applied to two values. Equality and order
/// are defined for all values. For every other operator, operands of
/// different types are a type mismatch; for two integers it is arithmetic,
/// for two strings concatenation, and for two values of any other type the
/// operator is unknown.
pub open spec fn infix_value(op: Seq<char>, l: ObjectView, r: ObjectView) -> ObjectView {
    if op == "=="@ {
        ObjectView::Boolean(same_value(l, r))
    } else if op == "!="@ {
        ObjectView::Boolean(!same_value(l, r))
    } else if op == "<"@ {
        ObjectView::Boolean(value_before(l, r))
    } else if op == ">"@ {
        ObjectView::Boolean(value_before(r, l))
    } else if !same_type(l, r) {
        ObjectView::Error(operands_message("type mismatch: "@, type_label(l), op, type_label(r)))
    } else {
        match (l, r) {
            (ObjectView::Integer(x), ObjectView::Integer(y)) => integer_infix(op, x, y),
            (ObjectView::String(x), ObjectView::String(y)) => string_infix(op, x, y),
            (ObjectView::Boolean(x), ObjectView::Boolean(y)) => boolean_infix(op, x, y),
            _ => ObjectView::Error(
                operands_message("unknown operator: "@, type_label(l), op, type_label(r)),
            ),
        }
    }
}

/// What evaluating a node yields: its value and the environment afterwards.
pub struct Outcome {
    pub value: ObjectView,
    pub env: EnvironmentView,
}

/// What evaluating a list of expressions yields: their values and the
/// environment afterwards.
pub struct ValuesOutcome {
    pub values: Seq<ObjectView>,
    pub env: EnvironmentView,
}

/// The builtin that `name` denotes in the namespace `std.string`.
pub open spec fn string_builtin(name: Seq<char>) -> Option<Builtin> {
    if name == "len"@ {
        Some(Builtin::StringLen)
    } else {
        None
    }
}

/// The builtin that `name` denotes in `env`: one of a namespace that was
/// imported in the current frame or one of its ancestors.
pub open spec fn builtin_named(name: Seq<char>, env: EnvironmentView) -> Option<ObjectView> {
    if env.imported(env.current, "std.string"@) {
        match string_builtin(name) {
            Some(b) => Some(ObjectView::Builtin(b)),
            None => None,
        }
    } else {
        None
    }
}

/// The value of a builtin applied to arguments.
pub open spec fn builtin_value(b: Builtin, args: Seq<ObjectView>) -> ObjectView {
    match b {
        Builtin::StringLen => if args.len() != 1 {
            ObjectView::Error("wrong number of arguments"@)
        } else {
            match args[0] {
                ObjectView::String(s) => integer_value(vstd::utf8::encode_utf8(s).len() as int),
                other => ObjectView::Error(
                    "std.string.len must be passed a STRING, got "@ + type_label(other),
                ),
            }
        },
    }
}

/// The value of a name: its binding in the nearest frame that has one, else
/// the builtin of that name, else an error.
pub open spec fn identifier_value(name: Seq<char>, env: EnvironmentView) -> ObjectView {
    match env.lookup(env.current, name) {
        Some(v) => v,
        None => match builtin_named(name, env) {
            Some(b) => b,
            None => ObjectView::Error("unknown identifier: "@ + name),
        },
    }
}

/// The environment after binding the parameters from the `i`-th on to the
/// arguments at the same positions, in the current frame.
pub open spec fn bind_parameters(
    env: EnvironmentView,
    params: Seq<IdentifierView>,
    args: Seq<ObjectView>,
    i: nat,
) -> EnvironmentView
    decreases args.len() - i,
{
    if i >= args.len() || i >= params.len() {
        env
    } else {
        bind_parameters(env.bind(params[i as int].value, args[i as int]), params, args, i + 1)
    }
}

/// The value that a call hands to its caller: what a return signal carries,
/// or the value itself.
pub open spec fn unwrapped(o: ObjectView) -> ObjectView {
    match o {
        ObjectView::ReturnValue(v) => *v,
        other => other,
    }
}

/// Whether a value ends the evaluation of a sequence of statements: a return
/// signal or an error.
pub open spec fn stops(o: ObjectView) -> bool {
    o is ReturnValue || o is Error
}

/// The outcome of evaluating an expression in `env`, with `depth` nested
/// calls still allowed.
#[verifier::opaque]
pub open spec fn expression_outcome(e: ExpressionView, env: EnvironmentView, depth: nat) -> Outcome
    decreases depth, e, 0nat,
{
    match e {
        ExpressionView::Empty => Outcome { value: ObjectView::Null, env },
        ExpressionView::IntegerLiteral { value, .. } => Outcome {
            value: ObjectView::Integer(value),
            env,
        },
        ExpressionView::Boolean { value, .. } => Outcome { value: ObjectView::Boolean(value), env },
        ExpressionView::StringLiteral(sl) => Outcome { value: ObjectView::String(sl.value), env },
        ExpressionView::Identifier(id) => Outcome { value: identifier_value(id.value, env), env },
        ExpressionView::Prefix { operator, right, .. } => {
            let r = expression_outcome(*right, env, depth);
            if r.value is Error {
                r
            } else {
                Outcome { value: prefix_value(operator, r.value), env: r.env }
            }
        },
        ExpressionView::Infix { left, operator, right, .. } => {
            let l = expression_outcome(*left, env, depth);
            let r = expression_outcome(*right, l.env, depth);
            if l.value is Error {
                Outcome { value: l.value, env: r.env }
            } else if r.value is Error {
                r
            } else {
                Outcome { value: infix_value(operator, l.value, r.value), env: r.env }
            }
        },
        ExpressionView::If { condition, consequence, alternative, .. } => {
            let c = expression_outcome(*condition, env, depth);
            if c.value is Error {
                c
            } else if truthy(c.value) {
                block_outcome(consequence, c.env, depth)
            } else {
                match alternative {
                    Some(alt) => block_outcome(alt, c.env, depth),
                    None => Outcome { value: ObjectView::Null, env: c.env },
                }
            }
        },
        ExpressionView::Function { parameters, body, .. } => Outcome {
            value: ObjectView::Function(FunctionView { parameters, body, env: env.current }),
            env,
        },
        ExpressionView::Call { function, arguments, .. } => {
            let f = expression_outcome(*function, env, depth);
            if f.value is Error {
                f
            } else {
                let a = arguments_outcome(arguments, 0, f.env, depth, Seq::empty());
                if a.values.len() > 0 && a.values[0] is Error {
                    Outcome { value: a.values[0], env: a.env }
                } else {
                    match f.value {
                        ObjectView::Function(fv) => {
                            if a.values.len() != fv.parameters.len() {
                                Outcome {
                                    value: ObjectView::Error("wrong number of arguments"@),
                                    env: a.env,
                                }
                            } else if depth == 0 {
                                Outcome {
                                    value: ObjectView::Error("call depth exceeded"@),
                                    env: a.env,
                                }
                            } else {
                                let inner = bind_parameters(
                                    a.env.enclose(fv.env),
                                    fv.parameters,
                                    a.values,
                                    0,
                                );
                                let r = block_outcome(fv.body, inner, (depth - 1) as nat);
                                Outcome { value: unwrapped(r.value), env: r.env.at(a.env.current) }
                            }
                        },
                        ObjectView::Builtin(b) => Outcome {
                            value: builtin_value(b, a.values),
                            env: a.env,
                        },
                        other => Outcome {
                            value: ObjectView::Error("not a function: "@ + type_label(other)),
                            env: a.env,
                        },
                    }
                }
            }
        },
    }
}

/// The outcome of evaluating the expressions from the `i`-th on, from left to
/// right, after `done` holds the values of those before. The first error ends
/// the evaluation, and the list then holds that error alone.
pub open spec fn arguments_outcome(
    args: Seq<ExpressionView>,
    i: nat,
    env: EnvironmentView,
    depth: nat,
    done: Seq<ObjectView>,
) -> ValuesOutcome
    decreases depth, args, args.len() - i,
{
    if i >= args.len() {
        ValuesOutcome { values: done, env }
    } else {
        let r = expression_outcome(args[i as int], env, depth);
        if r.value is Error {
            ValuesOutcome { values: seq![r.value], env: r.env }
        } else {
            arguments_outcome(args, i + 1, r.env, depth, done.push(r.value))
        }
    }
}

/// The outcome of evaluating a statement.
#[verifier::opaque]
pub open spec fn statement_outcome(s: StatementView, env: EnvironmentView, depth: nat) -> Outcome
    decreases depth, s, 0nat,
{
    match s {
        StatementView::Expression { expression, .. } => expression_outcome(expression, env, depth),
        StatementView::Return { return_val, .. } => {
            let r = expression_outcome(return_val, env, depth);
            if r.value is Error {
                r
            } else {
                Outcome { value: ObjectView::ReturnValue(Box::new(r.value)), env: r.env }
            }
        },
        StatementView::Let { name, value, .. } => match value {
            Some(v) => {
                let r = expression_outcome(v, env, depth);
                if r.value is Error {
                    r
                } else {
                    Outcome { value: r.value, env: r.env.bind(name.value, r.value) }
                }
            },
            None => Outcome {
                value: ObjectView::Error("variable does not have initial value: "@ + name.value),
                env,
            },
        },
        StatementView::Import { namespace, .. } => Outcome {
            value: ObjectView::Null,
            env: env.import(namespace.value),
        },
    }
}

/// The outcome of evaluating the statements from the `i`-th on, in order,
/// after the one before had the value `last`. A return signal or an error
/// ends the evaluation and is the value of the sequence; otherwise the value
/// is that of the last statement.
pub open spec fn statements_outcome(
    stmts: Seq<StatementView>,
    i: nat,
    env: EnvironmentView,
    depth: nat,
    last: ObjectView,
) -> Outcome
    decreases depth, stmts, stmts.len() - i,
{
    if i >= stmts.len() {
        Outcome { value: last, env }
    } else {
        let r = statement_outcome(stmts[i as int], env, depth);
        if stops(r.value) {
            r
        } else {
            statements_outcome(stmts, i + 1, r.env, depth, r.value)
        }
    }
}

/// The outcome of evaluating a block: that of its statements; null for an
/// empty block. A return signal stays wrapped.
pub open spec fn block_outcome(b: BlockView, env: EnvironmentView, depth: nat) -> Outcome
    decreases depth, b, 0nat,
{
    statements_outcome(b.statements, 0, env, depth, ObjectView::Null)
}

/// The outcome of evaluating a program: that of its statements, with a return
/// signal replaced by the value it carries.
pub open spec fn program_outcome(p: ProgramView, env: EnvironmentView, depth: nat) -> Outcome {
    let r = statements_outcome(p.statements, 0, env, depth, ObjectView::Null);
    Outcome { value: unwrapped(r.value), env: r.env }
}

/// The outcome of evaluating any node.
pub open spec fn node_outcome(n: NodeView, env: EnvironmentView, depth: nat) -> Outcome {
    match n {
        NodeView::Program(p) => program_outcome(p, env, depth),
        NodeView::Statement(s) => statement_outcome(s, env, depth),
        NodeView::Expression(e) => expression_outcome(e, env, depth),
        NodeView::BlockStatement(b) => block_outcome(b, env, depth),
    }
}

/// How evaluation may change an environment: it stays well-formed, the
/// current frame is the same afterwards, no frame is removed, and no frame
/// but the current one changes; the current frame keeps its parent.
#[verifier::opaque]
pub open spec fn evolves(before: EnvironmentView, after: EnvironmentView) -> bool {
    &&& after.wf()
    &&& after.current == before.current
    &&& after.frames.len() >= before.frames.len()
    &&& forall|i: int|
        0 <= i < before.frames.len() && i != before.current ==> #[trigger] after.frames[i]
            == before.frames[i]
    &&& after.frames[before.current as int].parent == before.frames[before.current as int].parent
}

/// An integer literal evaluates to the integer it denotes: in every
/// environment, at every depth, and without changing the environment. So does
/// a program that consists of the literal alone.
pub proof fn lemma_integer_literal(token: TokenView, n: i32, env: EnvironmentView, depth: nat)
    ensures
        expression_outcome(ExpressionView::IntegerLiteral { token, value: n }, env, depth)
            == (Outcome { value: ObjectView::Integer(n), env }),
        program_outcome(
            ProgramView {
                statements: seq![
                    StatementView::Expression {
                        token,
                        expression: ExpressionView::IntegerLiteral { token, value: n },
                    },
                ],
            },
            env,
            depth,
        ) == (Outcome { value: ObjectView::Integer(n), env }),
{
    reveal(expression_outcome);
    reveal(statement_outcome);
    let literal = ExpressionView::IntegerLiteral { token, value: n };
    let statements = seq![StatementView::Expression { token, expression: literal }];
    reveal_with_fuel(statements_outcome, 2);
    assert(statements[0] == StatementView::Expression { token, expression: literal });
}

/// Where the statement at position `i` yields an error or a return signal,
/// that outcome is the outcome of the whole sequence from `i` on: no later
/// statement is evaluated.
pub proof fn lemma_signal_ends_sequence(
    stmts: Seq<StatementView>,
    i: nat,
    env: EnvironmentView,
    depth: nat,
    last: ObjectView,
)
    requires
        i < stmts.len(),
        stops(statement_outcome(stmts[i as int], env, depth).value),
    ensures
        statements_outcome(stmts, i, env, depth, last) == statement_outcome(
            stmts[i as int],
            env,
            depth,
        ),
{
    reveal(statement_outcome);
}

/// An error among the operands of an operator is the value of the whole
/// expression: the operator is not applied.
pub proof fn lemma_error_passes_operators(
    token: TokenView,
    operator: Seq<char>,
    left: ExpressionView,
    right: ExpressionView,
    env: EnvironmentView,
    depth: nat,
)
    ensures
        ({
            let l = expression_outcome(left, env, depth);
            let r = expression_outcome(right, l.env, depth);
            let whole = expression_outcome(
                ExpressionView::Infix {
                    token,
                    left: Box::new(left),
                    operator,
                    right: Box::new(right),
                },
                env,
                depth,
            );
            &&& l.value is Error ==> whole.value == l.value
            &&& !(l.value is Error) && r.value is Error ==> whole.value == r.value
        }),
        ({
            let r = expression_outcome(right, env, depth);
            let whole = expression_outcome(
                ExpressionView::Prefix { token, operator, right: Box::new(right) },
                env,
                depth,
            );
            r.value is Error ==> whole == r
        }),
{
    reveal(expression_outcome);
}

/// Operands of different types are a type mismatch, whichever side each
/// type stands on: for every operator but the four that compare.
pub proof fn lemma_type_mismatch(op: Seq<char>, l: ObjectView, r: ObjectView)
    requires
        !same_type(l, r),
        op != "=="@,
        op != "!="@,
        op != "<"@,
        op != ">"@,
    ensures
        infix_value(op, l, r) == ObjectView::Error(
            operands_message("type mismatch: "@, type_label(l), op, type_label(r)),
        ),
        infix_value(op, r, l) == ObjectView::Error(
            operands_message("type mismatch: "@, type_label(r), op, type_label(l)),
        ),
{
}

/// A function literal evaluates to a closure over the current frame and
/// leaves the environment as it is.
pub proof fn lemma_closure_scope(
    token: TokenView,
    parameters: Seq<IdentifierView>,
    body: BlockView,
    env: EnvironmentView,
    depth: nat,
)
    ensures
        expression_outcome(ExpressionView::Function { token, parameters, body }, env, depth)
            == (Outcome {
            value: ObjectView::Function(FunctionView { parameters, body, env: env.current }),
            env,
        }),
{
    reveal(expression_outcome);
}

/// A call of a closure with as many arguments as it has parameters, at a
/// depth above zero, evaluates the body in a new child of the frame that the
/// closure was defined in, whatever frame the caller is in, and makes the
/// caller's frame current again. The value is that of the body, without the
/// wrapping of a return signal.
pub proof fn lemma_call_of_closure(
    token: TokenView,
    function: ExpressionView,
    arguments: Seq<ExpressionView>,
    env: EnvironmentView,
    depth: nat,
)
    requires
        depth > 0,
        expression_outcome(function, env, depth).value is Function,
        ({
            let f = expression_outcome(function, env, depth);
            let a = arguments_outcome(arguments, 0, f.env, depth, Seq::empty());
            &&& !(a.values.len() > 0 && a.values[0] is Error)
            &&& a.values.len() == f.value->Function_0.parameters.len()
        }),
    ensures
        ({
            let f = expression_outcome(function, env, depth);
            let closure = f.value->Function_0;
            let a = arguments_outcome(arguments, 0, f.env, depth, Seq::empty());
            let inner = bind_parameters(
                a.env.enclose(closure.env),
                closure.parameters,
                a.values,
                0,
            );
            let body = block_outcome(closure.body, inner, (depth - 1) as nat);
            expression_outcome(
                ExpressionView::Call { token, function: Box::new(function), arguments },
                env,
                depth,
            ) == (Outcome { value: unwrapped(body.value), env: body.env.at(a.env.current) })
        }),
{
    reveal(expression_outcome);
}

/// What [`evolves`] says, spelled out.
pub proof fn lemma_evolves_facts(before: EnvironmentView, after: EnvironmentView)
    requires
        evolves(before, after),
    ensures
        after.wf(),
        after.current == before.current,
        after.frames.len() >= before.frames.len(),
        forall|i: int|
            0 <= i < before.frames.len() && i != before.current ==> #[trigger] after.frames[i]
                == before.frames[i],
        after.frames[before.current as int].parent == before.frames[before.current as int].parent,
{
    reveal(evolves);
}

/// A well-formed environment evolves to itself.
pub proof fn lemma_evolves_refl(env: EnvironmentView)
    requires
        env.wf(),
    ensures
        evolves(env, env),
{
    reveal(evolves);
}

/// Evolution composes.
pub proof fn lemma_evolves_trans(a: EnvironmentView, b: EnvironmentView, c: EnvironmentView)
    requires
        a.wf(),
        evolves(a, b),
        evolves(b, c),
    ensures
        evolves(a, c),
{
    reveal(evolves);
}

/// Binding a name in the current frame, or importing a namespace there, is an
/// evolution.
pub proof fn lemma_evolves_current(before: EnvironmentView, after: EnvironmentView)
    requires
        before.wf(),
        after.wf(),
        after.current == before.current,
        after.frames.len() == before.frames.len(),
        after.frames[before.current as int].parent == before.frames[before.current as int].parent,
        forall|i: int|
            0 <= i < before.frames.len() && i != before.current ==> #[trigger] after.frames[i]
                == before.frames[i],
    ensures
        evolves(before, after),
{
    reveal(evolves);
}

/// A call is an evolution of the caller's environment: the callee works in a
/// new frame, and the caller's frame is current again afterwards.
pub proof fn lemma_evolves_call(
    before: EnvironmentView,
    parent: nat,
    bound: EnvironmentView,
    after: EnvironmentView,
)
    requires
        before.wf(),
        parent < before.frames.len(),
        bound.wf(),
        bound.current == before.frames.len(),
        bound.frames.len() == before.frames.len() + 1,
        forall|i: int| 0 <= i < before.frames.len() ==> #[trigger] bound.frames[i] == before.frames[i],
        evolves(bound, after),
    ensures
        evolves(before, after.at(before.current)),
{
    reveal(evolves);
    assert(after.at(before.current).frames == after.frames);
}

/// One more factor: `power(b, k + 1)` is `power(b, k) * b`.
pub proof fn lemma_power_step(base: int, k: nat)
    ensures
        power(base, k + 1) == power(base, k) * base,
{
    assert(power(base, k + 1) == base * power(base, k));
    assert(base * power(base, k) == power(base, k) * base) by (nonlinear_arith);
}

/// The powers of 0, 1 and -1.
pub proof fn lemma_power_of_unit(base: int, e: nat)
    requires
        base == 0 || base == 1 || base == -1,
    ensures
        base == 1 ==> power(base, e) == 1,
        base == 0 ==> power(base, e) == (if e == 0 {
            1int
        } else {
            0int
        }),
        base == -1 ==> power(base, e) == (if e % 2 == 0 {
            1int
        } else {
            -1int
        }),
    decreases e,
{
    if e > 0 {
        lemma_power_of_unit(base, (e - 1) as nat);
    }
}

/// Where the magnitude of the base is at least two, each further factor at
/// least doubles the magnitude of the power.
pub proof fn lemma_power_doubles(base: int, j: nat, k: nat)
    requires
        magnitude(base) >= 2,
        j < k,
    ensures
        magnitude(power(base, k)) >= 2 * magnitude(power(base, j)),
        magnitude(power(base, j)) >= 1,
    decreases k,
{
    let p = power(base, (k - 1) as nat);
    assert(magnitude(base * p) == magnitude(base) * magnitude(p)) by (nonlinear_arith);
    if j == k - 1 {
        if j > 0 {
            lemma_power_doubles(base, (j - 1) as nat, j);
        }
        assert(magnitude(base) * magnitude(p) >= 2 * magnitude(p)) by (nonlinear_arith)
            requires
                magnitude(base) >= 2,
                magnitude(p) >= 0,
        ;
    } else {
        lemma_power_doubles(base, j, (k - 1) as nat);
        assert(magnitude(base) * magnitude(p) >= 2 * magnitude(p)) by (nonlinear_arith)
            requires
                magnitude(base) >= 2,
                magnitude(p) >= 0,
        ;
    }
}

/// Once a power of a base of magnitude at least two has left the 32-bit
/// range, every later power is outside it too.
pub proof fn lemma_power_overflow(base: int, j: nat, e: nat)
    requires
        magnitude(base) >= 2,
        j <= e,
        !fits(power(base, j)),
    ensures
        !fits(power(base, e)),
{
    if j < e {
        lemma_power_doubles(base, j, e);
    }
}

} // verus!
