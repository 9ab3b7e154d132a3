//! The evaluator: walks the syntax tree against an environment and produces a
//! value.
//!
//! The meaning of every node is defined in [`crate::semantics`]; the functions
//! here are proved to compute exactly those values.

use crate::ast::{
    arguments_view, clone_identifiers, lemma_block_view, lemma_call_view, BlockStatement,
    Expression, Node, Program, Statement,
};
use crate::object::{
    closures_within, get_type, lemma_closures_within_more, Builtin, Environment, Function, Object,
    ObjectView,
};
use crate::semantics::{
    arguments_outcome, bang, bind_parameters, block_outcome, boolean_infix, builtin_named,
    builtin_value, evolves, expression_outcome, infix_value, integer_infix, lemma_evolves_call,
    lemma_evolves_current, lemma_evolves_facts, lemma_evolves_refl, lemma_evolves_trans,
    lemma_power_of_unit,
    lemma_power_overflow, lemma_power_step, minus, node_outcome, operands_message, power,
    power_value, prefix_value, program_outcome, quotient_value, same_value, statement_outcome,
    statements_outcome, stops, string_builtin, string_infix, truthy, unwrapped, value_before,
    variant_rank,
};
use crate::text::{comes_before, same_text};
use vstd::prelude::*;
use vstd::string::StringExecFns;

verus! {

fn error_with(message: &str, detail: &str) -> (r: Object)
    ensures
        r@ == ObjectView::Error(message@ + detail@),
        closures_within(r@, 0),
{
    let mut m = String::from_str(message);
    m.append(detail);
    Object::Error(m)
}

fn operator_error(prefix: &str, left: &str, op: &str, right: &str) -> (r: Object)
    ensures
        r@ == ObjectView::Error(operands_message(prefix@, left@, op@, right@)),
        closures_within(r@, 0),
{
    let mut m = String::from_str(prefix);
    m.append(left);
    m.append(" ");
    m.append(op);
    m.append(" ");
    m.append(right);
    Object::Error(m)
}

/// Whether a value counts as true in a condition.
pub fn is_truthy(condition: &Object) -> (r: bool)
    ensures
        r == truthy(condition@),
    decreases condition,
{
    match condition {
        Object::Null => false,
        Object::Boolean(b) => *b,
        Object::Integer(i) => *i != 0,
        Object::ReturnValue(r) => is_truthy(&**r),
        _ => true,
    }
}

/// Structural equality of two values.
pub fn object_eq(left: &Object, right: &Object) -> (r: bool)
    ensures
        r == same_value(left@, right@),
    decreases left,
{
    match (left, right) {
        (Object::Integer(a), Object::Integer(b)) => *a == *b,
        (Object::Boolean(a), Object::Boolean(b)) => *a == *b,
        (Object::String(a), Object::String(b)) => same_text(a.as_str(), b.as_str()),
        (Object::ReturnValue(a), Object::ReturnValue(b)) => object_eq(&**a, &**b),
        (Object::Null, Object::Null) => true,
        (Object::Error(a), Object::Error(b)) => same_text(a.as_str(), b.as_str()),
        (Object::Function(f), Object::Function(g)) => f.parameters.len() == g.parameters.len()
            && f.body.statements.len() == g.body.statements.len(),
        (Object::Builtin(a), Object::Builtin(b)) => match (a, b) {
            (Builtin::StringLen, Builtin::StringLen) => true,
        },
        _ => false,
    }
}

fn variant_index(o: &Object) -> (r: u8)
    ensures
        r == variant_rank(o@),
{
    match o {
        Object::Integer(_) => 0,
        Object::Boolean(_) => 1,
        Object::String(_) => 2,
        Object::ReturnValue(_) => 3,
        Object::Null => 4,
        Object::Error(_) => 5,
        Object::Function(_) => 6,
        Object::Builtin(_) => 7,
    }
}

/// The structural order of two values: whether `left` comes strictly before
/// `right`.
pub fn object_lt(left: &Object, right: &Object) -> (r: bool)
    ensures
        r == value_before(left@, right@),
    decreases left,
{
    match (left, right) {
        (Object::Integer(a), Object::Integer(b)) => *a < *b,
        (Object::Boolean(a), Object::Boolean(b)) => !*a && *b,
        (Object::String(a), Object::String(b)) => comes_before(a.as_str(), b.as_str()),
        (Object::ReturnValue(a), Object::ReturnValue(b)) => object_lt(&**a, &**b),
        (Object::Null, Object::Null) => false,
        (Object::Error(a), Object::Error(b)) => comes_before(a.as_str(), b.as_str()),
        (Object::Function(_), Object::Function(_)) => false,
        (Object::Builtin(_), Object::Builtin(_)) => false,
        _ => variant_index(left) < variant_index(right),
    }
}

/// Logical negation: `true` for `false` and for null, `false` for every other
/// value.
pub fn eval_bang(right: &Object) -> (r: Object)
    ensures
        r@ == bang(right@),
        closures_within(r@, 0),
{
    match right {
        Object::Boolean(b) => Object::Boolean(!*b),
        Object::Null => Object::Boolean(true),
        _ => Object::Boolean(false),
    }
}

/// Arithmetic negation of an integer; an error for any other value and for the
/// one integer whose negation does not fit.
pub fn eval_minus(right: &Object) -> (r: Object)
    ensures
        r@ == minus(right@),
        closures_within(r@, 0),
{
    match right {
        Object::Integer(i) => checked(0i32.checked_sub(*i)),
        _ => {
            let t = get_type(right);
            error_with("unknown operator: -", t.as_str())
        },
    }
}

/// Applies a prefix operator to the value of its operand.
pub fn eval_prefix_expression(op: &str, right: &Object) -> (r: Object)
    ensures
        r@ == prefix_value(op@, right@),
        closures_within(r@, 0),
{
    if same_text(op, "!") {
        eval_bang(right)
    } else if same_text(op, "-") {
        eval_minus(right)
    } else {
        let t = get_type(right);
        let mut m = String::from_str("unknown operator: ");
        m.append(op);
        m.append(t.as_str());
        Object::Error(m)
    }
}

fn checked(v: Option<i32>) -> (r: Object)
    ensures
        r@ == match v {
            Some(i) => ObjectView::Integer(i),
            None => ObjectView::Error("integer overflow"@),
        },
        closures_within(r@, 0),
{
    match v {
        Some(i) => Object::Integer(i),
        None => Object::Error(String::from_str("integer overflow")),
    }
}

fn divide(left: i32, right: i32) -> (r: Object)
    ensures
        r@ == quotient_value(left as int, right as int),
        closures_within(r@, 0),
{
    if right == 0 {
        return Object::Error(String::from_str("division by zero"));
    }
    let al: u64 = if left < 0 {
        (-(left as i64)) as u64
    } else {
        left as u64
    };
    let ar: u64 = if right < 0 {
        (-(right as i64)) as u64
    } else {
        right as u64
    };
    let q: u64 = al / ar;
    assert(q <= al) by (nonlinear_arith)
        requires
            q == al / ar,
            ar >= 1,
    ;
    let signed: i64 = if (left < 0) == (right < 0) {
        q as i64
    } else {
        -(q as i64)
    };
    if signed > i32::MAX as i64 {
        Object::Error(String::from_str("integer overflow"))
    } else {
        Object::Integer(signed as i32)
    }
}

fn raise(base: i32, exponent: i32) -> (r: Object)
    ensures
        r@ == power_value(base as int, exponent as int),
        closures_within(r@, 0),
{
    if exponent < 0 {
        return Object::Error(String::from_str("unknown operator: INTEGER ** INTEGER"));
    }
    let e: u32 = exponent as u32;
    if base == 0 || base == 1 || base == -1 {
        proof {
            lemma_power_of_unit(base as int, e as nat);
        }
        if e == 0 || base == 1 {
            return Object::Integer(1);
        }
        if base == 0 {
            return Object::Integer(0);
        }
        return Object::Integer(
            if e % 2 == 0 {
                1
            } else {
                -1
            },
        );
    }
    let mut acc: i32 = 1;
    let mut k: u32 = 0;
    while k < e
        invariant
            k <= e,
            e == exponent,
            acc == power(base as int, k as nat),
            base != 0 && base != 1 && base != -1,
        decreases e - k,
    {
        match acc.checked_mul(base) {
            Some(next) => {
                assert(next == power(base as int, (k + 1) as nat)) by {
                    lemma_power_step(base as int, k as nat);
                }
                acc = next;
            },
            None => {
                proof {
                    lemma_power_step(base as int, k as nat);
                    lemma_power_overflow(base as int, (k + 1) as nat, e as nat);
                }
                return Object::Error(String::from_str("integer overflow"));
            },
        }
        k += 1;
    }
    Object::Integer(acc)
}

/// Applies a binary operator to two integers.
pub fn eval_infix_int_expression(op: &str, left: i32, right: i32) -> (r: Object)
    ensures
        r@ == integer_infix(op@, left, right),
        closures_within(r@, 0),
{
    if same_text(op, "+") {
        checked(left.checked_add(right))
    } else if same_text(op, "-") {
        checked(left.checked_sub(right))
    } else if same_text(op, "*") {
        checked(left.checked_mul(right))
    } else if same_text(op, "/") {
        divide(left, right)
    } else if same_text(op, "**") {
        raise(left, right)
    } else if same_text(op, "<") {
        Object::Boolean(left < right)
    } else if same_text(op, ">") {
        Object::Boolean(left > right)
    } else if same_text(op, "==") {
        Object::Boolean(left == right)
    } else if same_text(op, "!=") {
        Object::Boolean(left != right)
    } else {
        operator_error("unknown operator: ", "INTEGER", op, "INTEGER")
    }
}

/// Applies a binary operator to two booleans: equality and inequality are
/// defined, every other operator is an error.
pub fn eval_infix_bool_expression(op: &str, left: bool, right: bool) -> (r: Object)
    ensures
        r@ == boolean_infix(op@, left, right),
        closures_within(r@, 0),
{
    if same_text(op, "==") {
        Object::Boolean(left == right)
    } else if same_text(op, "!=") {
        Object::Boolean(left != right)
    } else {
        operator_error("unknown operator: ", "BOOLEAN", op, "BOOLEAN")
    }
}

/// Applies a binary operator to two strings: `+` concatenates, every other
/// operator is an error.
pub fn eval_infix_string_expression(op: &str, left: &str, right: &str) -> (r: Object)
    ensures
        r@ == string_infix(op@, left@, right@),
        closures_within(r@, 0),
{
    if same_text(op, "+") {
        let mut s = String::from_str(left);
        s.append(right);
        Object::String(s)
    } else {
        operator_error("unknown operator: ", "STRING", op, "STRING")
    }
}

/// Applies a binary operator to the values of its operands. Operands of
/// different types are a type mismatch for every operator but `==`, `!=`, `<`
/// and `>`, whichever side each type stands on.
pub fn eval_infix_expression(op: &str, left: &Object, right: &Object) -> (r: Object)
    ensures
        r@ == infix_value(op@, left@, right@),
        closures_within(r@, 0),
{
    if same_text(op, "==") {
        Object::Boolean(object_eq(left, right))
    } else if same_text(op, "!=") {
        Object::Boolean(!object_eq(left, right))
    } else if same_text(op, "<") {
        Object::Boolean(object_lt(left, right))
    } else if same_text(op, ">") {
        Object::Boolean(object_lt(right, left))
    } else if variant_index(left) != variant_index(right) {
        let lt = get_type(left);
        let rt = get_type(right);
        operator_error("type mismatch: ", lt.as_str(), op, rt.as_str())
    } else {
        match (left, right) {
            (Object::Integer(l), Object::Integer(r)) => eval_infix_int_expression(op, *l, *r),
            (Object::String(l), Object::String(r)) => eval_infix_string_expression(
                op,
                l.as_str(),
                r.as_str(),
            ),
            (Object::Boolean(l), Object::Boolean(r)) => eval_infix_bool_expression(op, *l, *r),
            _ => {
                let lt = get_type(left);
                let rt = get_type(right);
                operator_error("unknown operator: ", lt.as_str(), op, rt.as_str())
            },
        }
    }
}

/// The number of nested calls that [`eval`] allows.
pub const MAX_CALL_DEPTH: usize = 256;

/// The values of a list of objects, in order.
pub open spec fn objects_view(v: Seq<Object>) -> Seq<ObjectView> {
    Seq::new(v.len(), |i: int| v[i]@)
}

/// Whether every closure in each of the values refers to one of the first
/// `frames` frames.
pub open spec fn all_within(v: Seq<Object>, frames: nat) -> bool {
    forall|i: int| 0 <= i < v.len() ==> closures_within(#[trigger] v[i]@, frames)
}

fn is_error(o: &Object) -> (r: bool)
    ensures
        r == (o@ is Error),
{
    match o {
        Object::Error(_) => true,
        _ => false,
    }
}

fn is_signal(o: &Object) -> (r: bool)
    ensures
        r == stops(o@),
{
    match o {
        Object::Error(_) => true,
        Object::ReturnValue(_) => true,
        _ => false,
    }
}

fn unwrap_return(o: Object) -> (r: Object)
    ensures
        r@ == unwrapped(o@),
{
    match o {
        Object::ReturnValue(v) => *v,
        other => other,
    }
}

/// The builtin of the namespace `std.string` that `f` names.
pub fn get_std_string_func(f: &str) -> (r: Option<Builtin>)
    ensures
        r == string_builtin(f@),
{
    if same_text(f, "len") {
        Some(Builtin::StringLen)
    } else {
        None
    }
}

/// The builtin that `f` names in `env`, if a namespace that holds it was
/// imported in the current frame or one of its ancestors.
pub fn get_std_func(f: &str, env: &Environment) -> (r: Option<Object>)
    requires
        env.wf(),
    ensures
        match r {
            Some(o) => builtin_named(f@, env@) == Some(o@),
            None => builtin_named(f@, env@) is None,
        },
{
    if env.has_import("std.string") {
        match get_std_string_func(f) {
            Some(b) => Some(Object::Builtin(b)),
            None => None,
        }
    } else {
        None
    }
}

/// Applies a builtin to the values of its arguments.
pub fn apply_builtin(b: Builtin, args: &Vec<Object>) -> (r: Object)
    ensures
        r@ == builtin_value(b, objects_view(args@)),
        closures_within(r@, 0),
{
    match b {
        Builtin::StringLen => {
            if args.len() != 1 {
                return Object::Error(String::from_str("wrong number of arguments"));
            }
            assert(objects_view(args@)[0] == args@[0]@);
            match &args[0] {
                Object::String(s) => {
                    let n = s.as_str().as_bytes().len();
                    if n > i32::MAX as usize {
                        Object::Error(String::from_str("integer overflow"))
                    } else {
                        Object::Integer(n as i32)
                    }
                },
                other => {
                    let t = get_type(other);
                    error_with("std.string.len must be passed a STRING, got ", t.as_str())
                },
            }
        },
    }
}

/// Evaluates an expression in the current frame of `env`, with `depth` nested
/// calls still allowed.
pub fn eval_expression(e: &Expression, env: &mut Environment, depth: usize) -> (r: Object)
    requires
        old(env).wf(),
    ensures
        r@ == expression_outcome(e@, old(env)@, depth as nat).value,
        final(env)@ == expression_outcome(e@, old(env)@, depth as nat).env,
        final(env).wf(),
        evolves(old(env)@, final(env)@),
        closures_within(r@, final(env)@.frames.len()),
    decreases depth, 1nat, e,
{
    proof {
        reveal(expression_outcome);
        lemma_evolves_refl(env@);
    }
    let ghost start = env@;
    match e {
        Expression::IntegerLiteral(i) => Object::Integer(i.value),
        Expression::Boolean(b) => Object::Boolean(b.value),
        Expression::StringLiteral(s) => Object::String(s.value.clone()),
        Expression::PrefixExpression(pe) => {
            let right = eval_expression(&*pe.right, env, depth);
            if is_error(&right) {
                right
            } else {
                let r = eval_prefix_expression(pe.operator.as_str(), &right);
                proof {
                    lemma_closures_within_more(r@, 0, env@.frames.len());
                }
                r
            }
        },
        Expression::InfixExpression(ie) => {
            let left = eval_expression(&*ie.left, env, depth);
            let ghost mid = env@;
            let right = eval_expression(&*ie.right, env, depth);
            proof {
                lemma_evolves_trans(start, mid, env@);
            }
            if is_error(&left) {
                left
            } else if is_error(&right) {
                right
            } else {
                let r = eval_infix_expression(ie.operator.as_str(), &left, &right);
                proof {
                    lemma_closures_within_more(r@, 0, env@.frames.len());
                }
                r
            }
        },
        Expression::IfExpression(ie) => {
            let condition = eval_expression(&*ie.condition, env, depth);
            let ghost mid = env@;
            if is_error(&condition) {
                condition
            } else if is_truthy(&condition) {
                let r = eval_block_statement(&ie.consequence, env, depth);
                proof {
                    lemma_evolves_trans(start, mid, env@);
                }
                r
            } else {
                match &ie.alternative {
                    Some(alt) => {
                        let r = eval_block_statement(alt, env, depth);
                        proof {
                            lemma_evolves_trans(start, mid, env@);
                        }
                        r
                    },
                    None => Object::Null,
                }
            }
        },
        Expression::Identifier(i) => {
            match env.get(&i.value) {
                Some(v) => v,
                None => match get_std_func(i.value.as_str(), env) {
                    Some(f) => f,
                    None => error_with("unknown identifier: ", i.value.as_str()),
                },
            }
        },
        Expression::FunctionLiteral(fl) => {
            Object::Function(
                Function {
                    parameters: clone_identifiers(&fl.parameters),
                    body: fl.body.clone(),
                    env: env.current_frame(),
                },
            )
        },
        Expression::CallExpression(ce) => {
            proof {
                lemma_call_view(ce);
            }
            let function = eval_expression(&*ce.function, env, depth);
            if is_error(&function) {
                return function;
            }
            let ghost mid = env@;
            let args = eval_expressions(&ce.arguments, env, depth);
            let ghost ready = env@;
            proof {
                lemma_evolves_trans(start, mid, ready);
                lemma_evolves_facts(mid, ready);
                lemma_closures_within_more(function@, mid.frames.len(), ready.frames.len());
            }
            if args.len() > 0 && is_error(&args[0]) {
                assert(objects_view(args@)[0] == args@[0]@);
                return args[0].clone();
            }
            assert(args@.len() > 0 ==> objects_view(args@)[0] == args@[0]@);
            match function {
                Object::Function(f) => {
                    if args.len() != f.parameters.len() {
                        Object::Error(String::from_str("wrong number of arguments"))
                    } else if depth == 0 {
                        Object::Error(String::from_str("call depth exceeded"))
                    } else {
                        let r = call_function(&f, &args, env, depth - 1);
                        proof {
                            lemma_evolves_trans(start, ready, env@);
                        }
                        r
                    }
                },
                Object::Builtin(b) => {
                    let r = apply_builtin(b, &args);
                    proof {
                        lemma_closures_within_more(r@, 0, env@.frames.len());
                    }
                    r
                },
                other => {
                    let t = get_type(&other);
                    error_with("not a function: ", t.as_str())
                },
            }
        },
        Expression::Empty => Object::Null,
    }
}

/// Calls a closure: binds its parameters to the arguments in a new child of
/// the frame it was defined in, evaluates its body there with `remaining`
/// nested calls allowed, and returns to the frame of the caller.
fn call_function(f: &Function, args: &Vec<Object>, env: &mut Environment, remaining: usize) -> (r:
    Object)
    requires
        old(env).wf(),
        f.env < old(env)@.frames.len(),
        args@.len() == f.parameters@.len(),
        all_within(args@, old(env)@.frames.len()),
    ensures
        r@ == unwrapped(
            block_outcome(
                f@.body,
                bind_parameters(
                    old(env)@.enclose(f@.env),
                    f@.parameters,
                    objects_view(args@),
                    0,
                ),
                remaining as nat,
            ).value,
        ),
        final(env)@ == block_outcome(
            f@.body,
            bind_parameters(old(env)@.enclose(f@.env), f@.parameters, objects_view(args@), 0),
            remaining as nat,
        ).env.at(old(env)@.current),
        final(env).wf(),
        evolves(old(env)@, final(env)@),
        closures_within(r@, final(env)@.frames.len()),
    decreases remaining, 2nat, f,
{
    let ghost before = env@;
    let saved = env.enter(f.env);
    let ghost entered = env@;
    let ghost values = objects_view(args@);
    proof {
        assert forall|j: int| 0 <= j < args@.len() implies closures_within(
            #[trigger] args@[j]@,
            entered.frames.len(),
        ) by {
            lemma_closures_within_more(args@[j]@, before.frames.len(), entered.frames.len());
        }
    }
    let mut i: usize = 0;
    while i < args.len()
        invariant
            i <= args@.len(),
            args@.len() == f.parameters@.len(),
            values == objects_view(args@),
            env.wf(),
            env@.current == entered.current,
            env@.frames.len() == entered.frames.len(),
            forall|j: int|
                0 <= j < entered.frames.len() && j != entered.current ==> #[trigger] env@.frames[j]
                    == entered.frames[j],
            all_within(args@, env@.frames.len()),
            bind_parameters(env@, f@.parameters, values, i as nat) == bind_parameters(
                entered,
                f@.parameters,
                values,
                0,
            ),
        decreases args@.len() - i,
    {
        assert(closures_within(args@[i as int]@, env@.frames.len()));
        assert(f@.parameters[i as int].value == f.parameters@[i as int].value@);
        assert(values[i as int] == args@[i as int]@);
        env.set(f.parameters[i].value.clone(), args[i].clone());
        i += 1;
    }
    let ghost bound = env@;
    let ret = eval_block_statement(&f.body, env, remaining);
    let ghost done = env@;
    proof {
        lemma_evolves_facts(bound, done);
        lemma_evolves_call(before, f.env as nat, bound, done);
    }
    env.leave(saved);
    unwrap_return(ret)
}

/// Evaluates the expressions from left to right. The result holds their
/// values, or, where one of them is an error, that error alone.
pub fn eval_expressions(exps: &Vec<Box<Expression>>, env: &mut Environment, depth: usize) -> (r:
    Vec<Object>)
    requires
        old(env).wf(),
    ensures
        objects_view(r@) == arguments_outcome(
            arguments_view(exps@),
            0,
            old(env)@,
            depth as nat,
            Seq::empty(),
        ).values,
        final(env)@ == arguments_outcome(
            arguments_view(exps@),
            0,
            old(env)@,
            depth as nat,
            Seq::empty(),
        ).env,
        final(env).wf(),
        evolves(old(env)@, final(env)@),
        all_within(r@, final(env)@.frames.len()),
    decreases depth, 1nat, exps,
{
    let mut objs: Vec<Object> = Vec::new();
    let mut i: usize = 0;
    let ghost start = env@;
    let ghost views = arguments_view(exps@);
    proof {
        assert(objects_view(objs@) =~= Seq::<ObjectView>::empty());
        lemma_evolves_refl(start);
    }
    while i < exps.len()
        invariant
            i <= exps@.len(),
            views == arguments_view(exps@),
            start == old(env)@,
            start.wf(),
            env.wf(),
            evolves(start, env@),
            all_within(objs@, env@.frames.len()),
            arguments_outcome(views, i as nat, env@, depth as nat, objects_view(objs@))
                == arguments_outcome(views, 0, start, depth as nat, Seq::empty()),
        decreases exps@.len() - i,
    {
        proof {
            reveal(expression_outcome);
        }
        let ghost before = env@;
        let ghost done = objects_view(objs@);
        assert(views[i as int] == exps@[i as int]@);
        let evaluated = eval_expression(&*exps[i], env, depth);
        proof {
            lemma_evolves_trans(start, before, env@);
            lemma_evolves_facts(before, env@);
        }
        if is_error(&evaluated) {
            let mut only: Vec<Object> = Vec::new();
            only.push(evaluated);
            assert(objects_view(only@) =~= seq![evaluated@]);
            return only;
        }
        proof {
            assert forall|j: int| 0 <= j < objs@.len() implies closures_within(
                #[trigger] objs@[j]@,
                env@.frames.len(),
            ) by {
                lemma_closures_within_more(objs@[j]@, before.frames.len(), env@.frames.len());
            }
        }
        objs.push(evaluated);
        assert(objects_view(objs@) =~= done.push(evaluated@));
        i += 1;
    }
    objs
}

fn bind_value(env: &mut Environment, name: &String, value: &Object)
    requires
        old(env).wf(),
        closures_within(value@, old(env)@.frames.len()),
    ensures
        final(env).wf(),
        final(env)@ == old(env)@.bind(name@, value@),
        evolves(old(env)@, final(env)@),
{
    env.set(name.clone(), value.clone());
    proof {
        lemma_evolves_current(old(env)@, env@);
    }
}

fn register_import(env: &mut Environment, namespace: &String)
    requires
        old(env).wf(),
    ensures
        final(env).wf(),
        final(env)@ == old(env)@.import(namespace@),
        evolves(old(env)@, final(env)@),
{
    env.add_import(namespace.clone());
    proof {
        lemma_evolves_current(old(env)@, env@);
    }
}

/// Evaluates a statement in the current frame of `env`.
pub fn eval_statement(s: &Statement, env: &mut Environment, depth: usize) -> (r: Object)
    requires
        old(env).wf(),
    ensures
        r@ == statement_outcome(s@, old(env)@, depth as nat).value,
        final(env)@ == statement_outcome(s@, old(env)@, depth as nat).env,
        final(env).wf(),
        evolves(old(env)@, final(env)@),
        closures_within(r@, final(env)@.frames.len()),
    decreases depth, 1nat, s,
{
    proof {
        reveal(statement_outcome);
        reveal(expression_outcome);
        lemma_evolves_refl(env@);
    }
    let ghost start = env@;
    match s {
        Statement::ExpressionStatement(es) => eval_expression(&es.expression, env, depth),
        Statement::ReturnStatement(rs) => {
            let val = eval_expression(&rs.return_val, env, depth);
            if is_error(&val) {
                val
            } else {
                Object::ReturnValue(Box::new(val))
            }
        },
        Statement::LetStatement(ls) => {
            match &ls.value {
                Some(value) => {
                    let val = eval_expression(value, env, depth);
                    if is_error(&val) {
                        val
                    } else {
                        let ghost mid = env@;
                        bind_value(env, &ls.name.value, &val);
                        proof {
                            lemma_evolves_trans(start, mid, env@);
                        }
                        val
                    }
                },
                None => error_with("variable does not have initial value: ", ls.name.value.as_str()),
            }
        },
        Statement::ImportStatement(is) => {
            register_import(env, &is.namespace.value);
            Object::Null
        },
    }
}

/// Evaluates the statements of a block in order. A return signal or an error
/// ends the evaluation and is returned as it is.
pub fn eval_block_statement(bs: &BlockStatement, env: &mut Environment, depth: usize) -> (r:
    Object)
    requires
        old(env).wf(),
    ensures
        r@ == block_outcome(bs@, old(env)@, depth as nat).value,
        final(env)@ == block_outcome(bs@, old(env)@, depth as nat).env,
        final(env).wf(),
        evolves(old(env)@, final(env)@),
        closures_within(r@, final(env)@.frames.len()),
    decreases depth, 1nat, bs,
{
    let mut result: Object = Object::Null;
    let mut i: usize = 0;
    let ghost start = env@;
    let ghost views = bs@.statements;
    proof {
        lemma_block_view(bs);
        lemma_evolves_refl(start);
    }
    while i < bs.statements.len()
        invariant
            i <= bs.statements@.len(),
            views == bs@.statements,
            views.len() == bs.statements@.len(),
            start == old(env)@,
            start.wf(),
            env.wf(),
            evolves(start, env@),
            closures_within(result@, env@.frames.len()),
            statements_outcome(views, i as nat, env@, depth as nat, result@) == statements_outcome(
                views,
                0,
                start,
                depth as nat,
                ObjectView::Null,
            ),
        decreases bs.statements@.len() - i,
    {
        proof {
            reveal(statement_outcome);
        }
        let ghost before = env@;
        assert(views[i as int] == bs.statements@[i as int]@);
        result = eval_statement(&bs.statements[i], env, depth);
        proof {
            lemma_evolves_trans(start, before, env@);
        }
        if is_signal(&result) {
            return result;
        }
        i += 1;
    }
    result
}

/// Evaluates the statements of a program in order. An error ends the
/// evaluation and is returned; a return signal ends it too, and the value it
/// carries is returned.
pub fn eval_program(p: &Program, env: &mut Environment, depth: usize) -> (r: Object)
    requires
        old(env).wf(),
    ensures
        r@ == program_outcome(p@, old(env)@, depth as nat).value,
        final(env)@ == program_outcome(p@, old(env)@, depth as nat).env,
        final(env).wf(),
        evolves(old(env)@, final(env)@),
        closures_within(r@, final(env)@.frames.len()),
{
    let mut result: Object = Object::Null;
    let mut i: usize = 0;
    let ghost start = env@;
    let ghost views = p@.statements;
    proof {
        lemma_evolves_refl(start);
    }
    while i < p.statements.len()
        invariant
            i <= p.statements@.len(),
            views == p@.statements,
            views.len() == p.statements@.len(),
            start == old(env)@,
            start.wf(),
            env.wf(),
            evolves(start, env@),
            closures_within(result@, env@.frames.len()),
            statements_outcome(views, i as nat, env@, depth as nat, result@) == statements_outcome(
                views,
                0,
                start,
                depth as nat,
                ObjectView::Null,
            ),
        decreases p.statements@.len() - i,
    {
        proof {
            reveal(statement_outcome);
        }
        let ghost before = env@;
        assert(views[i as int] == p.statements@[i as int]@);
        result = eval_statement(&p.statements[i], env, depth);
        proof {
            lemma_evolves_trans(start, before, env@);
        }
        if is_signal(&result) {
            return unwrap_return(result);
        }
        i += 1;
    }
    unwrap_return(result)
}

/// Evaluates a node in the current frame of `env` and returns its value.
/// Calls may nest [`MAX_CALL_DEPTH`] deep; a deeper call is an error.
pub fn eval(node: Node, env: &mut Environment) -> (r: Object)
    requires
        old(env).wf(),
    ensures
        r@ == node_outcome(node@, old(env)@, MAX_CALL_DEPTH as nat).value,
        final(env)@ == node_outcome(node@, old(env)@, MAX_CALL_DEPTH as nat).env,
        final(env).wf(),
        evolves(old(env)@, final(env)@),
        closures_within(r@, final(env)@.frames.len()),
{
    match node {
        Node::Program(p) => eval_program(&p, env, MAX_CALL_DEPTH),
        Node::Statement(s) => eval_statement(&s, env, MAX_CALL_DEPTH),
        Node::Expression(e) => eval_expression(&e, env, MAX_CALL_DEPTH),
        Node::BlockStatement(bs) => eval_block_statement(&bs, env, MAX_CALL_DEPTH),
    }
}

} // verus!
